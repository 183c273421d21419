use std::collections::HashSet;

use randomi::account::{
    check_reset_token, get_account_for_login, login, new_account, reset_token_expiry, Account, FilteredAccount,
    LoginError, PasswordResetToken, ResetPasswordError, RESET_TOKEN_LIFETIME_SECS,
};
use randomi::friends::{
    change_friend_request_status, friend_request_status, get_friend_request_of_account, list_friend_requests_for_account,
    list_friends_for_account, Friend, FRIEND_REQUEST_ACCEPTED, FRIEND_REQUEST_DECLINED, FRIEND_REQUEST_PENDING,
};
use randomi::notifications::{friend_request_message, friend_request_recipient, lobby_recipients, lobby_user_list_message, SseMessage};

fn stored_account(password: &str, suspended: bool) -> Account {
    let (username, email, hash) = new_account(String::from("alice"), String::from("alice@example.com"), password);
    Account { id: 5, username, email, password: hash, premium: false, suspended }
}

#[test]
fn a_registered_password_logs_in() {
    let account = stored_account("hunter2", false);
    assert_ne!(account.password, "hunter2");
    let found = get_account_for_login(Some(account), "hunter2").unwrap();
    assert_eq!(found.id, 5);
    assert_eq!(found.username, "alice");
    assert_eq!(login(Some(found)), Ok(5));
}

#[test]
fn a_wrong_password_does_not_log_in() {
    let account = stored_account("hunter2", false);
    assert!(get_account_for_login(Some(account), "hunter3").is_none());
    assert!(get_account_for_login(None, "hunter2").is_none());
    assert_eq!(login(None), Err(LoginError::NotFound));
    assert_eq!(LoginError::NotFound.message(), "Record not found");
}

#[test]
fn a_suspended_account_does_not_log_in() {
    let account = stored_account("pw", true);
    let found = get_account_for_login(Some(account), "pw").unwrap();
    assert_eq!(login(Some(found)), Err(LoginError::Suspended));
    assert_eq!(LoginError::Suspended.message(), "The account is suspended.");
    let plain = Account {
        id: 6,
        username: String::from("bob"),
        email: String::from("bob@example.com"),
        password: String::from("not a hash"),
        premium: true,
        suspended: true,
    };
    let filtered = FilteredAccount::from_account(plain);
    assert_eq!((filtered.id, filtered.premium, filtered.suspended), (6, true, true));
}

fn token(expires_at: i64, used: bool) -> PasswordResetToken {
    PasswordResetToken { id: 1, account_id: 5, token: String::from("t"), expires_at, used }
}

#[test]
fn reset_tokens_expire_after_thirty_minutes() {
    assert_eq!(reset_token_expiry(1000), 2800);
    assert_eq!(RESET_TOKEN_LIFETIME_SECS, 30 * 60);
}

#[test]
fn reset_token_checks() {
    assert!(matches!(check_reset_token(None, 10), Err(ResetPasswordError::NotFound)));
    assert!(matches!(check_reset_token(Some(token(9, false)), 10), Err(ResetPasswordError::TokenExpired)));
    assert!(matches!(check_reset_token(Some(token(9, true)), 10), Err(ResetPasswordError::TokenExpired)));
    assert!(matches!(check_reset_token(Some(token(10, true)), 10), Err(ResetPasswordError::TokenUsed)));
    let ok = check_reset_token(Some(token(10, false)), 10).unwrap();
    assert_eq!(ok.account_id, 5);
    assert_eq!(ResetPasswordError::TokenExpired.message(), "Token expired");
    assert_eq!(ResetPasswordError::TokenUsed.message(), "Token already used");
    assert_eq!(ResetPasswordError::NotFound.message(), "Token not found");
    assert_eq!(ResetPasswordError::Database(String::from("down")).message(), "Database error: down");
}

fn friend(id: i32, account1: i32, account2: i32, status: i32) -> Friend {
    Friend { id, account1, account2, status }
}

#[test]
fn friend_request_statuses() {
    assert_eq!(friend_request_status(true), FRIEND_REQUEST_ACCEPTED);
    assert_eq!(friend_request_status(false), FRIEND_REQUEST_DECLINED);
    assert_eq!((FRIEND_REQUEST_PENDING, FRIEND_REQUEST_ACCEPTED, FRIEND_REQUEST_DECLINED), (0, 1, 2));
}

#[test]
fn friends_and_requests_of_an_account() {
    let all = vec![friend(1, 1, 2, 1), friend(2, 3, 1, 0), friend(3, 2, 3, 1), friend(4, 1, 4, 2), friend(5, 5, 1, 1)];
    let friends: Vec<i32> = list_friends_for_account(&all, 1).iter().map(|f| f.id).collect();
    assert_eq!(friends, vec![1, 5]);
    let requests: Vec<i32> = list_friend_requests_for_account(&all, 1).iter().map(|f| f.id).collect();
    assert_eq!(requests, vec![2, 4]);
}

#[test]
fn answering_a_pending_request() {
    let all = vec![friend(1, 3, 1, 2), friend(2, 3, 1, 0), friend(3, 3, 1, 0)];
    assert_eq!(get_friend_request_of_account(&all, 1, 3), Some(friend(2, 3, 1, 0)));
    assert_eq!(get_friend_request_of_account(&all, 3, 1), None);
    assert_eq!(change_friend_request_status(&all, 1, 3, true), Some(friend(2, 3, 1, 1)));
    assert_eq!(change_friend_request_status(&all, 1, 3, false), Some(friend(2, 3, 1, 2)));
    assert_eq!(change_friend_request_status(&all, 1, 4, true), None);
}

#[test]
fn only_the_receiver_hears_of_a_friend_request() {
    let f = friend(7, 3, 1, 0);
    assert_eq!(friend_request_recipient(&vec![4, 1, 1], &f), 1);
    assert_eq!(friend_request_recipient(&vec![3, 4], &f), 2);
    match friend_request_message(&f) {
        SseMessage::FriendRequest { request_id, user, status } => assert_eq!((request_id, user, status), (7, 3, 0)),
        other => panic!("unexpected message {:?}", other),
    }
}

#[test]
fn a_lobby_change_reaches_its_other_players() {
    let users: HashSet<i32> = [1, 2, 3].iter().cloned().collect();
    let clients = vec![2, 9, 1, 3, 1];
    assert_eq!(lobby_recipients(&clients, &users, Some(1)), vec![0, 3]);
    assert_eq!(lobby_recipients(&clients, &users, None), vec![0, 2, 3, 4]);
    match lobby_user_list_message(&users) {
        SseMessage::LobbyUserListChange { users: u } => assert_eq!(u, users),
        other => panic!("unexpected message {:?}", other),
    }
}

#[test]
fn empty_registrations_are_refused() {
    assert_eq!(randomi::account::check_new_account("", "", "").unwrap_err(), "Username, email and password must not be empty");
    assert!(randomi::account::check_new_account("a", "", "p").is_err());
    assert!(randomi::account::check_new_account("a", "a@b.c", "p").is_ok());
}

#[test]
fn reset_tokens_are_uuids() {
    let t = randomi::account::new_reset_token();
    assert_eq!(t.len(), 36);
    for (k, c) in t.chars().enumerate() {
        if k == 8 || k == 13 || k == 18 || k == 23 {
            assert_eq!(c, '-');
        } else {
            assert!(c.is_ascii_digit() || ('a'..='f').contains(&c));
        }
    }
    assert_eq!(t.chars().nth(14), Some('4'));
    assert!(matches!(t.chars().nth(19), Some('8' | '9' | 'a' | 'b')));
    assert_ne!(t, randomi::account::new_reset_token());
}
