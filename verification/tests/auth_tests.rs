use randomi::auth::{Claims, JwtMiddlewareService, TOKEN_LIFETIME_SECS};
use randomi::web_types::{new_presence, LimitedString, UserAction};

type Guard = JwtMiddlewareService<()>;

#[test]
fn claims_of_a_new_token() {
    let c = Claims::new(123, 1_000);
    assert_eq!(c.sub, "123");
    assert_eq!(c.user_id, 123);
    assert_eq!(c.exp, 1_000 + TOKEN_LIFETIME_SECS as usize);
    assert_eq!(Claims::new(-45, 0).sub, "-45");
    assert_eq!(Claims::new(0, 0).sub, "0");
}

#[test]
fn login_and_register_need_no_token() {
    assert!(Guard::is_ignored_route("/login"));
    assert!(Guard::is_ignored_route("/register"));
    assert!(Guard::is_ignored_route("/login/extra"));
    assert!(!Guard::is_ignored_route("/account/profile"));
    assert!(!Guard::is_ignored_route("/logi"));
    assert!(!Guard::is_ignored_route(""));
}

#[test]
fn bearer_prefixes_are_removed() {
    assert_eq!(Guard::bearer_token("Bearer abc"), "abc");
    assert_eq!(Guard::bearer_token("Bearer Bearer abc"), "abc");
    assert_eq!(Guard::bearer_token("abc"), "abc");
    assert_eq!(Guard::bearer_token("Bearerabc"), "Bearerabc");
    assert_eq!(Guard::bearer_token(""), "");
}

#[test]
fn token_comes_from_the_header_first() {
    assert_eq!(Guard::request_token(Some(Some("Bearer t1")), Some("t2")), Some(String::from("t1")));
    assert_eq!(Guard::request_token(Some(None), Some("t2")), None);
    assert_eq!(Guard::request_token(None, Some("t2")), Some(String::from("t2")));
    assert_eq!(Guard::request_token(None, None), None);
}

#[test]
fn limited_strings_are_checked_by_byte_length() {
    let ok = LimitedString::<5>::new(String::from("abcde")).unwrap();
    assert_eq!(ok.as_string(), "abcde");
    assert_eq!(LimitedString::<5>::new(String::from("abcdef")).unwrap_err(), 6);
    // "é" takes two bytes
    assert_eq!(LimitedString::<5>::new(String::from("ééé")).unwrap_err(), 6);
    assert!(LimitedString::<0>::new(String::new()).is_ok());
}

#[test]
fn nobody_is_online_at_first() {
    assert!(new_presence().is_empty());
}

#[test]
fn user_actions_carry_their_values() {
    let a = UserAction::PlayCard { card_index: 2, targets: vec![5, 6] };
    match a {
        UserAction::PlayCard { card_index, targets } => {
            assert_eq!(card_index, 2);
            assert_eq!(targets, vec![5, 6]);
        },
        _ => panic!("wrong variant"),
    }
}
