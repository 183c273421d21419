use std::collections::HashSet;

use randomi::lobby::{create_lobby, lobby_page_list, page_count, CreateLobbyInfo, Lobby, LobbyError, LOBBY_ID_LEN, LOBBY_PAGE_SIZE};
use randomi::lobby_id::{generate_lobby_id, lobby_id_chars, random_lobby_id, LOBBY_ID_ATTEMPTS};
use randomi::lobby_store::BackendDb;
use std::cell::Cell;

fn set(xs: &[i32]) -> HashSet<i32> {
    xs.iter().cloned().collect()
}

fn conflict(e: LobbyError) -> String {
    match e {
        LobbyError::Conflict(m) => m,
        other => panic!("unexpected error {:?}", other),
    }
}

#[test]
fn creating_a_lobby_puts_its_creator_in_it() {
    let lobby = create_lobby(String::from("ABC1234"), 7, &CreateLobbyInfo { unlisted: true }, false).unwrap();
    assert_eq!(lobby.id, "ABC1234");
    assert_eq!(lobby.users, set(&[7]));
    assert!(lobby.users_ready.is_empty());
    assert!(lobby.unlisted);
    assert_eq!(lobby.game_id, None);
}

#[test]
fn a_player_already_in_a_lobby_cannot_create_one() {
    let r = create_lobby(String::from("ABC1234"), 7, &CreateLobbyInfo { unlisted: false }, true);
    assert_eq!(conflict(r.unwrap_err()), "User is already in a lobby !");
}

#[test]
fn joining_adds_the_player() {
    let mut lobby = Lobby::new(String::from("L"), false);
    lobby.join(1, false).unwrap();
    lobby.join(2, false).unwrap();
    assert_eq!(lobby.users, set(&[1, 2]));
}

#[test]
fn joining_errors() {
    let mut lobby = Lobby::new(String::from("L"), false);
    assert_eq!(conflict(lobby.join(1, true).unwrap_err()), "User is already in a lobby !");
    for id in 0..6 {
        lobby.join(id, false).unwrap();
    }
    match lobby.join(99, false).unwrap_err() {
        LobbyError::BadRequest(m) => assert_eq!(m, "Lobby is full !"),
        other => panic!("unexpected error {:?}", other),
    }
    assert_eq!(lobby.users.len(), 6);
}

#[test]
fn leaving_removes_the_player_and_its_ready_state() {
    let mut lobby = Lobby::new(String::from("L"), false);
    lobby.join(1, false).unwrap();
    lobby.join(2, false).unwrap();
    lobby.update_user_ready_state(1, true).unwrap();
    assert_eq!(lobby.leave(1).unwrap(), false);
    assert_eq!(lobby.users, set(&[2]));
    assert!(lobby.users_ready.is_empty());
    assert_eq!(lobby.leave(2).unwrap(), true);
}

#[test]
fn nobody_leaves_once_everyone_is_ready() {
    let mut lobby = Lobby::new(String::from("L"), false);
    lobby.join(1, false).unwrap();
    lobby.join(2, false).unwrap();
    lobby.update_user_ready_state(1, true).unwrap();
    lobby.update_user_ready_state(2, true).unwrap();
    assert!(lobby.all_users_ready());
    assert_eq!(conflict(lobby.leave(1).unwrap_err()), "Can't leave because all users are ready !");
    assert_eq!(conflict(lobby.update_user_ready_state(1, false).unwrap_err()), "Can't update because all users are ready !");
    assert_eq!(lobby.users, set(&[1, 2]));
}

#[test]
fn ready_state_cannot_change_once_the_game_started() {
    let mut lobby = Lobby::new(String::from("L"), false);
    lobby.join(1, false).unwrap();
    lobby.game_id = Some(5);
    assert_eq!(conflict(lobby.update_user_ready_state(1, true).unwrap_err()), "Can't update because a game has already started !");
}

#[test]
fn ready_and_not_ready() {
    let mut lobby = Lobby::new(String::from("L"), false);
    lobby.join(1, false).unwrap();
    lobby.join(2, false).unwrap();
    assert!(!lobby.all_users_ready());
    lobby.update_user_ready_state(2, true).unwrap();
    assert_eq!(lobby.users_ready, set(&[2]));
    lobby.update_user_ready_state(2, false).unwrap();
    assert!(lobby.users_ready.is_empty());
}

#[test]
fn page_count_rounds_up() {
    assert_eq!(page_count(0), 0);
    assert_eq!(page_count(1), 1);
    assert_eq!(page_count(LOBBY_PAGE_SIZE as u64), 1);
    assert_eq!(page_count(LOBBY_PAGE_SIZE as u64 + 1), 2);
    assert_eq!(page_count(45), 3);
}

#[test]
fn page_list_summarizes_the_lobbies() {
    let mut a = Lobby::new(String::from("A"), false);
    a.join(1, false).unwrap();
    let mut b = Lobby::new(String::from("B"), false);
    b.game_id = Some(3);
    let page = lobby_page_list(&vec![a, b], 2, 41);
    assert_eq!(page.page, 2);
    assert_eq!(page.page_count, 3);
    assert_eq!(page.entries.len(), 2);
    assert_eq!(page.entries[0].id, "A");
    assert_eq!(page.entries[0].users, set(&[1]));
    assert!(!page.entries[0].ingame);
    assert!(page.entries[1].ingame);
}

fn is_lobby_char(c: char) -> bool {
    (c.is_ascii_uppercase() && c != 'O') || c.is_ascii_digit()
}

#[test]
fn lobby_id_characters() {
    let chars = lobby_id_chars();
    assert_eq!(chars.len(), 35);
    assert!(chars.iter().all(|&c| is_lobby_char(c)));
    assert!(!chars.contains(&'O'));
    assert_eq!(chars[0], 'A');
    assert_eq!(chars[34], '9');
}

#[test]
fn random_lobby_ids_are_well_formed() {
    for _ in 0..20 {
        let id = random_lobby_id();
        assert_eq!(id.chars().count(), LOBBY_ID_LEN);
        assert!(id.chars().all(is_lobby_char));
    }
}

#[test]
fn generated_lobby_id_is_free() {
    let calls = Cell::new(0);
    let id = generate_lobby_id(|_id: &String| {
        calls.set(calls.get() + 1);
        Some(calls.get() < 3)
    })
    .unwrap();
    assert_eq!(calls.get(), 3);
    assert_eq!(id.len(), LOBBY_ID_LEN);
}

#[test]
fn lobby_id_generation_gives_up() {
    let calls = Cell::new(0);
    let r = generate_lobby_id(|_id: &String| {
        calls.set(calls.get() + 1);
        Some(true)
    });
    assert_eq!(r.unwrap_err(), "Unable to generate new lobby id !");
    assert_eq!(calls.get(), LOBBY_ID_ATTEMPTS);
    let r = generate_lobby_id(|_id: &String| None);
    assert_eq!(r.unwrap_err(), "Could not check existing lobbies");
}

fn lobby_users(db: &BackendDb) -> Vec<(String, Vec<i32>)> {
    db.lobbies()
        .iter()
        .map(|l| {
            let mut users: Vec<i32> = l.users.iter().cloned().collect();
            users.sort();
            (l.id.clone(), users)
        })
        .collect()
}

#[test]
fn store_creates_lobbies_with_fresh_ids() {
    let mut db = BackendDb::new();
    let a = db.create_lobby(1, &CreateLobbyInfo { unlisted: false }).unwrap();
    let b = db.create_lobby(2, &CreateLobbyInfo { unlisted: true }).unwrap();
    assert_eq!(a.id.chars().count(), LOBBY_ID_LEN);
    assert!(a.id.chars().all(is_lobby_char));
    assert_ne!(a.id, b.id);
    assert_eq!(a.users, set(&[1]));
    assert!(b.unlisted);
    assert_eq!(db.lobbies().len(), 2);
    assert_eq!(db.get_lobby_for_user(2).unwrap().id, b.id);
    assert!(db.get_lobby_for_user(3).is_none());
    assert_eq!(db.find_lobby(&a.id).unwrap().users, set(&[1]));
    assert_eq!(conflict(db.create_lobby(1, &CreateLobbyInfo { unlisted: false }).unwrap_err()), "User is already in a lobby !");
    assert_eq!(db.lobbies().len(), 2);
}

#[test]
fn store_join_errors() {
    let mut db = BackendDb::new();
    let a = db.create_lobby(1, &CreateLobbyInfo { unlisted: false }).unwrap();
    let b = db.create_lobby(2, &CreateLobbyInfo { unlisted: false }).unwrap();
    assert_eq!(conflict(db.join_lobby(&b.id, 1).unwrap_err()), "User is already in a lobby !");
    match db.join_lobby(&String::from("ZZZZZZZ"), 9).unwrap_err() {
        LobbyError::NotFound(m) => assert_eq!(m, "Lobby doesn't exist !"),
        other => panic!("unexpected error {:?}", other),
    }
    for id in 10..15 {
        db.join_lobby(&a.id, id).unwrap();
    }
    match db.join_lobby(&a.id, 99).unwrap_err() {
        LobbyError::BadRequest(m) => assert_eq!(m, "Lobby is full !"),
        other => panic!("unexpected error {:?}", other),
    }
    assert_eq!(db.find_lobby(&a.id).unwrap().users.len(), 6);
    assert_eq!(db.get_lobby_for_user(12).unwrap().id, a.id);
}

#[test]
fn store_join_then_leave_gives_back_the_store() {
    let mut db = BackendDb::new();
    let a = db.create_lobby(1, &CreateLobbyInfo { unlisted: false }).unwrap();
    db.create_lobby(2, &CreateLobbyInfo { unlisted: false }).unwrap();
    let before = lobby_users(&db);
    let joined = db.join_lobby(&a.id, 3).unwrap();
    assert_eq!(joined.users, set(&[1, 3]));
    assert_eq!(db.get_lobby_for_user(3).unwrap().id, a.id);
    let left = db.leave_lobby(3).unwrap();
    assert_eq!(left.users, set(&[1]));
    assert_eq!(lobby_users(&db), before);
    assert!(db.get_lobby_for_user(3).is_none());
}

#[test]
fn store_create_then_leave_removes_the_lobby() {
    let mut db = BackendDb::new();
    db.create_lobby(1, &CreateLobbyInfo { unlisted: false }).unwrap();
    let before = lobby_users(&db);
    db.create_lobby(2, &CreateLobbyInfo { unlisted: false }).unwrap();
    let left = db.leave_lobby(2).unwrap();
    assert!(left.users.is_empty());
    assert_eq!(lobby_users(&db), before);
    match db.leave_lobby(2).unwrap_err() {
        LobbyError::NotFound(m) => assert_eq!(m, "User is not in a lobby !"),
        other => panic!("unexpected error {:?}", other),
    }
}

#[test]
fn store_ready_states() {
    let mut db = BackendDb::new();
    let a = db.create_lobby(1, &CreateLobbyInfo { unlisted: false }).unwrap();
    db.join_lobby(&a.id, 2).unwrap();
    match db.update_user_ready_state(7, true).unwrap_err() {
        LobbyError::NotFound(m) => assert_eq!(m, "User is not in a lobby !"),
        other => panic!("unexpected error {:?}", other),
    }
    let l = db.update_user_ready_state(1, true).unwrap();
    assert_eq!(l.users_ready, set(&[1]));
    let l = db.update_user_ready_state(1, false).unwrap();
    assert!(l.users_ready.is_empty());
    db.update_user_ready_state(1, true).unwrap();
    let l = db.update_user_ready_state(2, true).unwrap();
    assert!(l.all_users_ready());
    assert_eq!(conflict(db.leave_lobby(1).unwrap_err()), "Can't leave because all users are ready !");
    assert_eq!(conflict(db.update_user_ready_state(2, false).unwrap_err()), "Can't update because all users are ready !");
    db.set_game_id(&a.id, 42);
    assert_eq!(db.find_lobby(&a.id).unwrap().game_id, Some(42));
    db.reset_users_ready_on_game_end(42);
    assert!(db.find_lobby(&a.id).unwrap().users_ready.is_empty());
    assert_eq!(conflict(db.update_user_ready_state(2, true).unwrap_err()), "Can't update because a game has already started !");
}

#[test]
fn store_lists_the_listed_lobbies_by_page() {
    let mut db = BackendDb::new();
    let hidden = db.create_lobby(1000, &CreateLobbyInfo { unlisted: true }).unwrap();
    let mut ids: Vec<String> = Vec::new();
    for user in 0..25 {
        ids.push(db.create_lobby(user, &CreateLobbyInfo { unlisted: false }).unwrap().id);
    }
    let first = db.paginate_lobby_list(0);
    assert_eq!(first.page, 0);
    assert_eq!(first.page_count, 2);
    assert_eq!(first.entries.len(), LOBBY_PAGE_SIZE);
    assert_eq!(first.entries[0].id, ids[0]);
    assert!(first.entries.iter().all(|e| e.id != hidden.id));
    let second = db.paginate_lobby_list(1);
    let second_ids: Vec<String> = second.entries.iter().map(|e| e.id.clone()).collect();
    assert_eq!(second_ids, ids[20..].to_vec());
    assert!(db.paginate_lobby_list(2).entries.is_empty());
    assert_eq!(BackendDb::new().paginate_lobby_list(0).page_count, 0);
}
