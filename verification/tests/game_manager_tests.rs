use randomi::game_manager::{ClientMessage, GameServer, ServerMessage};

fn s(x: &str) -> String {
    String::from(x)
}

#[test]
fn connecting_twice_keeps_one_session() {
    let mut server = GameServer::new();
    server.connect(s("a"));
    server.connect(s("a"));
    server.connect(s("b"));
    assert_eq!(server.sessions, vec![s("a"), s("b")]);
}

#[test]
fn creating_a_room_answers_its_id() {
    let mut server = GameServer::new();
    server.connect(s("a"));
    let out = server.handle(s("a"), ClientMessage::CreateRoom { name: s("room") });
    assert_eq!(server.rooms.len(), 1);
    assert_eq!(server.rooms[0].1, vec![s("a")]);
    assert_eq!(out.len(), 1);
    assert_eq!(out[0].session, "a");
    match &out[0].message {
        ServerMessage::RoomCreated { room_id } => {
            assert_eq!(room_id, &server.rooms[0].0);
            assert_eq!(room_id.len(), 36);
        },
        other => panic!("unexpected message {:?}", other),
    }
}

#[test]
fn joining_tells_every_member() {
    let mut server = GameServer::new();
    server.connect(s("a"));
    server.connect(s("b"));
    server.handle(s("a"), ClientMessage::CreateRoom { name: s("room") });
    let room_id = server.rooms[0].0.clone();
    let out = server.handle(s("b"), ClientMessage::JoinRoom { room_id: room_id.clone() });
    assert_eq!(server.rooms[0].1, vec![s("a"), s("b")]);
    assert_eq!(out.len(), 2);
    assert_eq!(out[0].session, "a");
    assert_eq!(out[1].session, "b");
    match &out[1].message {
        ServerMessage::JoinedRoom { room_id: r, players } => {
            assert_eq!(r, &room_id);
            assert_eq!(players, &vec![s("a"), s("b")]);
        },
        other => panic!("unexpected message {:?}", other),
    }
}

#[test]
fn joining_an_unknown_room_is_an_error() {
    let mut server = GameServer::new();
    server.connect(s("a"));
    let out = server.handle(s("a"), ClientMessage::JoinRoom { room_id: s("nope") });
    assert_eq!(out.len(), 1);
    match &out[0].message {
        ServerMessage::Error { msg } => assert_eq!(msg, "Room not found"),
        other => panic!("unexpected message {:?}", other),
    }
}

#[test]
fn starting_a_game_deals_five_cards_to_each_member() {
    let mut server = GameServer::new();
    server.connect(s("a"));
    server.connect(s("b"));
    server.handle(s("a"), ClientMessage::CreateRoom { name: s("room") });
    let room_id = server.rooms[0].0.clone();
    server.handle(s("b"), ClientMessage::JoinRoom { room_id });
    let out = server.handle(s("a"), ClientMessage::StartGame);
    assert_eq!(out.len(), 2);
    for d in out.iter() {
        match &d.message {
            ServerMessage::GameStarted { your_hand, turn } => {
                assert_eq!(your_hand.len(), 5);
                assert!(your_hand.iter().all(|&c| (1..=100).contains(&c)));
                assert_eq!(*turn, 0);
            },
            other => panic!("unexpected message {:?}", other),
        }
    }
}

#[test]
fn plays_and_draws_are_told_to_the_room() {
    let mut server = GameServer::new();
    server.connect(s("a"));
    server.handle(s("a"), ClientMessage::CreateRoom { name: s("room") });
    let out = server.handle(s("a"), ClientMessage::PlayCard { card_id: 42 });
    assert_eq!(out.len(), 1);
    assert!(matches!(&out[0].message, ServerMessage::CardPlayed { player, card_id: 42 } if player == "a"));
    let out = server.handle(s("a"), ClientMessage::DrawCard);
    match &out[0].message {
        ServerMessage::CardDrawn { player, card_id } => {
            assert_eq!(player, "a");
            assert!((1..=100).contains(card_id));
        },
        other => panic!("unexpected message {:?}", other),
    }
    let out = server.handle(s("z"), ClientMessage::PlayCard { card_id: 1 });
    assert!(out.is_empty());
}

#[test]
fn disconnecting_leaves_every_room() {
    let mut server = GameServer::new();
    server.connect(s("a"));
    server.connect(s("b"));
    server.handle(s("a"), ClientMessage::CreateRoom { name: s("room") });
    let room_id = server.rooms[0].0.clone();
    server.handle(s("b"), ClientMessage::JoinRoom { room_id });
    server.disconnect(&s("a"));
    assert_eq!(server.sessions, vec![s("b")]);
    assert_eq!(server.rooms[0].1, vec![s("b")]);
}
