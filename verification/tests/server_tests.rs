use std::rc::Rc;

use randomi::connection::{Connection, WsAction, WsEvent, CLIENT_TIMEOUT_MS, HEARTBEAT_INTERVAL_MS};
use randomi::card::{BasicCard, Card, Element, Kind, Stars, TargetType};
use randomi::game::GameState;
use randomi::responses::{PlayerProfile, ServerResponse};
use randomi::server::GameServer;

fn basic(id: i32, attack: u32) -> Rc<Card> {
    Rc::new(Card::Basic(BasicCard {
        id,
        name: format!("card{}", id),
        element: Element::Water,
        stars: Stars::Two,
        kind: Kind::Spell,
        desc: String::new(),
        target_type: TargetType::Single,
        attack,
        attack_modifier: None,
        heal: 0,
        heal_modifier: None,
        draw: 0,
        draw_modifier: None,
        buffs: vec![],
    }))
}

fn server(n_cards: i32, attack: u32) -> GameServer {
    let players = vec![PlayerProfile { id: 10, name: String::from("a") }, PlayerProfile { id: 20, name: String::from("b") }];
    let cards = (0..n_cards).map(|i| basic(100 + i, attack)).collect();
    GameServer::new(players, cards, 0)
}

#[test]
fn first_connection_starts_the_game() {
    let mut s = server(30, 10);
    let (conn, out, stop) = s.connect(10, 1000);
    assert!(!stop);
    assert_ne!(conn, 0);
    assert_eq!(s.game.state, GameState::InGame);
    assert_eq!(s.game.current_player_turn_end, 1000 + 90000);
    assert_eq!(s.sessions, vec![(conn, 10)]);
    assert_eq!(s.game.players[0].hand_cards.len(), 5);
    assert_eq!(s.game.players[1].hand_cards.len(), 5);
    // no one to tell that someone joined; the player gets the game's state
    assert_eq!(out.len(), 1);
    assert_eq!(out[0].conn, conn);
    match &out[0].response {
        ServerResponse::GameStatus { current_player_turn, health, cards, cards_in_pile, opponents, .. } => {
            assert_eq!(*current_player_turn, 10);
            assert_eq!(*health, 100);
            assert_eq!(cards.len(), 5);
            assert_eq!(*cards_in_pile, 20);
            assert_eq!(opponents.len(), 1);
        },
        other => panic!("unexpected response {:?}", other),
    }
}

#[test]
fn later_connections_are_announced_and_get_the_state() {
    let mut s = server(30, 10);
    let (c1, _, _) = s.connect(10, 0);
    let (c2, out, stop) = s.connect(20, 0);
    assert!(!stop);
    assert_ne!(c1, c2);
    assert_eq!(s.sessions, vec![(c1, 10), (c2, 20)]);
    assert_eq!(out.len(), 2);
    assert_eq!(out[0].conn, c1);
    assert!(matches!(&out[0].response, ServerResponse::Message { message } if message == "Someone joined"));
    assert_eq!(out[1].conn, c2);
    assert!(matches!(&out[1].response, ServerResponse::GameStatus { current_player_turn: 10, .. }));
}

#[test]
fn reconnecting_replaces_the_old_connection() {
    let mut s = server(30, 10);
    let (c1, _, _) = s.connect(10, 0);
    let (c2, _, _) = s.connect(10, 0);
    assert_ne!(c1, c2);
    assert_eq!(s.sessions, vec![(c2, 10)]);
}

#[test]
fn chat_goes_to_the_other_connections() {
    let mut s = server(30, 10);
    let (c1, _, _) = s.connect(10, 0);
    let (c2, _, _) = s.connect(20, 0);
    let out = s.chat(c1, &String::from("hello"));
    assert_eq!(out.len(), 1);
    assert_eq!(out[0].conn, c2);
    assert!(matches!(&out[0].response, ServerResponse::Message { message } if message == "hello"));
}

#[test]
fn disconnecting_removes_the_session() {
    let mut s = server(30, 10);
    let (c1, _, _) = s.connect(10, 0);
    let (c2, _, _) = s.connect(20, 0);
    s.disconnect(c1);
    assert_eq!(s.sessions, vec![(c2, 20)]);
}

#[test]
fn session_info_lists_the_players() {
    let s = server(3, 1);
    let info = s.session_info();
    assert_eq!(info.len(), 2);
    assert_eq!(info[0].id, 10);
    assert_eq!(info[1].name, "b");
}

#[test]
fn playing_a_card_is_told_to_everyone_and_passes_the_turn() {
    let mut s = server(30, 10);
    let (c1, _, _) = s.connect(10, 0);
    let (c2, _, _) = s.connect(20, 0);
    let card_id = s.game.players[0].hand_cards[0].get_id();
    let (r, out, over) = s.handle_play_card(10, 0, vec![20], 5000);
    let info = r.unwrap();
    assert!(!over);
    assert_eq!(info.actions.len(), 1);
    assert_eq!(s.game.players[1].health, 90);
    assert_eq!(s.game.current_player_turn, 1);
    assert_eq!(s.game.current_player_turn_end, 5000 + 90000 + 250);
    // play and buffs to each connection, then the turn change
    assert!(out.len() >= 6);
    assert_eq!(out[0].conn, c1);
    assert!(matches!(&out[0].response, ServerResponse::PlayCard { player_id: 10, card_id: id, hand_index: 0, actions } if *id == card_id && actions.len() == 1));
    assert!(matches!(&out[1].response, ServerResponse::PlayerBuffStatus { player_id: 10, buffs } if buffs.is_empty()));
    assert_eq!(out[2].conn, c2);
    assert!(matches!(&out[4].response, ServerResponse::ChangeTurn { player_id: 20, .. }));
    assert!(matches!(&out[5].response, ServerResponse::ChangeTurn { player_id: 20, .. }));
}

#[test]
fn a_refused_play_sends_the_state_back() {
    let mut s = server(30, 10);
    let (_c1, _, _) = s.connect(10, 0);
    let (c2, _, _) = s.connect(20, 0);
    let (r, out, over) = s.handle_play_card(20, 0, vec![10], 0);
    assert_eq!(r.unwrap_err(), "Not player's current turn");
    assert!(!over);
    assert_eq!(out.len(), 1);
    assert_eq!(out[0].conn, c2);
    assert!(matches!(&out[0].response, ServerResponse::GameStatus { .. }));
    assert_eq!(s.game.current_player_turn, 0);
}

#[test]
fn the_winning_play_ends_the_game() {
    let mut s = server(30, 10);
    let (c1, _, _) = s.connect(10, 0);
    s.game.players[1].health = 10;
    let (r, out, over) = s.handle_play_card(10, 0, vec![20], 0);
    assert!(r.is_ok());
    assert!(over);
    assert_eq!(s.game.state, GameState::EndGame { winner_id: 10 });
    assert_eq!(out.len(), 3);
    assert_eq!(out[2].conn, c1);
    assert!(matches!(&out[2].response, ServerResponse::GameEnd { winner_id: 10 }));
}

#[test]
fn drawing_is_told_with_the_card_only_to_the_player() {
    let mut s = server(30, 10);
    let (c1, _, _) = s.connect(10, 0);
    let (c2, _, _) = s.connect(20, 0);
    s.game.players[0].hand_cards.pop();
    let next = s.game.pile[0].get_id();
    let (r, out, over) = s.handle_draw_card(10, 0);
    assert_eq!(r, Ok(next));
    assert!(!over);
    assert_eq!(out[0].conn, c1);
    assert!(matches!(&out[0].response, ServerResponse::DrawCard { player_id: 10, card_id } if *card_id == next));
    assert_eq!(out[1].conn, c2);
    assert!(matches!(&out[1].response, ServerResponse::DrawCard { player_id: 10, card_id: -1 }));
    assert_eq!(s.game.current_player_turn, 1);
}

#[test]
fn drawing_with_a_full_hand_is_refused() {
    let mut s = server(30, 10);
    let (c1, _, _) = s.connect(10, 0);
    let (r, out, _) = s.handle_draw_card(10, 0);
    assert_eq!(r.unwrap_err(), "Player can't draw more cards");
    assert_eq!(out.len(), 1);
    assert_eq!(out[0].conn, c1);
}

#[test]
fn missed_turns_pass_on_the_tick() {
    let mut s = server(30, 10);
    let (_c1, _, _) = s.connect(10, 0);
    let (out, over) = s.on_tick(50);
    assert!(out.is_empty());
    assert!(!over);
    assert_eq!(s.game.current_player_turn, 0);
    let (out, over) = s.on_tick(90001);
    assert!(!over);
    assert_eq!(s.game.current_player_turn, 1);
    assert!(matches!(&out[0].response, ServerResponse::ChangeTurn { player_id: 20, turn_end: 180001 }));
}

#[test]
fn the_next_player_draws_up_to_five_cards() {
    let mut s = server(30, 10);
    let (_c1, _, _) = s.connect(10, 0);
    s.game.players[1].hand_cards.truncate(2);
    let (out, _) = s.advance_turn(0);
    assert_eq!(s.game.players[1].hand_cards.len(), 5);
    let draws = out.iter().filter(|o| matches!(o.response, ServerResponse::DrawCard { player_id: 20, .. })).count();
    assert_eq!(draws, 3);
}

#[test]
fn discards_are_collected_when_the_pile_runs_short() {
    let mut s = server(10, 10);
    let (_c1, _, _) = s.connect(10, 0);
    assert!(s.game.pile.is_empty());
    let card = s.game.players[1].hand_cards.pop().unwrap();
    s.game.players[0].discard_cards.push(card);
    let (out, _) = s.advance_turn(0);
    assert!(out.iter().any(|o| matches!(o.response, ServerResponse::CollectDiscardCards { cards_in_pile: 1 })));
    assert_eq!(s.game.players[1].hand_cards.len(), 5);
    assert!(s.game.pile.is_empty());
}


#[test]
fn connection_heartbeats_and_timeout() {
    assert_eq!((HEARTBEAT_INTERVAL_MS, CLIENT_TIMEOUT_MS), (5000, 10000));
    let mut c = Connection::new(0);
    assert!(matches!(c.step(WsEvent::Tick, 5000), WsAction::Ping));
    assert!(matches!(c.step(WsEvent::Ping, 6000), WsAction::Pong));
    assert_eq!(c.last_heartbeat_ms, 6000);
    assert!(matches!(c.step(WsEvent::Tick, 16000), WsAction::Ping));
    assert!(matches!(c.step(WsEvent::Tick, 16001), WsAction::Close));
    assert!(matches!(c.step(WsEvent::Pong, 16002), WsAction::Nothing));
    assert_eq!(c.last_heartbeat_ms, 16002);
}

#[test]
fn connection_passes_texts_on() {
    let mut c = Connection::new(0);
    match c.step(WsEvent::Text(String::from("{\"type\":\"DrawCard\"}")), 1) {
        WsAction::Handle(t) => assert_eq!(t, "{\"type\":\"DrawCard\"}"),
        other => panic!("unexpected action {:?}", other),
    }
    match c.step(WsEvent::ServerMessage(String::from("hello")), 2) {
        WsAction::Forward(t) => assert_eq!(t, "hello"),
        other => panic!("unexpected action {:?}", other),
    }
    assert!(matches!(c.step(WsEvent::Binary, 3), WsAction::WarnBinary));
    assert!(matches!(c.step(WsEvent::Close, 4), WsAction::CloseWithReason));
    assert!(matches!(c.step(WsEvent::StreamEnd, 5), WsAction::Close));
    assert!(matches!(c.step(WsEvent::StreamError, 6), WsAction::Close));
    assert_eq!(c.last_heartbeat_ms, 0);
}

#[test]
fn turns_can_pass_only_when_the_next_hand_can_be_filled() {
    let mut s = server(10, 10);
    let (_c1, _, _) = s.connect(10, 0);
    assert!(s.game.pile.is_empty());
    assert!(s.can_advance_now(0));
    s.game.players[1].hand_cards.truncate(3);
    assert!(!s.can_advance_now(0));
    let card = s.game.players[0].hand_cards.pop().unwrap();
    s.game.players[0].discard_cards.push(card);
    assert!(!s.can_advance_now(0));
    let card = s.game.players[0].hand_cards.pop().unwrap();
    s.game.players[0].discard_cards.push(card);
    assert!(s.can_advance_now(0));
    assert!(!s.can_advance_now(i64::MAX));
}

#[test]
fn draws_are_checked_before_they_are_made() {
    let mut s = server(30, 10);
    let (_c1, _, _) = s.connect(10, 0);
    // a full hand or a stranger is refused, so the turn does not pass
    assert!(s.can_draw_now(10, 0));
    assert!(s.can_draw_now(10, i64::MAX));
    assert!(s.can_draw_now(99, i64::MAX));
    s.game.players[0].hand_cards.pop();
    assert!(s.can_draw_now(10, 0));
    assert!(!s.can_draw_now(10, i64::MAX));
}

#[test]
fn a_stranger_cannot_play_and_nothing_changes() {
    let mut s = server(30, 10);
    let (_c1, _, _) = s.connect(10, 0);
    let before = s.game.players[0].hand_cards.len();
    let (r, out, over) = s.handle_play_card(99, 0, vec![20], 0);
    assert_eq!(r.unwrap_err(), "Not player's current turn");
    assert!(out.is_empty());
    assert!(!over);
    assert_eq!(s.game.current_player_turn, 0);
    assert_eq!(s.game.players[0].hand_cards.len(), before);
    assert_eq!(s.game.pile.len(), 20);
}

#[test]
fn a_stranger_cannot_draw_and_nothing_changes() {
    let mut s = server(30, 10);
    let (_c1, _, _) = s.connect(10, 0);
    let (r, out, over) = s.handle_draw_card(99, 0);
    assert_eq!(r.unwrap_err(), "Player not found");
    assert!(out.is_empty());
    assert!(!over);
    assert_eq!(s.game.pile.len(), 20);
    assert!(s.game_state_message(99).is_none());
}

#[test]
fn a_stranger_connecting_to_a_finished_game_is_let_go() {
    let mut s = server(30, 10);
    let (c1, _, _) = s.connect(10, 0);
    s.game.state = GameState::EndGame { winner_id: 10 };
    let (_c, _, stop) = s.connect(99, 0);
    assert!(stop);
    assert_eq!(s.sessions, vec![(c1, 10)]);
}
