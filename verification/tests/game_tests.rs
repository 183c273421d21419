use std::rc::Rc;

use randomi::card::{BasicCard, Card, Element, Kind, Stars, TargetType};
use randomi::game::{Game, GameState, Order};
use randomi::play_info::ActionType;
use randomi::responses::PlayerProfile;

fn basic(id: i32, attack: u32, heal: u32, draw: u32, target_type: TargetType) -> Rc<Card> {
    Rc::new(Card::Basic(BasicCard {
        id,
        name: format!("card{}", id),
        element: Element::Fire,
        stars: Stars::One,
        kind: Kind::Weapon,
        desc: String::new(),
        target_type,
        attack,
        attack_modifier: None,
        heal,
        heal_modifier: None,
        draw,
        draw_modifier: None,
        buffs: vec![],
    }))
}

fn profiles(ids: &[i32]) -> Vec<PlayerProfile> {
    ids.iter().map(|&id| PlayerProfile { id, name: format!("player{}", id) }).collect()
}

fn game(ids: &[i32], pile: Vec<Rc<Card>>) -> Game {
    Game::new(&profiles(ids), pile, 0)
}

fn attack_pile(n: i32, attack: u32) -> Vec<Rc<Card>> {
    (0..n).map(|i| basic(100 + i, attack, 0, 0, TargetType::Single)).collect()
}

#[test]
fn new_game_has_players_with_full_health() {
    let g = game(&[10, 20], attack_pile(3, 1));
    assert_eq!(g.players.len(), 2);
    assert_eq!(g.players[0].id, 10);
    assert_eq!(g.players[1].id, 20);
    assert_eq!(g.players[0].health, 100);
    assert!(g.players[0].hand_cards.is_empty());
    assert_eq!(g.pile.len(), 3);
    assert_eq!(g.current_player_turn, 0);
    assert_eq!(g.state, GameState::PreGame);
    assert_eq!(g.turn_order, Order::Forward);
    assert_eq!(g.player_profiles.len(), 2);
}

#[test]
fn basic_attack_hits_the_target() {
    let mut g = game(&[10, 20], vec![]);
    let card = basic(1, 10, 0, 0, TargetType::Single);
    let (info, used) = card.play_with_rolls(0, vec![1], &mut g, &vec![3]).unwrap();
    assert!(used.is_empty());
    assert_eq!(g.players[1].health, 90);
    assert_eq!(g.players[0].health, 100);
    assert_eq!(info.actions.len(), 1);
    let action = &info.actions[0];
    assert_eq!(action.dice_roll, 0);
    assert_eq!(action.player_dice_id, -1);
    assert_eq!(action.targets.len(), 1);
    assert_eq!(action.targets[0].player_id, 20);
    assert!(matches!(action.targets[0].action, ActionType::Attack { amount: 10 }));
    assert_eq!(action.targets[0].effect, "damage_fire_regular");
}

#[test]
fn damage_stops_at_zero_health() {
    let mut g = game(&[10, 20], vec![]);
    g.players[1].health = 5;
    let card = basic(1, 10, 0, 0, TargetType::Single);
    let (info, _) = card.play_with_rolls(0, vec![1], &mut g, &vec![1]).unwrap();
    assert_eq!(g.players[1].health, 0);
    assert!(matches!(info.actions[0].targets[0].action, ActionType::Attack { amount: 10 }));
}

#[test]
fn attacking_oneself_is_refused() {
    let mut g = game(&[10, 20], vec![]);
    let card = basic(1, 10, 0, 0, TargetType::Single);
    let r = card.play_with_rolls(0, vec![0], &mut g, &vec![2]);
    assert_eq!(r.unwrap_err(), "Target is player !");
    assert_eq!(g.players[0].health, 100);
}

#[test]
fn heal_only_card_takes_no_target() {
    let mut g = game(&[10, 20], vec![]);
    g.players[0].health = 80;
    let card = basic(1, 0, 15, 0, TargetType::Single);
    let (info, _) = card.play_with_rolls(0, vec![], &mut g, &vec![4]).unwrap();
    assert_eq!(g.players[0].health, 95);
    assert_eq!(info.actions.len(), 1);
    assert_eq!(info.actions[0].targets[0].player_id, 10);
    assert!(matches!(info.actions[0].targets[0].action, ActionType::Heal { amount: 15 }));
    assert_eq!(info.actions[0].targets[0].effect, "heal_regular");

    let r = card.play_with_rolls(0, vec![1], &mut g, &vec![4]);
    assert_eq!(r.unwrap_err(), "Invalid target count");
}

#[test]
fn heal_never_goes_above_max_health() {
    let mut g = game(&[10, 20], vec![]);
    g.players[0].health = 95;
    let card = basic(1, 0, 15, 0, TargetType::Single);
    let (info, _) = card.play_with_rolls(0, vec![], &mut g, &vec![4]).unwrap();
    assert_eq!(g.players[0].health, 100);
    assert!(matches!(info.actions[0].targets[0].action, ActionType::Heal { amount: 15 }));
}

#[test]
fn draw_card_takes_the_first_cards_of_the_pile() {
    let pile = vec![basic(101, 1, 0, 0, TargetType::Single), basic(102, 1, 0, 0, TargetType::Single), basic(103, 1, 0, 0, TargetType::Single)];
    let mut g = game(&[10, 20], pile);
    let card = basic(1, 0, 0, 2, TargetType::Single);
    let (info, _) = card.play_with_rolls(0, vec![1], &mut g, &vec![5]).unwrap();
    let hand: Vec<i32> = g.players[0].hand_cards.iter().map(|c| c.get_id()).collect();
    assert_eq!(hand, vec![101, 102]);
    assert_eq!(g.pile.len(), 1);
    assert_eq!(g.pile[0].get_id(), 103);
    assert_eq!(info.actions.len(), 1);
    assert_eq!(info.actions[0].targets[0].player_id, 10);
    match &info.actions[0].targets[0].action {
        ActionType::Draw { cards } => assert_eq!(cards, &vec![101, 102]),
        other => panic!("unexpected action {:?}", other),
    }
}

#[test]
fn drawing_from_a_short_pile_takes_what_is_left() {
    let pile = vec![basic(101, 1, 0, 0, TargetType::Single)];
    let mut g = game(&[10, 20], pile);
    let card = basic(1, 0, 0, 3, TargetType::Single);
    let (info, _) = card.play_with_rolls(0, vec![1], &mut g, &vec![5]).unwrap();
    assert_eq!(g.players[0].hand_cards.len(), 1);
    assert!(g.pile.is_empty());
    match &info.actions[0].targets[0].action {
        ActionType::Draw { cards } => assert_eq!(cards, &vec![101]),
        other => panic!("unexpected action {:?}", other),
    }
}

#[test]
fn multiple_targets_are_each_attacked() {
    let mut g = game(&[10, 20, 30], vec![]);
    let card = basic(1, 5, 0, 0, TargetType::Multiple { max: 2 });
    let (info, _) = card.play_with_rolls(0, vec![1, 2], &mut g, &vec![2]).unwrap();
    assert_eq!(g.players[1].health, 95);
    assert_eq!(g.players[2].health, 95);
    assert_eq!(info.actions.len(), 2);
    assert_eq!(info.actions[0].targets[0].player_id, 20);
    assert_eq!(info.actions[1].targets[0].player_id, 30);
}

#[test]
fn too_many_targets_are_refused() {
    let mut g = game(&[10, 20, 30, 40], vec![]);
    let card = basic(1, 5, 0, 0, TargetType::Multiple { max: 2 });
    let r = card.play_with_rolls(0, vec![1, 2, 3], &mut g, &vec![2]);
    assert_eq!(r.unwrap_err(), "Invalid target count");
    assert_eq!(g.players[1].health, 100);
}

#[test]
fn card_for_all_attacks_every_other_player() {
    let mut g = game(&[10, 20, 30], vec![]);
    let card = basic(1, 4, 0, 0, TargetType::All);
    let (info, _) = card.play_with_rolls(1, vec![], &mut g, &vec![2]).unwrap();
    assert_eq!(g.players[0].health, 96);
    assert_eq!(g.players[1].health, 100);
    assert_eq!(g.players[2].health, 96);
    assert_eq!(info.actions.len(), 2);
}

#[test]
fn begin_deals_the_first_hands() {
    let mut g = game(&[10, 20], attack_pile(12, 1));
    g.begin(1000);
    assert_eq!(g.players[0].hand_cards.len(), 5);
    assert_eq!(g.players[1].hand_cards.len(), 5);
    assert_eq!(g.pile.len(), 2);
    assert_eq!(g.state, GameState::InGame);
    assert_eq!(g.current_player_turn_end, 1000 + 90000);
    let mut ids: Vec<i32> = g.players.iter().flat_map(|p| p.hand_cards.iter().map(|c| c.get_id())).collect();
    ids.extend(g.pile.iter().map(|c| c.get_id()));
    ids.sort();
    assert_eq!(ids, (100..112).collect::<Vec<i32>>());
}

#[test]
fn play_card_checks_the_turn_targets_and_hand() {
    let mut g = game(&[10, 20], attack_pile(12, 10));
    g.begin(0);
    assert_eq!(g.play_card(20, 0, vec![10]).unwrap_err(), "Not player's current turn");
    assert_eq!(g.play_card(10, 0, vec![10]).unwrap_err(), "Invalid target ID");
    assert_eq!(g.play_card(10, 0, vec![99]).unwrap_err(), "Invalid target ID");
    assert_eq!(g.play_card(10, 7, vec![20]).unwrap_err(), "Card not in hand");
    assert_eq!(g.players[0].hand_cards.len(), 5);
}

#[test]
fn played_card_goes_to_the_discard() {
    let mut g = game(&[10, 20], attack_pile(12, 10));
    g.begin(0);
    let played = g.players[0].hand_cards[0].get_id();
    let info = g.play_card(10, 0, vec![20]).unwrap();
    assert_eq!(info.actions.len(), 1);
    assert_eq!(g.players[0].hand_cards.len(), 4);
    assert_eq!(g.players[0].discard_cards.len(), 1);
    assert_eq!(g.players[0].discard_cards[0].get_id(), played);
    assert_eq!(g.players[1].health, 90);
    assert_eq!(g.estimated_turn_end_offset, 250);
    assert_eq!(g.state, GameState::InGame);
}

#[test]
fn game_ends_when_one_player_is_left() {
    let mut g = game(&[10, 20], attack_pile(12, 10));
    g.begin(0);
    g.players[1].health = 10;
    g.play_card(10, 0, vec![20]).unwrap();
    assert_eq!(g.players[1].health, 0);
    assert_eq!(g.state, GameState::EndGame { winner_id: 10 });
}

#[test]
fn draw_card_errors() {
    let mut g = game(&[10, 20], attack_pile(10, 1));
    g.begin(0);
    assert_eq!(g.draw_card(10).unwrap_err(), "Player can't draw more cards");
    assert_eq!(g.draw_card(99).unwrap_err(), "Player not found");
    let mut empty = game(&[10, 20], vec![]);
    assert_eq!(empty.draw_card(10).unwrap_err(), "Pile is empty");
}

#[test]
fn draw_card_gives_the_first_card_of_the_pile() {
    let pile = vec![basic(101, 1, 0, 0, TargetType::Single), basic(102, 1, 0, 0, TargetType::Single)];
    let mut g = game(&[10, 20], pile);
    assert_eq!(g.draw_card(20), Ok(101));
    assert_eq!(g.players[1].hand_cards.len(), 1);
    assert_eq!(g.pile.len(), 1);
}

#[test]
fn next_player_index_wraps_around() {
    let mut g = game(&[10, 20, 30], vec![]);
    assert_eq!(g.next_player_index(), 1);
    g.current_player_turn = 2;
    assert_eq!(g.next_player_index(), 0);
    g.turn_order = Order::Backward;
    assert_eq!(g.next_player_index(), 1);
    g.current_player_turn = 0;
    assert_eq!(g.next_player_index(), 2);
}

#[test]
fn without_players_the_turn_goes_forward_to_the_first_place() {
    let g = game(&[], vec![]);
    assert_eq!(g.next_player_index(), 0);
}

#[test]
fn advance_turn_starts_the_next_turn() {
    let mut g = game(&[10, 20], vec![]);
    g.estimated_turn_end_offset = 500;
    g.advance_turn(1000);
    assert_eq!(g.current_player_turn, 1);
    assert_eq!(g.current_player_id(), 20);
    assert_eq!(g.current_player_turn_end, 1000 + 90000 + 500);
    assert_eq!(g.estimated_turn_end_offset, 0);
}

#[test]
fn collecting_discards_puts_them_back_in_the_pile() {
    let mut g = game(&[10, 20], vec![]);
    g.players[0].discard_cards.push(basic(1, 1, 0, 0, TargetType::Single));
    g.players[1].discard_cards.push(basic(2, 1, 0, 0, TargetType::Single));
    g.players[1].discard_cards.push(basic(3, 1, 0, 0, TargetType::Single));
    g.collect_discard_cards();
    let ids: Vec<i32> = g.pile.iter().map(|c| c.get_id()).collect();
    assert_eq!(ids, vec![1, 2, 3]);
    assert!(g.players[0].discard_cards.is_empty());
    assert!(g.players[1].discard_cards.is_empty());
}

#[test]
fn status_shows_the_game_as_a_player_sees_it() {
    let mut g = game(&[10, 20, 30], attack_pile(17, 1));
    g.begin(0);
    g.players[2].health = 42;
    let st = g.status_for_player(20).unwrap();
    assert_eq!(st.current_player_turn, 10);
    assert_eq!(st.current_player_turn_end, 90000);
    assert_eq!(st.health, 100);
    assert_eq!(st.cards.len(), 5);
    assert!(st.discard_cards.is_empty());
    assert_eq!(st.cards_in_pile, 2);
    assert_eq!(st.opponents.len(), 2);
    assert_eq!(st.opponents[0].player_id, 10);
    assert_eq!(st.opponents[1].player_id, 30);
    assert_eq!(st.opponents[1].health, 42);
    assert_eq!(st.opponents[1].card_count, 5);
    assert_eq!(g.status_for_player(99).unwrap_err(), "Player not found");
}

#[test]
fn current_player_can_be_changed_in_place() {
    let mut g = game(&[10, 20], vec![]);
    g.current_player_turn = 1;
    g.current_player().health = 7;
    assert_eq!(g.players[1].health, 7);
    assert_eq!(g.players[0].health, 100);
}

fn all_card_ids(g: &Game) -> Vec<i32> {
    let mut ids: Vec<i32> = g.pile.iter().map(|c| c.get_id()).collect();
    for p in g.players.iter() {
        ids.extend(p.hand_cards.iter().map(|c| c.get_id()));
        ids.extend(p.discard_cards.iter().map(|c| c.get_id()));
    }
    ids.sort();
    ids
}

#[test]
fn a_play_moves_cards_but_creates_none() {
    let mut pile = attack_pile(8, 10);
    pile.insert(0, basic(1, 0, 0, 2, TargetType::Single));
    let mut g = game(&[10, 20], pile);
    g.begin(0);
    let before = all_card_ids(&g);
    assert_eq!(before.len(), 9);
    let played = g.players[0].hand_cards[0].get_id();
    g.play_card(10, 0, vec![20]).unwrap();
    assert_eq!(all_card_ids(&g), before);
    assert_eq!(g.players[0].discard_cards[0].get_id(), played);
}
