use std::rc::Rc;

use randomi::card::{
    BasicCard, Card, ComplexEffectCard, Element, Kind, MultiActionCard, MultiHitCard, PearthCard, PlayersRollsDiceCard,
    Stars, TargetType,
};
use randomi::card_info::{BasicCardData, CardInfo, CardVariant, make_card_database};
use randomi::exchange_card::ComplexEffect;
use randomi::game::Game;
use randomi::play_info::ActionType;
use randomi::responses::PlayerProfile;
use randomi::special_cards::PlayersRollsDiceCardAction;

fn basic_named(id: i32, name: &str, attack: u32) -> BasicCard {
    BasicCard {
        id,
        name: String::from(name),
        element: Element::Air,
        stars: Stars::Three,
        kind: Kind::Spell,
        desc: String::new(),
        target_type: TargetType::Single,
        attack,
        attack_modifier: None,
        heal: 0,
        heal_modifier: None,
        draw: 0,
        draw_modifier: None,
        buffs: vec![],
    }
}

fn card(id: i32) -> Rc<Card> {
    Rc::new(Card::Basic(basic_named(id, "plain", 1)))
}

fn game(ids: &[i32], pile: Vec<Rc<Card>>) -> Game {
    let profiles: Vec<PlayerProfile> = ids.iter().map(|&id| PlayerProfile { id, name: format!("p{}", id) }).collect();
    Game::new(&profiles, pile, 0)
}

#[test]
fn multi_hit_card_hits_the_target_once_per_attack() {
    let mut g = game(&[10, 20], vec![]);
    let c = Card::MultiHit(MultiHitCard {
        id: 1,
        name: String::from("multi"),
        element: Element::Earth,
        stars: Stars::One,
        kind: Kind::Weapon,
        desc: String::new(),
        attacks: vec![2, 3],
        heal: 0,
        heal_modifier: None,
        draw: 0,
        draw_modifier: None,
        buffs: vec![],
    });
    let (info, _) = c.play_with_rolls(0, vec![1], &mut g, &vec![1]).unwrap();
    assert_eq!(g.players[1].health, 95);
    assert_eq!(info.actions.len(), 1);
    assert_eq!(info.actions[0].targets.len(), 2);
    assert!(matches!(info.actions[0].targets[0].action, ActionType::Attack { amount: 2 }));
    assert!(matches!(info.actions[0].targets[1].action, ActionType::Attack { amount: 3 }));
    assert_eq!(info.actions[0].targets[0].effect, "damage_earth_regular");
}

fn multi_action(attacks: Vec<u32>, heals: Vec<u32>) -> Card {
    let n = attacks.len();
    Card::MultiAction(MultiActionCard {
        id: 1,
        name: String::from("multi action"),
        element: Element::Water,
        stars: Stars::Two,
        kind: Kind::Spell,
        desc: String::new(),
        actions: n,
        target_types: vec![TargetType::Single; n],
        attacks,
        attack_modifiers: vec![None; n],
        heals,
        heal_modifiers: vec![None; n],
        draws: vec![0; n],
        draw_modifiers: vec![None; n],
        buffs: vec![],
    })
}

#[test]
fn multi_action_card_runs_each_action() {
    let mut g = game(&[10, 20], vec![]);
    let c = multi_action(vec![3, 4], vec![0, 0]);
    assert_eq!(c.rolls_needed(2, 1), 2);
    let (info, _) = c.play_with_rolls(0, vec![1], &mut g, &vec![1, 2]).unwrap();
    assert_eq!(g.players[1].health, 93);
    assert_eq!(info.actions.len(), 2);
}

#[test]
fn an_invalid_action_stops_the_play_after_the_earlier_ones() {
    let mut g = game(&[10, 20], vec![]);
    // the second action only heals and so takes no target
    let c = multi_action(vec![3, 0], vec![0, 5]);
    let r = c.play_with_rolls(0, vec![1], &mut g, &vec![1, 2]);
    assert_eq!(r.unwrap_err(), "Invalid target count");
    assert_eq!(g.players[1].health, 97);
}

fn dice_card(action: PlayersRollsDiceCardAction, attack: bool, heal: bool, target_type: TargetType) -> Card {
    Card::PlayersRollsDice(PlayersRollsDiceCard {
        id: 1,
        name: String::from("dice"),
        element: Element::Fire,
        stars: Stars::Three,
        kind: Kind::Spell,
        desc: String::new(),
        target_type,
        attack,
        heal,
        draw: false,
        dice_action: action,
        buffs: vec![],
    })
}

#[test]
fn each_player_suffers_its_own_roll() {
    let mut g = game(&[10, 20], vec![]);
    let c = dice_card(PlayersRollsDiceCardAction::AffectsAllPlayers, true, false, TargetType::Single);
    assert_eq!(c.rolls_needed(2, 1), 2);
    let (info, _) = c.play_with_rolls(0, vec![1], &mut g, &vec![4, 2]).unwrap();
    assert_eq!(g.players[0].health, 96);
    assert_eq!(g.players[1].health, 98);
    assert_eq!(info.actions.len(), 3);
    assert_eq!(info.actions[0].dice_roll, 4);
    assert_eq!(info.actions[0].player_dice_id, 10);
    assert!(info.actions[0].targets.is_empty());
    assert_eq!(info.actions[1].dice_roll, 2);
    assert_eq!(info.actions[1].player_dice_id, 20);
    let last = &info.actions[2];
    assert_eq!(last.dice_roll, 0);
    assert_eq!(last.targets.len(), 2);
    assert_eq!(last.targets[0].player_id, 10);
    assert!(matches!(last.targets[0].action, ActionType::Attack { amount: 4 }));
    assert_eq!(last.targets[1].player_id, 20);
    assert!(matches!(last.targets[1].action, ActionType::Attack { amount: 2 }));
}

#[test]
fn lowest_rolls_get_the_sum_of_the_rolls() {
    let mut g = game(&[10, 20, 30], vec![]);
    g.players[0].health = 50;
    g.players[2].health = 50;
    let c = dice_card(PlayersRollsDiceCardAction::AffectsMinRollPlayersRollsSum, false, true, TargetType::Multiple { max: 2 });
    let (info, _) = c.play_with_rolls(0, vec![1, 2], &mut g, &vec![3, 5, 3]).unwrap();
    assert_eq!(g.players[0].health, 61);
    assert_eq!(g.players[1].health, 100);
    assert_eq!(g.players[2].health, 61);
    let last = info.actions.last().unwrap();
    assert_eq!(last.targets.len(), 2);
    assert!(matches!(last.targets[0].action, ActionType::Heal { amount: 11 }));
    assert_eq!(last.targets[1].player_id, 30);
}

#[test]
fn dice_card_for_all_needs_a_roll_per_player() {
    let c = dice_card(PlayersRollsDiceCardAction::AffectsAllPlayers, true, false, TargetType::All);
    assert_eq!(c.rolls_needed(4, 0), 4);
}

#[test]
fn pearth_heals_by_the_number_of_discarded_cards() {
    let mut g = game(&[10, 20, 30], vec![]);
    g.players[0].health = 90;
    g.players[0].discard_cards.push(card(1));
    g.players[1].discard_cards.push(card(2));
    g.players[1].discard_cards.push(card(3));
    let c = Card::Pearth(PearthCard {
        id: 9,
        name: String::from("Pearth"),
        element: Element::Earth,
        stars: Stars::Four,
        kind: Kind::Food,
        desc: String::new(),
    });
    assert_eq!(c.rolls_needed(3, 0), 0);
    let (info, _) = c.play_with_rolls(0, vec![], &mut g, &vec![]).unwrap();
    assert_eq!(g.players[0].health, 93);
    assert_eq!(info.actions.len(), 1);
    assert_eq!(info.actions[0].targets[0].player_id, 10);
    assert!(matches!(info.actions[0].targets[0].action, ActionType::Heal { amount: 3 }));
}

#[test]
fn tornade_damages_and_steals_from_the_target() {
    let mut g = game(&[10, 20], vec![]);
    g.players[1].hand_cards = vec![card(1), card(2), card(3)];
    let c = Card::ComplexEffect(ComplexEffectCard {
        base: basic_named(5, "Tornade", 0),
        complex_effects: vec![ComplexEffect::Steal { count: 2, element: None, kind: None, stars: None }],
    });
    let (info, _) = c.play_with_rolls(0, vec![1], &mut g, &vec![3]).unwrap();
    assert_eq!(g.players[1].health, 92);
    let stolen = g.players[0].hand_cards.len();
    assert!(stolen >= 1 && stolen <= 2);
    assert_eq!(g.players[0].hand_cards.len() + g.players[1].hand_cards.len(), 3);
    assert!(info.actions.iter().any(|a| a.targets.iter().any(|t| t.effect == "tornade_damage")));
}

#[test]
fn tornade_cannot_target_its_player() {
    let mut g = game(&[10, 20], vec![]);
    let c = Card::ComplexEffect(ComplexEffectCard {
        base: basic_named(5, "tornade", 0),
        complex_effects: vec![ComplexEffect::Steal { count: 2, element: None, kind: None, stars: None }],
    });
    let r = c.play_with_rolls(0, vec![0], &mut g, &vec![3]);
    assert_eq!(r.unwrap_err(), "Target is player !");
}

#[test]
fn flambeau_is_passed_to_the_target() {
    let mut g = game(&[10, 20], vec![card(50)]);
    let torch = Rc::new(Card::Basic(basic_named(7, "FLAMBEAU", 0)));
    g.players[0].hand_cards = vec![card(1), torch];
    let c = Card::ComplexEffect(ComplexEffectCard {
        base: basic_named(8, "Flambeau", 5),
        complex_effects: vec![ComplexEffect::Give],
    });
    let (_, _) = c.play_with_rolls(0, vec![1], &mut g, &vec![3]).unwrap();
    // the card's attack, then the flambeau's own damage
    assert_eq!(g.players[1].health, 90);
    let target_hand: Vec<i32> = g.players[1].hand_cards.iter().map(|c| c.get_id()).collect();
    assert_eq!(target_hand, vec![7]);
    let player_hand: Vec<i32> = g.players[0].hand_cards.iter().map(|c| c.get_id()).collect();
    assert_eq!(player_hand, vec![1, 50]);
    assert!(g.pile.is_empty());
}

#[test]
fn giving_other_cards_empties_the_hand_in_reverse() {
    let mut g = game(&[10, 20], vec![]);
    g.players[0].hand_cards = vec![card(1), card(2), card(3)];
    let c = Card::ComplexEffect(ComplexEffectCard {
        base: basic_named(8, "Cadeau", 1),
        complex_effects: vec![ComplexEffect::Give],
    });
    c.play_with_rolls(0, vec![1], &mut g, &vec![3]).unwrap();
    assert!(g.players[0].hand_cards.is_empty());
    let target_hand: Vec<i32> = g.players[1].hand_cards.iter().map(|c| c.get_id()).collect();
    assert_eq!(target_hand, vec![3, 2, 1]);
}

#[test]
fn card_database_numbers_the_cards_in_order() {
    let info = |name: &str| CardInfo {
        id: 99,
        name: String::from(name),
        element: Element::Fire,
        stars: Stars::One,
        kind: Kind::Weapon,
        desc: String::from("d"),
        buffs: vec![],
        variant: CardVariant::BasicCard(BasicCardData {
            attack: 4,
            heal: 0,
            draw: 0,
            attack_modifier: None,
            heal_modifier: None,
            draw_modifier: None,
            targets: TargetType::Single,
        }),
    };
    let cards = make_card_database(vec![info("a"), info("b"), info("c")]);
    assert_eq!(cards.len(), 3);
    for (i, c) in cards.iter().enumerate() {
        assert_eq!(c.get_id(), i as i32);
    }
    assert_eq!(cards[1].get_name(), "b");
    assert_eq!(cards[2].get_attack(), 4);
}

#[test]
fn make_card_keeps_the_definition() {
    let c = CardInfo {
        id: 12,
        name: String::from("Pearth"),
        element: Element::Earth,
        stars: Stars::Five,
        kind: Kind::Food,
        desc: String::from("heal"),
        buffs: vec![],
        variant: CardVariant::PearthCard,
    }
    .make_card();
    assert_eq!(c.get_id(), 12);
    assert!(matches!(c, Card::Pearth(_)));
    assert_eq!(c.get_element(), Element::Earth);
}

#[test]
fn dice_rolled_during_a_play_are_between_one_and_six() {
    for _ in 0..20 {
        let mut g = game(&[10, 20, 30], vec![]);
        let c = dice_card(PlayersRollsDiceCardAction::AffectsAllPlayers, true, false, TargetType::All);
        let (info, _) = c.play(0, vec![], &mut g).unwrap();
        assert_eq!(info.actions.len(), 4);
        let mut total_damage = 0;
        for (k, a) in info.actions.iter().take(3).enumerate() {
            assert!((1..=6).contains(&a.dice_roll));
            assert_eq!(a.player_dice_id, [10, 20, 30][k]);
            total_damage += a.dice_roll as i32;
        }
        let health: i32 = g.players.iter().map(|p| p.health).sum();
        assert_eq!(health, 300 - total_damage);
    }
}

#[test]
fn a_steal_of_one_card_takes_the_targets_only_card() {
    let mut g = game(&[10, 20], vec![]);
    let own = Rc::new(Card::Basic(basic_named(0, "Voleur", 0)));
    g.players[0].hand_cards = vec![own];
    g.players[1].hand_cards = vec![card(4)];
    let c = Card::ComplexEffect(ComplexEffectCard {
        base: basic_named(0, "Voleur", 0),
        complex_effects: vec![ComplexEffect::Steal { count: 1, element: None, kind: None, stars: None }],
    });
    let (info, _) = c.play_with_rolls(0, vec![1], &mut g, &vec![3]).unwrap();
    assert!(g.players[1].hand_cards.is_empty());
    let ids: Vec<i32> = g.players[0].hand_cards.iter().map(|c| c.get_id()).collect();
    assert_eq!(ids, vec![0, 4]);
    assert_eq!(info.actions.len(), 1);
    assert_eq!(info.actions[0].targets[0].effect, "steal");
    match &info.actions[0].targets[0].action {
        ActionType::Steal { cards } => assert_eq!(cards, &vec![4]),
        other => panic!("unexpected action {:?}", other),
    }
}

#[test]
fn a_steal_takes_as_many_cards_as_asked_and_held() {
    let mut g = game(&[10, 20], vec![]);
    g.players[1].hand_cards = vec![card(1), card(2), card(3), card(4)];
    let c = Card::ComplexEffect(ComplexEffectCard {
        base: basic_named(9, "Voleur", 0),
        complex_effects: vec![ComplexEffect::Steal { count: 3, element: None, kind: None, stars: None }],
    });
    c.play_with_rolls(0, vec![1], &mut g, &vec![3]).unwrap();
    assert_eq!(g.players[0].hand_cards.len(), 3);
    assert_eq!(g.players[1].hand_cards.len(), 1);
}

#[test]
fn shuriken_gives_two_cards_and_draws_two() {
    let mut g = game(&[10, 20], vec![card(50), card(51), card(52)]);
    g.players[0].hand_cards = vec![card(1), card(2), card(3)];
    let c = Card::ComplexEffect(ComplexEffectCard {
        base: basic_named(9, "Shuriken", 0),
        complex_effects: vec![ComplexEffect::Give],
    });
    c.play_with_rolls(0, vec![1], &mut g, &vec![3]).unwrap();
    assert_eq!(g.players[1].hand_cards.len(), 2);
    assert_eq!(g.players[0].hand_cards.len(), 3);
    assert_eq!(g.pile.len(), 1);
}
