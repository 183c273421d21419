use randomi::prototype::{create_deck_test, shuffle_deck, Card, Element, Nature, Stars, TEST_DECK_SIZE};

#[test]
fn test_create_card() {
    let boule_de_feu = Card::new(
        String::from("Boule de feu"),
        Element::Fire,
        Stars::Two,
        Nature::Spell,
        String::from("Inflige 4 points de dégâts."),
        4,
        0,
        0,
        false,
    );

    println!("{:?}", boule_de_feu);
}

#[test]
fn new_card_keeps_its_values() {
    let c = Card::new(String::from("Pomme"), Element::Earth, Stars::Two, Nature::Food, String::from("Récupérez 6 points."), 0, 6, 0, false);
    assert_eq!(c.name, "Pomme");
    assert_eq!(c.element, Element::Earth);
    assert_eq!(c.stars, Stars::Two);
    assert_eq!(c.nature, Nature::Food);
    assert_eq!(c.effect, "Récupérez 6 points.");
    assert_eq!(c.attack, 0);
    assert_eq!(c.heal, 6);
    assert_eq!(c.draw, 0);
    assert!(!c.dice);
}

#[test]
fn new_cards_get_different_ids() {
    let a = Card::new(String::from("A"), Element::Fire, Stars::One, Nature::Spell, String::new(), 1, 0, 0, false);
    let b = Card::new(String::from("A"), Element::Fire, Stars::One, Nature::Spell, String::new(), 1, 0, 0, false);
    assert_ne!(a.id, b.id);
}

#[test]
fn test_deck_has_the_seventeen_cards() {
    let deck = create_deck_test();
    assert_eq!(deck.len(), TEST_DECK_SIZE);
    assert_eq!(deck[0].name, "Boule de feu");
    assert_eq!(deck[0].attack, 4);
    assert_eq!(deck[5].name, "Bulle");
    assert!(deck[5].dice);
    assert_eq!(deck[12].heal, 8);
    assert_eq!(deck[12].draw, 2);
    assert_eq!(deck[16].name, "Rafale");
    assert_eq!(deck[16].draw, 3);
}

#[test]
fn shuffling_the_deck_keeps_its_cards() {
    let mut deck = create_deck_test();
    let mut before: Vec<String> = deck.iter().map(|c| c.name.clone()).collect();
    shuffle_deck(&mut deck);
    let mut after: Vec<String> = deck.iter().map(|c| c.name.clone()).collect();
    before.sort();
    after.sort();
    assert_eq!(before, after);
}

#[test]
fn card_ids_are_version_four_uuids() {
    let c = Card::new(String::from("A"), Element::Fire, Stars::One, Nature::Spell, String::new(), 1, 0, 0, false);
    assert_eq!((c.id >> 76) & 0xF, 4);
    assert_eq!((c.id >> 62) & 0x3, 2);
}
