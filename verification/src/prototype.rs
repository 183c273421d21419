//! The first card model of the game and its test deck.
use vstd::prelude::*;
pub use crate::card::{Element, Stars};
use crate::rng::shuffle;

verus! {

/// Nature of a card in the first card model.
#[derive(Clone, Copy, PartialEq, Eq, Structural, Debug)]
pub enum Nature {
    Spell,
    Weapon,
    Food,
}

/// A card of the first card model, with an id of its own.
#[derive(Debug)]
pub struct Card {
    pub id: u128,
    pub name: String,
    pub element: Element,
    pub stars: Stars,
    pub nature: Nature,
    pub effect: String,
    pub attack: i32,
    pub heal: i32,
    pub draw: i32,
    pub dice: bool,
}

/// A new random UUID from `uuid::Uuid::new_v4`, as the integer `Uuid::as_u128` gives. Chance
/// decides its bits, but for those that `new_v4` sets: the version field holds 4 and the variant
/// field the bits `10`.
#[verifier::external_body]
fn new_uuid() -> (r: u128)
    ensures
        (r >> 76u128) & 0xFu128 == 4,
        (r >> 62u128) & 0x3u128 == 2,
{
    uuid::Uuid::new_v4().as_u128()
}

impl Card {
    /// A card with the given values and a new random id.
    pub fn new(
        name: String,
        element: Element,
        stars: Stars,
        nature: Nature,
        effect: String,
        attack: i32,
        heal: i32,
        draw: i32,
        dice: bool,
    ) -> (r: Self)
        ensures
            r.name@ == name@,
            r.element == element,
            r.stars == stars,
            r.nature == nature,
            r.effect@ == effect@,
            r.attack == attack,
            r.heal == heal,
            r.draw == draw,
            r.dice == dice,
    {
        Self { id: new_uuid(), name, element, stars, nature, effect, attack, heal, draw, dice }
    }
}

/// The values of a card of the test deck.
pub struct DeckEntry {
    pub name: Seq<char>,
    pub element: Element,
    pub stars: Stars,
    pub nature: Nature,
    pub effect: Seq<char>,
    pub attack: i32,
    pub heal: i32,
    pub draw: i32,
    pub dice: bool,
}

/// The card is made of the values of the entry.
pub open spec fn card_matches(c: Card, e: DeckEntry) -> bool {
    &&& c.name@ == e.name
    &&& c.element == e.element
    &&& c.stars == e.stars
    &&& c.nature == e.nature
    &&& c.effect@ == e.effect
    &&& c.attack == e.attack
    &&& c.heal == e.heal
    &&& c.draw == e.draw
    &&& c.dice == e.dice
}

/// Number of cards in the test deck.
pub const TEST_DECK_SIZE: usize = 17;

/// Card `i` of the test deck.
pub open spec fn deck_entry(i: int) -> DeckEntry {
    if i == 0 {
        DeckEntry { name: "Boule de feu"@, element: Element::Fire, stars: Stars::Two, nature: Nature::Spell, effect: "Inflige 4 points de dégâts."@, attack: 4, heal: 0, draw: 0, dice: false }
    } else if i == 1 {
        DeckEntry { name: "Pomme"@, element: Element::Earth, stars: Stars::Two, nature: Nature::Food, effect: "Récupérez 6 points."@, attack: 0, heal: 6, draw: 0, dice: false }
    } else if i == 2 {
        DeckEntry { name: "Pêche"@, element: Element::Water, stars: Stars::Two, nature: Nature::Food, effect: "Récupérez 4 points. Piochez 1 carte."@, attack: 0, heal: 4, draw: 1, dice: false }
    } else if i == 3 {
        DeckEntry { name: "Arbalète"@, element: Element::Air, stars: Stars::Four, nature: Nature::Weapon, effect: "Enlevez 9 points de vie à votre adversaire. Piochez 1 carte."@, attack: 9, heal: 0, draw: 1, dice: false }
    } else if i == 4 {
        DeckEntry { name: "Bille de feu"@, element: Element::Fire, stars: Stars::One, nature: Nature::Spell, effect: "Enlevez 1 point de vie à votre adversaire. "@, attack: 1, heal: 0, draw: 0, dice: false }
    } else if i == 5 {
        DeckEntry { name: "Bulle"@, element: Element::Water, stars: Stars::One, nature: Nature::Spell, effect: "Lancé un dé. Enlevez le résultat du dé à votre adversaire."@, attack: 0, heal: 0, draw: 0, dice: true }
    } else if i == 6 {
        DeckEntry { name: "Pioche"@, element: Element::Earth, stars: Stars::Two, nature: Nature::Weapon, effect: "Enlevez 6 points de vie à votre adversaire. Piochez 1 carte."@, attack: 6, heal: 0, draw: 1, dice: false }
    } else if i == 7 {
        DeckEntry { name: "Pomme d'amour"@, element: Element::Fire, stars: Stars::Two, nature: Nature::Food, effect: "Vous ainsi qu'un autre joueur récupérez 12 points de vie."@, attack: 0, heal: 12, draw: 0, dice: false }
    } else if i == 8 {
        DeckEntry { name: "Fléchettes"@, element: Element::Air, stars: Stars::One, nature: Nature::Weapon, effect: "Enlevez 3 points de vie à votre adversaire. Piochez 1 carte."@, attack: 3, heal: 0, draw: 1, dice: false }
    } else if i == 9 {
        DeckEntry { name: "Grain de poussière"@, element: Element::Earth, stars: Stars::One, nature: Nature::Spell, effect: "Enlevez 0 point de vie à votre adversaire."@, attack: 3, heal: 0, draw: 1, dice: false }
    } else if i == 10 {
        DeckEntry { name: "Noix de coco"@, element: Element::Water, stars: Stars::Four, nature: Nature::Food, effect: "Récupérez 4 points et enlevez 9 points de vie à votre adversaire."@, attack: 9, heal: 4, draw: 0, dice: false }
    } else if i == 11 {
        DeckEntry { name: "Epuisette"@, element: Element::Water, stars: Stars::Two, nature: Nature::Weapon, effect: "Enlevez 2 points à votre adversaire. Piochez 2 carte."@, attack: 2, heal: 0, draw: 2, dice: false }
    } else if i == 12 {
        DeckEntry { name: "Bouteille d'eau"@, element: Element::Water, stars: Stars::Three, nature: Nature::Weapon, effect: "Récupérez 8 points. Enlevez 4 points à votre adversaire. Piochez 2 carte."@, attack: 4, heal: 8, draw: 2, dice: false }
    } else if i == 13 {
        DeckEntry { name: "Lance de flammes"@, element: Element::Fire, stars: Stars::Five, nature: Nature::Weapon, effect: "Enlevez 18 points de vie à votre adversaire."@, attack: 18, heal: 0, draw: 0, dice: false }
    } else if i == 14 {
        DeckEntry { name: "Terrassement"@, element: Element::Earth, stars: Stars::Five, nature: Nature::Spell, effect: "Enlevez 15 points de vie à votre adversaire. Piochez 2 cartes."@, attack: 15, heal: 0, draw: 2, dice: false }
    } else if i == 15 {
        DeckEntry { name: "Vague vampirique"@, element: Element::Water, stars: Stars::Five, nature: Nature::Spell, effect: "Enlevez 12 points de vie à votre adversaire. Récupérez 6 points."@, attack: 12, heal: 6, draw: 0, dice: false }
    } else {
        DeckEntry { name: "Rafale"@, element: Element::Air, stars: Stars::Five, nature: Nature::Spell, effect: "Enlevez 14 points de vie à votre adversaire. Piochez 3 cartes."@, attack: 14, heal: 0, draw: 3, dice: false }
    }
}

/// The test deck: the seventeen cards of the first card model, in order.
pub fn create_deck_test() -> (r: Vec<Card>)
    ensures
        r.len() == TEST_DECK_SIZE,
        forall|i: int| 0 <= i < r.len() ==> card_matches(#[trigger] r@[i], deck_entry(i)),
{
    let mut deck: Vec<Card> = Vec::new();
    deck.push(Card::new(
        String::from_str("Boule de feu"),
        Element::Fire,
        Stars::Two,
        Nature::Spell,
        String::from_str("Inflige 4 points de dégâts."),
        4,
        0,
        0,
        false,
    ));
    deck.push(Card::new(
        String::from_str("Pomme"),
        Element::Earth,
        Stars::Two,
        Nature::Food,
        String::from_str("Récupérez 6 points."),
        0,
        6,
        0,
        false,
    ));
    deck.push(Card::new(
        String::from_str("Pêche"),
        Element::Water,
        Stars::Two,
        Nature::Food,
        String::from_str("Récupérez 4 points. Piochez 1 carte."),
        0,
        4,
        1,
        false,
    ));
    deck.push(Card::new(
        String::from_str("Arbalète"),
        Element::Air,
        Stars::Four,
        Nature::Weapon,
        String::from_str("Enlevez 9 points de vie à votre adversaire. Piochez 1 carte."),
        9,
        0,
        1,
        false,
    ));
    deck.push(Card::new(
        String::from_str("Bille de feu"),
        Element::Fire,
        Stars::One,
        Nature::Spell,
        String::from_str("Enlevez 1 point de vie à votre adversaire. "),
        1,
        0,
        0,
        false,
    ));
    deck.push(Card::new(
        String::from_str("Bulle"),
        Element::Water,
        Stars::One,
        Nature::Spell,
        String::from_str("Lancé un dé. Enlevez le résultat du dé à votre adversaire."),
        0,
        0,
        0,
        true,
    ));
    deck.push(Card::new(
        String::from_str("Pioche"),
        Element::Earth,
        Stars::Two,
        Nature::Weapon,
        String::from_str("Enlevez 6 points de vie à votre adversaire. Piochez 1 carte."),
        6,
        0,
        1,
        false,
    ));
    deck.push(Card::new(
        String::from_str("Pomme d'amour"),
        Element::Fire,
        Stars::Two,
        Nature::Food,
        String::from_str("Vous ainsi qu'un autre joueur récupérez 12 points de vie."),
        0,
        12,
        0,
        false,
    ));
    deck.push(Card::new(
        String::from_str("Fléchettes"),
        Element::Air,
        Stars::One,
        Nature::Weapon,
        String::from_str("Enlevez 3 points de vie à votre adversaire. Piochez 1 carte."),
        3,
        0,
        1,
        false,
    ));
    deck.push(Card::new(
        String::from_str("Grain de poussière"),
        Element::Earth,
        Stars::One,
        Nature::Spell,
        String::from_str("Enlevez 0 point de vie à votre adversaire."),
        3,
        0,
        1,
        false,
    ));
    deck.push(Card::new(
        String::from_str("Noix de coco"),
        Element::Water,
        Stars::Four,
        Nature::Food,
        String::from_str("Récupérez 4 points et enlevez 9 points de vie à votre adversaire."),
        9,
        4,
        0,
        false,
    ));
    deck.push(Card::new(
        String::from_str("Epuisette"),
        Element::Water,
        Stars::Two,
        Nature::Weapon,
        String::from_str("Enlevez 2 points à votre adversaire. Piochez 2 carte."),
        2,
        0,
        2,
        false,
    ));
    deck.push(Card::new(
        String::from_str("Bouteille d'eau"),
        Element::Water,
        Stars::Three,
        Nature::Weapon,
        String::from_str("Récupérez 8 points. Enlevez 4 points à votre adversaire. Piochez 2 carte."),
        4,
        8,
        2,
        false,
    ));
    deck.push(Card::new(
        String::from_str("Lance de flammes"),
        Element::Fire,
        Stars::Five,
        Nature::Weapon,
        String::from_str("Enlevez 18 points de vie à votre adversaire."),
        18,
        0,
        0,
        false,
    ));
    deck.push(Card::new(
        String::from_str("Terrassement"),
        Element::Earth,
        Stars::Five,
        Nature::Spell,
        String::from_str("Enlevez 15 points de vie à votre adversaire. Piochez 2 cartes."),
        15,
        0,
        2,
        false,
    ));
    deck.push(Card::new(
        String::from_str("Vague vampirique"),
        Element::Water,
        Stars::Five,
        Nature::Spell,
        String::from_str("Enlevez 12 points de vie à votre adversaire. Récupérez 6 points."),
        12,
        6,
        0,
        false,
    ));
    deck.push(Card::new(
        String::from_str("Rafale"),
        Element::Air,
        Stars::Five,
        Nature::Spell,
        String::from_str("Enlevez 14 points de vie à votre adversaire. Piochez 3 cartes."),
        14,
        0,
        3,
        false,
    ));
    deck
}

/// Shuffles the deck: the same cards, in an order that chance decides.
pub fn shuffle_deck(deck: &mut Vec<Card>)
    ensures
        final(deck)@.to_multiset() == old(deck)@.to_multiset(),
{
    shuffle(deck);
}

} // verus!
