use vstd::prelude::*;
use std::rc::Rc;
use crate::buffs::BuffInfo;
use crate::modifiers::ModifierInfo;
use crate::special_cards::PlayersRollsDiceCardAction;
use crate::exchange_card::ComplexEffect;

verus! {

/// Identifier of a visual effect shown by the web app.
pub type EffectId = String;

/// Identifier of a card (its position in the card definitions).
pub type CardId = i32;

#[derive(Clone, Copy, PartialEq, Eq, Structural, Debug)]
pub enum Element {
    Fire,
    Air,
    Earth,
    Water,
}

#[derive(Clone, Copy, PartialEq, Eq, Structural, Debug)]
pub enum Kind {
    Spell,
    Weapon,
    Food,
}

#[derive(Clone, Copy, PartialEq, Eq, Structural, Debug)]
pub enum Stars {
    One,
    Two,
    Three,
    Four,
    Five,
}

/// Which players a card can target.
#[derive(Clone, Copy, PartialEq, Eq, Structural, Debug)]
pub enum TargetType {
    /// One target (no targets when the card only heals)
    Single,
    /// Up to `max` targets
    Multiple { max: usize },
    /// Every player except the one playing the card
    All,
}

/// The target type used when a card definition gives none.
pub fn default_target_type() -> (r: TargetType)
    ensures
        r == TargetType::Single,
{
    TargetType::Single
}

/// Basic card variant that uses the common play logic.
#[derive(Debug)]
pub struct BasicCard {
    pub id: CardId,
    pub name: String,
    pub element: Element,
    pub stars: Stars,
    pub kind: Kind,
    pub desc: String,
    pub target_type: TargetType,
    pub attack: u32,
    pub attack_modifier: Option<ModifierInfo>,
    pub heal: u32,
    pub heal_modifier: Option<ModifierInfo>,
    pub draw: u32,
    pub draw_modifier: Option<ModifierInfo>,
    pub buffs: Vec<Rc<BuffInfo>>,
}

/// Card variant that can attack its target multiple times.
/// This is only for visual effects on the client, showing separate animations for each hit.
/// Attack modifiers are not supported.
#[derive(Debug)]
pub struct MultiHitCard {
    pub id: CardId,
    pub name: String,
    pub element: Element,
    pub stars: Stars,
    pub kind: Kind,
    pub desc: String,
    pub attacks: Vec<u32>,
    pub heal: u32,
    pub heal_modifier: Option<ModifierInfo>,
    pub draw: u32,
    pub draw_modifier: Option<ModifierInfo>,
    pub buffs: Vec<Rc<BuffInfo>>,
}

/// Card variant that applies damage, heal and draw to the player and its targets.
#[derive(Debug)]
pub struct TargetBothCard {
    pub id: CardId,
    pub name: String,
    pub element: Element,
    pub stars: Stars,
    pub kind: Kind,
    pub desc: String,
    pub target_type: TargetType,
    pub attack: u32,
    pub attack_modifier: Option<ModifierInfo>,
    pub heal: u32,
    pub heal_modifier: Option<ModifierInfo>,
    pub draw: u32,
    pub draw_modifier: Option<ModifierInfo>,
    pub buffs: Vec<Rc<BuffInfo>>,
}

/// Card variant that runs the play logic as many times as necessary with different values.
#[derive(Debug)]
pub struct MultiActionCard {
    pub id: CardId,
    pub name: String,
    pub element: Element,
    pub stars: Stars,
    pub kind: Kind,
    pub desc: String,
    pub actions: usize,
    pub target_types: Vec<TargetType>,
    pub attacks: Vec<u32>,
    pub attack_modifiers: Vec<Option<ModifierInfo>>,
    pub heals: Vec<u32>,
    pub heal_modifiers: Vec<Option<ModifierInfo>>,
    pub draws: Vec<u32>,
    pub draw_modifiers: Vec<Option<ModifierInfo>>,
    pub buffs: Vec<Rc<BuffInfo>>,
}

/// Card variant that requires the player and its targets to roll the dice.
/// Each player is affected by the card's effects based on their dice roll.
#[derive(Debug)]
pub struct PlayersRollsDiceCard {
    pub id: CardId,
    pub name: String,
    pub element: Element,
    pub stars: Stars,
    pub kind: Kind,
    pub desc: String,
    pub target_type: TargetType,
    pub attack: bool,
    pub heal: bool,
    pub draw: bool,
    pub dice_action: PlayersRollsDiceCardAction,
    pub buffs: Vec<Rc<BuffInfo>>,
}

/// The Pearth card: heals the player by the number of discarded cards of all players.
#[derive(Debug)]
pub struct PearthCard {
    pub id: CardId,
    pub name: String,
    pub element: Element,
    pub stars: Stars,
    pub kind: Kind,
    pub desc: String,
}

/// A basic card with additional effects that move cards between players.
#[derive(Debug)]
pub struct ComplexEffectCard {
    pub base: BasicCard,
    pub complex_effects: Vec<ComplexEffect>,
}

/// A card of the game, in one of its variants.
#[derive(Debug)]
pub enum Card {
    Basic(BasicCard),
    MultiHit(MultiHitCard),
    TargetBoth(TargetBothCard),
    MultiAction(MultiActionCard),
    PlayersRollsDice(PlayersRollsDiceCard),
    Pearth(PearthCard),
    ComplexEffect(ComplexEffectCard),
}

/// Effect shown when a card of `element` deals damage.
pub open spec fn damage_effect_of(element: Element) -> Seq<char> {
    match element {
        Element::Air => "damage_air_regular"@,
        Element::Earth => "damage_earth_regular"@,
        Element::Fire => "damage_fire_regular"@,
        Element::Water => "damage_water_regular"@,
    }
}

/// Effect shown when a card heals.
pub open spec fn heal_effect() -> Seq<char> {
    "heal_regular"@
}

impl Card {
    #[verifier::allow_in_spec]
    pub fn get_id(&self) -> CardId
        returns
            match self {
                Card::Basic(c) => c.id,
                Card::MultiHit(c) => c.id,
                Card::TargetBoth(c) => c.id,
                Card::MultiAction(c) => c.id,
                Card::PlayersRollsDice(c) => c.id,
                Card::Pearth(c) => c.id,
                Card::ComplexEffect(c) => c.base.id,
            },
    {
        match self {
            Card::Basic(c) => c.id,
            Card::MultiHit(c) => c.id,
            Card::TargetBoth(c) => c.id,
            Card::MultiAction(c) => c.id,
            Card::PlayersRollsDice(c) => c.id,
            Card::Pearth(c) => c.id,
            Card::ComplexEffect(c) => c.base.id,
        }
    }

    /// The name given in the card definition.
    pub open spec fn spec_name(&self) -> Seq<char> {
        match self {
            Card::Basic(c) => c.name@,
            Card::MultiHit(c) => c.name@,
            Card::TargetBoth(c) => c.name@,
            Card::MultiAction(c) => c.name@,
            Card::PlayersRollsDice(c) => c.name@,
            Card::Pearth(c) => c.name@,
            Card::ComplexEffect(c) => c.base.name@,
        }
    }

    pub fn get_name(&self) -> (r: String)
        ensures
            r@ == self.spec_name(),
    {
        match self {
            Card::Basic(c) => c.name.clone(),
            Card::MultiHit(c) => c.name.clone(),
            Card::TargetBoth(c) => c.name.clone(),
            Card::MultiAction(c) => c.name.clone(),
            Card::PlayersRollsDice(c) => c.name.clone(),
            Card::Pearth(c) => c.name.clone(),
            Card::ComplexEffect(c) => c.base.name.clone(),
        }
    }

    /// The description given in the card definition.
    pub open spec fn spec_description(&self) -> Seq<char> {
        match self {
            Card::Basic(c) => c.desc@,
            Card::MultiHit(c) => c.desc@,
            Card::TargetBoth(c) => c.desc@,
            Card::MultiAction(c) => c.desc@,
            Card::PlayersRollsDice(c) => c.desc@,
            Card::Pearth(c) => c.desc@,
            Card::ComplexEffect(c) => c.base.desc@,
        }
    }

    pub fn get_description(&self) -> (r: String)
        ensures
            r@ == self.spec_description(),
    {
        match self {
            Card::Basic(c) => c.desc.clone(),
            Card::MultiHit(c) => c.desc.clone(),
            Card::TargetBoth(c) => c.desc.clone(),
            Card::MultiAction(c) => c.desc.clone(),
            Card::PlayersRollsDice(c) => c.desc.clone(),
            Card::Pearth(c) => c.desc.clone(),
            Card::ComplexEffect(c) => c.base.desc.clone(),
        }
    }

    /// Attack value; variants without one attack for 1.
    #[verifier::allow_in_spec]
    pub fn get_attack(&self) -> u32
        returns
            match self {
                Card::Basic(c) => c.attack,
                Card::TargetBoth(c) => c.attack,
                Card::ComplexEffect(c) => c.base.attack,
                _ => 1u32,
            },
    {
        match self {
            Card::Basic(c) => c.attack,
            Card::TargetBoth(c) => c.attack,
            Card::ComplexEffect(c) => c.base.attack,
            _ => 1,
        }
    }

    #[verifier::allow_in_spec]
    pub fn get_attack_modifier(&self) -> Option<ModifierInfo>
        returns
            match self {
                Card::Basic(c) => c.attack_modifier,
                Card::TargetBoth(c) => c.attack_modifier,
                Card::ComplexEffect(c) => c.base.attack_modifier,
                _ => None,
            },
    {
        match self {
            Card::Basic(c) => c.attack_modifier,
            Card::TargetBoth(c) => c.attack_modifier,
            Card::ComplexEffect(c) => c.base.attack_modifier,
            _ => None,
        }
    }

    /// Heal value; variants without one heal for 0.
    #[verifier::allow_in_spec]
    pub fn get_heal(&self) -> u32
        returns
            match self {
                Card::Basic(c) => c.heal,
                Card::MultiHit(c) => c.heal,
                Card::TargetBoth(c) => c.heal,
                Card::ComplexEffect(c) => c.base.heal,
                _ => 0u32,
            },
    {
        match self {
            Card::Basic(c) => c.heal,
            Card::MultiHit(c) => c.heal,
            Card::TargetBoth(c) => c.heal,
            Card::ComplexEffect(c) => c.base.heal,
            _ => 0,
        }
    }

    #[verifier::allow_in_spec]
    pub fn get_heal_modifier(&self) -> Option<ModifierInfo>
        returns
            match self {
                Card::Basic(c) => c.heal_modifier,
                Card::MultiHit(c) => c.heal_modifier,
                Card::TargetBoth(c) => c.heal_modifier,
                Card::ComplexEffect(c) => c.base.heal_modifier,
                _ => None,
            },
    {
        match self {
            Card::Basic(c) => c.heal_modifier,
            Card::MultiHit(c) => c.heal_modifier,
            Card::TargetBoth(c) => c.heal_modifier,
            Card::ComplexEffect(c) => c.base.heal_modifier,
            _ => None,
        }
    }

    /// Number of cards drawn; variants without one draw 0.
    #[verifier::allow_in_spec]
    pub fn get_draw(&self) -> u32
        returns
            match self {
                Card::Basic(c) => c.draw,
                Card::MultiHit(c) => c.draw,
                Card::TargetBoth(c) => c.draw,
                Card::ComplexEffect(c) => c.base.draw,
                _ => 0u32,
            },
    {
        match self {
            Card::Basic(c) => c.draw,
            Card::MultiHit(c) => c.draw,
            Card::TargetBoth(c) => c.draw,
            Card::ComplexEffect(c) => c.base.draw,
            _ => 0,
        }
    }

    #[verifier::allow_in_spec]
    pub fn get_draw_modifier(&self) -> Option<ModifierInfo>
        returns
            match self {
                Card::Basic(c) => c.draw_modifier,
                Card::MultiHit(c) => c.draw_modifier,
                Card::TargetBoth(c) => c.draw_modifier,
                Card::ComplexEffect(c) => c.base.draw_modifier,
                _ => None,
            },
    {
        match self {
            Card::Basic(c) => c.draw_modifier,
            Card::MultiHit(c) => c.draw_modifier,
            Card::TargetBoth(c) => c.draw_modifier,
            Card::ComplexEffect(c) => c.base.draw_modifier,
            _ => None,
        }
    }

    #[verifier::allow_in_spec]
    pub fn get_kind(&self) -> Kind
        returns
            match self {
                Card::Basic(c) => c.kind,
                Card::MultiHit(c) => c.kind,
                Card::TargetBoth(c) => c.kind,
                Card::MultiAction(c) => c.kind,
                Card::PlayersRollsDice(c) => c.kind,
                Card::Pearth(c) => c.kind,
                Card::ComplexEffect(c) => c.base.kind,
            },
    {
        match self {
            Card::Basic(c) => c.kind,
            Card::MultiHit(c) => c.kind,
            Card::TargetBoth(c) => c.kind,
            Card::MultiAction(c) => c.kind,
            Card::PlayersRollsDice(c) => c.kind,
            Card::Pearth(c) => c.kind,
            Card::ComplexEffect(c) => c.base.kind,
        }
    }

    #[verifier::allow_in_spec]
    pub fn get_element(&self) -> Element
        returns
            match self {
                Card::Basic(c) => c.element,
                Card::MultiHit(c) => c.element,
                Card::TargetBoth(c) => c.element,
                Card::MultiAction(c) => c.element,
                Card::PlayersRollsDice(c) => c.element,
                Card::Pearth(c) => c.element,
                Card::ComplexEffect(c) => c.base.element,
            },
    {
        match self {
            Card::Basic(c) => c.element,
            Card::MultiHit(c) => c.element,
            Card::TargetBoth(c) => c.element,
            Card::MultiAction(c) => c.element,
            Card::PlayersRollsDice(c) => c.element,
            Card::Pearth(c) => c.element,
            Card::ComplexEffect(c) => c.base.element,
        }
    }

    #[verifier::allow_in_spec]
    pub fn get_stars(&self) -> Stars
        returns
            match self {
                Card::Basic(c) => c.stars,
                Card::MultiHit(c) => c.stars,
                Card::TargetBoth(c) => c.stars,
                Card::MultiAction(c) => c.stars,
                Card::PlayersRollsDice(c) => c.stars,
                Card::Pearth(c) => c.stars,
                Card::ComplexEffect(c) => c.base.stars,
            },
    {
        match self {
            Card::Basic(c) => c.stars,
            Card::MultiHit(c) => c.stars,
            Card::TargetBoth(c) => c.stars,
            Card::MultiAction(c) => c.stars,
            Card::PlayersRollsDice(c) => c.stars,
            Card::Pearth(c) => c.stars,
            Card::ComplexEffect(c) => c.base.stars,
        }
    }

    /// Target type; the Pearth card targets all players, variants without one target a single player.
    #[verifier::allow_in_spec]
    pub fn get_target_type(&self) -> TargetType
        returns
            match self {
                Card::Basic(c) => c.target_type,
                Card::TargetBoth(c) => c.target_type,
                Card::PlayersRollsDice(c) => c.target_type,
                Card::Pearth(_) => TargetType::All,
                Card::ComplexEffect(c) => c.base.target_type,
                _ => TargetType::Single,
            },
    {
        match self {
            Card::Basic(c) => c.target_type,
            Card::TargetBoth(c) => c.target_type,
            Card::PlayersRollsDice(c) => c.target_type,
            Card::Pearth(_) => TargetType::All,
            Card::ComplexEffect(c) => c.base.target_type,
            _ => TargetType::Single,
        }
    }

    pub fn get_damage_effect(&self) -> (r: EffectId)
        ensures
            r@ == damage_effect_of(self.get_element()),
    {
        match self.get_element() {
            Element::Air => String::from_str("damage_air_regular"),
            Element::Earth => String::from_str("damage_earth_regular"),
            Element::Fire => String::from_str("damage_fire_regular"),
            Element::Water => String::from_str("damage_water_regular"),
        }
    }

    pub fn get_heal_effect(&self) -> (r: EffectId)
        ensures
            r@ == heal_effect(),
    {
        String::from_str("heal_regular")
    }

    /// The buffs that the card grants to its player when played
    /// (the Pearth and complex effect variants grant none).
    pub open spec fn spec_buffs(&self) -> Seq<Rc<BuffInfo>> {
        match self {
            Card::Basic(c) => c.buffs@,
            Card::MultiHit(c) => c.buffs@,
            Card::TargetBoth(c) => c.buffs@,
            Card::MultiAction(c) => c.buffs@,
            Card::PlayersRollsDice(c) => c.buffs@,
            _ => Seq::empty(),
        }
    }
}


impl MultiActionCard {
    /// Attack value of action `i` (0 when the card gives none).
    pub open spec fn action_attack(&self, i: int) -> u32 {
        if 0 <= i < self.attacks.len() { self.attacks@[i] } else { 0 }
    }

    pub open spec fn action_heal(&self, i: int) -> u32 {
        if 0 <= i < self.heals.len() { self.heals@[i] } else { 0 }
    }

    pub open spec fn action_draw(&self, i: int) -> u32 {
        if 0 <= i < self.draws.len() { self.draws@[i] } else { 0 }
    }

    /// Target type of action `i` (a single target when the card gives none).
    pub open spec fn action_target_type(&self, i: int) -> TargetType {
        if 0 <= i < self.target_types.len() { self.target_types@[i] } else { TargetType::Single }
    }

    pub open spec fn action_attack_modifier(&self, i: int) -> Option<ModifierInfo> {
        if 0 <= i < self.attack_modifiers.len() { self.attack_modifiers@[i] } else { None }
    }

    pub open spec fn action_heal_modifier(&self, i: int) -> Option<ModifierInfo> {
        if 0 <= i < self.heal_modifiers.len() { self.heal_modifiers@[i] } else { None }
    }

    pub open spec fn action_draw_modifier(&self, i: int) -> Option<ModifierInfo> {
        if 0 <= i < self.draw_modifiers.len() { self.draw_modifiers@[i] } else { None }
    }

    /// Action `i` takes no targets: it does not attack, and heals or draws.
    pub open spec fn action_no_targets(&self, i: int) -> bool {
        &&& self.action_attack(i) == 0
        &&& self.action_attack_modifier(i) is None
        &&& (self.action_heal(i) > 0 || self.action_heal_modifier(i) is Some || self.action_draw(i) > 0
            || self.action_draw_modifier(i) is Some)
    }

    pub fn get_attack_for_action(&self, i: usize) -> (r: u32)
        ensures
            r == self.action_attack(i as int),
    {
        if i < self.attacks.len() { self.attacks[i] } else { 0 }
    }

    pub fn get_heal_for_action(&self, i: usize) -> (r: u32)
        ensures
            r == self.action_heal(i as int),
    {
        if i < self.heals.len() { self.heals[i] } else { 0 }
    }

    pub fn get_draw_for_action(&self, i: usize) -> (r: u32)
        ensures
            r == self.action_draw(i as int),
    {
        if i < self.draws.len() { self.draws[i] } else { 0 }
    }

    pub fn get_target_type_for_action(&self, i: usize) -> (r: TargetType)
        ensures
            r == self.action_target_type(i as int),
    {
        if i < self.target_types.len() { self.target_types[i] } else { TargetType::Single }
    }

    pub fn get_attack_modifier_for_action(&self, i: usize) -> (r: Option<ModifierInfo>)
        ensures
            r == self.action_attack_modifier(i as int),
    {
        if i < self.attack_modifiers.len() { self.attack_modifiers[i] } else { None }
    }

    pub fn get_heal_modifier_for_action(&self, i: usize) -> (r: Option<ModifierInfo>)
        ensures
            r == self.action_heal_modifier(i as int),
    {
        if i < self.heal_modifiers.len() { self.heal_modifiers[i] } else { None }
    }

    pub fn get_draw_modifier_for_action(&self, i: usize) -> (r: Option<ModifierInfo>)
        ensures
            r == self.action_draw_modifier(i as int),
    {
        if i < self.draw_modifiers.len() { self.draw_modifiers[i] } else { None }
    }
}

} // verus!
