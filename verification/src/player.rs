use vstd::prelude::*;
use std::rc::Rc;
use crate::card::{Card, EffectId};
use crate::buffs::BuffInfo;
use crate::play_info::{ActionTarget, ActionType, ActionTargetView, ActionTypeView};

verus! {

/// Health of a player when the game starts, and the most a heal restores to.
pub const PLAYER_MAX_HEALTH: i32 = 100;

pub type PlayerId = i32;

/// A player of a game, with its hand, its discarded cards and the buffs granted to it.
#[derive(Debug)]
pub struct Player {
    pub id: PlayerId,
    pub name: String,
    pub health: i32,
    pub hand_cards: Vec<Rc<Card>>,
    pub discard_cards: Vec<Rc<Card>>,
    pub buffs: Vec<Rc<BuffInfo>>,
}

/// Mathematical model of a player.
pub struct PlayerView {
    pub id: PlayerId,
    pub name: Seq<char>,
    pub health: i32,
    pub hand: Seq<Rc<Card>>,
    pub discard: Seq<Rc<Card>>,
    pub buffs: Seq<Rc<BuffInfo>>,
}

impl View for Player {
    type V = PlayerView;

    open spec fn view(&self) -> PlayerView {
        PlayerView {
            id: self.id,
            name: self.name@,
            health: self.health,
            hand: self.hand_cards@,
            discard: self.discard_cards@,
            buffs: self.buffs@,
        }
    }
}

/// Damage `amount` (read as an `i32`) can be taken from `health` without overflow.
pub open spec fn damage_defined(health: i32, amount: u32) -> bool {
    i32::MIN <= health - (amount as i32) <= i32::MAX
}

/// Health after taking damage `amount`: it never goes below 0.
pub open spec fn damaged_health(health: i32, amount: u32) -> i32 {
    if health - (amount as i32) < 0 { 0 } else { (health - (amount as i32)) as i32 }
}

/// Heal `amount` (read as an `i32`) can be added to `health` without overflow.
pub open spec fn heal_defined(health: i32, amount: u32) -> bool {
    i32::MIN <= health + (amount as i32) <= i32::MAX
}

/// Health after a heal of `amount`: it never goes above the maximum.
pub open spec fn healed_health(health: i32, amount: u32) -> i32 {
    if health + (amount as i32) > PLAYER_MAX_HEALTH { PLAYER_MAX_HEALTH } else { (health + (amount as i32)) as i32 }
}

impl PlayerView {
    pub open spec fn with_health(self, health: i32) -> PlayerView {
        PlayerView { health, ..self }
    }
}

impl Player {
    /// A player with full health, no cards and no buffs.
    pub fn new(id: PlayerId, name: String) -> (r: Self)
        ensures
            r@ == (PlayerView {
                id,
                name: name@,
                health: PLAYER_MAX_HEALTH,
                hand: Seq::empty(),
                discard: Seq::empty(),
                buffs: Seq::empty(),
            }),
    {
        Self {
            id,
            name,
            health: PLAYER_MAX_HEALTH,
            hand_cards: Vec::new(),
            discard_cards: Vec::new(),
            buffs: Vec::new(),
        }
    }

    /// Takes `amount` of health from the player (down to 0) and describes the attack.
    pub fn damage(&mut self, amount: u32, effect: EffectId) -> (r: ActionTarget)
        requires
            damage_defined(old(self).health, amount),
        ensures
            final(self)@ == old(self)@.with_health(damaged_health(old(self).health, amount)),
            r@ == (ActionTargetView {
                player_id: old(self).id,
                action: ActionTypeView::Attack { amount },
                effect: effect@,
            }),
    {
        let effective_damage = amount as i32;
        if self.health - effective_damage < 0 {
            self.health = 0;
        } else {
            self.health -= effective_damage;
        }
        assert(((amount as i32) as u32) == amount) by (bit_vector);
        ActionTarget {
            player_id: self.id,
            action: ActionType::Attack { amount: effective_damage as u32 },
            effect,
        }
    }

    /// Gives `amount` of health to the player (up to the maximum) and describes the heal.
    pub fn heal(&mut self, amount: u32, effect: EffectId) -> (r: ActionTarget)
        requires
            heal_defined(old(self).health, amount),
        ensures
            final(self)@ == old(self)@.with_health(healed_health(old(self).health, amount)),
            r@ == (ActionTargetView {
                player_id: old(self).id,
                action: ActionTypeView::Heal { amount },
                effect: effect@,
            }),
    {
        let effective_heal = amount as i32;
        if self.health + effective_heal > PLAYER_MAX_HEALTH {
            self.health = PLAYER_MAX_HEALTH;
        } else {
            self.health += effective_heal;
        }
        assert(((amount as i32) as u32) == amount) by (bit_vector);
        ActionTarget {
            player_id: self.id,
            action: ActionType::Heal { amount: effective_heal as u32 },
            effect,
        }
    }
}

} // verus!
