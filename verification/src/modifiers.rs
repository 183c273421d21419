use vstd::prelude::*;
use std::rc::Rc;
use crate::card::{Card, Element};
use crate::eval::{EvalOp, spec_eval, eval_defined};
use crate::player::{Player, PlayerId, PlayerView};
use crate::rng::roll_dice;

verus! {

/// Result value limited to `cap`.
pub open spec fn capped(value: int, cap: u32) -> u32 {
    if value > cap { cap } else { value as u32 }
}

/// Number of cards of `element` in `hand`.
pub open spec fn count_element(hand: Seq<Rc<Card>>, element: Element) -> nat
    decreases hand.len(),
{
    if hand.len() == 0 {
        0
    } else {
        count_element(hand.drop_last(), element) + if hand.last().get_element() == element {
            1nat
        } else {
            0nat
        }
    }
}

pub proof fn lemma_count_element_bound(hand: Seq<Rc<Card>>, element: Element)
    ensures
        count_element(hand, element) <= hand.len(),
    decreases hand.len(),
{
    if hand.len() > 0 {
        lemma_count_element_bound(hand.drop_last(), element);
    }
}

/// Modifier changing the value with a dice roll.
#[derive(Clone, Copy, PartialEq, Eq, Structural, Debug)]
pub struct DiceRollModifier {
    pub dice_op: EvalOp,
    /// maximum value
    pub cap: u32,
    /// if true, returned id is from target (defends with dice), else id is from player (attacks with dice)
    pub target_throws_dice: bool,
}

/// Modifier changing the value with the hand size of the player or of its target.
#[derive(Clone, Copy, PartialEq, Eq, Structural, Debug)]
pub struct HandSizeModifier {
    pub hand_size_op: EvalOp,
    /// maximum value
    pub cap: u32,
    /// if true, the modifier does its calculation on the target's hand size, else on the player's hand size
    pub from_target: bool,
}

/// Modifier changing the value with the discard size of the player or of its target.
#[derive(Clone, Copy, PartialEq, Eq, Structural, Debug)]
pub struct DiscardSizeModifier {
    pub discard_size_op: EvalOp,
    /// maximum value
    pub cap: u32,
    /// if true, the modifier does its calculation on the target's discard size, else on the player's discard size
    pub from_target: bool,
}

/// Result value is based on the hand size and the dice roll (base value is ignored).
#[derive(Clone, Copy, PartialEq, Eq, Structural, Debug)]
pub struct HandAndDiceModifier {
    pub op: EvalOp,
    pub cap: u32,
    /// if true, returned id is from target (defends with dice), else id is from player (attacks with dice)
    pub target_throws_dice: bool,
    /// if true, the modifier does its calculation on the target's hand size, else on the player's hand size
    pub hand_from_target: bool,
}

/// Modifier tied to the number of cards matching a specific element in the hand of the player or its target.
#[derive(Clone, Copy, PartialEq, Eq, Structural, Debug)]
pub struct HandElementsCountModifier {
    pub element: Element,
    pub op: EvalOp,
    /// maximum value
    pub cap: u32,
    /// if true, the modifier does its calculation on the target's hand, else on the player's hand
    pub from_target: bool,
}

/// The different modifiers that cards can use.
#[derive(Clone, Copy, PartialEq, Eq, Structural, Debug)]
pub enum ModifierInfo {
    DiceRollModifier(DiceRollModifier),
    HandSizeModifier(HandSizeModifier),
    DiscardSizeModifier(DiscardSizeModifier),
    HandAndDiceModifier(HandAndDiceModifier),
    HandElementsCountModifier(HandElementsCountModifier),
}

/// Cap of a modifier when the card definition gives none.
pub fn default_cap() -> (r: u32)
    ensures
        r == u32::MAX,
{
    u32::MAX
}

/// Outcome of a modifier: the new value, the dice roll shown (0 when the dice is not used)
/// and the player throwing the dice (-1 when the dice is not used).
/// `None` when the calculation overflows.
pub open spec fn modifier_outcome(
    m: ModifierInfo,
    base_value: u32,
    player: PlayerView,
    target: PlayerView,
    dice_roll: u8,
) -> Option<(u32, u8, PlayerId)> {
    match m {
        ModifierInfo::DiceRollModifier(d) => if eval_defined(d.dice_op, base_value as int, dice_roll as int) {
            Some((
                capped(spec_eval(d.dice_op, base_value as int, dice_roll as int), d.cap),
                dice_roll,
                if d.target_throws_dice { target.id } else { player.id },
            ))
        } else {
            None
        },
        ModifierInfo::HandSizeModifier(h) => {
            let size = (if h.from_target { target.hand.len() } else { player.hand.len() }) as u32;
            if eval_defined(h.hand_size_op, base_value as int, size as int) {
                Some((capped(spec_eval(h.hand_size_op, base_value as int, size as int), h.cap), 0u8, -1i32))
            } else {
                None
            }
        },
        ModifierInfo::DiscardSizeModifier(h) => {
            let size = (if h.from_target { target.discard.len() } else { player.discard.len() }) as u32;
            if eval_defined(h.discard_size_op, base_value as int, size as int) {
                Some((capped(spec_eval(h.discard_size_op, base_value as int, size as int), h.cap), 0u8, -1i32))
            } else {
                None
            }
        },
        ModifierInfo::HandAndDiceModifier(h) => {
            let size = (if h.hand_from_target { target.hand.len() } else { player.hand.len() }) as u32;
            if eval_defined(h.op, size as int, dice_roll as int) {
                Some((
                    capped(spec_eval(h.op, size as int, dice_roll as int), h.cap),
                    dice_roll,
                    if h.target_throws_dice { target.id } else { player.id },
                ))
            } else {
                None
            }
        },
        ModifierInfo::HandElementsCountModifier(h) => {
            let count = (if h.from_target {
                count_element(target.hand, h.element)
            } else {
                count_element(player.hand, h.element)
            }) as u32;
            if eval_defined(h.op, base_value as int, count as int) {
                Some((capped(spec_eval(h.op, base_value as int, count as int), h.cap), 0u8, -1i32))
            } else {
                None
            }
        },
    }
}

fn count_hand_element(hand: &Vec<Rc<Card>>, element: Element) -> (r: usize)
    ensures
        r == count_element(hand@, element),
{
    let mut count: usize = 0;
    let mut i: usize = 0;
    while i < hand.len()
        invariant
            i <= hand.len(),
            count == count_element(hand@.take(i as int), element),
            count <= i,
        decreases hand.len() - i,
    {
        assert(hand@.take(i + 1).drop_last() =~= hand@.take(i as int));
        if hand[i].get_element() == element {
            count = count + 1;
        }
        i = i + 1;
    }
    assert(hand@.take(hand.len() as int) =~= hand@);
    count
}

fn cap_value(value: u32, cap: u32) -> (r: u32)
    ensures
        r == capped(value as int, cap),
{
    if value > cap { cap } else { value }
}

impl ModifierInfo {
    /// Returns the new value, the dice roll (if used) and the id of the player throwing the dice (if used),
    /// for the given dice roll. The target is not used for heal and draw.
    pub fn compute_with_dice(&self, base_value: u32, player: &Player, target: &Player, dice_roll: u8) -> (r: (u32, u8, PlayerId))
        requires
            modifier_outcome(*self, base_value, player@, target@, dice_roll) is Some,
        ensures
            Some(r) == modifier_outcome(*self, base_value, player@, target@, dice_roll),
    {
        match self {
            ModifierInfo::DiceRollModifier(m) => {
                let result = cap_value(m.dice_op.eval(base_value, dice_roll as u32), m.cap);
                (result, dice_roll, if m.target_throws_dice { target.id } else { player.id })
            },
            ModifierInfo::HandSizeModifier(m) => {
                let hand_size = (if m.from_target { target.hand_cards.len() } else { player.hand_cards.len() }) as u32;
                let result = cap_value(m.hand_size_op.eval(base_value, hand_size), m.cap);
                (result, 0, -1)
            },
            ModifierInfo::DiscardSizeModifier(m) => {
                let discard_size = (if m.from_target {
                    target.discard_cards.len()
                } else {
                    player.discard_cards.len()
                }) as u32;
                let result = cap_value(m.discard_size_op.eval(base_value, discard_size), m.cap);
                (result, 0, -1)
            },
            ModifierInfo::HandAndDiceModifier(m) => {
                let hand_size = (if m.hand_from_target {
                    target.hand_cards.len()
                } else {
                    player.hand_cards.len()
                }) as u32;
                let result = cap_value(m.op.eval(hand_size, dice_roll as u32), m.cap);
                (result, dice_roll, if m.target_throws_dice { target.id } else { player.id })
            },
            ModifierInfo::HandElementsCountModifier(m) => {
                let count = (if m.from_target {
                    count_hand_element(&target.hand_cards, m.element)
                } else {
                    count_hand_element(&player.hand_cards, m.element)
                }) as u32;
                let result = cap_value(m.op.eval(base_value, count), m.cap);
                (result, 0, -1)
            },
        }
    }

    /// Returns the new value, the dice roll (if used) and the id of the player throwing the dice (if used).
    /// Without a dice roll given, the dice is rolled here. The target is not used for heal and draw.
    pub fn compute(&self, base_value: u32, player: &Player, target: &Player, dice_roll: Option<u8>) -> (r: (u32, u8, PlayerId))
        requires
            forall|d: u8| 1 <= d <= 6 ==> (#[trigger] modifier_outcome(*self, base_value, player@, target@, d)) is Some,
            dice_roll matches Some(d) ==> modifier_outcome(*self, base_value, player@, target@, d) is Some,
        ensures
            dice_roll matches Some(d) ==> Some(r) == modifier_outcome(*self, base_value, player@, target@, d),
            dice_roll is None ==> exists|d: u8| 1 <= d <= 6 && Some(r) == modifier_outcome(*self, base_value, player@, target@, d),
    {
        let dice = match dice_roll {
            Some(d) => d,
            None => roll_dice(),
        };
        self.compute_with_dice(base_value, player, target, dice)
    }
}

} // verus!
