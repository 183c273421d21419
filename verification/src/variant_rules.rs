//! How the multi-action, dice-rolling and Pearth cards change the game, over the players' models.
use vstd::prelude::*;
use std::rc::Rc;
use crate::card::{Card, MultiActionCard, TargetType, Element, damage_effect_of, heal_effect};
use crate::play_info::{ActionTargetView, ActionTypeView, PlayActionView};
use crate::player::{PlayerView, damage_defined, damaged_health, heal_defined, healed_health};
use crate::rules::{
    PlayState, PlayError, TargetStep, fold_targets, heal_hit, draw_hit, others, has_target_all,
    target_count_accepted, heal_only, give_count, with_cards, card_ids,
};
use crate::special_cards::{PlayersRollsDiceCardAction, PlayersRollsDiceCardActionType};

verus! {

/// The targets of action `i` of a multi-action card: every other player when the action targets all
/// players or the player holds a "target all" buff, else the targets given.
pub open spec fn action_targets(c: MultiActionCard, i: int, players: Seq<PlayerView>, p: int, targets: Seq<usize>) -> Seq<usize> {
    if c.action_target_type(i) == TargetType::All || has_target_all(players[p].buffs) {
        others(p, players.len() as int)
    } else {
        targets
    }
}

/// Action `i` of a multi-action card, with its own dice roll: target check, attack of each target,
/// heal and draw of the player. A heal modifier starts from the card's heal value (0 for this variant).
pub open spec fn multi_action_step(card: Card, p: int, targets: Seq<usize>, dice: u8, i: int, s: PlayState) -> Option<PlayState> {
    let c = card->MultiAction_0;
    let ts = action_targets(c, i, s.players, p, targets);
    if !target_count_accepted(c.action_no_targets(i), c.action_target_type(i), ts.len()) {
        Some(s.with_error(PlayError::InvalidTargetCount))
    } else {
        let s0 = PlayState { dice_used: false, ..s };
        let attacked = if c.action_attack(i) > 0 || c.action_attack_modifier(i) is Some {
            fold_targets(
                TargetStep::Attack {
                    base: c.action_attack(i),
                    modifier: c.action_attack_modifier(i),
                    element: c.element,
                    kind: c.kind,
                    stars: c.stars,
                    dice,
                },
                p,
                s0,
                ts,
            )
        } else {
            Some(s0)
        };
        match attacked {
            None => None,
            Some(s1) => if s1.error is Some {
                Some(s1)
            } else {
                let healed = if c.action_heal(i) > 0 || c.action_heal_modifier(i) is Some {
                    heal_hit(
                        s1,
                        p,
                        p,
                        p,
                        if c.action_heal_modifier(i) is Some { card.get_heal() } else { c.action_heal(i) },
                        c.action_heal_modifier(i),
                        dice,
                    )
                } else {
                    Some(s1)
                };
                match healed {
                    None => None,
                    Some(s2) => if c.action_draw(i) > 0 || c.action_draw_modifier(i) is Some {
                        draw_hit(s2, p, p, p, c.action_draw(i), c.action_draw_modifier(i), dice)
                    } else {
                        Some(s2)
                    },
                }
            },
        }
    }
}

/// The first `n` actions of a multi-action card, action `i` with dice roll `rolls[i]`;
/// an error stops the play.
pub open spec fn multi_action_play(card: Card, p: int, targets: Seq<usize>, rolls: Seq<u8>, s: PlayState, n: nat) -> Option<PlayState>
    decreases n,
{
    if n == 0 {
        Some(s)
    } else {
        match multi_action_play(card, p, targets, rolls, s, (n - 1) as nat) {
            None => None,
            Some(s1) => if s1.error is Some {
                Some(s1)
            } else {
                multi_action_step(card, p, targets, rolls[n - 1], n - 1, s1)
            },
        }
    }
}

pub proof fn lemma_multi_action_prefix(card: Card, p: int, targets: Seq<usize>, rolls: Seq<u8>, s: PlayState, n: nat, k: nat)
    requires
        k <= n,
        multi_action_play(card, p, targets, rolls, s, n) is Some,
    ensures
        multi_action_play(card, p, targets, rolls, s, k) is Some,
    decreases n,
{
    if k < n {
        lemma_multi_action_prefix(card, p, targets, rolls, s, (n - 1) as nat, k);
    }
}

pub proof fn lemma_multi_action_error(card: Card, p: int, targets: Seq<usize>, rolls: Seq<u8>, s: PlayState, n: nat, k: nat, s1: PlayState)
    requires
        k <= n,
        multi_action_play(card, p, targets, rolls, s, k) == Some(s1),
        s1.error is Some,
    ensures
        multi_action_play(card, p, targets, rolls, s, n) == Some(s1),
    decreases n,
{
    if k < n {
        lemma_multi_action_error(card, p, targets, rolls, s, (n - 1) as nat, k, s1);
    }
}

/// Number of cards discarded by all the players.
pub open spec fn total_discards(players: Seq<PlayerView>) -> nat
    decreases players.len(),
{
    if players.len() == 0 {
        0
    } else {
        total_discards(players.drop_last()) + players.last().discard.len()
    }
}

/// The Pearth card heals the player by the number of cards discarded by all the players
/// (the count taken as a `u32`). `None` when the count does not fit in a `usize` or the heal overflows.
pub open spec fn pearth_play(p: int, s: PlayState) -> Option<PlayState> {
    let amount = total_discards(s.players) as u32;
    let h = s.players[p];
    if total_discards(s.players) > usize::MAX || !heal_defined(h.health, amount) {
        None
    } else {
        Some(
            PlayState {
                players: s.players.update(p, h.with_health(healed_health(h.health, amount))),
                actions: s.actions.push(
                    PlayActionView {
                        dice_roll: 0u8,
                        player_dice_id: -1i32,
                        targets: seq![ActionTargetView { player_id: h.id, action: ActionTypeView::Heal { amount }, effect: heal_effect() }],
                    },
                ),
                ..s
            },
        )
    }
}

/// Player `who` is affected by `amount` of the dice card's effect; gives the new players, the new pile
/// and the target of the action.
pub open spec fn dice_effect_hit(
    kind: PlayersRollsDiceCardActionType,
    amount: u32,
    who: int,
    element: Element,
    players: Seq<PlayerView>,
    pile: Seq<Rc<Card>>,
) -> Option<(Seq<PlayerView>, Seq<Rc<Card>>, ActionTargetView)> {
    let pl = players[who];
    match kind {
        PlayersRollsDiceCardActionType::Attack => if damage_defined(pl.health, amount) {
            Some(
                (
                    players.update(who, pl.with_health(damaged_health(pl.health, amount))),
                    pile,
                    ActionTargetView { player_id: pl.id, action: ActionTypeView::Attack { amount }, effect: damage_effect_of(element) },
                ),
            )
        } else {
            None
        },
        PlayersRollsDiceCardActionType::Heal => if heal_defined(pl.health, amount) {
            Some(
                (
                    players.update(who, pl.with_health(healed_health(pl.health, amount))),
                    pile,
                    ActionTargetView { player_id: pl.id, action: ActionTypeView::Heal { amount }, effect: heal_effect() },
                ),
            )
        } else {
            None
        },
        PlayersRollsDiceCardActionType::Draw => {
            let n = give_count(pile.len(), amount as usize);
            let drawn = pile.take(n as int);
            Some(
                (
                    players.update(who, with_cards(pl, drawn)),
                    pile.skip(n as int),
                    ActionTargetView { player_id: pl.id, action: ActionTypeView::Draw { cards: card_ids(drawn) }, effect: Seq::empty() },
                ),
            )
        },
    }
}

/// Each `(amount, player)` in order is affected by the dice card's effect; gives the targets of the action.
pub open spec fn dice_effect_hits(
    kind: PlayersRollsDiceCardActionType,
    hits: Seq<(u32, int)>,
    element: Element,
    s: PlayState,
) -> Option<(PlayState, Seq<ActionTargetView>)>
    decreases hits.len(),
{
    if hits.len() == 0 {
        Some((s, Seq::empty()))
    } else {
        match dice_effect_hits(kind, hits.drop_last(), element, s) {
            None => None,
            Some((s1, tv)) => match dice_effect_hit(kind, hits.last().0, hits.last().1, element, s1.players, s1.pile) {
                None => None,
                Some((players, pile, t)) => Some((PlayState { players, pile, ..s1 }, tv.push(t))),
            },
        }
    }
}

pub proof fn lemma_dice_effect_hits_keeps(
    kind: PlayersRollsDiceCardActionType,
    hits: Seq<(u32, int)>,
    element: Element,
    s: PlayState,
)
    requires
        dice_effect_hits(kind, hits, element, s) is Some,
    ensures
        ({
            let s2 = dice_effect_hits(kind, hits, element, s).unwrap().0;
            &&& s2.actions == s.actions
            &&& s2.error == s.error
            &&& s2.dice_used == s.dice_used
            &&& s2.buffs_used == s.buffs_used
        }),
    decreases hits.len(),
{
    if hits.len() > 0 {
        lemma_dice_effect_hits_keeps(kind, hits.drop_last(), element, s);
    }
}

pub proof fn lemma_dice_effect_hits_prefix(
    kind: PlayersRollsDiceCardActionType,
    hits: Seq<(u32, int)>,
    element: Element,
    s: PlayState,
    i: int,
)
    requires
        0 <= i <= hits.len(),
        dice_effect_hits(kind, hits, element, s) is Some,
    ensures
        dice_effect_hits(kind, hits.take(i), element, s) is Some,
    decreases hits.len(),
{
    if i == hits.len() {
        assert(hits.take(i) =~= hits);
    } else {
        lemma_dice_effect_hits_prefix(kind, hits.drop_last(), element, s, i);
        assert(hits.drop_last().take(i) =~= hits.take(i));
    }
}

/// The player rolling roll `j`: the player itself for the first roll, then each target in order.
pub open spec fn roller(p: int, ts: Seq<usize>, j: int) -> int {
    if j == 0 { p } else { ts[j - 1] as int }
}

/// The dice roll actions shown before the effect: one per roll, in order.
pub open spec fn roll_actions(players: Seq<PlayerView>, p: int, ts: Seq<usize>, rolls: Seq<u8>) -> Seq<PlayActionView> {
    Seq::new(
        (ts.len() + 1) as nat,
        |j: int| PlayActionView { dice_roll: rolls[j], player_dice_id: players[roller(p, ts, j)].id, targets: Seq::empty() },
    )
}

/// Sum of the rolls.
pub open spec fn rolls_sum(rolls: Seq<u8>) -> nat
    decreases rolls.len(),
{
    if rolls.len() == 0 { 0 } else { rolls_sum(rolls.drop_last()) + (rolls.last() as nat) }
}

/// Lowest roll (the first roll of a list that has one).
pub open spec fn rolls_min(rolls: Seq<u8>) -> u8
    decreases rolls.len(),
{
    if rolls.len() <= 1 {
        rolls[0]
    } else if rolls.last() < rolls_min(rolls.drop_last()) {
        rolls.last()
    } else {
        rolls_min(rolls.drop_last())
    }
}

/// `(amount, roller)` for each roll equal to `m`, in order.
pub open spec fn min_roll_hits(rolls: Seq<u8>, p: int, ts: Seq<usize>, m: u8, amount: u32) -> Seq<(u32, int)>
    decreases rolls.len(),
{
    if rolls.len() == 0 {
        Seq::empty()
    } else {
        let prev = min_roll_hits(rolls.drop_last(), p, ts, m, amount);
        if rolls.last() == m { prev.push((amount, roller(p, ts, rolls.len() - 1))) } else { prev }
    }
}

/// Who is affected, and by how much, for the rolls of the player and of its targets.
pub open spec fn dice_hits(action: PlayersRollsDiceCardAction, rolls: Seq<u8>, p: int, ts: Seq<usize>) -> Seq<(u32, int)> {
    match action {
        PlayersRollsDiceCardAction::AffectsAllPlayers => Seq::new(
            rolls.len(),
            |j: int| (rolls[j] as u32, roller(p, ts, j)),
        ),
        PlayersRollsDiceCardAction::AffectsMinRollPlayersRollsSum => min_roll_hits(
            rolls,
            p,
            ts,
            rolls_min(rolls),
            rolls_sum(rolls) as u32,
        ),
    }
}

/// Play of a dice-rolling card: target check, then the player and each target roll the dice
/// (`rolls[0]` for the player, then one per target), each roll is shown, and the card's effect
/// (attack, else heal, else draw) is applied as its dice action says.
pub open spec fn rolls_dice_play(card: Card, p: int, targets: Seq<usize>, rolls: Seq<u8>, s0: PlayState) -> Option<PlayState> {
    let c = card->PlayersRollsDice_0;
    if !target_count_accepted(heal_only(card), c.target_type, targets.len()) {
        Some(s0.with_error(PlayError::InvalidTargetCount))
    } else {
        let ts = if c.target_type == TargetType::All { others(p, s0.players.len() as int) } else { targets };
        let used_rolls = rolls.take(ts.len() + 1int);
        let s1 = PlayState { actions: s0.actions + roll_actions(s0.players, p, ts, used_rolls), ..s0 };
        let kind = if c.attack {
            Some(PlayersRollsDiceCardActionType::Attack)
        } else if c.heal {
            Some(PlayersRollsDiceCardActionType::Heal)
        } else if c.draw {
            Some(PlayersRollsDiceCardActionType::Draw)
        } else {
            None
        };
        match kind {
            None => Some(s1),
            Some(k) => if c.dice_action == PlayersRollsDiceCardAction::AffectsMinRollPlayersRollsSum
                && rolls_sum(used_rolls) > u32::MAX {
                None
            } else {
                match dice_effect_hits(k, dice_hits(c.dice_action, used_rolls, p, ts), c.element, s1) {
                None => None,
                Some((s2, tv)) => Some(
                    PlayState {
                        actions: s2.actions.push(PlayActionView { dice_roll: 0u8, player_dice_id: -1i32, targets: tv }),
                        ..s2
                    },
                ),
                }
            },
        }
    }
}

} // verus!
