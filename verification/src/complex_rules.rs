//! How a complex effect card changes the game, over the players' models.
//! The random choices of a play are given as lists of shuffled indices: the list of an effect holds
//! one shuffled list per random choice the effect made, in order.
use vstd::prelude::*;
use std::rc::Rc;
use crate::card::{Card, CardId};
use crate::exchange_card::ComplexEffect;
use crate::complex_play::{is_shuffled_range, index_range, lemma_shuffled_bound};
use crate::play_info::{ActionTargetView, ActionTypeView, PlayActionView};
use crate::player::{PlayerView, damage_defined, damaged_health, heal_defined, healed_health};
use crate::rules::{
    PlayState, PlayError, attack_phase, heal_phase, draw_phase, target_count_accepted, heal_only, card_ids,
    give_count,
};

verus! {

/// What `str::to_lowercase` gives for a string.
pub uninterp spec fn lowercase(s: Seq<char>) -> Seq<char>;

/// `str::to_lowercase`: the string in lower case, by the Unicode rules of the standard library.
/// Its result is named `lowercase`; nothing more is stated of it.
#[verifier::external_body]
pub(crate) fn to_lowercase(s: &str) -> (r: String)
    ensures
        r@ == lowercase(s@),
{
    s.to_lowercase()
}

/// Player `w` without the card at `i` of its hand.
pub open spec fn hand_remove(players: Seq<PlayerView>, w: int, i: int) -> Seq<PlayerView> {
    players.update(w, PlayerView { hand: players[w].hand.remove(i), ..players[w] })
}

/// Player `w` with card `c` added at the end of its hand.
pub open spec fn hand_push(players: Seq<PlayerView>, w: int, c: Rc<Card>) -> Seq<PlayerView> {
    players.update(w, PlayerView { hand: players[w].hand.push(c), ..players[w] })
}

/// An action without dice roll and with one target.
pub open spec fn single_action(t: ActionTargetView) -> PlayActionView {
    PlayActionView { dice_roll: 0u8, player_dice_id: -1i32, targets: seq![t] }
}

/// Target of an action moving cards, as the card records it: the player's position (taken as an
/// `i32`), the ids of the cards and the effect.
pub open spec fn moved_target(index: int, ids: Seq<CardId>, effect: Seq<char>) -> ActionTargetView {
    ActionTargetView { player_id: index as i32, action: ActionTypeView::Steal { cards: ids }, effect }
}

/// Moves the cards at `picks` of `from`'s hand, in order, to the end of `to`'s hand; a position
/// past the end of the hand (as it is then) is skipped. Gives the ids of the cards moved.
pub open spec fn move_picked(players: Seq<PlayerView>, from: int, to: int, picks: Seq<usize>) -> (Seq<PlayerView>, Seq<CardId>)
    decreases picks.len(),
{
    if picks.len() == 0 {
        (players, Seq::empty())
    } else {
        let (ps, ids) = move_picked(players, from, to, picks.drop_last());
        let i = picks.last() as int;
        if i < ps[from].hand.len() {
            let c = ps[from].hand[i];
            (hand_push(hand_remove(ps, from, i), to, c), ids.push(c.get_id()))
        } else {
            (ps, ids)
        }
    }
}

/// Position of the first card of `hand` whose lower-case name is `name` (the length when none is).
pub open spec fn first_named(hand: Seq<Rc<Card>>, name: Seq<char>) -> int
    decreases hand.len(),
{
    if hand.len() == 0 {
        0
    } else if lowercase(hand[0].spec_name()) == name {
        0
    } else {
        1 + first_named(hand.drop_first(), name)
    }
}

/// Position of the first card of `hand` with id `id` (the length when none is).
pub open spec fn first_with_id(hand: Seq<Rc<Card>>, id: CardId) -> int
    decreases hand.len(),
{
    if hand.len() == 0 {
        0
    } else if hand[0].get_id() == id {
        0
    } else {
        1 + first_with_id(hand.drop_first(), id)
    }
}

/// For each id in order, moves the first card of `from`'s hand with that id (when there is one) to
/// the end of `to`'s hand. Gives the ids of the cards moved.
pub open spec fn give_ids(players: Seq<PlayerView>, from: int, to: int, ids: Seq<CardId>) -> (Seq<PlayerView>, Seq<CardId>)
    decreases ids.len(),
{
    if ids.len() == 0 {
        (players, Seq::empty())
    } else {
        let (ps, given) = give_ids(players, from, to, ids.drop_last());
        let i = first_with_id(ps[from].hand, ids.last());
        if i < ps[from].hand.len() {
            let c = ps[from].hand[i];
            (hand_push(hand_remove(ps, from, i), to, c), given.push(c.get_id()))
        } else {
            (ps, given)
        }
    }
}

/// `x` placed in the list `s` sorted from largest to smallest.
pub open spec fn insert_desc(s: Seq<CardId>, x: CardId) -> Seq<CardId>
    decreases s.len(),
{
    if s.len() == 0 {
        seq![x]
    } else if x >= s[0] {
        seq![x] + s
    } else {
        seq![s[0]] + insert_desc(s.drop_first(), x)
    }
}

/// The ids sorted from largest to smallest.
pub open spec fn sorted_desc(s: Seq<CardId>) -> Seq<CardId>
    decreases s.len(),
{
    if s.len() == 0 {
        Seq::empty()
    } else {
        insert_desc(sorted_desc(s.drop_last()), s.last())
    }
}

/// Two positions, the largest first.
pub open spec fn desc_pair(s: Seq<usize>) -> Seq<usize> {
    if s.len() == 2 && s[0] < s[1] { seq![s[1], s[0]] } else { s }
}

/// The first two positions of a list (the whole list when it is shorter).
pub open spec fn first_two_of(s: Seq<usize>) -> Seq<usize> {
    if s.len() < 2 { s } else { s.take(2) }
}

/// The first shuffled list of an effect (empty when it has none).
pub open spec fn first_pick(log: Seq<Seq<usize>>) -> Seq<usize> {
    if log.len() > 0 { log[0] } else { Seq::empty() }
}

/// State after `k` rounds of a steal: each round takes the card at the first position of its shuffled
/// list from `t`'s hand to the end of `p`'s hand; the steal ends after `count` cards or when `t`'s
/// hand is empty (or a shuffled list has no valid first position). Gives the players, the ids stolen
/// and whether the steal ended.
pub open spec fn steal_rounds(players: Seq<PlayerView>, t: int, p: int, count: nat, log: Seq<Seq<usize>>) -> (Seq<PlayerView>, Seq<CardId>, bool)
    decreases log.len(),
{
    if log.len() == 0 {
        (players, Seq::empty(), count == 0 || players[t].hand.len() == 0)
    } else {
        let (ps, ids, ended) = steal_rounds(players, t, p, count, log.drop_last());
        if ended {
            (ps, ids, true)
        } else {
            let pick = log.last();
            if pick.len() == 0 || pick[0] >= ps[t].hand.len() {
                (ps, ids, true)
            } else {
                let c = ps[t].hand[pick[0] as int];
                let ps1 = hand_push(hand_remove(ps, t, pick[0] as int), p, c);
                let ids1 = ids.push(c.get_id());
                (ps1, ids1, ids1.len() == count || ps1[t].hand.len() == 0)
            }
        }
    }
}

/// The player draws `amount` cards (recorded with the player's position and effect "draw").
pub open spec fn draw_for(s: PlayState, p: int, amount: usize) -> PlayState {
    let n = give_count(s.pile.len(), amount);
    let drawn = s.pile.take(n as int);
    let pl = s.players[p];
    PlayState {
        players: s.players.update(p, PlayerView { hand: pl.hand + drawn, ..pl }),
        pile: s.pile.skip(n as int),
        actions: if n > 0 {
            s.actions.push(
                single_action(
                    ActionTargetView { player_id: p as i32, action: ActionTypeView::Draw { cards: card_ids(drawn) }, effect: "draw"@ },
                ),
            )
        } else {
            s.actions
        },
        ..s
    }
}

/// The cards moved by a give are recorded with the target's position and effect "give", when there are some.
pub open spec fn record_give(actions: Seq<PlayActionView>, t: int, given: Seq<CardId>) -> Seq<PlayActionView> {
    if given.len() > 0 { actions.push(single_action(moved_target(t, given, "give"@))) } else { actions }
}

/// One complex effect of `card`, played by `p` on `targets`, with the shuffled lists `log` of its
/// random choices. `None` where the play panics or overflows.
#[verifier::opaque]
pub open spec fn complex_effect_step(card: Card, e: ComplexEffect, p: int, targets: Seq<usize>, log: Seq<Seq<usize>>, s: PlayState) -> Option<PlayState> {
    let name = lowercase(card.spec_name());
    match e {
        ComplexEffect::Steal { count, element, kind, stars } => if targets.len() == 0 {
            None
        } else if name == "tornade"@ {
            let t = targets[0] as int;
            if t == p {
                Some(s.with_error(PlayError::TargetIsPlayer))
            } else if !damage_defined(s.players[t].health, 8) {
                None
            } else {
                let tp = s.players[t];
                let players1 = s.players.update(t, tp.with_health(damaged_health(tp.health, 8)));
                let actions1 = s.actions.push(
                    single_action(ActionTargetView { player_id: tp.id, action: ActionTypeView::Attack { amount: 8 }, effect: "tornade_damage"@ }),
                );
                let (players2, stolen) = move_picked(players1, t, p, first_two_of(first_pick(log)));
                Some(
                    PlayState {
                        players: players2,
                        actions: if stolen.len() > 0 {
                            actions1.push(single_action(moved_target(p, stolen, "steal"@)))
                        } else {
                            actions1
                        },
                        ..s
                    },
                )
            }
        } else {
            let t = targets[0] as int;
            if s.players[t].hand.len() == 0 {
                Some(s)
            } else if element is Some || kind is Some || stars is Some {
                None
            } else {
                let (players1, stolen, _) = steal_rounds(s.players, t, p, count as nat, log);
                Some(
                    PlayState {
                        players: players1,
                        actions: s.actions.push(single_action(moved_target(p, stolen, "steal"@))),
                        ..s
                    },
                )
            }
        },
        ComplexEffect::Give => if targets.len() == 0 {
            None
        } else {
            let t = targets[0] as int;
            if t == p {
                Some(s.with_error(PlayError::TargetIsPlayer))
            } else if name == "flambeau"@ {
                let damage = card.get_attack();
                let tp = s.players[t];
                if damage > 0 && !damage_defined(tp.health, damage) {
                    None
                } else {
                    let s1 = if damage > 0 {
                        PlayState {
                            players: s.players.update(t, tp.with_health(damaged_health(tp.health, damage))),
                            actions: s.actions.push(
                                single_action(
                                    ActionTargetView { player_id: tp.id, action: ActionTypeView::Attack { amount: damage }, effect: "flambeau_damage"@ },
                                ),
                            ),
                            ..s
                        }
                    } else {
                        s
                    };
                    let hand = s1.players[p].hand;
                    let pos = first_named(hand, "flambeau"@);
                    let s2 = if pos < hand.len() {
                        let c = hand[pos];
                        PlayState {
                            players: hand_push(hand_remove(s1.players, p, pos), t, c),
                            actions: s1.actions.push(single_action(moved_target(t, seq![c.get_id()], "give"@))),
                            ..s1
                        }
                    } else {
                        s1
                    };
                    Some(draw_for(s2, p, 1))
                }
            } else if name == "airtichaut"@ {
                let pl = s.players[p];
                let nb = pl.hand.len();
                let amount = (nb * 5) as u32;
                if nb > 0 && (nb * 5 > usize::MAX || !heal_defined(pl.health, amount)) {
                    None
                } else {
                    let s1 = if nb > 0 {
                        PlayState {
                            players: s.players.update(p, pl.with_health(healed_health(pl.health, amount))),
                            actions: s.actions.push(
                                single_action(
                                    ActionTargetView { player_id: pl.id, action: ActionTypeView::Heal { amount }, effect: "airtichaut_heal"@ },
                                ),
                            ),
                            ..s
                        }
                    } else {
                        s
                    };
                    let hand = s1.players[p].hand;
                    let pos = first_named(hand, "airtichaut"@);
                    let others = if pos < hand.len() { hand.remove(pos) } else { hand };
                    let (players2, given) = give_ids(s1.players, p, t, sorted_desc(card_ids(others)));
                    Some(PlayState { players: players2, actions: record_give(s1.actions, t, given), ..s1 })
                }
            } else if name == "shuriken"@ {
                let (players1, given) = move_picked(s.players, p, t, desc_pair(first_two_of(first_pick(log))));
                let s1 = PlayState { players: players1, actions: record_give(s.actions, t, given), ..s };
                Some(draw_for(s1, p, 2))
            } else {
                let hand = s.players[p].hand;
                let pos = first_named(hand, name);
                let kept = if pos < hand.len() { hand.remove(pos) } else { hand };
                let to_give = kept.reverse();
                let tp = s.players[t];
                let players1 = s.players.update(p, PlayerView { hand: Seq::empty(), ..s.players[p] }).update(
                    t,
                    PlayerView { hand: tp.hand + to_give, ..tp },
                );
                Some(PlayState { players: players1, actions: record_give(s.actions, t, card_ids(to_give)), ..s })
            }
        },
        ComplexEffect::Exchange => None,
    }
}

/// The complex effects in order, effect `k` with the shuffled lists `logs[k]`; an error stops them.
pub open spec fn complex_effects_play(card: Card, effects: Seq<ComplexEffect>, p: int, targets: Seq<usize>, logs: Seq<Seq<Seq<usize>>>, s: PlayState) -> Option<PlayState>
    decreases effects.len(),
{
    if effects.len() == 0 {
        Some(s)
    } else {
        match complex_effects_play(card, effects.drop_last(), p, targets, logs, s) {
            None => None,
            Some(s1) => if s1.error is Some {
                Some(s1)
            } else {
                complex_effect_step(card, effects.last(), p, targets, logs[effects.len() - 1], s1)
            },
        }
    }
}


/// `v` is a shuffle of the positions `0..n`.
pub open spec fn is_shuffle_of(v: Seq<usize>, n: int) -> bool {
    v.len() == n && is_shuffled_range(v)
}

/// The shuffled lists of a steal from another player's hand of `hand_len` cards: one per card taken,
/// as many as `count` allows and the hand holds, each a shuffle of the hand as it is then.
pub open spec fn steal_log_fits(hand_len: int, count: int, log: Seq<Seq<usize>>) -> bool {
    &&& log.len() == (if count <= hand_len { count } else { hand_len })
    &&& forall|j: int| 0 <= j < log.len() ==> is_shuffle_of(#[trigger] log[j], hand_len - j)
}

/// The shuffled lists that complex effect `e` of `card` draws in state `s`: a steal draws one per
/// card taken (`count` of the unchanging hand when the player steals from itself), tornade one of
/// the target's hand, shuriken one of the player's hand; the other effects draw none.
pub open spec fn effect_log_fits(card: Card, e: ComplexEffect, p: int, targets: Seq<usize>, log: Seq<Seq<usize>>, s: PlayState) -> bool {
    let name = lowercase(card.spec_name());
    match e {
        ComplexEffect::Steal { count, element, kind, stars } => if targets.len() == 0 {
            log.len() == 0
        } else if name == "tornade"@ {
            let t = targets[0] as int;
            if t == p { log.len() == 0 } else { log.len() == 1 && is_shuffle_of(log[0], s.players[t].hand.len() as int) }
        } else {
            let t = targets[0] as int;
            let h = s.players[t].hand.len() as int;
            if h == 0 {
                log.len() == 0
            } else if t == p {
                &&& log.len() == count
                &&& forall|j: int| 0 <= j < log.len() ==> is_shuffle_of(#[trigger] log[j], h)
            } else {
                steal_log_fits(h, count as int, log)
            }
        },
        ComplexEffect::Give => if targets.len() == 0 || targets[0] as int == p {
            log.len() == 0
        } else if name == "shuriken"@ {
            log.len() == 1 && is_shuffle_of(log[0], s.players[p].hand.len() as int)
        } else {
            log.len() == 0
        },
        ComplexEffect::Exchange => log.len() == 0,
    }
}

/// Each complex effect that is played (until an error stops them) draws the shuffled lists it
/// should, effect `k` the lists `logs[k]`.
pub open spec fn effects_logs_fit(card: Card, effects: Seq<ComplexEffect>, p: int, targets: Seq<usize>, logs: Seq<Seq<Seq<usize>>>, s: PlayState) -> bool
    decreases effects.len(),
{
    if effects.len() == 0 {
        true
    } else {
        &&& effects_logs_fit(card, effects.drop_last(), p, targets, logs, s)
        &&& match complex_effects_play(card, effects.drop_last(), p, targets, logs, s) {
            Some(s1) => s1.error is Some || (effects.len() - 1 < logs.len()
                && effect_log_fits(card, effects.last(), p, targets, logs[effects.len() - 1], s1)),
            None => true,
        }
    }
}

/// The complex effects of a complex effect card's play draw the shuffled lists they should.
pub open spec fn complex_logs_fit(card: Card, p: int, targets: Seq<usize>, dice: u8, logs: Seq<Seq<Seq<usize>>>, s0: PlayState) -> bool {
    if !target_count_accepted(heal_only(card), card.get_target_type(), targets.len()) {
        true
    } else {
        match attack_phase(card, p, targets, dice, s0) {
            None => true,
            Some(s1) => match heal_phase(card, p, targets, dice, s1) {
                None => true,
                Some(s2) => match draw_phase(card, p, targets, dice, s2) {
                    None => true,
                    Some(s3) => s3.error is Some || effects_logs_fit(card, card->ComplexEffect_0.complex_effects@, p, targets, logs, s3),
                },
            },
        }
    }
}

/// Two lists of shuffled lists that agree on the effects played check the same.
pub proof fn lemma_effects_fit_logs(card: Card, effects: Seq<ComplexEffect>, p: int, targets: Seq<usize>, logs1: Seq<Seq<Seq<usize>>>, logs2: Seq<Seq<Seq<usize>>>, s: PlayState)
    requires
        logs1.len() >= effects.len(),
        logs2.len() >= effects.len(),
        forall|k: int| 0 <= k < effects.len() ==> logs1[k] == logs2[k],
    ensures
        effects_logs_fit(card, effects, p, targets, logs1, s) == effects_logs_fit(card, effects, p, targets, logs2, s),
    decreases effects.len(),
{
    if effects.len() > 0 {
        lemma_effects_fit_logs(card, effects.drop_last(), p, targets, logs1, logs2, s);
        lemma_complex_effects_logs(card, effects.drop_last(), p, targets, logs1, logs2, s);
    }
}

/// Play of a complex effect card with one dice roll: target check, attack of each target given,
/// heal and draw of the player, then the complex effects.
pub open spec fn complex_play(card: Card, p: int, targets: Seq<usize>, dice: u8, logs: Seq<Seq<Seq<usize>>>, s0: PlayState) -> Option<PlayState> {
    if !target_count_accepted(heal_only(card), card.get_target_type(), targets.len()) {
        Some(s0.with_error(PlayError::InvalidTargetCount))
    } else {
        match attack_phase(card, p, targets, dice, s0) {
            None => None,
            Some(s1) => match heal_phase(card, p, targets, dice, s1) {
                None => None,
                Some(s2) => match draw_phase(card, p, targets, dice, s2) {
                    None => None,
                    Some(s3) => if s3.error is Some {
                        Some(s3)
                    } else {
                        complex_effects_play(card, card->ComplexEffect_0.complex_effects@, p, targets, logs, s3)
                    },
                },
            },
        }
    }
}


pub proof fn lemma_complex_effects_logs(card: Card, effects: Seq<ComplexEffect>, p: int, targets: Seq<usize>, logs1: Seq<Seq<Seq<usize>>>, logs2: Seq<Seq<Seq<usize>>>, s: PlayState)
    requires
        forall|k: int| 0 <= k < effects.len() ==> logs1[k] == logs2[k],
    ensures
        complex_effects_play(card, effects, p, targets, logs1, s) == complex_effects_play(card, effects, p, targets, logs2, s),
    decreases effects.len(),
{
    if effects.len() > 0 {
        lemma_complex_effects_logs(card, effects.drop_last(), p, targets, logs1, logs2, s);
    }
}

pub proof fn lemma_complex_effects_prefix(card: Card, effects: Seq<ComplexEffect>, p: int, targets: Seq<usize>, logs: Seq<Seq<Seq<usize>>>, s: PlayState, i: int)
    requires
        0 <= i <= effects.len(),
        complex_effects_play(card, effects, p, targets, logs, s) is Some,
    ensures
        complex_effects_play(card, effects.take(i), p, targets, logs, s) is Some,
    decreases effects.len(),
{
    if i == effects.len() {
        assert(effects.take(i) =~= effects);
    } else {
        lemma_complex_effects_prefix(card, effects.drop_last(), p, targets, logs, s, i);
        assert(effects.drop_last().take(i) =~= effects.take(i));
    }
}

pub proof fn lemma_complex_effects_error(card: Card, effects: Seq<ComplexEffect>, p: int, targets: Seq<usize>, logs: Seq<Seq<Seq<usize>>>, s: PlayState, i: int, s1: PlayState)
    requires
        0 <= i <= effects.len(),
        complex_effects_play(card, effects.take(i), p, targets, logs, s) == Some(s1),
        s1.error is Some,
    ensures
        complex_effects_play(card, effects, p, targets, logs, s) == Some(s1),
    decreases effects.len(),
{
    if i == effects.len() {
        assert(effects.take(i) =~= effects);
    } else {
        assert(effects.drop_last().take(i) =~= effects.take(i));
        lemma_complex_effects_error(card, effects.drop_last(), p, targets, logs, s, i, s1);
    }
}


/// Once an effect stops the play with an error, the effects after it draw nothing more.
pub proof fn lemma_effects_fit_error(card: Card, effects: Seq<ComplexEffect>, p: int, targets: Seq<usize>, logs: Seq<Seq<Seq<usize>>>, s: PlayState, i: int, s1: PlayState)
    requires
        0 <= i <= effects.len(),
        complex_effects_play(card, effects.take(i), p, targets, logs, s) == Some(s1),
        s1.error is Some,
        effects_logs_fit(card, effects.take(i), p, targets, logs, s),
    ensures
        effects_logs_fit(card, effects, p, targets, logs, s),
    decreases effects.len(),
{
    if i == effects.len() {
        assert(effects.take(i) =~= effects);
    } else {
        assert(effects.drop_last().take(i) =~= effects.take(i));
        lemma_effects_fit_error(card, effects.drop_last(), p, targets, logs, s, i, s1);
        lemma_complex_effects_error(card, effects.drop_last(), p, targets, logs, s, i, s1);
    }
}


/// The positions of a shuffle are distinct.
pub proof fn lemma_shuffle_distinct(v: Seq<usize>)
    requires
        is_shuffled_range(v),
        v.len() <= usize::MAX,
    ensures
        v.no_duplicates(),
{
    let r = index_range(v.len());
    assert forall|i: int, j: int| 0 <= i < r.len() && 0 <= j < r.len() && i != j implies r[i] != r[j] by {
        assert(r[i] == i as usize && r[j] == j as usize);
    }
    assert(r.no_duplicates());
    r.lemma_multiset_has_no_duplicates();
    v.lemma_multiset_has_no_duplicates_conv();
}

/// After `log.len()` rounds of a steal from another player holding `h` cards, each round with a
/// shuffle of the hand as it then is, as many cards were taken and the hand lost as many.
pub proof fn lemma_steal_rounds_count(players: Seq<PlayerView>, t: int, p: int, count: nat, log: Seq<Seq<usize>>)
    requires
        0 <= t < players.len(),
        0 <= p < players.len(),
        t != p,
        log.len() <= count,
        log.len() <= players[t].hand.len(),
        forall|j: int| 0 <= j < log.len() ==> is_shuffle_of(#[trigger] log[j], players[t].hand.len() - j),
    ensures
        steal_rounds(players, t, p, count, log).0.len() == players.len(),
        steal_rounds(players, t, p, count, log).1.len() == log.len(),
        steal_rounds(players, t, p, count, log).0[t].hand.len() == players[t].hand.len() - log.len(),
        steal_rounds(players, t, p, count, log).2 == (log.len() == count || log.len() == players[t].hand.len()),
    decreases log.len(),
{
    if log.len() > 0 {
        let d = log.drop_last();
        assert forall|j: int| 0 <= j < d.len() implies is_shuffle_of(#[trigger] d[j], players[t].hand.len() - j) by {
            assert(d[j] == log[j]);
        }
        lemma_steal_rounds_count(players, t, p, count, d);
        let pick = log.last();
        assert(pick == log[log.len() - 1]);
        lemma_shuffled_bound(pick, 0);
    }
}

/// A steal from another player's hand of `h` cards with the shuffles it draws takes
/// `min(count, h)` cards.
pub proof fn law_steal_takes(players: Seq<PlayerView>, t: int, p: int, count: nat, log: Seq<Seq<usize>>)
    requires
        0 <= t < players.len(),
        0 <= p < players.len(),
        t != p,
        steal_log_fits(players[t].hand.len() as int, count as int, log),
    ensures
        steal_rounds(players, t, p, count, log).1.len() == (if count <= players[t].hand.len() { count } else { players[t].hand.len() }),
        steal_rounds(players, t, p, count, log).0[t].hand.len() + steal_rounds(players, t, p, count, log).1.len()
            == players[t].hand.len(),
{
    lemma_steal_rounds_count(players, t, p, count, log);
}

/// Moving picks of another player's hand: each pick is at a position of the hand as it then is when
/// the picks are decreasing positions of the hand; with the first two of a shuffle, at least the
/// first card moves.
pub proof fn lemma_move_picked_count(players: Seq<PlayerView>, from: int, to: int, picks: Seq<usize>)
    requires
        0 <= from < players.len(),
        0 <= to < players.len(),
        from != to,
    ensures
        move_picked(players, from, to, picks).0.len() == players.len(),
        move_picked(players, from, to, picks).1.len() <= picks.len(),
        move_picked(players, from, to, picks).0[from].hand.len() + move_picked(players, from, to, picks).1.len()
            == players[from].hand.len(),
        (forall|a: int, b: int| 0 <= a < b < picks.len() ==> picks[a] > picks[b])
            && (picks.len() > 0 ==> picks[0] < players[from].hand.len())
            ==> move_picked(players, from, to, picks).1.len() == picks.len(),
        picks.len() > 0 && picks[0] < players[from].hand.len() ==> move_picked(players, from, to, picks).1.len() >= 1,
    decreases picks.len(),
{
    if picks.len() > 0 {
        lemma_move_picked_count(players, from, to, picks.drop_last());
        let d = picks.drop_last();
        if d.len() > 0 {
            assert(d[0] == picks[0]);
        }
        if (forall|a: int, b: int| 0 <= a < b < picks.len() ==> picks[a] > picks[b]) && picks[0] < players[from].hand.len() {
            assert forall|a: int, b: int| 0 <= a < b < d.len() implies d[a] > d[b] by {
                assert(d[a] == picks[a] && d[b] == picks[b]);
            }
            if picks.len() > 1 {
                assert(picks[0] > picks[picks.len() - 1]);
                assert forall|a: int| 0 <= a < d.len() implies d[a] >= picks.last() + (d.len() - a) by {
                    if a < d.len() - 1 {
                        lemma_decreasing_gap(picks, a, d.len() as int);
                    }
                }
                assert(d[0] >= picks.last() + d.len());
            }
        }
    }
}

proof fn lemma_decreasing_gap(picks: Seq<usize>, a: int, b: int)
    requires
        forall|x: int, y: int| 0 <= x < y < picks.len() ==> picks[x] > picks[y],
        0 <= a < b < picks.len(),
    ensures
        picks[a] >= picks[b] + (b - a),
    decreases b - a,
{
    if b - a > 1 {
        lemma_decreasing_gap(picks, a + 1, b);
        assert(picks[a] > picks[a + 1]);
    }
}

/// Tornade takes at least one card of a target holding some, and at most two.
pub proof fn law_tornade_takes(players: Seq<PlayerView>, t: int, p: int, perm: Seq<usize>)
    requires
        0 <= t < players.len(),
        0 <= p < players.len(),
        t != p,
        is_shuffle_of(perm, players[t].hand.len() as int),
    ensures
        move_picked(players, t, p, first_two_of(perm)).1.len() <= 2,
        move_picked(players, t, p, first_two_of(perm)).1.len() <= players[t].hand.len(),
        players[t].hand.len() > 0 ==> move_picked(players, t, p, first_two_of(perm)).1.len() >= 1,
{
    lemma_move_picked_count(players, t, p, first_two_of(perm));
    if players[t].hand.len() > 0 {
        lemma_shuffled_bound(perm, 0);
        assert(first_two_of(perm)[0] == perm[0]);
    }
}

/// Shuriken gives the target two cards of the player's hand, or all of it when it holds fewer.
pub proof fn law_shuriken_gives(players: Seq<PlayerView>, p: int, t: int, perm: Seq<usize>)
    requires
        0 <= t < players.len(),
        0 <= p < players.len(),
        t != p,
        is_shuffle_of(perm, players[p].hand.len() as int),
        players[p].hand.len() <= usize::MAX,
    ensures
        move_picked(players, p, t, desc_pair(first_two_of(perm))).1.len()
            == (if players[p].hand.len() < 2 { players[p].hand.len() as int } else { 2 }),
{
    let picks = desc_pair(first_two_of(perm));
    if perm.len() >= 2 {
        lemma_shuffle_distinct(perm);
        lemma_shuffled_bound(perm, 0);
        lemma_shuffled_bound(perm, 1);
        assert(perm[0] != perm[1]);
        assert(picks.len() == 2);
        assert(picks[0] > picks[1]);
    } else if perm.len() == 1 {
        lemma_shuffled_bound(perm, 0);
        assert(picks =~= perm);
    } else {
        assert(picks.len() == 0);
    }
    lemma_move_picked_count(players, p, t, picks);
}

} // verus!
