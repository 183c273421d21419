//! A play never changes who the players are: their number and their ids stay the same.
use vstd::prelude::*;
use crate::card::{Card, Element, Kind, Stars};
use crate::card_play::card_play;
use crate::complex_rules::{
    complex_effect_step, complex_effects_play, complex_play, move_picked, give_ids, steal_rounds, draw_for, hand_remove,
    hand_push,
};
use crate::exchange_card::ComplexEffect;
use crate::game_ops::finish_play;
use crate::modifiers::ModifierInfo;
use crate::player::{PlayerId, PlayerView};
use crate::rules::{
    PlayState, TargetStep, attack_hit, heal_hit, draw_hit, multi_hits, target_step, fold_targets, attack_phase,
    heal_phase, draw_phase, default_play,
};
use crate::special_cards::PlayersRollsDiceCardActionType;
use crate::variant_rules::{
    multi_action_step, multi_action_play, dice_effect_hit, dice_effect_hits, rolls_dice_play, pearth_play,
};

verus! {

/// The same number of players, with the same ids in the same order.
pub open spec fn same_ids(a: Seq<PlayerView>, b: Seq<PlayerView>) -> bool {
    &&& a.len() == b.len()
    &&& forall|k: int| 0 <= k < a.len() ==> (#[trigger] a[k]).id == b[k].id
}

pub proof fn lemma_hit_ids(s: PlayState, attacker: int, victim: int, mp: int, mt: int, who: int, base: u32,
    modifier: Option<ModifierInfo>, e: Element, k: Kind, st: Stars, dice: u8)
    requires
        0 <= victim < s.players.len(),
        0 <= who < s.players.len(),
    ensures
        attack_hit(s, attacker, victim, base, modifier, e, k, st, dice) matches Some(s1) ==> same_ids(s.players, s1.players),
        heal_hit(s, mp, mt, who, base, modifier, dice) matches Some(s1) ==> same_ids(s.players, s1.players),
        draw_hit(s, mp, mt, who, base, modifier, dice) matches Some(s1) ==> same_ids(s.players, s1.players),
{
}

pub proof fn lemma_multi_hits_ids(s: PlayState, attacker: int, victim: int, attacks: Seq<u32>, e: Element, k: Kind, st: Stars)
    requires
        0 <= victim < s.players.len(),
    ensures
        multi_hits(s, attacker, victim, attacks, e, k, st) matches Some((s1, _)) ==> same_ids(s.players, s1.players),
    decreases attacks.len(),
{
    if attacks.len() > 0 {
        lemma_multi_hits_ids(s, attacker, victim, attacks.drop_last(), e, k, st);
    }
}

pub proof fn lemma_fold_targets_ids(step: TargetStep, p: int, s: PlayState, targets: Seq<usize>)
    requires
        forall|i: int| 0 <= i < targets.len() ==> targets[i] < s.players.len(),
    ensures
        fold_targets(step, p, s, targets) matches Some(s1) ==> same_ids(s.players, s1.players),
    decreases targets.len(),
{
    if targets.len() > 0 {
        lemma_fold_targets_ids(step, p, s, targets.drop_last());
        match fold_targets(step, p, s, targets.drop_last()) {
            None => {},
            Some(s1) => {
                let t = targets.last();
                if s1.error is None && t != p {
                    match step {
                        TargetStep::Attack { base, modifier, element, kind, stars, dice } => {
                            lemma_hit_ids(s1, p, t as int, t as int, p, t as int, base, modifier, element, kind, stars, dice);
                        },
                        TargetStep::MultiHit { attacks, element, kind, stars } => {
                            lemma_multi_hits_ids(s1, p, t as int, attacks, element, kind, stars);
                        },
                        TargetStep::Heal { base, modifier, dice } => {
                            lemma_hit_ids(s1, p, t as int, t as int, p, t as int, base, modifier, Element::Fire, Kind::Spell, Stars::One, dice);
                        },
                        TargetStep::Draw { base, modifier, dice } => {
                            lemma_hit_ids(s1, p, t as int, t as int, t as int, t as int, base, modifier, Element::Fire, Kind::Spell, Stars::One, dice);
                        },
                    }
                }
            },
        }
    }
}

pub proof fn lemma_default_play_ids(card: Card, p: int, targets: Seq<usize>, dice: u8, s0: PlayState)
    requires
        0 <= p < s0.players.len(),
        forall|i: int| 0 <= i < targets.len() ==> targets[i] < s0.players.len(),
    ensures
        default_play(card, p, targets, dice, s0) matches Some(s1) ==> same_ids(s0.players, s1.players),
        attack_phase(card, p, targets, dice, s0) matches Some(s1) ==> same_ids(s0.players, s1.players),
        heal_phase(card, p, targets, dice, s0) matches Some(s1) ==> same_ids(s0.players, s1.players),
        draw_phase(card, p, targets, dice, s0) matches Some(s1) ==> same_ids(s0.players, s1.players),
{
    lemma_phases_ids(card, p, targets, dice, s0);
    let ts = crate::rules::effective_targets(card.get_target_type(), s0.players, p, targets);
    assert forall|i: int| 0 <= i < ts.len() implies ts[i] < s0.players.len() by {
        if !(ts =~= targets) {
            assert(ts == crate::rules::others(p, s0.players.len() as int));
        }
    }
    lemma_phases_ids(card, p, ts, dice, s0);
    match attack_phase(card, p, ts, dice, s0) {
        None => {},
        Some(s1) => {
            lemma_phases_ids(card, p, ts, dice, s1);
            match heal_phase(card, p, ts, dice, s1) {
                None => {},
                Some(s2) => {
                    lemma_phases_ids(card, p, ts, dice, s2);
                },
            }
        },
    }
}

pub proof fn lemma_phases_ids(card: Card, p: int, targets: Seq<usize>, dice: u8, s0: PlayState)
    requires
        0 <= p < s0.players.len(),
        forall|i: int| 0 <= i < targets.len() ==> targets[i] < s0.players.len(),
    ensures
        attack_phase(card, p, targets, dice, s0) matches Some(s1) ==> same_ids(s0.players, s1.players),
        heal_phase(card, p, targets, dice, s0) matches Some(s1) ==> same_ids(s0.players, s1.players),
        draw_phase(card, p, targets, dice, s0) matches Some(s1) ==> same_ids(s0.players, s1.players),
{
    let e = card.get_element();
    let k = card.get_kind();
    let st = card.get_stars();
    lemma_hit_ids(s0, p, p, p, p, p, card.get_attack(), card.get_attack_modifier(), e, k, st, dice);
    lemma_fold_targets_ids(crate::rules::attack_step(card, dice), p, s0, targets);
    match attack_hit(s0, p, p, card.get_attack(), card.get_attack_modifier(), e, k, st, dice) {
        None => {},
        Some(s1) => {
            lemma_fold_targets_ids(crate::rules::attack_step(card, dice), p, s1, targets);
        },
    }
    let hstep = TargetStep::Heal { base: card.get_heal(), modifier: card.get_heal_modifier(), dice };
    lemma_fold_targets_ids(hstep, p, s0, targets);
    lemma_hit_ids(s0, p, p, p, p, p, card.get_heal(), card.get_heal_modifier(), e, k, st, dice);
    match fold_targets(hstep, p, s0, targets) {
        None => {},
        Some(s1) => {
            lemma_hit_ids(s1, p, p, p, p, p, card.get_heal(), card.get_heal_modifier(), e, k, st, dice);
        },
    }
    let dstep = TargetStep::Draw { base: card.get_draw(), modifier: card.get_draw_modifier(), dice };
    lemma_fold_targets_ids(dstep, p, s0, targets);
    lemma_hit_ids(s0, p, p, p, p, p, card.get_draw(), card.get_draw_modifier(), e, k, st, dice);
    match fold_targets(dstep, p, s0, targets) {
        None => {},
        Some(s1) => {
            lemma_hit_ids(s1, p, p, p, p, p, card.get_draw(), card.get_draw_modifier(), e, k, st, dice);
        },
    }
}


pub proof fn lemma_multi_action_ids(card: Card, p: int, targets: Seq<usize>, rolls: Seq<u8>, s: PlayState, n: nat)
    requires
        card is MultiAction,
        0 <= p < s.players.len(),
        forall|i: int| 0 <= i < targets.len() ==> targets[i] < s.players.len(),
    ensures
        multi_action_play(card, p, targets, rolls, s, n) matches Some(s1) ==> same_ids(s.players, s1.players),
    decreases n,
{
    if n > 0 {
        lemma_multi_action_ids(card, p, targets, rolls, s, (n - 1) as nat);
        match multi_action_play(card, p, targets, rolls, s, (n - 1) as nat) {
            None => {},
            Some(s1) => {
                if s1.error is None {
                    let c = card->MultiAction_0;
                    let i = n - 1;
                    let ts = crate::variant_rules::action_targets(c, i, s1.players, p, targets);
                    assert forall|j: int| 0 <= j < ts.len() implies ts[j] < s1.players.len() by {
                        if !(ts =~= targets) {
                            assert(ts == crate::rules::others(p, s1.players.len() as int));
                        }
                    }
                    let s0 = PlayState { dice_used: false, ..s1 };
                    let step = TargetStep::Attack {
                        base: c.action_attack(i),
                        modifier: c.action_attack_modifier(i),
                        element: c.element,
                        kind: c.kind,
                        stars: c.stars,
                        dice: rolls[i],
                    };
                    lemma_fold_targets_ids(step, p, s0, ts);
                    let hb = if c.action_heal_modifier(i) is Some { card.get_heal() } else { c.action_heal(i) };
                    lemma_hit_ids(s0, p, p, p, p, p, hb, c.action_heal_modifier(i), c.element, c.kind, c.stars, rolls[i]);
                    lemma_hit_ids(s0, p, p, p, p, p, c.action_draw(i), c.action_draw_modifier(i), c.element, c.kind, c.stars, rolls[i]);
                    match fold_targets(step, p, s0, ts) {
                        None => {},
                        Some(sa) => {
                            lemma_hit_ids(sa, p, p, p, p, p, hb, c.action_heal_modifier(i), c.element, c.kind, c.stars, rolls[i]);
                            lemma_hit_ids(sa, p, p, p, p, p, c.action_draw(i), c.action_draw_modifier(i), c.element, c.kind, c.stars, rolls[i]);
                            match heal_hit(sa, p, p, p, hb, c.action_heal_modifier(i), rolls[i]) {
                                None => {},
                                Some(sh) => {
                                    lemma_hit_ids(sh, p, p, p, p, p, c.action_draw(i), c.action_draw_modifier(i), c.element, c.kind, c.stars, rolls[i]);
                                },
                            }
                        },
                    }
                    match heal_hit(s0, p, p, p, hb, c.action_heal_modifier(i), rolls[i]) {
                        None => {},
                        Some(sh) => {
                            lemma_hit_ids(sh, p, p, p, p, p, c.action_draw(i), c.action_draw_modifier(i), c.element, c.kind, c.stars, rolls[i]);
                        },
                    }
                }
            },
        }
    }
}

pub proof fn lemma_dice_hits_ids(kind: PlayersRollsDiceCardActionType, hits: Seq<(u32, int)>, e: Element, s: PlayState)
    requires
        forall|i: int| 0 <= i < hits.len() ==> 0 <= (#[trigger] hits[i]).1 < s.players.len(),
    ensures
        dice_effect_hits(kind, hits, e, s) matches Some((s1, _)) ==> same_ids(s.players, s1.players),
    decreases hits.len(),
{
    if hits.len() > 0 {
        lemma_dice_hits_ids(kind, hits.drop_last(), e, s);
    }
}

pub proof fn lemma_min_roll_hits_range(rolls: Seq<u8>, p: int, ts: Seq<usize>, m: u8, amount: u32, n: int)
    requires
        0 <= p < n,
        rolls.len() <= ts.len() + 1,
        forall|i: int| 0 <= i < ts.len() ==> ts[i] < n,
    ensures
        forall|i: int| 0 <= i < crate::variant_rules::min_roll_hits(rolls, p, ts, m, amount).len()
            ==> 0 <= (#[trigger] crate::variant_rules::min_roll_hits(rolls, p, ts, m, amount)[i]).1 < n,
    decreases rolls.len(),
{
    if rolls.len() > 0 {
        lemma_min_roll_hits_range(rolls.drop_last(), p, ts, m, amount, n);
        let j = rolls.len() - 1;
        if j > 0 {
            assert(ts[j - 1] < n);
        }
        assert(0 <= crate::variant_rules::roller(p, ts, j) < n);
        let prev = crate::variant_rules::min_roll_hits(rolls.drop_last(), p, ts, m, amount);
        let all = crate::variant_rules::min_roll_hits(rolls, p, ts, m, amount);
        assert forall|i: int| 0 <= i < all.len() implies 0 <= (#[trigger] all[i]).1 < n by {
            if i < prev.len() {
                assert(all[i] == prev[i]);
            }
        }
    }
}

pub proof fn lemma_rolls_dice_ids(card: Card, p: int, targets: Seq<usize>, rolls: Seq<u8>, s0: PlayState)
    requires
        card is PlayersRollsDice,
        0 <= p < s0.players.len(),
        forall|i: int| 0 <= i < targets.len() ==> targets[i] < s0.players.len(),
        rolls.len() > (if card->PlayersRollsDice_0.target_type == crate::card::TargetType::All {
            s0.players.len() - 1
        } else {
            targets.len() as int
        }),
    ensures
        rolls_dice_play(card, p, targets, rolls, s0) matches Some(s1) ==> same_ids(s0.players, s1.players),
{
    let c = card->PlayersRollsDice_0;
    let ts = if c.target_type == crate::card::TargetType::All { crate::rules::others(p, s0.players.len() as int) } else { targets };
    assert forall|i: int| 0 <= i < ts.len() implies ts[i] < s0.players.len() by {}
    let used = rolls.take(ts.len() + 1int);
    let s1 = PlayState { actions: s0.actions + crate::variant_rules::roll_actions(s0.players, p, ts, used), ..s0 };
    let hits = crate::variant_rules::dice_hits(c.dice_action, used, p, ts);
    match c.dice_action {
        crate::special_cards::PlayersRollsDiceCardAction::AffectsAllPlayers => {
            assert forall|i: int| 0 <= i < hits.len() implies 0 <= (#[trigger] hits[i]).1 < s1.players.len() by {}
        },
        _ => {
            lemma_min_roll_hits_range(used, p, ts, crate::variant_rules::rolls_min(used), crate::variant_rules::rolls_sum(used) as u32, s1.players.len() as int);
        },
    }
    lemma_dice_hits_ids(PlayersRollsDiceCardActionType::Attack, hits, c.element, s1);
    lemma_dice_hits_ids(PlayersRollsDiceCardActionType::Heal, hits, c.element, s1);
    lemma_dice_hits_ids(PlayersRollsDiceCardActionType::Draw, hits, c.element, s1);
}

pub proof fn lemma_move_picked_ids(players: Seq<PlayerView>, from: int, to: int, picks: Seq<usize>)
    requires
        0 <= from < players.len(),
        0 <= to < players.len(),
    ensures
        same_ids(players, move_picked(players, from, to, picks).0),
    decreases picks.len(),
{
    if picks.len() > 0 {
        lemma_move_picked_ids(players, from, to, picks.drop_last());
    }
}

pub proof fn lemma_give_ids_ids(players: Seq<PlayerView>, from: int, to: int, ids: Seq<i32>)
    requires
        0 <= from < players.len(),
        0 <= to < players.len(),
    ensures
        same_ids(players, give_ids(players, from, to, ids).0),
    decreases ids.len(),
{
    if ids.len() > 0 {
        lemma_give_ids_ids(players, from, to, ids.drop_last());
    }
}

pub proof fn lemma_steal_rounds_ids(players: Seq<PlayerView>, t: int, p: int, count: nat, log: Seq<Seq<usize>>)
    requires
        0 <= t < players.len(),
        0 <= p < players.len(),
    ensures
        same_ids(players, steal_rounds(players, t, p, count, log).0),
    decreases log.len(),
{
    if log.len() > 0 {
        lemma_steal_rounds_ids(players, t, p, count, log.drop_last());
    }
}

pub proof fn lemma_same_ids_trans(a: Seq<PlayerView>, b: Seq<PlayerView>, c: Seq<PlayerView>)
    requires
        same_ids(a, b),
        same_ids(b, c),
    ensures
        same_ids(a, c),
{
    assert forall|k: int| 0 <= k < a.len() implies (#[trigger] a[k]).id == c[k].id by {
        assert(a[k].id == b[k].id);
    }
}

pub proof fn lemma_complex_step_ids(card: Card, e: ComplexEffect, p: int, targets: Seq<usize>, log: Seq<Seq<usize>>, s: PlayState)
    requires
        0 <= p < s.players.len(),
        forall|i: int| 0 <= i < targets.len() ==> targets[i] < s.players.len(),
    ensures
        complex_effect_step(card, e, p, targets, log, s) matches Some(s1) ==> same_ids(s.players, s1.players),
{
    reveal(complex_effect_step);
    let name = crate::complex_rules::lowercase(card.spec_name());
    if targets.len() == 0 {
        return;
    }
    let t = targets[0] as int;
    match e {
        ComplexEffect::Steal { count, element, kind, stars } => {
            if name == "tornade"@ {
                if t != p && crate::player::damage_defined(s.players[t].health, 8) {
                    let tp = s.players[t];
                    let players1 = s.players.update(t, tp.with_health(crate::player::damaged_health(tp.health, 8)));
                    assert(same_ids(s.players, players1));
                    lemma_move_picked_ids(players1, t, p, crate::complex_rules::first_two_of(crate::complex_rules::first_pick(log)));
                    let players2 = move_picked(players1, t, p, crate::complex_rules::first_two_of(crate::complex_rules::first_pick(log))).0;
                    lemma_same_ids_trans(s.players, players1, players2);
                }
            } else {
                lemma_steal_rounds_ids(s.players, t, p, count as nat, log);
            }
        },
        ComplexEffect::Give => {
            if t == p {
            } else if name == "flambeau"@ {
                let damage = card.get_attack();
                let tp = s.players[t];
                let s1 = if damage > 0 {
                    PlayState { players: s.players.update(t, tp.with_health(crate::player::damaged_health(tp.health, damage))), ..s }
                } else {
                    s
                };
                assert(same_ids(s.players, s1.players));
                let hand = s1.players[p].hand;
                let pos = crate::complex_rules::first_named(hand, "flambeau"@);
                if pos < hand.len() {
                    let c = hand[pos];
                    let ps2 = hand_push(hand_remove(s1.players, p, pos), t, c);
                    assert(same_ids(s1.players, ps2));
                    lemma_same_ids_trans(s.players, s1.players, ps2);
                    let s2 = PlayState { players: ps2, ..s1 };
                    let s3 = draw_for(s2, p, 1);
                    assert(same_ids(ps2, s3.players));
                    lemma_same_ids_trans(s.players, ps2, s3.players);
                } else {
                    let s3 = draw_for(s1, p, 1);
                    assert(same_ids(s1.players, s3.players));
                    lemma_same_ids_trans(s.players, s1.players, s3.players);
                }
            } else if name == "airtichaut"@ {
                let pl = s.players[p];
                let nb = pl.hand.len();
                let amount = (nb * 5) as u32;
                let ps1 = if nb > 0 {
                    s.players.update(p, pl.with_health(crate::player::healed_health(pl.health, amount)))
                } else {
                    s.players
                };
                assert(same_ids(s.players, ps1));
                let hand = ps1[p].hand;
                let pos = crate::complex_rules::first_named(hand, "airtichaut"@);
                let others = if pos < hand.len() { hand.remove(pos) } else { hand };
                let ids = crate::complex_rules::sorted_desc(crate::rules::card_ids(others));
                lemma_give_ids_ids(ps1, p, t, ids);
                lemma_same_ids_trans(s.players, ps1, give_ids(ps1, p, t, ids).0);
            } else if name == "shuriken"@ {
                let picks = crate::complex_rules::desc_pair(crate::complex_rules::first_two_of(crate::complex_rules::first_pick(log)));
                lemma_move_picked_ids(s.players, p, t, picks);
                let (players1, given) = move_picked(s.players, p, t, picks);
                let s1 = PlayState { players: players1, actions: crate::complex_rules::record_give(s.actions, t, given), ..s };
                let s2 = draw_for(s1, p, 2);
                assert(same_ids(players1, s2.players));
                lemma_same_ids_trans(s.players, players1, s2.players);
            } else {
                let tp = s.players[t];
                let players1 = s.players.update(p, PlayerView { hand: Seq::empty(), ..s.players[p] });
                assert(same_ids(s.players, players1));
                let hand = s.players[p].hand;
                let pos = crate::complex_rules::first_named(hand, name);
                let kept = if pos < hand.len() { hand.remove(pos) } else { hand };
                let players2 = players1.update(t, PlayerView { hand: tp.hand + kept.reverse(), ..tp });
                assert(same_ids(players1, players2));
                lemma_same_ids_trans(s.players, players1, players2);
            }
        },
        ComplexEffect::Exchange => {},
    }
}

pub proof fn lemma_complex_effects_ids(card: Card, effects: Seq<ComplexEffect>, p: int, targets: Seq<usize>, logs: Seq<Seq<Seq<usize>>>, s: PlayState)
    requires
        0 <= p < s.players.len(),
        forall|i: int| 0 <= i < targets.len() ==> targets[i] < s.players.len(),
    ensures
        complex_effects_play(card, effects, p, targets, logs, s) matches Some(s1) ==> same_ids(s.players, s1.players),
    decreases effects.len(),
{
    if effects.len() > 0 {
        lemma_complex_effects_ids(card, effects.drop_last(), p, targets, logs, s);
        match complex_effects_play(card, effects.drop_last(), p, targets, logs, s) {
            None => {},
            Some(s1) => {
                lemma_complex_step_ids(card, effects.last(), p, targets, logs[effects.len() - 1], s1);
            },
        }
    }
}

/// A play never changes who the players are: after any play, there are as many players, with the
/// same ids in the same order.
pub proof fn law_play_keeps_players(card: Card, p: int, targets: Seq<usize>, rolls: Seq<u8>, logs: Seq<Seq<Seq<usize>>>, s0: PlayState)
    requires
        0 <= p < s0.players.len(),
        forall|i: int| 0 <= i < targets.len() ==> targets[i] < s0.players.len(),
        rolls.len() >= crate::card_play::rolls_needed(card, s0.players.len(), targets.len()),
    ensures
        card_play(card, p, targets, rolls, logs, s0) matches Some(s1) ==> same_ids(s0.players, s1.players),
{
    reveal(card_play);
    match card {
        Card::MultiAction(_) => {
            lemma_multi_action_ids(card, p, targets, rolls, s0, card->MultiAction_0.actions as nat);
        },
        Card::PlayersRollsDice(_) => {
            lemma_rolls_dice_ids(card, p, targets, rolls, s0);
        },
        Card::Pearth(_) => {},
        Card::ComplexEffect(c) => {
            lemma_phases_ids(card, p, targets, rolls[0], s0);
            match attack_phase(card, p, targets, rolls[0], s0) {
                None => {},
                Some(s1) => {
                    lemma_phases_ids(card, p, targets, rolls[0], s1);
                    match heal_phase(card, p, targets, rolls[0], s1) {
                        None => {},
                        Some(s2) => {
                            lemma_phases_ids(card, p, targets, rolls[0], s2);
                            match draw_phase(card, p, targets, rolls[0], s2) {
                                None => {},
                                Some(s3) => {
                                    lemma_complex_effects_ids(card, c.complex_effects@, p, targets, logs, s3);
                                },
                            }
                        },
                    }
                },
            }
        },
        _ => {
            lemma_default_play_ids(card, p, targets, rolls[0], s0);
        },
    }
}

/// Finishing a play (discarding the card, updating buffs) keeps the players and their ids.
pub proof fn law_finish_keeps_players(players: Seq<PlayerView>, p: int, card_index: int, used: Set<usize>)
    requires
        0 <= p < players.len(),
    ensures
        finish_play(players, p, card_index, used) matches Some(ps) ==> same_ids(players, ps),
{
}

} // verus!
