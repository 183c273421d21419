//! A play moves cards between the pile and the players but creates none: the cards of the game after
//! a play are among those before, and every play but a complex card's gift of its player's whole hand
//! keeps them all.
use vstd::prelude::*;
use vstd::multiset::Multiset;
use std::rc::Rc;
use crate::card::{Card, Element, Kind, Stars};
use crate::modifiers::ModifierInfo;
use crate::player::{PlayerId, PlayerView};
use crate::rules::{
    PlayState, TargetStep, attack_hit, heal_hit, draw_hit, multi_hits, fold_targets, with_cards, attack_phase, heal_phase,
    draw_phase, default_play, give_count, card_ids,
};
use crate::variant_rules::{multi_action_play, dice_effect_hit, dice_effect_hits, rolls_dice_play, pearth_play};
use crate::special_cards::PlayersRollsDiceCardActionType;
use crate::complex_rules::{
    move_picked, give_ids, first_with_id, first_named, steal_rounds, draw_for, hand_remove, hand_push, lowercase,
    complex_effect_step, complex_effects_play, first_two_of, first_pick, desc_pair, sorted_desc, record_give,
    single_action, moved_target,
};
use crate::exchange_card::ComplexEffect;
use crate::card_play::card_play;
use crate::complex_rules::complex_play;
use crate::game_ops::{finish_play, play_card_refusal, play_card_play, play_card_rolls, play_card_result};
use crate::game::Game;
use crate::game::players_view;
use crate::player::{damaged_health, healed_health};

verus! {

broadcast use vstd::seq_lib::group_to_multiset_ensures, vstd::multiset::group_multiset_axioms;

/// The cards a player holds: its hand and its discarded cards.
pub open spec fn held(p: PlayerView) -> Multiset<Rc<Card>> {
    (p.hand + p.discard).to_multiset()
}

/// The cards the players hold.
pub open spec fn players_cards(players: Seq<PlayerView>) -> Multiset<Rc<Card>>
    decreases players.len(),
{
    if players.len() == 0 {
        Multiset::empty()
    } else {
        players_cards(players.drop_last()).add(held(players.last()))
    }
}

/// Every card of the game: those the players hold and those of the pile.
pub open spec fn game_cards(s: PlayState) -> Multiset<Rc<Card>> {
    players_cards(s.players).add(s.pile.to_multiset())
}

/// The play from `s0` to `s1` kept every card of the game.
pub open spec fn keeps_cards(s0: PlayState, s1: PlayState) -> bool {
    game_cards(s0) == game_cards(s1)
}

/// Replacing a player changes the players' cards by what the two hold.
pub proof fn lemma_players_cards_update(players: Seq<PlayerView>, i: int, p: PlayerView)
    requires
        0 <= i < players.len(),
    ensures
        players_cards(players.update(i, p)).add(held(players[i])) == players_cards(players).add(held(p)),
    decreases players.len(),
{
    let u = players.update(i, p);
    let dl = players.drop_last();
    assert(players_cards(players) == players_cards(dl).add(held(players.last())));
    if i == players.len() - 1 {
        assert(u.drop_last() =~= dl);
        assert(u.last() == p);
        assert(players_cards(u) == players_cards(dl).add(held(p)));
        assert(players_cards(u).add(held(players[i])) =~= players_cards(players).add(held(p)));
    } else {
        lemma_players_cards_update(dl, i, p);
        assert(u.drop_last() =~= dl.update(i, p));
        assert(u.last() == players.last());
        assert(dl[i] == players[i]);
        assert(players_cards(u) == players_cards(dl.update(i, p)).add(held(players.last())));
        assert(players_cards(u).add(held(players[i])) =~= players_cards(players).add(held(p)));
    }
}

/// Replacing a player by one that holds the same cards keeps the players' cards.
pub proof fn lemma_same_held(players: Seq<PlayerView>, i: int, p: PlayerView)
    requires
        0 <= i < players.len(),
        held(p) == held(players[i]),
    ensures
        players_cards(players.update(i, p)) == players_cards(players),
{
    lemma_players_cards_update(players, i, p);
    let a = players_cards(players.update(i, p));
    let b = players_cards(players);
    assert forall|x: Rc<Card>| a.count(x) == b.count(x) by {
        assert(a.add(held(players[i])).count(x) == b.add(held(p)).count(x));
    }
    assert(a =~= b);
}

/// A player given cards holds them too.
pub proof fn lemma_held_with_cards(p: PlayerView, cards: Seq<Rc<Card>>)
    ensures
        held(with_cards(p, cards)) == held(p).add(cards.to_multiset()),
{
    vstd::seq_lib::lemma_multiset_commutative(p.hand + cards, p.discard);
    vstd::seq_lib::lemma_multiset_commutative(p.hand, cards);
    vstd::seq_lib::lemma_multiset_commutative(p.hand, p.discard);
    assert(held(with_cards(p, cards)) =~= held(p).add(cards.to_multiset()));
}

/// Drawing the top cards of the pile keeps the cards of the game.
pub proof fn lemma_draw_keeps(s: PlayState, d: int, n: int, s2: PlayState)
    requires
        0 <= d < s.players.len(),
        0 <= n <= s.pile.len(),
        s2.players == s.players.update(d, with_cards(s.players[d], s.pile.take(n))),
        s2.pile == s.pile.skip(n),
    ensures
        keeps_cards(s, s2),
{
    lemma_held_with_cards(s.players[d], s.pile.take(n));
    lemma_players_cards_update(s.players, d, with_cards(s.players[d], s.pile.take(n)));
    assert(s.pile.take(n) + s.pile.skip(n) =~= s.pile);
    vstd::seq_lib::lemma_multiset_commutative(s.pile.take(n), s.pile.skip(n));
    let d_new = with_cards(s.players[d], s.pile.take(n));
    let a = players_cards(s2.players);
    let b = players_cards(s.players);
    assert forall|x: Rc<Card>| #[trigger] game_cards(s).count(x) == game_cards(s2).count(x) by {
        assert(a.add(held(s.players[d])).count(x) == b.add(held(d_new)).count(x));
        assert(s.pile.to_multiset().count(x) == s.pile.take(n).to_multiset().count(x) + s2.pile.to_multiset().count(x));
    }
    assert(game_cards(s) =~= game_cards(s2));
}

/// Hits change health only: they keep the cards of the game; a draw moves cards from the pile.
pub proof fn lemma_hit_keeps(s: PlayState, attacker: int, victim: int, mp: int, mt: int, who: int, base: u32,
    modifier: Option<ModifierInfo>, e: Element, k: Kind, st: Stars, dice: u8)
    requires
        0 <= victim < s.players.len(),
        0 <= who < s.players.len(),
    ensures
        attack_hit(s, attacker, victim, base, modifier, e, k, st, dice) matches Some(s1) ==> keeps_cards(s, s1),
        heal_hit(s, mp, mt, who, base, modifier, dice) matches Some(s1) ==> keeps_cards(s, s1),
        draw_hit(s, mp, mt, who, base, modifier, dice) matches Some(s1) ==> keeps_cards(s, s1),
{
    lemma_same_held(s.players, victim, s.players[victim].with_health(0));
    let t = s.players[victim];
    match attack_hit(s, attacker, victim, base, modifier, e, k, st, dice) {
        Some(s1) => {
            let h = s1.players[victim].health;
            lemma_same_held(s.players, victim, t.with_health(h));
            assert(s1.players =~= s.players.update(victim, t.with_health(h)));
        },
        None => {},
    }
    let w = s.players[who];
    match heal_hit(s, mp, mt, who, base, modifier, dice) {
        Some(s1) => {
            let h = s1.players[who].health;
            lemma_same_held(s.players, who, w.with_health(h));
            assert(s1.players =~= s.players.update(who, w.with_health(h)));
        },
        None => {},
    }
    match draw_hit(s, mp, mt, who, base, modifier, dice) {
        Some(s1) => {
            let n = s.pile.len() - s1.pile.len();
            lemma_draw_keeps(s, who, n, s1);
        },
        None => {},
    }
}

/// The hits of a multi-hit card change health only.
pub proof fn lemma_multi_hits_keeps(s: PlayState, attacker: int, victim: int, attacks: Seq<u32>, e: Element, k: Kind, st: Stars)
    requires
        0 <= victim < s.players.len(),
    ensures
        multi_hits(s, attacker, victim, attacks, e, k, st) matches Some((s1, _)) ==> keeps_cards(s, s1) && s1.players.len() == s.players.len(),
    decreases attacks.len(),
{
    if attacks.len() > 0 {
        lemma_multi_hits_keeps(s, attacker, victim, attacks.drop_last(), e, k, st);
        match multi_hits(s, attacker, victim, attacks.drop_last(), e, k, st) {
            None => {},
            Some((s1, _)) => {
                match multi_hits(s, attacker, victim, attacks, e, k, st) {
                    None => {},
                    Some((s2, _)) => {
                        let t = s1.players[victim];
                        let h = s2.players[victim].health;
                        lemma_same_held(s1.players, victim, t.with_health(h));
                        assert(s2.players =~= s1.players.update(victim, t.with_health(h)));
                    },
                }
            },
        }
    }
}

/// Each target's hit keeps the cards of the game.
pub proof fn lemma_fold_targets_keeps(step: TargetStep, p: int, s: PlayState, targets: Seq<usize>)
    requires
        forall|i: int| 0 <= i < targets.len() ==> targets[i] < s.players.len(),
    ensures
        fold_targets(step, p, s, targets) matches Some(s1) ==> keeps_cards(s, s1) && s1.players.len() == s.players.len(),
    decreases targets.len(),
{
    if targets.len() > 0 {
        lemma_fold_targets_keeps(step, p, s, targets.drop_last());
        match fold_targets(step, p, s, targets.drop_last()) {
            None => {},
            Some(s1) => {
                let t = targets.last();
                if s1.error is None && t != p {
                    match step {
                        TargetStep::Attack { base, modifier, element, kind, stars, dice } => {
                            lemma_hit_keeps(s1, p, t as int, t as int, p, t as int, base, modifier, element, kind, stars, dice);
                        },
                        TargetStep::MultiHit { attacks, element, kind, stars } => {
                            lemma_multi_hits_keeps(s1, p, t as int, attacks, element, kind, stars);
                        },
                        TargetStep::Heal { base, modifier, dice } => {
                            lemma_hit_keeps(s1, p, t as int, t as int, p, t as int, base, modifier, Element::Fire, Kind::Spell, Stars::One, dice);
                        },
                        TargetStep::Draw { base, modifier, dice } => {
                            lemma_hit_keeps(s1, p, t as int, t as int, t as int, t as int, base, modifier, Element::Fire, Kind::Spell, Stars::One, dice);
                        },
                    }
                }
            },
        }
    }
}

/// The attack, heal and draw phases of a card keep the cards of the game.
pub proof fn lemma_phases_keeps(card: Card, p: int, targets: Seq<usize>, dice: u8, s0: PlayState)
    requires
        0 <= p < s0.players.len(),
        forall|i: int| 0 <= i < targets.len() ==> targets[i] < s0.players.len(),
    ensures
        attack_phase(card, p, targets, dice, s0) matches Some(s1) ==> keeps_cards(s0, s1) && s1.players.len() == s0.players.len(),
        heal_phase(card, p, targets, dice, s0) matches Some(s1) ==> keeps_cards(s0, s1) && s1.players.len() == s0.players.len(),
        draw_phase(card, p, targets, dice, s0) matches Some(s1) ==> keeps_cards(s0, s1) && s1.players.len() == s0.players.len(),
{
    let e = card.get_element();
    let k = card.get_kind();
    let st = card.get_stars();
    lemma_hit_keeps(s0, p, p, p, p, p, card.get_attack(), card.get_attack_modifier(), e, k, st, dice);
    lemma_fold_targets_keeps(crate::rules::attack_step(card, dice), p, s0, targets);
    match attack_hit(s0, p, p, card.get_attack(), card.get_attack_modifier(), e, k, st, dice) {
        None => {},
        Some(s1) => {
            lemma_fold_targets_keeps(crate::rules::attack_step(card, dice), p, s1, targets);
        },
    }
    let hstep = TargetStep::Heal { base: card.get_heal(), modifier: card.get_heal_modifier(), dice };
    lemma_fold_targets_keeps(hstep, p, s0, targets);
    lemma_hit_keeps(s0, p, p, p, p, p, card.get_heal(), card.get_heal_modifier(), e, k, st, dice);
    match fold_targets(hstep, p, s0, targets) {
        None => {},
        Some(s1) => {
            lemma_hit_keeps(s1, p, p, p, p, p, card.get_heal(), card.get_heal_modifier(), e, k, st, dice);
        },
    }
    let dstep = TargetStep::Draw { base: card.get_draw(), modifier: card.get_draw_modifier(), dice };
    lemma_fold_targets_keeps(dstep, p, s0, targets);
    lemma_hit_keeps(s0, p, p, p, p, p, card.get_draw(), card.get_draw_modifier(), e, k, st, dice);
    match fold_targets(dstep, p, s0, targets) {
        None => {},
        Some(s1) => {
            lemma_hit_keeps(s1, p, p, p, p, p, card.get_draw(), card.get_draw_modifier(), e, k, st, dice);
        },
    }
}

/// The play of a basic, multi-hit or target-both card keeps the cards of the game.
pub proof fn lemma_default_play_keeps(card: Card, p: int, targets: Seq<usize>, dice: u8, s0: PlayState)
    requires
        0 <= p < s0.players.len(),
        forall|i: int| 0 <= i < targets.len() ==> targets[i] < s0.players.len(),
    ensures
        default_play(card, p, targets, dice, s0) matches Some(s1) ==> keeps_cards(s0, s1),
{
    let ts = crate::rules::effective_targets(card.get_target_type(), s0.players, p, targets);
    assert forall|i: int| 0 <= i < ts.len() implies ts[i] < s0.players.len() by {
        if !(ts =~= targets) {
            assert(ts == crate::rules::others(p, s0.players.len() as int));
        }
    }
    lemma_phases_keeps(card, p, ts, dice, s0);
    match attack_phase(card, p, ts, dice, s0) {
        None => {},
        Some(s1) => {
            lemma_phases_keeps(card, p, ts, dice, s1);
            match heal_phase(card, p, ts, dice, s1) {
                None => {},
                Some(s2) => {
                    lemma_phases_keeps(card, p, ts, dice, s2);
                },
            }
        },
    }
}

/// The actions of a multi-action card keep the cards of the game.
pub proof fn lemma_multi_action_keeps(card: Card, p: int, targets: Seq<usize>, rolls: Seq<u8>, s: PlayState, n: nat)
    requires
        card is MultiAction,
        0 <= p < s.players.len(),
        forall|i: int| 0 <= i < targets.len() ==> targets[i] < s.players.len(),
    ensures
        multi_action_play(card, p, targets, rolls, s, n) matches Some(s1) ==> keeps_cards(s, s1) && s1.players.len() == s.players.len(),
    decreases n,
{
    if n > 0 {
        lemma_multi_action_keeps(card, p, targets, rolls, s, (n - 1) as nat);
        match multi_action_play(card, p, targets, rolls, s, (n - 1) as nat) {
            None => {},
            Some(s1) => {
                if s1.error is None {
                    let c = card->MultiAction_0;
                    let i = n - 1;
                    let ts = crate::variant_rules::action_targets(c, i, s1.players, p, targets);
                    assert forall|j: int| 0 <= j < ts.len() implies ts[j] < s1.players.len() by {
                        if !(ts =~= targets) {
                            assert(ts == crate::rules::others(p, s1.players.len() as int));
                        }
                    }
                    let s0 = PlayState { dice_used: false, ..s1 };
                    let step = TargetStep::Attack {
                        base: c.action_attack(i),
                        modifier: c.action_attack_modifier(i),
                        element: c.element,
                        kind: c.kind,
                        stars: c.stars,
                        dice: rolls[i],
                    };
                    lemma_fold_targets_keeps(step, p, s0, ts);
                    let hb = if c.action_heal_modifier(i) is Some { card.get_heal() } else { c.action_heal(i) };
                    lemma_hit_keeps(s0, p, p, p, p, p, hb, c.action_heal_modifier(i), c.element, c.kind, c.stars, rolls[i]);
                    lemma_hit_keeps(s0, p, p, p, p, p, c.action_draw(i), c.action_draw_modifier(i), c.element, c.kind, c.stars, rolls[i]);
                    match fold_targets(step, p, s0, ts) {
                        None => {},
                        Some(sa) => {
                            lemma_hit_keeps(sa, p, p, p, p, p, hb, c.action_heal_modifier(i), c.element, c.kind, c.stars, rolls[i]);
                            lemma_hit_keeps(sa, p, p, p, p, p, c.action_draw(i), c.action_draw_modifier(i), c.element, c.kind, c.stars, rolls[i]);
                            match heal_hit(sa, p, p, p, hb, c.action_heal_modifier(i), rolls[i]) {
                                None => {},
                                Some(sh) => {
                                    lemma_hit_keeps(sh, p, p, p, p, p, c.action_draw(i), c.action_draw_modifier(i), c.element, c.kind, c.stars, rolls[i]);
                                },
                            }
                        },
                    }
                    match heal_hit(s0, p, p, p, hb, c.action_heal_modifier(i), rolls[i]) {
                        None => {},
                        Some(sh) => {
                            lemma_hit_keeps(sh, p, p, p, p, p, c.action_draw(i), c.action_draw_modifier(i), c.element, c.kind, c.stars, rolls[i]);
                        },
                    }
                }
            },
        }
    }
}

/// The effects of a dice card keep the cards of the game: a draw moves cards from the pile.
pub proof fn lemma_dice_hits_keeps(kind: PlayersRollsDiceCardActionType, hits: Seq<(u32, int)>, e: Element, s: PlayState)
    requires
        forall|i: int| 0 <= i < hits.len() ==> 0 <= (#[trigger] hits[i]).1 < s.players.len(),
    ensures
        dice_effect_hits(kind, hits, e, s) matches Some((s1, _)) ==> keeps_cards(s, s1) && s1.players.len() == s.players.len(),
    decreases hits.len(),
{
    if hits.len() > 0 {
        lemma_dice_hits_keeps(kind, hits.drop_last(), e, s);
        match dice_effect_hits(kind, hits.drop_last(), e, s) {
            None => {},
            Some((s1, _)) => {
                let (amount, who) = hits.last();
                assert(hits.drop_last().len() < hits.len());
                assert(0 <= who < s1.players.len()) by {
                    assert(hits[hits.len() - 1] == hits.last());
                }
                let pl = s1.players[who];
                match dice_effect_hit(kind, amount, who, e, s1.players, s1.pile) {
                    None => {},
                    Some((players, pile, _)) => {
                        let s2 = PlayState { players, pile, ..s1 };
                        match kind {
                            PlayersRollsDiceCardActionType::Draw => {
                                let n = give_count(s1.pile.len(), amount as usize);
                                lemma_draw_keeps(s1, who, n as int, s2);
                            },
                            _ => {
                                lemma_same_held(s1.players, who, players[who]);
                                assert(players =~= s1.players.update(who, players[who]));
                            },
                        }
                    },
                }
            },
        }
    }
}

/// The play of a dice card keeps the cards of the game.
pub proof fn lemma_rolls_dice_keeps(card: Card, p: int, targets: Seq<usize>, rolls: Seq<u8>, s0: PlayState)
    requires
        card is PlayersRollsDice,
        0 <= p < s0.players.len(),
        forall|i: int| 0 <= i < targets.len() ==> targets[i] < s0.players.len(),
        rolls.len() > (if card->PlayersRollsDice_0.target_type == crate::card::TargetType::All {
            s0.players.len() - 1
        } else {
            targets.len() as int
        }),
    ensures
        rolls_dice_play(card, p, targets, rolls, s0) matches Some(s1) ==> keeps_cards(s0, s1),
{
    let c = card->PlayersRollsDice_0;
    let ts = if c.target_type == crate::card::TargetType::All { crate::rules::others(p, s0.players.len() as int) } else { targets };
    assert forall|i: int| 0 <= i < ts.len() implies ts[i] < s0.players.len() by {}
    let used = rolls.take(ts.len() + 1int);
    let s1 = PlayState { actions: s0.actions + crate::variant_rules::roll_actions(s0.players, p, ts, used), ..s0 };
    assert(keeps_cards(s0, s1));
    let hits = crate::variant_rules::dice_hits(c.dice_action, used, p, ts);
    match c.dice_action {
        crate::special_cards::PlayersRollsDiceCardAction::AffectsAllPlayers => {
            assert forall|i: int| 0 <= i < hits.len() implies 0 <= (#[trigger] hits[i]).1 < s1.players.len() by {}
        },
        _ => {
            crate::ids_law::lemma_min_roll_hits_range(used, p, ts, crate::variant_rules::rolls_min(used), crate::variant_rules::rolls_sum(used) as u32, s1.players.len() as int);
        },
    }
    lemma_dice_hits_keeps(PlayersRollsDiceCardActionType::Attack, hits, c.element, s1);
    lemma_dice_hits_keeps(PlayersRollsDiceCardActionType::Heal, hits, c.element, s1);
    lemma_dice_hits_keeps(PlayersRollsDiceCardActionType::Draw, hits, c.element, s1);
}

/// The Pearth card heals only.
pub proof fn lemma_pearth_keeps(p: int, s0: PlayState)
    requires
        0 <= p < s0.players.len(),
    ensures
        pearth_play(p, s0) matches Some(s1) ==> keeps_cards(s0, s1),
{
    match pearth_play(p, s0) {
        None => {},
        Some(s1) => {
            lemma_same_held(s0.players, p, s1.players[p]);
            assert(s1.players =~= s0.players.update(p, s1.players[p]));
        },
    }
}

/// Moving the card at `i` of `from`'s hand to the end of `to`'s hand keeps the players' cards.
pub proof fn lemma_move_one(ps: Seq<PlayerView>, from: int, to: int, i: int)
    requires
        0 <= from < ps.len(),
        0 <= to < ps.len(),
        0 <= i < ps[from].hand.len(),
    ensures
        players_cards(hand_push(hand_remove(ps, from, i), to, ps[from].hand[i])) == players_cards(ps),
{
    let c = ps[from].hand[i];
    let pf = ps[from];
    let ps1 = hand_remove(ps, from, i);
    let pf1 = ps1[from];
    let pt1 = ps1[to];
    let ps2 = hand_push(ps1, to, c);
    let pt2 = ps2[to];
    lemma_players_cards_update(ps, from, pf1);
    lemma_players_cards_update(ps1, to, pt2);
    vstd::seq_lib::lemma_multiset_commutative(pf.hand, pf.discard);
    vstd::seq_lib::lemma_multiset_commutative(pf1.hand, pf1.discard);
    vstd::seq_lib::lemma_multiset_commutative(pt1.hand, pt1.discard);
    vstd::seq_lib::lemma_multiset_commutative(pt2.hand, pt2.discard);
    assert(pf1.hand == pf.hand.remove(i));
    assert(pt2.hand == pt1.hand.push(c));
    assert(pf.hand[i] == c);
    let a = players_cards(ps2);
    let b = players_cards(ps);
    let m = players_cards(ps1);
    assert forall|x: Rc<Card>| #[trigger] a.count(x) == b.count(x) by {
        assert(m.add(held(pf)).count(x) == b.add(held(pf1)).count(x));
        assert(a.add(held(pt1)).count(x) == m.add(held(pt2)).count(x));
        assert(pf.hand.remove(i).to_multiset().count(x) + (if x == c { 1int } else { 0 }) == pf.hand.to_multiset().count(x));
        assert(pt1.hand.push(c).to_multiset().count(x) == pt1.hand.to_multiset().count(x) + (if x == c { 1int } else { 0 }));
    }
    assert(a =~= b);
}

/// Moving picked cards between two players keeps the players' cards.
pub proof fn lemma_move_picked_keeps(players: Seq<PlayerView>, from: int, to: int, picks: Seq<usize>)
    requires
        0 <= from < players.len(),
        0 <= to < players.len(),
    ensures
        players_cards(move_picked(players, from, to, picks).0) == players_cards(players),
        move_picked(players, from, to, picks).0.len() == players.len(),
    decreases picks.len(),
{
    if picks.len() > 0 {
        lemma_move_picked_keeps(players, from, to, picks.drop_last());
        let ps = move_picked(players, from, to, picks.drop_last()).0;
        let i = picks.last() as int;
        if i < ps[from].hand.len() {
            lemma_move_one(ps, from, to, i);
        }
    }
}

/// The position of the first card with a name is not negative.
pub proof fn lemma_first_named_nonneg(hand: Seq<Rc<Card>>, name: Seq<char>)
    ensures
        first_named(hand, name) >= 0,
    decreases hand.len(),
{
    if hand.len() > 0 && lowercase(hand[0].spec_name()) != name {
        lemma_first_named_nonneg(hand.drop_first(), name);
    }
}

/// The position of the first card with an id is not negative.
pub proof fn lemma_first_with_id_nonneg(hand: Seq<Rc<Card>>, id: i32)
    ensures
        first_with_id(hand, id) >= 0,
    decreases hand.len(),
{
    if hand.len() > 0 && hand[0].get_id() != id {
        lemma_first_with_id_nonneg(hand.drop_first(), id);
    }
}

/// Giving cards by id between two players keeps the players' cards.
pub proof fn lemma_give_ids_keeps(players: Seq<PlayerView>, from: int, to: int, ids: Seq<i32>)
    requires
        0 <= from < players.len(),
        0 <= to < players.len(),
    ensures
        players_cards(give_ids(players, from, to, ids).0) == players_cards(players),
        give_ids(players, from, to, ids).0.len() == players.len(),
    decreases ids.len(),
{
    if ids.len() > 0 {
        lemma_give_ids_keeps(players, from, to, ids.drop_last());
        let ps = give_ids(players, from, to, ids.drop_last()).0;
        let i = first_with_id(ps[from].hand, ids.last());
        lemma_first_with_id_nonneg(ps[from].hand, ids.last());
        if i < ps[from].hand.len() {
            lemma_move_one(ps, from, to, i);
        }
    }
}

/// The steal rounds move cards from `t` to `p`: they keep the players' cards.
pub proof fn lemma_steal_rounds_keeps(players: Seq<PlayerView>, t: int, p: int, count: nat, log: Seq<Seq<usize>>)
    requires
        0 <= t < players.len(),
        0 <= p < players.len(),
    ensures
        players_cards(steal_rounds(players, t, p, count, log).0) == players_cards(players),
        steal_rounds(players, t, p, count, log).0.len() == players.len(),
    decreases log.len(),
{
    if log.len() > 0 {
        lemma_steal_rounds_keeps(players, t, p, count, log.drop_last());
        let (ps, ids, ended) = steal_rounds(players, t, p, count, log.drop_last());
        let pick = log.last();
        if !ended && pick.len() > 0 && pick[0] < ps[t].hand.len() {
            lemma_move_one(ps, t, p, pick[0] as int);
        }
    }
}

/// Drawing for a player keeps the cards of the game.
pub proof fn lemma_draw_for_keeps(s: PlayState, p: int, amount: usize)
    requires
        0 <= p < s.players.len(),
    ensures
        keeps_cards(s, draw_for(s, p, amount)),
        draw_for(s, p, amount).players.len() == s.players.len(),
{
    let n = give_count(s.pile.len(), amount);
    let s2 = draw_for(s, p, amount);
    assert(s2.players[p] == with_cards(s.players[p], s.pile.take(n as int)));
    assert(s2.players =~= s.players.update(p, with_cards(s.players[p], s.pile.take(n as int))));
    lemma_draw_keeps(s, p, n as int, s2);
}

/// A change of health keeps the players' cards.
pub proof fn lemma_health_keeps(players: Seq<PlayerView>, i: int, h: i32)
    requires
        0 <= i < players.len(),
    ensures
        players_cards(players.update(i, players[i].with_health(h))) == players_cards(players),
{
    lemma_same_held(players, i, players[i].with_health(h));
}

/// The effect is a complex card's gift of its player's whole hand (all but a card named like the
/// played card, which is dropped).
pub open spec fn whole_hand_gift(card: Card, e: ComplexEffect) -> bool {
    let name = lowercase(card.spec_name());
    &&& e is Give
    &&& name != "flambeau"@
    &&& name != "airtichaut"@
    &&& name != "shuriken"@
}

/// A complex effect creates no card, and keeps every card but in a gift of the whole hand.
pub proof fn lemma_complex_step_keeps(card: Card, e: ComplexEffect, p: int, targets: Seq<usize>, log: Seq<Seq<usize>>, s: PlayState)
    requires
        0 <= p < s.players.len(),
        forall|i: int| 0 <= i < targets.len() ==> targets[i] < s.players.len(),
    ensures
        complex_effect_step(card, e, p, targets, log, s) matches Some(s1) ==> {
            &&& s1.players.len() == s.players.len()
            &&& game_cards(s1).subset_of(game_cards(s))
            &&& !whole_hand_gift(card, e) ==> keeps_cards(s, s1)
        },
{
    reveal(complex_effect_step);
    let name = lowercase(card.spec_name());
    if targets.len() == 0 {
        return;
    }
    let t = targets[0] as int;
    match complex_effect_step(card, e, p, targets, log, s) {
        None => {},
        Some(s1) => {
            match e {
                ComplexEffect::Steal { count, element, kind, stars } => {
                    if name == "tornade"@ {
                        if t != p {
                            let tp = s.players[t];
                            let players1 = s.players.update(t, tp.with_health(damaged_health(tp.health, 8)));
                            lemma_health_keeps(s.players, t, damaged_health(tp.health, 8));
                            lemma_move_picked_keeps(players1, t, p, first_two_of(first_pick(log)));
                        }
                    } else {
                        lemma_steal_rounds_keeps(s.players, t, p, count as nat, log);
                    }
                },
                ComplexEffect::Give => {
                    if t == p {
                    } else if name == "flambeau"@ {
                        let damage = card.get_attack();
                        let tp = s.players[t];
                        let sa = if damage > 0 {
                            PlayState { players: s.players.update(t, tp.with_health(damaged_health(tp.health, damage))), ..s }
                        } else {
                            s
                        };
                        if damage > 0 {
                            lemma_health_keeps(s.players, t, damaged_health(tp.health, damage));
                        }
                        assert(keeps_cards(s, sa));
                        let hand = sa.players[p].hand;
                        let pos = first_named(hand, "flambeau"@);
                        if pos < hand.len() {
                            lemma_first_named_nonneg(hand, "flambeau"@);
                            let c = hand[pos];
                            let ps2 = hand_push(hand_remove(sa.players, p, pos), t, c);
                            lemma_move_one(sa.players, p, t, pos);
                            let s2 = PlayState { players: ps2, actions: s1.actions, ..sa };
                            let s2x = PlayState {
                                players: ps2,
                                actions: sa.actions.push(single_action(moved_target(t, seq![c.get_id()], "give"@))),
                                ..sa
                            };
                            lemma_draw_for_keeps(s2x, p, 1);
                        } else {
                            lemma_draw_for_keeps(sa, p, 1);
                        }
                    } else if name == "airtichaut"@ {
                        let pl = s.players[p];
                        let nb = pl.hand.len();
                        let amount = (nb * 5) as u32;
                        let ps1 = if nb > 0 {
                            s.players.update(p, pl.with_health(healed_health(pl.health, amount)))
                        } else {
                            s.players
                        };
                        if nb > 0 {
                            lemma_health_keeps(s.players, p, healed_health(pl.health, amount));
                        }
                        let hand = ps1[p].hand;
                        let pos = first_named(hand, "airtichaut"@);
                        let others = if pos < hand.len() { hand.remove(pos) } else { hand };
                        let ids = sorted_desc(card_ids(others));
                        lemma_give_ids_keeps(ps1, p, t, ids);
                    } else if name == "shuriken"@ {
                        let picks = desc_pair(first_two_of(first_pick(log)));
                        lemma_move_picked_keeps(s.players, p, t, picks);
                        let (players1, given) = move_picked(s.players, p, t, picks);
                        let sb = PlayState { players: players1, actions: record_give(s.actions, t, given), ..s };
                        lemma_draw_for_keeps(sb, p, 2);
                    } else {
                        let pp = s.players[p];
                        let tp = s.players[t];
                        let hand = pp.hand;
                        let pos = first_named(hand, name);
                        let kept = if pos < hand.len() { hand.remove(pos) } else { hand };
                        let pp1 = PlayerView { hand: Seq::empty(), ..pp };
                        let players1 = s.players.update(p, pp1);
                        let tp2 = PlayerView { hand: tp.hand + kept.reverse(), ..tp };
                        let players2 = players1.update(t, tp2);
                        assert(players1[t] == tp);
                        lemma_players_cards_update(s.players, p, pp1);
                        lemma_players_cards_update(players1, t, tp2);
                        kept.lemma_reverse_to_multiset();
                        vstd::seq_lib::lemma_multiset_commutative(pp.hand, pp.discard);
                        vstd::seq_lib::lemma_multiset_commutative(Seq::<Rc<Card>>::empty(), pp.discard);
                        vstd::seq_lib::lemma_multiset_commutative(tp.hand, tp.discard);
                        vstd::seq_lib::lemma_multiset_commutative(tp.hand + kept.reverse(), tp.discard);
                        vstd::seq_lib::lemma_multiset_commutative(tp.hand, kept.reverse());
                        assert(Seq::<Rc<Card>>::empty() + pp.discard =~= pp.discard);
                        if pos < hand.len() {
                            lemma_first_named_nonneg(hand, name);
                        }
                        let a = players_cards(players2);
                        let m = players_cards(players1);
                        let b = players_cards(s.players);
                        assert forall|x: Rc<Card>| #[trigger] a.count(x) <= b.count(x) by {
                            assert(m.add(held(pp)).count(x) == b.add(held(pp1)).count(x));
                            assert(a.add(held(tp)).count(x) == m.add(held(tp2)).count(x));
                            assert(kept.to_multiset().count(x) <= hand.to_multiset().count(x));
                        }
                        assert(s1.players == players2);
                        assert forall|x: Rc<Card>| #[trigger] game_cards(s1).count(x) <= game_cards(s).count(x) by {
                            assert(a.count(x) <= b.count(x));
                        }
                    }
                },
                ComplexEffect::Exchange => {},
            }
        },
    }
}

/// The complex effects create no card, and keep every card unless one of them is a gift of the
/// whole hand.
pub proof fn lemma_complex_effects_keeps(card: Card, effects: Seq<ComplexEffect>, p: int, targets: Seq<usize>, logs: Seq<Seq<Seq<usize>>>, s: PlayState)
    requires
        0 <= p < s.players.len(),
        forall|i: int| 0 <= i < targets.len() ==> targets[i] < s.players.len(),
    ensures
        complex_effects_play(card, effects, p, targets, logs, s) matches Some(s1) ==> {
            &&& s1.players.len() == s.players.len()
            &&& game_cards(s1).subset_of(game_cards(s))
            &&& (forall|k: int| 0 <= k < effects.len() ==> !whole_hand_gift(card, #[trigger] effects[k])) ==> keeps_cards(s, s1)
        },
    decreases effects.len(),
{
    if effects.len() > 0 {
        lemma_complex_effects_keeps(card, effects.drop_last(), p, targets, logs, s);
        match complex_effects_play(card, effects.drop_last(), p, targets, logs, s) {
            None => {},
            Some(s1) => {
                lemma_complex_step_keeps(card, effects.last(), p, targets, logs[effects.len() - 1], s1);
                if forall|k: int| 0 <= k < effects.len() ==> !whole_hand_gift(card, #[trigger] effects[k]) {
                    assert(effects.last() == effects[effects.len() - 1]);
                    assert forall|k: int| 0 <= k < effects.drop_last().len() implies !whole_hand_gift(card, #[trigger] effects.drop_last()[k]) by {
                        assert(effects.drop_last()[k] == effects[k]);
                    }
                }
                match complex_effects_play(card, effects, p, targets, logs, s) {
                    None => {},
                    Some(s2) => {
                        assert forall|x: Rc<Card>| #[trigger] game_cards(s2).count(x) <= game_cards(s).count(x) by {
                            if s1.error is None {
                                assert(game_cards(s2).count(x) <= game_cards(s1).count(x));
                            }
                        }
                    },
                }
            },
        }
    }
}


/// The card is a complex card one of whose effects gives its player's whole hand away.
pub open spec fn gives_whole_hand(card: Card) -> bool {
    &&& card is ComplexEffect
    &&& exists|k: int| 0 <= k < card->ComplexEffect_0.complex_effects@.len()
        && whole_hand_gift(card, #[trigger] card->ComplexEffect_0.complex_effects@[k])
}

/// No play creates a card: the cards of the game after a play are among those before. Every play
/// but that of a card that gives its player's whole hand away keeps them all.
pub proof fn law_play_keeps_cards(card: Card, p: int, targets: Seq<usize>, rolls: Seq<u8>, logs: Seq<Seq<Seq<usize>>>, s0: PlayState)
    requires
        0 <= p < s0.players.len(),
        forall|i: int| 0 <= i < targets.len() ==> targets[i] < s0.players.len(),
        rolls.len() >= crate::card_play::rolls_needed(card, s0.players.len(), targets.len()),
    ensures
        card_play(card, p, targets, rolls, logs, s0) matches Some(s1) ==> game_cards(s1).subset_of(game_cards(s0)),
        card_play(card, p, targets, rolls, logs, s0) matches Some(s1) ==> (!gives_whole_hand(card) ==> keeps_cards(s0, s1)),
{
    reveal(card_play);
    match card {
        Card::MultiAction(_) => {
            lemma_multi_action_keeps(card, p, targets, rolls, s0, card->MultiAction_0.actions as nat);
        },
        Card::PlayersRollsDice(_) => {
            lemma_rolls_dice_keeps(card, p, targets, rolls, s0);
        },
        Card::Pearth(_) => {
            lemma_pearth_keeps(p, s0);
        },
        Card::ComplexEffect(c) => {
            lemma_phases_keeps(card, p, targets, rolls[0], s0);
            match attack_phase(card, p, targets, rolls[0], s0) {
                None => {},
                Some(s1) => {
                    lemma_phases_keeps(card, p, targets, rolls[0], s1);
                    match heal_phase(card, p, targets, rolls[0], s1) {
                        None => {},
                        Some(s2) => {
                            lemma_phases_keeps(card, p, targets, rolls[0], s2);
                            match draw_phase(card, p, targets, rolls[0], s2) {
                                None => {},
                                Some(s3) => {
                                    lemma_complex_effects_keeps(card, c.complex_effects@, p, targets, logs, s3);
                                },
                            }
                        },
                    }
                },
            }
        },
        _ => {
            lemma_default_play_keeps(card, p, targets, rolls[0], s0);
        },
    }
}

/// Finishing a play moves the played card from its player's hand to the discarded cards: the
/// players hold the same cards.
pub proof fn law_finish_keeps_cards(players: Seq<PlayerView>, p: int, card_index: int, used: Set<usize>)
    requires
        0 <= p < players.len(),
        0 <= card_index,
    ensures
        finish_play(players, p, card_index, used) matches Some(ps) ==> players_cards(ps) == players_cards(players),
{
    let pl = players[p];
    if card_index < pl.hand.len() {
        let c = pl.hand[card_index];
        let ps = finish_play(players, p, card_index, used)->Some_0;
        let np = ps[p];
        vstd::seq_lib::lemma_multiset_commutative(np.hand, np.discard);
        vstd::seq_lib::lemma_multiset_commutative(pl.hand, pl.discard);
        assert(held(np) =~= held(pl));
        lemma_same_held(players, p, np);
        assert(ps =~= players.update(p, np));
    }
}

/// Every card of a game: those its players hold and those of its pile.
pub open spec fn table_cards(g: Game) -> Multiset<Rc<Card>> {
    players_cards(players_view(g.players@)).add(g.pile@.to_multiset())
}

/// `Game::play_card` creates no card: whether the play succeeds or stops on an error, the cards of
/// the game after it are among those before; and unless the card gives its player's whole hand
/// away, they are the same.
pub proof fn law_play_card_keeps_cards(g0: Game, player_id: PlayerId, card_index: usize, targets: Seq<PlayerId>,
    rolls: Seq<u8>, logs: Seq<Seq<Seq<usize>>>, r: Result<crate::play_info::PlayInfo, String>, g1: Game)
    requires
        g0.current_player_turn < g0.players.len(),
        crate::game_ops::play_card_defined(g0, player_id, card_index, targets),
        play_card_refusal(g0, player_id, card_index, targets) is None,
        crate::card_play::dice_rolls(rolls),
        rolls.len() == play_card_rolls(g0, player_id, card_index, targets),
        play_card_result(g0, player_id, card_index, play_card_play(g0, player_id, card_index, targets, rolls, logs).unwrap(), r, g1),
    ensures
        table_cards(g1).subset_of(table_cards(g0)),
        !gives_whole_hand(*players_view(g0.players@)[crate::game_ops::index_of_id(players_view(g0.players@), player_id)].hand[card_index as int])
            ==> table_cards(g1) == table_cards(g0),
{
    let pv = players_view(g0.players@);
    let i = crate::game_ops::index_of_id(pv, player_id);
    let ts = crate::game_ops::target_positions(pv, targets, player_id).unwrap();
    crate::server_play::lemma_target_positions(pv, targets, player_id);
    crate::game_ops::lemma_index_of_id_bound(pv, player_id);
    let card = *pv[i].hand[card_index as int];
    let s0 = crate::rules::initial_state(pv, g0.pile@);
    assert(play_card_play(g0, player_id, card_index, targets, rolls, logs) is Some);
    let res = play_card_play(g0, player_id, card_index, targets, rolls, logs).unwrap();
    law_play_keeps_cards(card, i, ts, rolls, logs, s0);
    crate::ids_law::law_play_keeps_players(card, i, ts, rolls, logs, s0);
    assert(game_cards(s0) == table_cards(g0));
    match r {
        Err(_) => {
            assert(table_cards(g1) == game_cards(res));
        },
        Ok(_) => {
            law_finish_keeps_cards(res.players, i, card_index as int, res.buffs_used);
            assert(table_cards(g1) == game_cards(res));
        },
    }
}

} // verus!
