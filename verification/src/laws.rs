//! Properties of the game that hold across its operations.
use vstd::prelude::*;
use std::rc::Rc;
use crate::buffs::{BuffInfo, BuffLifeTime};
use crate::card::{Card, Element, Kind, Stars, TargetType};
use crate::game::{GameState, Order, MAX_PLAYERS};
use crate::game_ops::{next_index, kept_buffs, pile_with_discards, alive, state_after_play, deal, finish_play};
use crate::player::{PlayerView, PLAYER_MAX_HEALTH, damage_defined, damaged_health, heal_defined, healed_health};
use crate::rules::{give_count, apply_attack_buffs, target_count_accepted, expected_target_count};
use crate::variant_rules::total_discards;

verus! {

/// Damage and heals of at most `i32::MAX` keep a player's health between 0 and the maximum health.
pub proof fn law_health_stays_in_range(health: i32, amount: u32)
    requires
        0 <= health <= PLAYER_MAX_HEALTH,
        amount <= i32::MAX,
    ensures
        damage_defined(health, amount),
        amount <= i32::MAX - PLAYER_MAX_HEALTH ==> heal_defined(health, amount),
        0 <= damaged_health(health, amount) <= health,
        health <= healed_health(health, amount) <= PLAYER_MAX_HEALTH,
{
    assert((amount as i32) as int == amount as int) by (bit_vector)
        requires
            amount <= 0x7fff_ffffu32,
    ;
}

/// Drawing from the pile moves cards without losing or creating any: the hand and the pile together
/// hold the same cards, in the same order, as before.
pub proof fn law_draw_conserves_cards(hand: Seq<Rc<Card>>, pile: Seq<Rc<Card>>, amount: usize)
    ensures
        give_count(pile.len(), amount) <= amount,
        give_count(pile.len(), amount) <= pile.len(),
        (hand + pile.take(give_count(pile.len(), amount) as int)) + pile.skip(give_count(pile.len(), amount) as int) == hand + pile,
{
    let n = give_count(pile.len(), amount) as int;
    assert((hand + pile.take(n)) + pile.skip(n) =~= hand + pile);
}

/// The next player is always a player of the game: forward, the turn goes to the following player
/// and wraps to the first; backward, to the preceding player and wraps to the last.
pub proof fn law_next_player_cycles(order: Order, current: usize, n: nat)
    requires
        n > 0,
        n <= usize::MAX,
        current < n,
        current <= i32::MAX,
    ensures
        next_index(order, current, n) < n,
        order == Order::Forward ==> next_index(order, current, n) == (current + 1) % (n as int),
        order == Order::Backward ==> next_index(order, current, n) == (current + n - 1) % (n as int),
{
    assert((current as i32) as int == current as int) by (bit_vector)
        requires
            current <= 0x7fff_ffffusize,
    ;
    let m = n as int;
    if current + 1 < n {
        vstd::arithmetic::div_mod::lemma_small_mod((current + 1) as nat, n);
    } else {
        vstd::arithmetic::div_mod::lemma_mod_self_0(m);
    }
    if current > 0 {
        vstd::arithmetic::div_mod::lemma_mod_add_multiples_vanish(current - 1, m);
        vstd::arithmetic::div_mod::lemma_small_mod((current - 1) as nat, n);
        assert(current + n - 1 == m + (current - 1));
    } else {
        vstd::arithmetic::div_mod::lemma_small_mod((n - 1) as nat, n);
    }
}

/// Collecting the discarded cards adds every discarded card to the pile: none is lost.
pub proof fn law_collect_discards_keeps_cards(pile: Seq<Rc<Card>>, players: Seq<PlayerView>)
    ensures
        pile_with_discards(pile, players).len() == pile.len() + total_discards(players),
        pile_with_discards(pile, players).take(pile.len() as int) == pile,
    decreases players.len(),
{
    if players.len() > 0 {
        law_collect_discards_keeps_cards(pile, players.drop_last());
        let prev = pile_with_discards(pile, players.drop_last());
        assert((prev + players.last().discard).take(pile.len() as int) =~= prev.take(pile.len() as int));
    }
}

/// After a play, a player keeps only buffs lasting until used that the play did not use, and it keeps
/// every such buff.
pub proof fn law_kept_buffs(buffs: Seq<Rc<BuffInfo>>, used: Set<usize>)
    ensures
        kept_buffs(buffs, used).len() <= buffs.len(),
        forall|k: int| 0 <= k < kept_buffs(buffs, used).len() ==> (#[trigger] kept_buffs(buffs, used)[k]).lifetime()
            == BuffLifeTime::UntilUsed,
        forall|i: int| 0 <= i < buffs.len() && (#[trigger] buffs[i]).lifetime() == BuffLifeTime::UntilUsed && !used.contains(
            i as usize,
        ) ==> kept_buffs(buffs, used).contains(buffs[i]),
    decreases buffs.len(),
{
    if buffs.len() > 0 {
        law_kept_buffs(buffs.drop_last(), used);
        let prev = kept_buffs(buffs.drop_last(), used);
        assert forall|i: int| 0 <= i < buffs.len() && (#[trigger] buffs[i]).lifetime() == BuffLifeTime::UntilUsed
            && !used.contains(i as usize) implies kept_buffs(buffs, used).contains(buffs[i]) by {
            if i < buffs.len() - 1 {
                assert(buffs.drop_last()[i] == buffs[i]);
                let j = choose|j: int| 0 <= j < prev.len() && prev[j] == buffs[i];
                assert(kept_buffs(buffs, used)[j] == buffs[i]);
            } else {
                let k = kept_buffs(buffs, used);
                assert(k[k.len() - 1] == buffs[i]);
            }
        }
    }
}

/// A play uses only buffs of the player that are attack buffs and apply to the card (besides those
/// used before).
pub proof fn law_attack_buffs_used(amount: u32, buffs: Seq<Rc<BuffInfo>>, e: Element, k: Kind, s: Stars, used: Set<usize>)
    requires
        buffs.len() <= usize::MAX,
        apply_attack_buffs(amount, buffs, e, k, s, used) is Some,
    ensures
        forall|i: usize| #[trigger] apply_attack_buffs(amount, buffs, e, k, s, used).unwrap().1.contains(i) ==> used.contains(i)
            || (i < buffs.len() && buffs[i as int].is_attack() && buffs[i as int].applies(e, k, s)),
    decreases buffs.len(),
{
    if buffs.len() > 0 {
        law_attack_buffs_used(amount, buffs.drop_last(), e, k, s, used);
        let prev = apply_attack_buffs(amount, buffs.drop_last(), e, k, s, used).unwrap().1;
        let b = buffs.last();
        if b.is_attack() && b.applies(e, k, s) {
            assert(apply_attack_buffs(amount, buffs, e, k, s, used).unwrap().1 == prev.insert((buffs.len() - 1) as usize));
        } else {
            assert(apply_attack_buffs(amount, buffs, e, k, s, used).unwrap().1 == prev);
        }
        assert forall|i: usize| #[trigger] apply_attack_buffs(amount, buffs, e, k, s, used).unwrap().1.contains(i) implies used.contains(i)
            || (i < buffs.len() && buffs[i as int].is_attack() && buffs[i as int].applies(e, k, s)) by {
            if i as int == buffs.len() - 1 {
                assert(buffs[i as int] == b);
            }
            if prev.contains(i) {
                assert(apply_attack_buffs(amount, buffs.drop_last(), e, k, s, used).unwrap().1.contains(i));
                if !used.contains(i) {
                    assert(buffs.drop_last()[i as int] == buffs[i as int]);
                }
            }
        }
    }
}

/// A card accepts at most as many targets as there are other players in a full game.
pub proof fn law_target_count_bounded(no_targets: bool, tt: TargetType, given: nat)
    requires
        target_count_accepted(no_targets, tt, given),
        expected_target_count(no_targets, tt, given) is Some,
    ensures
        given <= MAX_PLAYERS - 1,
{
}

/// The game ends after a play exactly when at most one player is alive (or it had already ended);
/// a single player alive is the winner.
pub proof fn law_game_over(state: GameState, players: Seq<PlayerView>, current_id: i32)
    requires
        !(state is EndGame),
    ensures
        (state_after_play(state, players, current_id) is EndGame) <==> alive(players).len() <= 1,
        alive(players).len() == 1 ==> state_after_play(state, players, current_id) == (GameState::EndGame {
            winner_id: alive(players)[0].id,
        }),
        alive(players).len() == 1 ==> alive(players)[0].health > 0,
{
    if alive(players).len() == 1 {
        lemma_alive_healthy(players);
    }
}

pub proof fn lemma_alive_healthy(players: Seq<PlayerView>)
    ensures
        forall|k: int| 0 <= k < alive(players).len() ==> (#[trigger] alive(players)[k]).health > 0,
    decreases players.len(),
{
    if players.len() > 0 {
        lemma_alive_healthy(players.drop_last());
        let prev = alive(players.drop_last());
        assert forall|k: int| 0 <= k < alive(players).len() implies (#[trigger] alive(players)[k]).health > 0 by {
            if k < prev.len() {
                assert(alive(players)[k] == prev[k]);
            }
        }
    }
}

/// Number of cards in the players' hands.
pub open spec fn hand_total(players: Seq<PlayerView>) -> nat
    decreases players.len(),
{
    if players.len() == 0 { 0 } else { hand_total(players.drop_last()) + players.last().hand.len() }
}

/// Dealing the first cards loses or creates none: the hands and the pile hold as many cards as before.
pub proof fn law_deal_keeps_cards(players: Seq<PlayerView>, pile: Seq<Rc<Card>>, amount: usize)
    ensures
        deal(players, pile, amount).0.len() == players.len(),
        hand_total(deal(players, pile, amount).0) + deal(players, pile, amount).1.len() == hand_total(players) + pile.len(),
    decreases players.len(),
{
    if players.len() > 0 {
        law_deal_keeps_cards(players.drop_last(), pile, amount);
        let (ps, rest) = deal(players.drop_last(), pile, amount);
        let (ps2, rest2) = deal(players, pile, amount);
        assert(ps2.drop_last() =~= ps);
    }
}

/// A play without error moves the card played from the player's hand to its discarded cards.
pub proof fn law_played_card_discarded(players: Seq<PlayerView>, p: int, card_index: int, used: Set<usize>)
    requires
        0 <= p < players.len(),
        0 <= card_index < players[p].hand.len(),
    ensures
        finish_play(players, p, card_index, used) is Some,
        finish_play(players, p, card_index, used).unwrap().len() == players.len(),
        finish_play(players, p, card_index, used).unwrap()[p].hand.len() == players[p].hand.len() - 1,
        finish_play(players, p, card_index, used).unwrap()[p].discard == players[p].discard.push(players[p].hand[card_index]),
        finish_play(players, p, card_index, used).unwrap()[p].health == players[p].health,
{
}

} // verus!
