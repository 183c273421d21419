//! What the card rules do, stated over all inputs: which player a modifier reads, when a buff
//! applies, which buffs a played card grants, and what a player is shown of the game.
use vstd::prelude::*;
use std::rc::Rc;
use crate::buffs::{AttackBuff, BuffInfo};
use crate::card::{Card, Element, Kind, Stars};
use crate::eval::{EvalOp, spec_eval};
use crate::game_ops::{finish_play, opponents_of, shows_opponent, is_status_of, kept_buffs, index_of_id};
use crate::game::{Game, players_view};
use crate::modifiers::{
    ModifierInfo, HandSizeModifier, DiscardSizeModifier, HandAndDiceModifier, HandElementsCountModifier,
    DiceRollModifier, modifier_outcome, count_element,
};
use crate::player::{PlayerId, PlayerView};
use crate::responses::GameStateForPlayer;
use crate::rules::apply_attack_buffs;

verus! {

/// `value` limited to `cap`, or nothing when `value` does not fit in a `u32`.
pub open spec fn within_u32_capped(value: int, cap: u32) -> Option<u32> {
    if 0 <= value <= u32::MAX {
        Some(if value > cap { cap } else { value as u32 })
    } else {
        None
    }
}

/// A hand-size modifier combines the value with the size of the target's hand when `from_target`
/// is set and of the playing player's hand otherwise, and caps the result; it rolls no dice.
pub proof fn law_hand_size_modifier(h: HandSizeModifier, base: u32, player: PlayerView, target: PlayerView, dice: u8)
    requires
        player.hand.len() <= u32::MAX,
        target.hand.len() <= u32::MAX,
    ensures
        ({
            let n: int = if h.from_target { target.hand.len() as int } else { player.hand.len() as int };
            modifier_outcome(ModifierInfo::HandSizeModifier(h), base, player, target, dice) == match within_u32_capped(
                spec_eval(h.hand_size_op, base as int, n),
                h.cap,
            ) {
                Some(v) => Some((v, 0u8, -1i32)),
                None => None,
            }
        }),
        h.hand_size_op == EvalOp::Add && base + player.hand.len() <= u32::MAX && !h.from_target
            ==> modifier_outcome(ModifierInfo::HandSizeModifier(h), base, player, target, dice)
            == Some((if base + player.hand.len() > h.cap { h.cap } else { (base + player.hand.len()) as u32 }, 0u8, -1i32)),
        h.hand_size_op == EvalOp::Add && base + target.hand.len() <= u32::MAX && h.from_target
            ==> modifier_outcome(ModifierInfo::HandSizeModifier(h), base, player, target, dice)
            == Some((if base + target.hand.len() > h.cap { h.cap } else { (base + target.hand.len()) as u32 }, 0u8, -1i32)),
{
}

/// A discard-size modifier combines the value with the number of cards the target discarded when
/// `from_target` is set and the playing player discarded otherwise, and caps the result.
pub proof fn law_discard_size_modifier(h: DiscardSizeModifier, base: u32, player: PlayerView, target: PlayerView, dice: u8)
    requires
        player.discard.len() <= u32::MAX,
        target.discard.len() <= u32::MAX,
    ensures
        ({
            let n: int = if h.from_target { target.discard.len() as int } else { player.discard.len() as int };
            modifier_outcome(ModifierInfo::DiscardSizeModifier(h), base, player, target, dice) == match within_u32_capped(
                spec_eval(h.discard_size_op, base as int, n),
                h.cap,
            ) {
                Some(v) => Some((v, 0u8, -1i32)),
                None => None,
            }
        }),
{
}

/// A dice modifier combines the value with the dice roll and caps the result; the dice is shown
/// as thrown by the target when `target_throws_dice` is set and by the playing player otherwise.
pub proof fn law_dice_roll_modifier(d: DiceRollModifier, base: u32, player: PlayerView, target: PlayerView, dice: u8)
    ensures
        modifier_outcome(ModifierInfo::DiceRollModifier(d), base, player, target, dice) == match within_u32_capped(
            spec_eval(d.dice_op, base as int, dice as int),
            d.cap,
        ) {
            Some(v) => Some((v, dice, if d.target_throws_dice { target.id } else { player.id })),
            None => None,
        },
{
}

/// A hand-and-dice modifier ignores the value: it combines the size of the target's hand (when
/// `hand_from_target` is set) or of the playing player's hand with the dice roll, and caps the
/// result; the dice is shown as thrown by the target when `target_throws_dice` is set.
pub proof fn law_hand_and_dice_modifier(h: HandAndDiceModifier, base1: u32, base2: u32, player: PlayerView, target: PlayerView, dice: u8)
    requires
        player.hand.len() <= u32::MAX,
        target.hand.len() <= u32::MAX,
    ensures
        ({
            let n: int = if h.hand_from_target { target.hand.len() as int } else { player.hand.len() as int };
            modifier_outcome(ModifierInfo::HandAndDiceModifier(h), base1, player, target, dice) == match within_u32_capped(
                spec_eval(h.op, n, dice as int),
                h.cap,
            ) {
                Some(v) => Some((v, dice, if h.target_throws_dice { target.id } else { player.id })),
                None => None,
            }
        }),
        modifier_outcome(ModifierInfo::HandAndDiceModifier(h), base1, player, target, dice)
            == modifier_outcome(ModifierInfo::HandAndDiceModifier(h), base2, player, target, dice),
{
}

/// The number of cards of an element in a hand is the length of the hand's cards of that element.
pub proof fn law_count_element(hand: Seq<Rc<Card>>, element: Element)
    ensures
        count_element(hand, element) == hand.filter(|c: Rc<Card>| c.get_element() == element).len(),
    decreases hand.len(),
{
    reveal(Seq::filter);
    if hand.len() > 0 {
        law_count_element(hand.drop_last(), element);
    }
}

/// An element-count modifier combines the value with the number of cards of its element in the
/// target's hand when `from_target` is set and in the playing player's hand otherwise, and caps the
/// result.
pub proof fn law_elements_count_modifier(h: HandElementsCountModifier, base: u32, player: PlayerView, target: PlayerView, dice: u8)
    requires
        player.hand.len() <= u32::MAX,
        target.hand.len() <= u32::MAX,
    ensures
        ({
            let hand = if h.from_target { target.hand } else { player.hand };
            let n: int = hand.filter(|c: Rc<Card>| c.get_element() == h.element).len() as int;
            modifier_outcome(ModifierInfo::HandElementsCountModifier(h), base, player, target, dice) == match within_u32_capped(
                spec_eval(h.op, base as int, n),
                h.cap,
            ) {
                Some(v) => Some((v, 0u8, -1i32)),
                None => None,
            }
        }),
{
    law_count_element(player.hand, h.element);
    law_count_element(target.hand, h.element);
    crate::modifiers::lemma_count_element_bound(player.hand, h.element);
    crate::modifiers::lemma_count_element_bound(target.hand, h.element);
}

/// A modifier that reads the target (`from_target`) gives the same outcome whoever plays, and one
/// that reads the playing player gives the same outcome whoever is targeted: only the chosen
/// player's cards count.
pub proof fn law_modifier_reads_only_the_chosen_player(
    m: ModifierInfo,
    base: u32,
    p1: PlayerView,
    p2: PlayerView,
    t1: PlayerView,
    t2: PlayerView,
    dice: u8,
)
    ensures
        m matches ModifierInfo::HandSizeModifier(h) ==> (h.from_target ==> modifier_outcome(m, base, p1, t1, dice)
            == modifier_outcome(m, base, p2, t1, dice)) && (!h.from_target ==> modifier_outcome(m, base, p1, t1, dice)
            == modifier_outcome(m, base, p1, t2, dice)),
        m matches ModifierInfo::DiscardSizeModifier(h) ==> (h.from_target ==> modifier_outcome(m, base, p1, t1, dice)
            == modifier_outcome(m, base, p2, t1, dice)) && (!h.from_target ==> modifier_outcome(m, base, p1, t1, dice)
            == modifier_outcome(m, base, p1, t2, dice)),
        m matches ModifierInfo::HandElementsCountModifier(h) ==> (h.from_target ==> modifier_outcome(m, base, p1, t1, dice)
            == modifier_outcome(m, base, p2, t1, dice)) && (!h.from_target ==> modifier_outcome(m, base, p1, t1, dice)
            == modifier_outcome(m, base, p1, t2, dice)),
        m matches ModifierInfo::HandAndDiceModifier(h) ==> (h.hand_from_target && h.target_throws_dice
            ==> modifier_outcome(m, base, p1, t1, dice) == modifier_outcome(m, base, p2, t1, dice)) && (!h.hand_from_target
            && !h.target_throws_dice ==> modifier_outcome(m, base, p1, t1, dice) == modifier_outcome(m, base, p1, t2, dice)),
{
}

/// `list` accepts `x`: it is empty (no restriction) or holds `x`.
pub open spec fn list_accepts<T>(list: Seq<T>, x: T) -> bool {
    list.len() == 0 || exists|i: int| 0 <= i < list.len() && list[i] == x
}

/// An attack buff applies to a card exactly when each of its element, kind and stars lists is empty
/// or holds the card's element, kind and stars; so does a play-all-cards buff; a target-all buff
/// applies to every card.
pub proof fn law_buff_applies(b: &BuffInfo, e: Element, k: Kind, s: Stars)
    ensures
        *b matches BuffInfo::AttackBuffInfo(a) ==> (b.applies(e, k, s) <==> list_accepts(a.elements@, e) && list_accepts(
            a.kinds@,
            k,
        ) && list_accepts(a.stars@, s)),
        *b matches BuffInfo::PlayAllCardsBuffInfo(a) ==> (b.applies(e, k, s) <==> list_accepts(a.elements@, e)
            && list_accepts(a.kinds@, k) && list_accepts(a.stars@, s)),
        *b is TargetAllBuffInfo ==> b.applies(e, k, s),
        b.is_attack() <==> *b is AttackBuffInfo,
        *b matches BuffInfo::AttackBuffInfo(a) ==> b.computed(0) == spec_eval(a.op, 0, a.value as int),
{
    match *b {
        BuffInfo::AttackBuffInfo(a) => {
            lemma_list_accepts(a.elements@, e);
            lemma_list_accepts(a.kinds@, k);
            lemma_list_accepts(a.stars@, s);
        },
        BuffInfo::PlayAllCardsBuffInfo(a) => {
            lemma_list_accepts(a.elements@, e);
            lemma_list_accepts(a.kinds@, k);
            lemma_list_accepts(a.stars@, s);
        },
        _ => {},
    }
}

proof fn lemma_list_accepts<T>(list: Seq<T>, x: T)
    ensures
        crate::buffs::filter_accepts(list, x) <==> list_accepts(list, x),
{
    if list.contains(x) {
        let i = choose|i: int| 0 <= i < list.len() && list[i] == x;
        assert(list[i] == x);
    }
    if exists|i: int| 0 <= i < list.len() && list[i] == x {
        let i = choose|i: int| 0 <= i < list.len() && list[i] == x;
        assert(list.contains(x));
    }
}

/// An attack buff changes a value by its operation and its value.
pub proof fn law_attack_buff_computes(a: AttackBuff, base: u32)
    ensures
        BuffInfo::AttackBuffInfo(a).computed(base) == spec_eval(a.op, base as int, a.value as int),
        BuffInfo::AttackBuffInfo(a).compute_defined(base) <==> 0 <= spec_eval(a.op, base as int, a.value as int) <= u32::MAX,
{
}

/// A buff that is no attack buff or does not apply to the card changes neither the attack value nor
/// the buffs used: adding it after the others changes nothing. An attack buff that applies changes
/// the value by its operation and counts as used.
pub proof fn law_attack_buff_step(amount: u32, buffs: Seq<Rc<BuffInfo>>, b: Rc<BuffInfo>, e: Element, k: Kind, s: Stars, used: Set<usize>)
    ensures
        !(b.is_attack() && b.applies(e, k, s)) ==> apply_attack_buffs(amount, buffs.push(b), e, k, s, used)
            == apply_attack_buffs(amount, buffs, e, k, s, used),
        (b.is_attack() && b.applies(e, k, s) && apply_attack_buffs(amount, buffs, e, k, s, used) is Some) ==> {
            let (a, u) = apply_attack_buffs(amount, buffs, e, k, s, used).unwrap();
            apply_attack_buffs(amount, buffs.push(b), e, k, s, used) == if b.compute_defined(a) {
                Some((b.computed(a) as u32, u.insert(buffs.len() as usize)))
            } else {
                None
            }
        },
{
    assert(buffs.push(b).drop_last() =~= buffs);
}

/// The buff is an attack buff whose element list is not empty and leaves out `e`.
pub open spec fn leaves_out_element(b: BuffInfo, e: Element) -> bool {
    match b {
        BuffInfo::AttackBuffInfo(a) => a.elements@.len() > 0 && !a.elements@.contains(e),
        _ => false,
    }
}

proof fn lemma_left_out_never_applies(b: &BuffInfo, e: Element, k: Kind, s: Stars)
    ensures
        leaves_out_element(*b, e) ==> !b.applies(e, k, s),
{
    law_buff_applies(b, e, k, s);
    match *b {
        BuffInfo::AttackBuffInfo(a) => {
            if exists|j: int| 0 <= j < a.elements@.len() && a.elements@[j] == e {
                let j = choose|j: int| 0 <= j < a.elements@.len() && a.elements@[j] == e;
                assert(a.elements@.contains(e));
            }
        },
        _ => {},
    }
}

/// An attack buff whose element list leaves out the card's element is never used by the card's
/// attack, and a player whose attack buffs all leave it out attacks with the card's own value.
pub proof fn law_excluded_buff_unused(amount: u32, buffs: Seq<Rc<BuffInfo>>, e: Element, k: Kind, s: Stars, used: Set<usize>)
    requires
        buffs.len() <= usize::MAX,
        apply_attack_buffs(amount, buffs, e, k, s, used) is Some,
    ensures
        forall|i: usize| i < buffs.len() && !used.contains(i) && leaves_out_element(*#[trigger] buffs[i as int], e)
            ==> !apply_attack_buffs(amount, buffs, e, k, s, used).unwrap().1.contains(i),
        (forall|i: int| 0 <= i < buffs.len() && (#[trigger] buffs[i]).is_attack() ==> leaves_out_element(*buffs[i], e))
            ==> apply_attack_buffs(amount, buffs, e, k, s, used).unwrap().0 == amount,
    decreases buffs.len(),
{
    crate::laws::law_attack_buffs_used(amount, buffs, e, k, s, used);
    assert forall|i: usize| i < buffs.len() && !used.contains(i) && leaves_out_element(*#[trigger] buffs[i as int], e)
        implies !apply_attack_buffs(amount, buffs, e, k, s, used).unwrap().1.contains(i) by {
        lemma_left_out_never_applies(&*buffs[i as int], e, k, s);
    }
    if buffs.len() > 0 {
        let bl = buffs.drop_last();
        let b = buffs.last();
        assert(bl.push(b) =~= buffs);
        law_attack_buff_step(amount, bl, b, e, k, s, used);
        if (forall|i: int| 0 <= i < buffs.len() && (#[trigger] buffs[i]).is_attack() ==> leaves_out_element(*buffs[i], e)) {
            assert forall|i: int| 0 <= i < bl.len() && (#[trigger] bl[i]).is_attack() implies leaves_out_element(*bl[i], e) by {
                assert(bl[i] == buffs[i]);
            }
            assert(buffs[buffs.len() - 1] == b);
            lemma_left_out_never_applies(&*b, e, k, s);
            law_excluded_buff_unused(amount, bl, e, k, s, used);
        }
    }
}

/// The buffs a card grants are those listed in its definition, for every variant that lists some;
/// the Pearth and complex effect cards grant none.
pub proof fn law_card_grants_its_buffs(card: Card)
    ensures
        card matches Card::Basic(c) ==> card.spec_buffs() == c.buffs@,
        card matches Card::MultiHit(c) ==> card.spec_buffs() == c.buffs@,
        card matches Card::TargetBoth(c) ==> card.spec_buffs() == c.buffs@,
        card matches Card::MultiAction(c) ==> card.spec_buffs() == c.buffs@,
        card matches Card::PlayersRollsDice(c) ==> card.spec_buffs() == c.buffs@,
        card is Pearth ==> card.spec_buffs().len() == 0,
        card is ComplexEffect ==> card.spec_buffs().len() == 0,
{
}

/// After a play without error the player's buffs are the buffs it kept followed by exactly the
/// buffs listed by the card played; the other players' buffs do not change.
pub proof fn law_played_card_grants_buffs(players: Seq<PlayerView>, p: int, card_index: int, used: Set<usize>)
    requires
        0 <= p < players.len(),
        0 <= card_index < players[p].hand.len(),
    ensures
        ({
            let after = finish_play(players, p, card_index, used).unwrap();
            let granted = players[p].hand[card_index].spec_buffs();
            let n = after[p].buffs.len() - granted.len();
            &&& finish_play(players, p, card_index, used) is Some
            &&& after[p].buffs.len() >= granted.len()
            &&& after[p].buffs.skip(n) == granted
            &&& after[p].buffs.take(n) == kept_buffs(players[p].buffs, used)
            &&& forall|q: int| 0 <= q < players.len() && q != p ==> (#[trigger] after[q]).buffs == players[q].buffs
        }),
{
    let after = finish_play(players, p, card_index, used).unwrap();
    let granted = players[p].hand[card_index].spec_buffs();
    let kept = kept_buffs(players[p].buffs, used);
    assert(after[p].buffs == kept + granted);
    assert((kept + granted).skip(kept.len() as int) =~= granted);
    assert((kept + granted).take(kept.len() as int) =~= kept);
}

/// The opponents of a player are the other players, in order.
pub proof fn law_opponents_are_the_others(players: Seq<PlayerView>, id: PlayerId)
    ensures
        opponents_of(players, id) == players.filter(|p: PlayerView| p.id != id),
    decreases players.len(),
{
    reveal(Seq::filter);
    if players.len() > 0 {
        law_opponents_are_the_others(players.drop_last(), id);
    }
}

/// What a player is shown of the game: whose turn it is, the pile's size, its own health, hand and
/// discarded cards, card by card, and for each other player, in order, its id, health, number of
/// cards in hand and the ids of its discarded cards in order.
pub proof fn law_status_shows_the_game(st: GameStateForPlayer, g: Game, id: PlayerId)
    requires
        is_status_of(st, g, id),
        index_of_id(players_view(g.players@), id) < g.players.len(),
    ensures
        ({
            let pv = players_view(g.players@);
            let me = pv[index_of_id(pv, id)];
            let others = pv.filter(|p: PlayerView| p.id != id);
            &&& me.id == id
            &&& st.health == me.health as u32
            &&& st.current_player_turn == pv[g.current_player_turn as int].id
            &&& st.cards_in_pile == g.pile@.len() as u32
            &&& st.cards@.len() == me.hand.len()
            &&& forall|j: int| 0 <= j < me.hand.len() ==> st.cards@[j] == (#[trigger] me.hand[j]).get_id()
            &&& st.discard_cards@.len() == me.discard.len()
            &&& forall|j: int| 0 <= j < me.discard.len() ==> st.discard_cards@[j] == (#[trigger] me.discard[j]).get_id()
            &&& st.opponents.len() == others.len()
            &&& forall|k: int| 0 <= k < others.len() ==> {
                let o = #[trigger] st.opponents@[k];
                &&& o.player_id == others[k].id
                &&& o.player_id != id
                &&& o.health == others[k].health as u32
                &&& o.card_count == others[k].hand.len() as u32
                &&& o.discard_cards@.len() == others[k].discard.len()
                &&& forall|j: int| 0 <= j < others[k].discard.len() ==> o.discard_cards@[j] == (#[trigger] others[k].discard[j]).get_id()
            }
        }),
{
    let pv = players_view(g.players@);
    crate::game_ops::lemma_index_of_id_bound(pv, id);
    law_opponents_are_the_others(pv, id);
    let others = pv.filter(|p: PlayerView| p.id != id);
    assert forall|k: int| 0 <= k < others.len() implies {
        let o = #[trigger] st.opponents@[k];
        &&& o.player_id == others[k].id
        &&& o.player_id != id
        &&& o.health == others[k].health as u32
        &&& o.card_count == others[k].hand.len() as u32
        &&& o.discard_cards@.len() == others[k].discard.len()
        &&& forall|j: int| 0 <= j < others[k].discard.len() ==> o.discard_cards@[j] == (#[trigger] others[k].discard[j]).get_id()
    } by {
        assert(shows_opponent(st.opponents@[k], opponents_of(pv, id)[k]));
        pv.lemma_filter_pred(|p: PlayerView| p.id != id, k);
    }
}

} // verus!
