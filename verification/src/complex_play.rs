//! Playing a complex effect card: moving cards between players.
use vstd::prelude::*;
use std::rc::Rc;
use crate::card::{Card, CardId};
use crate::complex_rules::{
    lowercase, to_lowercase, hand_remove, hand_push, move_picked, first_named, first_with_id, give_ids,
    insert_desc, sorted_desc,
};
use crate::game::{Game, players_view};
use crate::play::{play_outcome, target_players, same_game_rest, lemma_players_update, lemma_targets_push, lemma_actions_push, state_of, outcome_matches};
use crate::play_info::{ActionTarget, ActionType, PlayAction, PlayInfo};
use crate::rules::{PlayState, PlayError, card_ids, initial_state, attack_phase, heal_phase, draw_phase};
use std::collections::HashSet;
use crate::exchange_card::ComplexEffect;
use crate::complex_rules::{complex_play, complex_effects_play, lemma_complex_effects_logs, lemma_complex_effects_prefix, lemma_complex_effects_error, draw_for, record_give, complex_effect_step, single_action, moved_target, steal_rounds, first_pick, desc_pair, first_two_of, effect_log_fits, effects_logs_fit, complex_logs_fit, lemma_effects_fit_logs, is_shuffle_of, lemma_effects_fit_error};
use crate::player::{Player, heal_defined};
use crate::rng::shuffle;
use crate::rules::{target_count_accepted, heal_only};

verus! {

broadcast use vstd::seq_lib::group_to_multiset_ensures;

/// The positions `0..n` in order.
pub open spec fn index_range(n: nat) -> Seq<usize> {
    Seq::new(n, |i: int| i as usize)
}

/// A list that holds the positions `0..n` once each, in any order.
pub open spec fn is_shuffled_range(v: Seq<usize>) -> bool {
    v.to_multiset() == index_range(v.len()).to_multiset()
}

/// The positions `0..n` in an order that chance decides.
pub fn shuffled_indices(n: usize) -> (r: Vec<usize>)
    ensures
        r.len() == n,
        is_shuffled_range(r@),
{
    let mut v: Vec<usize> = Vec::new();
    let mut i: usize = 0;
    while i < n
        invariant
            i <= n,
            v@ == index_range(i as nat),
        decreases n - i,
    {
        v.push(i);
        i = i + 1;
        assert(v@ =~= index_range(i as nat));
    }
    let ghost v0 = v@;
    shuffle(&mut v);
    assert(v0.to_multiset().len() == v0.len());
    assert(v@.to_multiset().len() == v@.len());
    v
}

/// The model of a player whose hand lost its card at `i`.
pub proof fn lemma_hand_remove(players: Seq<Player>, w: int, i: int, p: Player)
    requires
        0 <= w < players.len(),
        0 <= i < players[w].hand_cards.len(),
        p@ == (crate::player::PlayerView { hand: players[w]@.hand.remove(i), ..players[w]@ }),
    ensures
        players_view(players.update(w, p)) == hand_remove(players_view(players), w, i),
{
    lemma_players_update(players, w, p);
}

/// The model of a player whose hand got card `c` at its end.
pub proof fn lemma_hand_push(players: Seq<Player>, w: int, c: Rc<Card>, p: Player)
    requires
        0 <= w < players.len(),
        p@ == (crate::player::PlayerView { hand: players[w]@.hand.push(c), ..players[w]@ }),
    ensures
        players_view(players.update(w, p)) == hand_push(players_view(players), w, c),
{
    lemma_players_update(players, w, p);
}

impl Game {
    /// Moves the card at `i` of `from`'s hand to the end of `to`'s hand and gives its id.
    fn move_card(&mut self, from: usize, to: usize, i: usize) -> (r: CardId)
        requires
            from < old(self).players.len(),
            to < old(self).players.len(),
            i < old(self).players[from as int].hand_cards.len(),
        ensures
            players_view(final(self).players@) == hand_push(
                hand_remove(players_view(old(self).players@), from as int, i as int),
                to as int,
                old(self).players[from as int].hand_cards@[i as int],
            ),
            r == old(self).players[from as int].hand_cards@[i as int].get_id(),
            final(self).pile == old(self).pile,
            same_game_rest(*old(self), *final(self)),
            final(self).players.len() == old(self).players.len(),
    {
        let ghost players0 = self.players@;
        let c = self.players[from].hand_cards.remove(i);
        proof {
            lemma_hand_remove(players0, from as int, i as int, self.players@[from as int]);
        }
        let ghost players1 = self.players@;
        let id = c.get_id();
        self.players[to].hand_cards.push(c);
        proof {
            lemma_hand_push(players1, to as int, c, self.players@[to as int]);
        }
        id
    }

    /// Moves the cards at `picks` of `from`'s hand, in order, to `to`'s hand; a position past the end
    /// of the hand is skipped. Gives the ids of the cards moved.
    fn move_picked_cards(&mut self, from: usize, to: usize, picks: &Vec<usize>) -> (r: Vec<CardId>)
        requires
            from < old(self).players.len(),
            to < old(self).players.len(),
        ensures
            (players_view(final(self).players@), r@) == move_picked(players_view(old(self).players@), from as int, to as int, picks@),
            final(self).pile == old(self).pile,
            same_game_rest(*old(self), *final(self)),
            final(self).players.len() == old(self).players.len(),
    {
        let ghost pv0 = players_view(self.players@);
        let mut ids: Vec<CardId> = Vec::new();
        let mut k: usize = 0;
        while k < picks.len()
            invariant
                k <= picks.len(),
                from < self.players.len(),
                to < self.players.len(),
                self.players.len() == old(self).players.len(),
                pv0 == players_view(old(self).players@),
                (players_view(self.players@), ids@) == move_picked(pv0, from as int, to as int, picks@.take(k as int)),
                self.pile == old(self).pile,
                same_game_rest(*old(self), *self),
            decreases picks.len() - k,
        {
            proof {
                assert(picks@.take(k + 1).drop_last() =~= picks@.take(k as int));
                assert(players_view(self.players@)[from as int] == self.players@[from as int]@);
            }
            let i = picks[k];
            if i < self.players[from].hand_cards.len() {
                let id = self.move_card(from, to, i);
                ids.push(id);
            }
            k = k + 1;
        }
        proof {
            assert(picks@.take(k as int) =~= picks@);
        }
        ids
    }
}

pub proof fn lemma_first_named(hand: Seq<Rc<Card>>, name: Seq<char>, j: int)
    requires
        0 <= j <= hand.len(),
        forall|k: int| 0 <= k < j ==> lowercase(#[trigger] hand[k].spec_name()) != name,
        j == hand.len() || lowercase(hand[j].spec_name()) == name,
    ensures
        first_named(hand, name) == j,
    decreases j,
{
    if j > 0 {
        assert forall|k: int| 0 <= k < j - 1 implies lowercase(#[trigger] hand.drop_first()[k].spec_name()) != name by {
            assert(hand.drop_first()[k] == hand[k + 1]);
        }
        lemma_first_named(hand.drop_first(), name, j - 1);
    }
}

pub proof fn lemma_first_with_id(hand: Seq<Rc<Card>>, id: CardId, j: int)
    requires
        0 <= j <= hand.len(),
        forall|k: int| 0 <= k < j ==> (#[trigger] hand[k].get_id()) != id,
        j == hand.len() || hand[j].get_id() == id,
    ensures
        first_with_id(hand, id) == j,
    decreases j,
{
    if j > 0 {
        assert forall|k: int| 0 <= k < j - 1 implies (#[trigger] hand.drop_first()[k].get_id()) != id by {
            assert(hand.drop_first()[k] == hand[k + 1]);
        }
        lemma_first_with_id(hand.drop_first(), id, j - 1);
    }
}

/// Position of the first card of `hand` whose lower-case name is `name` (the length when none is).
fn position_named(hand: &Vec<Rc<Card>>, name: &String) -> (r: usize)
    ensures
        r == first_named(hand@, name@),
{
    let mut j: usize = 0;
    while j < hand.len()
        invariant
            j <= hand.len(),
            forall|k: int| 0 <= k < j ==> lowercase(#[trigger] hand@[k].spec_name()) != name@,
        decreases hand.len() - j,
    {
        let n = hand[j].get_name();
        let l = to_lowercase(n.as_str());
        if l == *name {
            proof {
                lemma_first_named(hand@, name@, j as int);
            }
            return j;
        }
        j = j + 1;
    }
    proof {
        lemma_first_named(hand@, name@, j as int);
    }
    j
}

/// Position of the first card of `hand` with id `id` (the length when none is).
fn position_with_id(hand: &Vec<Rc<Card>>, id: CardId) -> (r: usize)
    ensures
        r == first_with_id(hand@, id),
{
    let mut j: usize = 0;
    while j < hand.len()
        invariant
            j <= hand.len(),
            forall|k: int| 0 <= k < j ==> (#[trigger] hand@[k].get_id()) != id,
        decreases hand.len() - j,
    {
        if hand[j].get_id() == id {
            proof {
                lemma_first_with_id(hand@, id, j as int);
            }
            return j;
        }
        j = j + 1;
    }
    proof {
        lemma_first_with_id(hand@, id, j as int);
    }
    j
}

pub proof fn lemma_insert_desc(s: Seq<CardId>, x: CardId, j: int)
    requires
        0 <= j <= s.len(),
        forall|k: int| 0 <= k < j ==> x < #[trigger] s[k],
        j == s.len() || x >= s[j],
    ensures
        insert_desc(s, x) == s.insert(j, x),
    decreases j,
{
    if j == 0 {
        if s.len() == 0 {
            assert(s.insert(0, x) =~= seq![x]);
        } else {
            assert(s.insert(0, x) =~= seq![x] + s);
        }
    } else {
        assert forall|k: int| 0 <= k < j - 1 implies x < #[trigger] s.drop_first()[k] by {
            assert(s.drop_first()[k] == s[k + 1]);
        }
        lemma_insert_desc(s.drop_first(), x, j - 1);
        assert(seq![s[0]] + s.drop_first().insert(j - 1, x) =~= s.insert(j, x));
    }
}

/// The ids sorted from largest to smallest.
fn sort_desc(ids: &Vec<CardId>) -> (r: Vec<CardId>)
    ensures
        r@ == sorted_desc(ids@),
{
    let mut r: Vec<CardId> = Vec::new();
    let mut i: usize = 0;
    while i < ids.len()
        invariant
            i <= ids.len(),
            r@ == sorted_desc(ids@.take(i as int)),
        decreases ids.len() - i,
    {
        proof {
            assert(ids@.take(i + 1).drop_last() =~= ids@.take(i as int));
        }
        let x = ids[i];
        let mut j: usize = 0;
        while j < r.len() && x < r[j]
            invariant
                j <= r.len(),
                forall|k: int| 0 <= k < j ==> x < #[trigger] r@[k],
            decreases r.len() - j,
        {
            j = j + 1;
        }
        proof {
            lemma_insert_desc(r@, x, j as int);
        }
        r.insert(j, x);
        i = i + 1;
    }
    proof {
        assert(ids@.take(i as int) =~= ids@);
    }
    r
}

impl Game {
    /// For each id in order, moves the first card of `from`'s hand with that id (when there is one)
    /// to `to`'s hand. Gives the ids of the cards moved.
    fn give_cards_by_id(&mut self, from: usize, to: usize, ids: &Vec<CardId>) -> (r: Vec<CardId>)
        requires
            from < old(self).players.len(),
            to < old(self).players.len(),
        ensures
            (players_view(final(self).players@), r@) == give_ids(players_view(old(self).players@), from as int, to as int, ids@),
            final(self).pile == old(self).pile,
            same_game_rest(*old(self), *final(self)),
            final(self).players.len() == old(self).players.len(),
    {
        let ghost pv0 = players_view(self.players@);
        let mut given: Vec<CardId> = Vec::new();
        let mut k: usize = 0;
        while k < ids.len()
            invariant
                k <= ids.len(),
                from < self.players.len(),
                to < self.players.len(),
                self.players.len() == old(self).players.len(),
                pv0 == players_view(old(self).players@),
                (players_view(self.players@), given@) == give_ids(pv0, from as int, to as int, ids@.take(k as int)),
                self.pile == old(self).pile,
                same_game_rest(*old(self), *self),
            decreases ids.len() - k,
        {
            proof {
                assert(ids@.take(k + 1).drop_last() =~= ids@.take(k as int));
                assert(players_view(self.players@)[from as int] == self.players@[from as int]@);
            }
            let i = position_with_id(&self.players[from].hand_cards, ids[k]);
            if i < self.players[from].hand_cards.len() {
                let id = self.move_card(from, to, i);
                given.push(id);
            }
            k = k + 1;
        }
        proof {
            assert(ids@.take(k as int) =~= ids@);
        }
        given
    }
}


pub proof fn lemma_shuffled_bound(v: Seq<usize>, k: int)
    requires
        is_shuffled_range(v),
        0 <= k < v.len(),
    ensures
        v[k] < v.len(),
{
    assert(v.contains(v[k]));
    assert(v.to_multiset().count(v[k]) > 0);
    assert(index_range(v.len()).to_multiset().count(v[k]) > 0);
    assert(index_range(v.len()).contains(v[k]));
}

/// The first two positions of a list (fewer when it is shorter).
fn first_two(v: &Vec<usize>) -> (r: Vec<usize>)
    ensures
        r@ == first_two_of(v@),
{
    let mut r: Vec<usize> = Vec::new();
    if v.len() > 0 {
        r.push(v[0]);
    }
    if v.len() > 1 {
        r.push(v[1]);
    }
    assert(r@ =~= first_two_of(v@));
    r
}

impl Card {
    /// The player draws `amount` cards, recorded with the player's position and effect "draw".
    fn draw_recorded(info: &mut PlayInfo, game: &mut Game, p: usize, amount: usize, Ghost(ds): Ghost<bool>, Ghost(bu): Ghost<Set<usize>>)
        requires
            p < old(game).players.len(),
        ensures
            state_of(*final(game), *final(info), ds, bu) == draw_for(state_of(*old(game), *old(info), ds, bu), p as int, amount),
            same_game_rest(*old(game), *final(game)),
            final(game).players.len() == old(game).players.len(),
    {
        let ghost players0 = game.players@;
        let ghost pile0 = game.pile@;
        let drawn = Game::give_from_pile(&mut game.pile, &mut game.players[p], amount);
        proof {
            lemma_players_update(players0, p as int, game.players@[p as int]);
            assert(players_view(players0)[p as int] == players0[p as int]@);
        }
        if drawn.len() > 0 {
            let mut a = PlayAction::new();
            let t = ActionTarget {
                player_id: #[verifier::truncate] (p as i32),
                action: ActionType::Draw { cards: drawn },
                effect: String::from_str("draw"),
            };
            proof {
                lemma_targets_push(a.targets@, t);
            }
            a.targets.push(t);
            proof {
                lemma_actions_push(info.actions@, a);
            }
            info.actions.push(a);
        }
        assert(state_of(*game, *info, ds, bu) =~= draw_for(state_of(*old(game), *old(info), ds, bu), p as int, amount));
    }

    /// Records the cards moved by a give, when there are some.
    fn record_give_exec(info: &mut PlayInfo, t: usize, given: Vec<CardId>)
        ensures
            final(info)@ == record_give(old(info)@, t as int, given@),
    {
        if given.len() > 0 {
            let mut a = PlayAction::new();
            let target = ActionTarget { player_id: #[verifier::truncate] (t as i32), action: ActionType::Steal { cards: given }, effect: String::from_str("give") };
            proof {
                lemma_targets_push(a.targets@, target);
            }
            a.targets.push(target);
            proof {
                lemma_actions_push(info.actions@, a);
            }
            info.actions.push(a);
        }
    }
}


/// Every shuffled list of an effect holds the positions `0..n` once each.
pub open spec fn valid_log(log: Seq<Seq<usize>>) -> bool {
    forall|j: int| 0 <= j < log.len() ==> is_shuffled_range(#[trigger] log[j])
}

impl Card {
    /// Tornade: deals 8 damage to the first target and steals it two cards chosen by chance.
    fn tornade_effect(
        &self,
        e: &ComplexEffect,
        info: &mut PlayInfo,
        game: &mut Game,
        p: usize,
        targets: &Vec<usize>,
        Ghost(ds): Ghost<bool>,
        Ghost(bu): Ghost<Set<usize>>,
    ) -> (r: (Result<(), String>, Ghost<Seq<Seq<usize>>>))
        requires
            *e is Steal,
            lowercase(self.spec_name()) == "tornade"@,
            p < old(game).players.len(),
            forall|k: int| 0 <= k < targets.len() ==> targets[k] < old(game).players.len(),
            forall|log: Seq<Seq<usize>>|
                complex_effect_step(*self, *e, p as int, targets@, log, state_of(*old(game), *old(info), ds, bu)) is Some,
        ensures
            valid_log(r.1@),
            effect_log_fits(*self, *e, p as int, targets@, r.1@, state_of(*old(game), *old(info), ds, bu)),
            outcome_matches(
                complex_effect_step(*self, *e, p as int, targets@, r.1@, state_of(*old(game), *old(info), ds, bu)),
                r.0, *final(game), *final(info), ds, bu,
            ),
            same_game_rest(*old(game), *final(game)),
            final(game).players.len() == old(game).players.len(),
    {
        let ghost s = state_of(*old(game), *old(info), ds, bu);
        reveal(complex_effect_step);
        assert(complex_effect_step(*self, *e, p as int, targets@, Seq::empty(), s) is Some);
        let t = targets[0];
        if t == p {
            let ghost log = Seq::<Seq<usize>>::empty();
            assert(s.with_error(PlayError::TargetIsPlayer) =~= complex_effect_step(*self, *e, p as int, targets@, log, s).unwrap());
            return (Err(String::from_str("Target is player !")), Ghost(log));
        }
        let ghost players0 = game.players@;
        proof {
            assert(players_view(players0)[t as int] == players0[t as int]@);
        }
        let target = game.players[t].damage(8, String::from_str("tornade_damage"));
        proof {
            lemma_players_update(players0, t as int, game.players@[t as int]);
        }
        let mut a = PlayAction::new();
        proof {
            lemma_targets_push(a.targets@, target);
        }
        a.targets.push(target);
        proof {
            lemma_actions_push(info.actions@, a);
        }
        info.actions.push(a);
        let perm = shuffled_indices(game.players[t].hand_cards.len());
        let picks = first_two(&perm);
        let ghost log = seq![perm@];
        assert(first_pick(log) == perm@);
        let ids = game.move_picked_cards(t, p, &picks);
        if ids.len() > 0 {
            let mut a2 = PlayAction::new();
            let st = ActionTarget { player_id: #[verifier::truncate] (p as i32), action: ActionType::Steal { cards: ids }, effect: String::from_str("steal") };
            proof {
                lemma_targets_push(a2.targets@, st);
            }
            a2.targets.push(st);
            proof {
                lemma_actions_push(info.actions@, a2);
            }
            info.actions.push(a2);
        }
        proof {
            let res = complex_effect_step(*self, *e, p as int, targets@, log, s).unwrap();
            assert(res.players == players_view(game.players@));
            assert(res.actions =~= info@);
        }
        (Ok(()), Ghost(log))
    }
}


impl Card {
    /// Steal (not tornade): takes up to `count` cards chosen by chance from the first target's hand,
    /// when that hand is not empty.
    fn steal_effect(
        &self,
        e: &ComplexEffect,
        info: &mut PlayInfo,
        game: &mut Game,
        p: usize,
        targets: &Vec<usize>,
        Ghost(ds): Ghost<bool>,
        Ghost(bu): Ghost<Set<usize>>,
    ) -> (r: (Result<(), String>, Ghost<Seq<Seq<usize>>>))
        requires
            *e is Steal,
            lowercase(self.spec_name()) != "tornade"@,
            p < old(game).players.len(),
            forall|k: int| 0 <= k < targets.len() ==> targets[k] < old(game).players.len(),
            forall|log: Seq<Seq<usize>>|
                complex_effect_step(*self, *e, p as int, targets@, log, state_of(*old(game), *old(info), ds, bu)) is Some,
        ensures
            valid_log(r.1@),
            effect_log_fits(*self, *e, p as int, targets@, r.1@, state_of(*old(game), *old(info), ds, bu)),
            outcome_matches(
                complex_effect_step(*self, *e, p as int, targets@, r.1@, state_of(*old(game), *old(info), ds, bu)),
                r.0, *final(game), *final(info), ds, bu,
            ),
            same_game_rest(*old(game), *final(game)),
            final(game).players.len() == old(game).players.len(),
    {
        let ghost s = state_of(*old(game), *old(info), ds, bu);
        reveal(complex_effect_step);
        let ghost pv0 = players_view(game.players@);
        assert(complex_effect_step(*self, *e, p as int, targets@, Seq::empty(), s) is Some);
        let t = targets[0];
        assert(pv0[t as int] == game.players@[t as int]@);
        if game.players[t].hand_cards.len() == 0 {
            return (Ok(()), Ghost(Seq::empty()));
        }
        let count = match e {
            ComplexEffect::Steal { count, .. } => *count,
            _ => 0,
        };
        let mut stolen: Vec<CardId> = Vec::new();
        let mut to_steal = count;
        let ghost mut log: Seq<Seq<usize>> = Seq::empty();
        let ghost h0 = pv0[t as int].hand.len() as int;
        while to_steal > 0 && game.players[t].hand_cards.len() > 0
            invariant
                h0 == pv0[t as int].hand.len(),
                h0 > 0,
                log.len() == stolen.len(),
                t == p ==> game.players@[t as int].hand_cards.len() == h0,
                t != p ==> game.players@[t as int].hand_cards.len() + log.len() == h0,
                forall|j: int| 0 <= j < log.len() ==> is_shuffle_of(#[trigger] log[j], if t == p { h0 } else { h0 - j }),
                t < game.players.len(),
                p < game.players.len(),
                game.players.len() == old(game).players.len(),
                to_steal + stolen.len() == count,
                valid_log(log),
                steal_rounds(pv0, t as int, p as int, count as nat, log)
                    == (players_view(game.players@), stolen@, to_steal == 0 || game.players@[t as int].hand_cards.len() == 0),
                game.pile == old(game).pile,
                same_game_rest(*old(game), *game),
            decreases to_steal,
        {
            let perm = shuffled_indices(game.players[t].hand_cards.len());
            proof {
                lemma_shuffled_bound(perm@, 0);
                assert(log.push(perm@).drop_last() =~= log);
                assert(players_view(game.players@)[t as int] == game.players@[t as int]@);
            }
            let ghost hb = game.players@[t as int].hand_cards.len();
            let ghost pvb = players_view(game.players@);
            assert(pvb[t as int] == game.players@[t as int]@);
            let id = game.move_card(t, p, perm[0]);
            stolen.push(id);
            to_steal = to_steal - 1;
            proof {
                let pva = players_view(game.players@);
                assert(pva[t as int] == game.players@[t as int]@);
                assert(pvb[t as int].hand.len() == hb);
                if t == p {
                    assert(pva[t as int].hand.len() == hb);
                } else {
                    assert(pva[t as int].hand.len() == hb - 1);
                }
                assert(is_shuffle_of(perm@, if t == p { h0 } else { h0 - log.len() }));
                log = log.push(perm@);
            }
        }
        let mut a = PlayAction::new();
        let st = ActionTarget {
            player_id: #[verifier::truncate] (p as i32),
            action: ActionType::Steal { cards: stolen },
            effect: String::from_str("steal"),
        };
        proof {
            lemma_targets_push(a.targets@, st);
        }
        a.targets.push(st);
        proof {
            lemma_actions_push(info.actions@, a);
        }
        info.actions.push(a);
        proof {
            let res = complex_effect_step(*self, *e, p as int, targets@, log, s).unwrap();
            assert(res.players == players_view(game.players@));
            assert(res.actions =~= info@);
        }
        (Ok(()), Ghost(log))
    }
}


impl Card {
    /// Flambeau: damages the target, gives it the flambeau card, then the player draws a card.
    fn give_flambeau(
        &self,
        e: &ComplexEffect,
        info: &mut PlayInfo,
        game: &mut Game,
        p: usize,
        targets: &Vec<usize>,
        Ghost(ds): Ghost<bool>,
        Ghost(bu): Ghost<Set<usize>>,
    ) -> (r: (Result<(), String>, Ghost<Seq<Seq<usize>>>))
        requires
            *e is Give,
            lowercase(self.spec_name()) == "flambeau"@,
            targets.len() > 0,
            targets[0] != p,
            p < old(game).players.len(),
            forall|k: int| 0 <= k < targets.len() ==> targets[k] < old(game).players.len(),
            forall|log: Seq<Seq<usize>>|
                complex_effect_step(*self, *e, p as int, targets@, log, state_of(*old(game), *old(info), ds, bu)) is Some,
        ensures
            valid_log(r.1@),
            effect_log_fits(*self, *e, p as int, targets@, r.1@, state_of(*old(game), *old(info), ds, bu)),
            outcome_matches(
                complex_effect_step(*self, *e, p as int, targets@, r.1@, state_of(*old(game), *old(info), ds, bu)),
                r.0, *final(game), *final(info), ds, bu,
            ),
            same_game_rest(*old(game), *final(game)),
            final(game).players.len() == old(game).players.len(),
    {
        let ghost s = state_of(*old(game), *old(info), ds, bu);
        reveal(complex_effect_step);
        let ghost empty_log = Seq::<Seq<usize>>::empty();
        assert(complex_effect_step(*self, *e, p as int, targets@, empty_log, s) is Some);
        let t = targets[0];
        let ghost players0 = game.players@;
        proof {
            assert(players_view(players0)[t as int] == players0[t as int]@);
            assert(players_view(players0)[p as int] == players0[p as int]@);
        }
        proof {
            reveal_strlit("flambeau");
            reveal_strlit("shuriken");
            assert("flambeau"@[0] == 'f');
            assert("shuriken"@[0] == 's');
            assert("flambeau"@ != "shuriken"@);
        }
        let damage = self.get_attack();
        if damage > 0 {
            let target = game.players[t].damage(damage, String::from_str("flambeau_damage"));
            proof {
                lemma_players_update(players0, t as int, game.players@[t as int]);
            }
            let mut a = PlayAction::new();
            proof {
                lemma_targets_push(a.targets@, target);
            }
            a.targets.push(target);
            proof {
                lemma_actions_push(info.actions@, a);
            }
            info.actions.push(a);
        }
        let ghost s1 = state_of(*game, *info, ds, bu);
        proof {
            assert(players_view(game.players@)[p as int] == game.players@[p as int]@);
        }
        let pos = position_named(&game.players[p].hand_cards, &String::from_str("flambeau"));
        if pos < game.players[p].hand_cards.len() {
            let id = game.move_card(p, t, pos);
            let mut a = PlayAction::new();
            let mut ids: Vec<CardId> = Vec::new();
            ids.push(id);
            let gt = ActionTarget { player_id: #[verifier::truncate] (t as i32), action: ActionType::Steal { cards: ids }, effect: String::from_str("give") };
            proof {
                lemma_targets_push(a.targets@, gt);
            }
            a.targets.push(gt);
            proof {
                lemma_actions_push(info.actions@, a);
            }
            info.actions.push(a);
        }
        let ghost s2 = state_of(*game, *info, ds, bu);
        proof {
            let res = complex_effect_step(*self, *e, p as int, targets@, empty_log, s);
            assert(s1.players[p as int].hand == game.players@[p as int]@.hand || true);
        }
        Card::draw_recorded(info, game, p, 1, Ghost(ds), Ghost(bu));
        proof {
            let res = complex_effect_step(*self, *e, p as int, targets@, empty_log, s).unwrap();
            assert(res =~= state_of(*game, *info, ds, bu));
        }
        (Ok(()), Ghost(empty_log))
    }

    /// Airtichaut: heals the player by 5 per card in hand, then gives the target all its cards but the airtichaut.
    fn give_airtichaut(
        &self,
        e: &ComplexEffect,
        info: &mut PlayInfo,
        game: &mut Game,
        p: usize,
        targets: &Vec<usize>,
        Ghost(ds): Ghost<bool>,
        Ghost(bu): Ghost<Set<usize>>,
    ) -> (r: (Result<(), String>, Ghost<Seq<Seq<usize>>>))
        requires
            *e is Give,
            lowercase(self.spec_name()) == "airtichaut"@,
            targets.len() > 0,
            targets[0] != p,
            p < old(game).players.len(),
            forall|k: int| 0 <= k < targets.len() ==> targets[k] < old(game).players.len(),
            forall|log: Seq<Seq<usize>>|
                complex_effect_step(*self, *e, p as int, targets@, log, state_of(*old(game), *old(info), ds, bu)) is Some,
        ensures
            valid_log(r.1@),
            effect_log_fits(*self, *e, p as int, targets@, r.1@, state_of(*old(game), *old(info), ds, bu)),
            outcome_matches(
                complex_effect_step(*self, *e, p as int, targets@, r.1@, state_of(*old(game), *old(info), ds, bu)),
                r.0, *final(game), *final(info), ds, bu,
            ),
            same_game_rest(*old(game), *final(game)),
            final(game).players.len() == old(game).players.len(),
    {
        let ghost s = state_of(*old(game), *old(info), ds, bu);
        reveal(complex_effect_step);
        let ghost empty_log = Seq::<Seq<usize>>::empty();
        assert(complex_effect_step(*self, *e, p as int, targets@, empty_log, s) is Some);
        let t = targets[0];
        let ghost players0 = game.players@;
        proof {
            assert(players_view(players0)[t as int] == players0[t as int]@);
            assert(players_view(players0)[p as int] == players0[p as int]@);
        }
        let nb = game.players[p].hand_cards.len();
        proof {
            reveal_strlit("airtichaut");
            reveal_strlit("flambeau");
            reveal_strlit("shuriken");
            assert("airtichaut"@[0] == 'a');
            assert("shuriken"@[0] == 's');
            assert("airtichaut"@ != "shuriken"@);
            assert(s.players[p as int].hand.len() == nb);
            assert("airtichaut"@.len() == 10);
            assert("flambeau"@.len() == 8);
            assert("airtichaut"@ != "flambeau"@);
            assert(lowercase(self.spec_name()) != "flambeau"@);
            assert(targets@[0] as int != p as int);
            assert(nb > 0 ==> nb * 5 <= usize::MAX);
            assert(nb > 0 ==> heal_defined(s.players[p as int].health, (nb * 5) as u32));
        }
        if nb > 0 {
            let target = game.players[p].heal((nb * 5) as u32, String::from_str("airtichaut_heal"));
            proof {
                lemma_players_update(players0, p as int, game.players@[p as int]);
            }
            let mut a = PlayAction::new();
            proof {
                lemma_targets_push(a.targets@, target);
            }
            a.targets.push(target);
            proof {
                lemma_actions_push(info.actions@, a);
            }
            info.actions.push(a);
        }
        proof {
            assert(players_view(game.players@)[p as int] == game.players@[p as int]@);
        }
        let pos = position_named(&game.players[p].hand_cards, &String::from_str("airtichaut"));
        let mut to_give: Vec<CardId> = Vec::new();
        let mut i: usize = 0;
        let ghost hand = game.players@[p as int].hand_cards@;
        let ghost others = if pos < hand.len() { hand.remove(pos as int) } else { hand };
        while i < game.players[p].hand_cards.len()
            invariant
                p < game.players.len(),
                hand == game.players@[p as int].hand_cards@,
                i <= hand.len(),
                others == (if pos < hand.len() { hand.remove(pos as int) } else { hand }),
                to_give@ == card_ids(others.take(if pos < i { i - 1 } else { i as int })),
            decreases hand.len() - i,
        {
            proof {
                if i < pos {
                    assert(others.take(i + 1) =~= others.take(i as int).push(hand[i as int]));
                } else if i > pos {
                    assert(others.take(i as int) =~= others.take(i - 1).push(hand[i as int]));
                }
                assert(card_ids(others.take(if pos < i + 1 { i as int } else { i + 1 }))
                    =~= if i == pos { card_ids(others.take(if pos < i { i - 1 } else { i as int })) } else {
                        card_ids(others.take(if pos < i { i - 1 } else { i as int })).push(hand[i as int].get_id())
                    });
            }
            if i != pos {
                to_give.push(game.players[p].hand_cards[i].get_id());
            }
            i = i + 1;
        }
        proof {
            assert(others.take(if pos < i { i - 1 } else { i as int }) =~= others);
        }
        let sorted = sort_desc(&to_give);
        let given = game.give_cards_by_id(p, t, &sorted);
        Card::record_give_exec(info, t, given);
        proof {
            let res = complex_effect_step(*self, *e, p as int, targets@, empty_log, s).unwrap();
            assert(res.players == players_view(game.players@));
            assert(res.actions =~= info@);
        }
        (Ok(()), Ghost(empty_log))
    }

    /// Shuriken: gives the target two cards chosen by chance, then the player draws two cards.
    fn give_shuriken(
        &self,
        e: &ComplexEffect,
        info: &mut PlayInfo,
        game: &mut Game,
        p: usize,
        targets: &Vec<usize>,
        Ghost(ds): Ghost<bool>,
        Ghost(bu): Ghost<Set<usize>>,
    ) -> (r: (Result<(), String>, Ghost<Seq<Seq<usize>>>))
        requires
            *e is Give,
            lowercase(self.spec_name()) == "shuriken"@,
            targets.len() > 0,
            targets[0] != p,
            p < old(game).players.len(),
            forall|k: int| 0 <= k < targets.len() ==> targets[k] < old(game).players.len(),
            forall|log: Seq<Seq<usize>>|
                complex_effect_step(*self, *e, p as int, targets@, log, state_of(*old(game), *old(info), ds, bu)) is Some,
        ensures
            valid_log(r.1@),
            effect_log_fits(*self, *e, p as int, targets@, r.1@, state_of(*old(game), *old(info), ds, bu)),
            outcome_matches(
                complex_effect_step(*self, *e, p as int, targets@, r.1@, state_of(*old(game), *old(info), ds, bu)),
                r.0, *final(game), *final(info), ds, bu,
            ),
            same_game_rest(*old(game), *final(game)),
            final(game).players.len() == old(game).players.len(),
    {
        let ghost s = state_of(*old(game), *old(info), ds, bu);
        reveal(complex_effect_step);
        let ghost empty_log = Seq::<Seq<usize>>::empty();
        assert(complex_effect_step(*self, *e, p as int, targets@, empty_log, s) is Some);
        let t = targets[0];
        let ghost players0 = game.players@;
        proof {
            assert(players_view(players0)[t as int] == players0[t as int]@);
            assert(players_view(players0)[p as int] == players0[p as int]@);
        }
        proof {
            reveal_strlit("shuriken");
            reveal_strlit("airtichaut");
            reveal_strlit("flambeau");
            assert("shuriken"@.len() == 8);
            assert("airtichaut"@.len() == 10);
            assert("flambeau"@[0] == 'f');
            assert("shuriken"@[0] == 's');
            assert("shuriken"@ != "flambeau"@);
            assert("shuriken"@ != "airtichaut"@);
        }
        let perm = shuffled_indices(game.players[p].hand_cards.len());
        let picks = first_two(&perm);
        let mut to_remove: Vec<usize> = Vec::new();
        if picks.len() == 2 && picks[0] < picks[1] {
            to_remove.push(picks[1]);
            to_remove.push(picks[0]);
        } else {
            to_remove = picks;
        }
        let ghost log = seq![perm@];
        proof {
            assert(first_pick(log) == perm@);
            assert(to_remove@ =~= desc_pair(first_two_of(perm@)));
        }
        let given = game.move_picked_cards(p, t, &to_remove);
        Card::record_give_exec(info, t, given);
        Card::draw_recorded(info, game, p, 2, Ghost(ds), Ghost(bu));
        proof {
            let res = complex_effect_step(*self, *e, p as int, targets@, log, s).unwrap();
            assert(res =~= state_of(*game, *info, ds, bu));
        }
        (Ok(()), Ghost(log))
    }

    /// Other cards: the played card is discarded and the target gets all the other cards of the player.
    fn give_all(
        &self,
        e: &ComplexEffect,
        name: &String,
        info: &mut PlayInfo,
        game: &mut Game,
        p: usize,
        targets: &Vec<usize>,
        Ghost(ds): Ghost<bool>,
        Ghost(bu): Ghost<Set<usize>>,
    ) -> (r: (Result<(), String>, Ghost<Seq<Seq<usize>>>))
        requires
            *e is Give,
            name@ == lowercase(self.spec_name()),
            name@ != "flambeau"@,
            name@ != "airtichaut"@,
            name@ != "shuriken"@,
            targets.len() > 0,
            targets[0] != p,
            p < old(game).players.len(),
            forall|k: int| 0 <= k < targets.len() ==> targets[k] < old(game).players.len(),
            forall|log: Seq<Seq<usize>>|
                complex_effect_step(*self, *e, p as int, targets@, log, state_of(*old(game), *old(info), ds, bu)) is Some,
        ensures
            valid_log(r.1@),
            effect_log_fits(*self, *e, p as int, targets@, r.1@, state_of(*old(game), *old(info), ds, bu)),
            outcome_matches(
                complex_effect_step(*self, *e, p as int, targets@, r.1@, state_of(*old(game), *old(info), ds, bu)),
                r.0, *final(game), *final(info), ds, bu,
            ),
            same_game_rest(*old(game), *final(game)),
            final(game).players.len() == old(game).players.len(),
    {
        let ghost s = state_of(*old(game), *old(info), ds, bu);
        reveal(complex_effect_step);
        let ghost empty_log = Seq::<Seq<usize>>::empty();
        let t = targets[0];
        let ghost players0 = game.players@;
        proof {
            assert(players_view(players0)[t as int] == players0[t as int]@);
            assert(players_view(players0)[p as int] == players0[p as int]@);
        }
        let pos = position_named(&game.players[p].hand_cards, name);
        if pos < game.players[p].hand_cards.len() {
            let _ = game.players[p].hand_cards.remove(pos);
            proof {
                lemma_players_update(players0, p as int, game.players@[p as int]);
            }
        }
        let ghost players1 = game.players@;
        let ghost kept = players1[p as int].hand_cards@;
        let ghost kl = kept.len();
        proof {
            assert(players_view(players1)[t as int] == players1[t as int]@);
            assert(players_view(players1)[p as int] == players1[p as int]@);
            assert(kept.reverse().take(0) =~= Seq::<Rc<Card>>::empty());
            assert(kept.take(kl as int) =~= kept);
            assert(players_view(players1) =~= players_view(players1).update(
                p as int,
                crate::player::PlayerView { hand: kept.take(kl as int), ..players1[p as int]@ },
            ).update(
                t as int,
                crate::player::PlayerView { hand: players1[t as int]@.hand + kept.reverse().take(0), ..players1[t as int]@ },
            ));
        }
        let mut given: Vec<CardId> = Vec::new();
        let mut i: usize = game.players[p].hand_cards.len();
        while i > 0
            invariant
                p < game.players.len(),
                t < game.players.len(),
                t != p,
                game.players.len() == old(game).players.len(),
                players1.len() == game.players.len(),
                i <= kl,
                kl == kept.len(),
                kept == players1[p as int].hand_cards@,
                players_view(game.players@) == players_view(players1).update(
                    p as int,
                    crate::player::PlayerView { hand: kept.take(i as int), ..players1[p as int]@ },
                ).update(
                    t as int,
                    crate::player::PlayerView { hand: players1[t as int]@.hand + kept.reverse().take(kl - i), ..players1[t as int]@ },
                ),
                given@ == card_ids(kept.reverse().take(kl - i)),
                game.pile == old(game).pile,
                same_game_rest(*old(game), *game),
            decreases i,
        {
            i = i - 1;
            proof {
                assert(players_view(game.players@)[p as int] == game.players@[p as int]@);
                assert(game.players@[p as int].hand_cards@ == kept.take(i + 1));
            }
            let ghost c = kept[i as int];
            let id = game.move_card(p, t, i);
            proof {
                assert(kept.take(i + 1).remove(i as int) =~= kept.take(i as int));
                assert(kept.reverse().take(kl - i) =~= kept.reverse().take(kl - i - 1).push(c));
                assert(players1[t as int]@.hand + kept.reverse().take(kl - i)
                    =~= (players1[t as int]@.hand + kept.reverse().take(kl - i - 1)).push(c));
                assert(card_ids(kept.reverse().take(kl - i)) =~= card_ids(kept.reverse().take(kl - i - 1)).push(c.get_id()));
                assert(players_view(game.players@) =~= players_view(players1).update(
                    p as int,
                    crate::player::PlayerView { hand: kept.take(i as int), ..players1[p as int]@ },
                ).update(
                    t as int,
                    crate::player::PlayerView { hand: players1[t as int]@.hand + kept.reverse().take(kl - i), ..players1[t as int]@ },
                ));
            }
            given.push(id);
        }
        Card::record_give_exec(info, t, given);
        proof {
            assert(kept.reverse().take(kl as int) =~= kept.reverse());
            assert(kept.take(0) =~= Seq::<Rc<Card>>::empty());
            let res = complex_effect_step(*self, *e, p as int, targets@, empty_log, s).unwrap();
            assert(res.players =~= players_view(game.players@));
            assert(res.actions =~= info@);
        }
        (Ok(()), Ghost(empty_log))
    }

    /// Give: moves cards of the player to the first target, as the card's name says.
    fn give_effect(
        &self,
        e: &ComplexEffect,
        name: &String,
        info: &mut PlayInfo,
        game: &mut Game,
        p: usize,
        targets: &Vec<usize>,
        Ghost(ds): Ghost<bool>,
        Ghost(bu): Ghost<Set<usize>>,
    ) -> (r: (Result<(), String>, Ghost<Seq<Seq<usize>>>))
        requires
            *e is Give,
            name@ == lowercase(self.spec_name()),
            p < old(game).players.len(),
            forall|k: int| 0 <= k < targets.len() ==> targets[k] < old(game).players.len(),
            forall|log: Seq<Seq<usize>>|
                complex_effect_step(*self, *e, p as int, targets@, log, state_of(*old(game), *old(info), ds, bu)) is Some,
        ensures
            valid_log(r.1@),
            effect_log_fits(*self, *e, p as int, targets@, r.1@, state_of(*old(game), *old(info), ds, bu)),
            outcome_matches(
                complex_effect_step(*self, *e, p as int, targets@, r.1@, state_of(*old(game), *old(info), ds, bu)),
                r.0, *final(game), *final(info), ds, bu,
            ),
            same_game_rest(*old(game), *final(game)),
            final(game).players.len() == old(game).players.len(),
    {
        let ghost s = state_of(*old(game), *old(info), ds, bu);
        reveal(complex_effect_step);
        let ghost empty_log = Seq::<Seq<usize>>::empty();
        assert(complex_effect_step(*self, *e, p as int, targets@, empty_log, s) is Some);
        let t = targets[0];
        if t == p {
            assert(s.with_error(PlayError::TargetIsPlayer) =~= complex_effect_step(*self, *e, p as int, targets@, empty_log, s).unwrap());
            return (Err(String::from_str("Target is player !")), Ghost(empty_log));
        }
        if *name == String::from_str("flambeau") {
            self.give_flambeau(e, info, game, p, targets, Ghost(ds), Ghost(bu))
        } else if *name == String::from_str("airtichaut") {
            self.give_airtichaut(e, info, game, p, targets, Ghost(ds), Ghost(bu))
        } else if *name == String::from_str("shuriken") {
            self.give_shuriken(e, info, game, p, targets, Ghost(ds), Ghost(bu))
        } else {
            self.give_all(e, name, info, game, p, targets, Ghost(ds), Ghost(bu))
        }
    }
}


impl Card {
    /// One complex effect of the card, `name` being the card's name in lower case.
    fn complex_effect(
        &self,
        e: &ComplexEffect,
        name: &String,
        info: &mut PlayInfo,
        game: &mut Game,
        p: usize,
        targets: &Vec<usize>,
        Ghost(ds): Ghost<bool>,
        Ghost(bu): Ghost<Set<usize>>,
    ) -> (r: (Result<(), String>, Ghost<Seq<Seq<usize>>>))
        requires
            name@ == lowercase(self.spec_name()),
            p < old(game).players.len(),
            forall|k: int| 0 <= k < targets.len() ==> targets[k] < old(game).players.len(),
            forall|log: Seq<Seq<usize>>|
                complex_effect_step(*self, *e, p as int, targets@, log, state_of(*old(game), *old(info), ds, bu)) is Some,
        ensures
            valid_log(r.1@),
            effect_log_fits(*self, *e, p as int, targets@, r.1@, state_of(*old(game), *old(info), ds, bu)),
            outcome_matches(
                complex_effect_step(*self, *e, p as int, targets@, r.1@, state_of(*old(game), *old(info), ds, bu)),
                r.0, *final(game), *final(info), ds, bu,
            ),
            same_game_rest(*old(game), *final(game)),
            final(game).players.len() == old(game).players.len(),
    {
        let ghost s = state_of(*old(game), *old(info), ds, bu);
        reveal(complex_effect_step);
        assert(complex_effect_step(*self, *e, p as int, targets@, Seq::empty(), s) is Some);
        match e {
            ComplexEffect::Steal { .. } => {
                if *name == String::from_str("tornade") {
                    self.tornade_effect(e, info, game, p, targets, Ghost(ds), Ghost(bu))
                } else {
                    self.steal_effect(e, info, game, p, targets, Ghost(ds), Ghost(bu))
                }
            },
            ComplexEffect::Give => self.give_effect(e, name, info, game, p, targets, Ghost(ds), Ghost(bu)),
            ComplexEffect::Exchange => (Ok(()), Ghost(Seq::empty())),
        }
    }

    /// Play of a complex effect card with one dice roll: target check, attack of each target given,
    /// heal and draw of the player, then each complex effect in order. Gives, besides the result,
    /// the shuffled lists of the random choices made by each effect.
    pub(crate) fn play_complex(&self, player_index: usize, target_indices: Vec<usize>, game: &mut Game, dice: u8)
        -> (r: (Result<(PlayInfo, HashSet<usize>), String>, Ghost<Seq<Seq<Seq<usize>>>>))
        requires
            *self is ComplexEffect,
            player_index < old(game).players.len(),
            forall|k: int| 0 <= k < target_indices.len() ==> target_indices[k] < old(game).players.len(),
            forall|logs: Seq<Seq<Seq<usize>>>|
                complex_play(*self, player_index as int, target_indices@, dice, logs,
                    initial_state(players_view(old(game).players@), old(game).pile@)) is Some,
        ensures
            forall|k: int| 0 <= k < r.1@.len() ==> valid_log(#[trigger] r.1@[k]),
            complex_logs_fit(*self, player_index as int, target_indices@, dice, r.1@,
                initial_state(players_view(old(game).players@), old(game).pile@)),
            play_outcome(
                complex_play(*self, player_index as int, target_indices@, dice, r.1@,
                    initial_state(players_view(old(game).players@), old(game).pile@)),
                r.0,
                *final(game),
            ),
            same_game_rest(*old(game), *final(game)),
            final(game).players.len() == old(game).players.len(),
    {
        let ghost s0 = initial_state(players_view(game.players@), game.pile@);
        let ghost p = player_index as int;
        let ghost tg = target_indices@;
        let ghost no_logs = Seq::<Seq<Seq<usize>>>::empty();
        assert(complex_play(*self, p, tg, dice, no_logs, s0) is Some);
        proof {
            assert(players_view(game.players@).len() == game.players@.len());
        }
        let c = match self {
            Card::ComplexEffect(c) => c,
            _ => {
                return (Ok((PlayInfo::new(), HashSet::new())), Ghost(no_logs));
            },
        };
        let targets = target_players(game, &target_indices);
        let valid = self.validate_targets(&targets);
        if let Err(e) = valid {
            return (Err(e), Ghost(no_logs));
        }
        let mut info = PlayInfo::new();
        let mut buffs_used: HashSet<usize> = HashSet::new();
        let mut dice_used = false;
        assert(state_of(*game, info, dice_used, buffs_used@) =~= s0);
        let r1 = self.handle_attack(&mut info, game, player_index, &target_indices, dice, &mut dice_used, &mut buffs_used);
        if let Err(e) = r1 {
            return (Err(e), Ghost(no_logs));
        }
        let ghost s1 = state_of(*game, info, dice_used, buffs_used@);
        assert(attack_phase(*self, p, tg, dice, s0).unwrap() =~= s1);
        let r2 = self.handle_heal(&mut info, game, player_index, &target_indices, dice, &mut dice_used, &mut buffs_used);
        if let Err(e) = r2 {
            return (Err(e), Ghost(no_logs));
        }
        let ghost s2 = state_of(*game, info, dice_used, buffs_used@);
        assert(heal_phase(*self, p, tg, dice, s1).unwrap() =~= s2);
        let r3 = self.handle_draw(&mut info, game, player_index, &target_indices, dice, &mut dice_used, &mut buffs_used);
        if let Err(e) = r3 {
            return (Err(e), Ghost(no_logs));
        }
        let ghost s3 = state_of(*game, info, dice_used, buffs_used@);
        assert(draw_phase(*self, p, tg, dice, s2).unwrap() =~= s3);
        let ghost effects = c.complex_effects@;
        proof {
            assert forall|logs: Seq<Seq<Seq<usize>>>|
                complex_play(*self, p, tg, dice, logs, s0) == complex_effects_play(*self, effects, p, tg, logs, s3) by {}
            assert forall|logs: Seq<Seq<Seq<usize>>>| complex_effects_play(*self, effects, p, tg, logs, s3) is Some by {
                assert(complex_play(*self, p, tg, dice, logs, s0) is Some);
            }
            assert(effects.take(0) =~= Seq::<ComplexEffect>::empty());
        }
        let name = to_lowercase(self.get_name().as_str());
        let ghost mut logs: Seq<Seq<Seq<usize>>> = Seq::empty();
        let mut k: usize = 0;
        while k < c.complex_effects.len()
            invariant
                *self is ComplexEffect,
                c == self->ComplexEffect_0,
                effects == c.complex_effects@,
                name@ == lowercase(self.spec_name()),
                k <= effects.len(),
                logs.len() == k,
                forall|j: int| 0 <= j < k ==> valid_log(#[trigger] logs[j]),
                player_index < game.players.len(),
                game.players.len() == old(game).players.len(),
                forall|j: int| 0 <= j < target_indices.len() ==> target_indices[j] < old(game).players.len(),
                p == player_index,
                tg == target_indices@,
                forall|L: Seq<Seq<Seq<usize>>>| complex_effects_play(*self, effects, p, tg, L, s3) is Some,
                forall|L: Seq<Seq<Seq<usize>>>|
                    complex_play(*self, p, tg, dice, L, s0) == complex_effects_play(*self, effects, p, tg, L, s3),
                s0 == initial_state(players_view(old(game).players@), old(game).pile@),
                complex_effects_play(*self, effects.take(k as int), p, tg, logs, s3)
                    == Some(state_of(*game, info, dice_used, buffs_used@)),
                effects_logs_fit(*self, effects.take(k as int), p, tg, logs, s3),
                draw_phase(*self, p, tg, dice, s2) == Some(s3),
                heal_phase(*self, p, tg, dice, s1) == Some(s2),
                attack_phase(*self, p, tg, dice, s0) == Some(s1),
                target_count_accepted(heal_only(*self), self.get_target_type(), tg.len()),
                s3.error is None,
                same_game_rest(*old(game), *game),
            decreases effects.len() - k,
        {
            let ghost sk = state_of(*game, info, dice_used, buffs_used@);
            proof {
                assert(effects.take(k + 1).drop_last() =~= effects.take(k as int));
                assert forall|log: Seq<Seq<usize>>|
                    complex_effect_step(*self, effects[k as int], p, tg, log, sk) is Some by {
                    let big = logs.push(log);
                    lemma_complex_effects_prefix(*self, effects, p, tg, big, s3, k + 1);
                    lemma_complex_effects_logs(*self, effects.take(k as int), p, tg, big, logs, s3);
                }
            }
            let (r, Ghost(log)) = self.complex_effect(&c.complex_effects[k], &name, &mut info, game, player_index,
                &target_indices, Ghost(dice_used), Ghost(buffs_used@));
            proof {
                let big = logs.push(log);
                lemma_complex_effects_logs(*self, effects.take(k as int), p, tg, big, logs, s3);
                lemma_effects_fit_logs(*self, effects.take(k as int), p, tg, big, logs, s3);
                assert(effects.take(k + 1).drop_last() =~= effects.take(k as int));
                assert(big[k as int] == log);
                logs = big;
                assert(effects.take(k + 1).last() == effects[k as int]);
                assert(complex_effects_play(*self, effects.take(k + 1), p, tg, logs, s3)
                    == complex_effect_step(*self, effects[k as int], p, tg, log, sk));
            }
            if let Err(e) = r {
                proof {
                    let se = complex_effects_play(*self, effects.take(k + 1), p, tg, logs, s3).unwrap();
                    lemma_complex_effects_error(*self, effects, p, tg, logs, s3, k + 1, se);
                    assert(complex_play(*self, p, tg, dice, logs, s0) == Some(se));
                    assert(se == complex_effect_step(*self, effects[k as int], p, tg, log, sk).unwrap());
                    assert(players_view(game.players@) == se.players);
                    assert(game.pile@ == se.pile);
                    assert(se.error is Some);
                    assert(e@ == crate::rules::error_message(se.error.unwrap()));
                    assert(s0 == initial_state(players_view(old(game).players@), old(game).pile@));
                    assert(play_outcome(complex_play(*self, p, tg, dice, logs, s0), Err(e), *game));
                    lemma_effects_fit_error(*self, effects, p, tg, logs, s3, k + 1, se);
                }
                return (Err(e), Ghost(logs));
            }
            k = k + 1;
        }
        proof {
            assert(effects.take(k as int) =~= effects);
        }
        (Ok((info, buffs_used)), Ghost(logs))
    }
}

} // verus!
