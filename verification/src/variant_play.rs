//! Playing the multi-action, dice-rolling and Pearth cards.
use vstd::prelude::*;
use std::collections::HashSet;
use crate::card::{Card, MultiActionCard, TargetType};
use crate::game::{Game, players_view};
use crate::play::{
    TargetAction, step_of, state_of, outcome_matches, play_outcome, same_game_rest, target_players,
    check_target_count, other_player_indices, holds_target_all_buff,
};
use crate::play_info::{PlayAction, PlayInfo};
use crate::player::Player;
use crate::rules::{PlayState, TargetStep, PlayError, error_message, initial_state, target_count_accepted, others};
use crate::special_cards::{PlayersRollsDiceCardAction, PlayersRollsDiceCardActionType};
use crate::play_info::{ActionTarget, ActionType, ActionTargetView, PlayActionView, targets_view};
use crate::play::{lemma_players_update, lemma_targets_push, lemma_actions_push};
use crate::variant_rules::{
    dice_effect_hit, dice_effect_hits, lemma_dice_effect_hits_prefix, lemma_dice_effect_hits_keeps, dice_hits, rolls_sum, rolls_min, min_roll_hits,
    roller, roll_actions, rolls_dice_play,
    multi_action_step, multi_action_play, lemma_multi_action_prefix, lemma_multi_action_error, action_targets,
    total_discards, pearth_play,
};

verus! {

broadcast use vstd::std_specs::hash::group_hash_axioms;

impl MultiActionCard {
    /// Checks the number of targets of action `i`: none when the action heals or draws without
    /// attacking, else as its target type says.
    pub fn validate_targets_for_action(&self, i: usize, targets: &Vec<&Player>) -> (r: Result<(), String>)
        ensures
            r is Ok <==> target_count_accepted(self.action_no_targets(i as int), self.action_target_type(i as int), targets.len() as nat),
            r matches Err(e) ==> e@ == error_message(PlayError::InvalidTargetCount),
    {
        let no_targets = self.get_attack_for_action(i) == 0 && self.get_attack_modifier_for_action(i).is_none() && (
        self.get_heal_for_action(i) > 0 || self.get_heal_modifier_for_action(i).is_some()
            || self.get_draw_for_action(i) > 0 || self.get_draw_modifier_for_action(i).is_some());
        check_target_count(no_targets, self.get_target_type_for_action(i), targets.len())
    }
}

/// A copy of the indices.
fn copy_indices(v: &Vec<usize>) -> (r: Vec<usize>)
    ensures
        r@ == v@,
{
    let mut r: Vec<usize> = Vec::new();
    let mut i: usize = 0;
    while i < v.len()
        invariant
            i <= v.len(),
            r@ == v@.take(i as int),
        decreases v.len() - i,
    {
        assert(v@.take(i + 1) =~= v@.take(i as int).push(v@[i as int]));
        r.push(v[i]);
        i = i + 1;
    }
    assert(v@.take(v.len() as int) =~= v@);
    r
}

impl Card {
    /// Action `i` of a multi-action card, with its own dice roll.
    fn multi_action_step(
        &self,
        i: usize,
        info: &mut PlayInfo,
        game: &mut Game,
        player_index: usize,
        target_indices: &Vec<usize>,
        dice: u8,
        dice_used: &mut bool,
        buffs_used: &mut HashSet<usize>,
    ) -> (r: Result<(), String>)
        requires
            *self is MultiAction,
            player_index < old(game).players.len(),
            forall|k: int| 0 <= k < target_indices.len() ==> target_indices[k] < old(game).players.len(),
            multi_action_step(*self, player_index as int, target_indices@, dice, i as int,
                state_of(*old(game), *old(info), *old(dice_used), old(buffs_used)@)) is Some,
        ensures
            outcome_matches(
                multi_action_step(*self, player_index as int, target_indices@, dice, i as int,
                    state_of(*old(game), *old(info), *old(dice_used), old(buffs_used)@)),
                r, *final(game), *final(info), *final(dice_used), final(buffs_used)@,
            ),
            same_game_rest(*old(game), *final(game)),
            final(game).players.len() == old(game).players.len(),
    {
        let ghost s = state_of(*old(game), *old(info), *old(dice_used), old(buffs_used)@);
        proof {
            assert(players_view(game.players@).len() == game.players@.len());
            assert(game.players@[player_index as int]@ == s.players[player_index as int]);
        }
        let c = match self {
            Card::MultiAction(c) => c,
            _ => {
                return Ok(());
            },
        };
        let tt = c.get_target_type_for_action(i);
        let ts = if tt == TargetType::All || holds_target_all_buff(&game.players[player_index].buffs) {
            other_player_indices(player_index, game.players.len())
        } else {
            copy_indices(target_indices)
        };
        proof {
            assert(ts@ == action_targets(*c, i as int, s.players, player_index as int, target_indices@));
            assert forall|k: int| 0 <= k < ts.len() implies ts[k] < game.players.len() by {
                if !(ts@ =~= target_indices@) {
                    assert(ts@ == others(player_index as int, game.players.len() as int));
                }
            }
        }
        let targets = target_players(game, &ts);
        let valid = c.validate_targets_for_action(i, &targets);
        if let Err(e) = valid {
            return Err(e);
        }
        *dice_used = false;
        let ghost s0 = PlayState { dice_used: false, ..s };
        assert(state_of(*game, *info, *dice_used, buffs_used@) =~= s0);
        if c.get_attack_for_action(i) > 0 || c.get_attack_modifier_for_action(i).is_some() {
            let action = TargetAction::Attack {
                base: c.get_attack_for_action(i),
                modifier: c.get_attack_modifier_for_action(i),
            };
            assert(step_of(*self, action, dice) == TargetStep::Attack {
                base: c.action_attack(i as int),
                modifier: c.action_attack_modifier(i as int),
                element: c.element,
                kind: c.kind,
                stars: c.stars,
                dice,
            });
            let r = self.handle_targets(action, info, game, player_index, &ts, dice, dice_used, buffs_used);
            if r.is_err() {
                return r;
            }
        }
        let ghost s1 = state_of(*game, *info, *dice_used, buffs_used@);
        let heal_modifier = c.get_heal_modifier_for_action(i);
        if c.get_heal_for_action(i) > 0 || heal_modifier.is_some() {
            let base = if heal_modifier.is_some() { self.get_heal() } else { c.get_heal_for_action(i) };
            self.heal_hit(info, game, player_index, player_index, player_index, base, heal_modifier, dice, dice_used, buffs_used);
        }
        let ghost s2 = state_of(*game, *info, *dice_used, buffs_used@);
        proof {
            assert(players_view(game.players@).len() == game.players@.len());
        }
        let draw_modifier = c.get_draw_modifier_for_action(i);
        if c.get_draw_for_action(i) > 0 || draw_modifier.is_some() {
            self.draw_hit(info, game, player_index, player_index, player_index, c.get_draw_for_action(i), draw_modifier,
                dice, dice_used, buffs_used);
        }
        proof {
            assert(players_view(game.players@).len() == game.players@.len());
        }
        Ok(())
    }

    /// Play of a multi-action card: each action in turn, action `i` with dice roll `rolls[i]`.
    pub(crate) fn play_multi_action(&self, player_index: usize, target_indices: Vec<usize>, game: &mut Game, rolls: &Vec<u8>)
        -> (r: Result<(PlayInfo, HashSet<usize>), String>)
        requires
            *self is MultiAction,
            player_index < old(game).players.len(),
            forall|k: int| 0 <= k < target_indices.len() ==> target_indices[k] < old(game).players.len(),
            rolls.len() >= self->MultiAction_0.actions,
            multi_action_play(*self, player_index as int, target_indices@, rolls@,
                initial_state(players_view(old(game).players@), old(game).pile@), self->MultiAction_0.actions as nat) is Some,
        ensures
            play_outcome(
                multi_action_play(*self, player_index as int, target_indices@, rolls@,
                    initial_state(players_view(old(game).players@), old(game).pile@), self->MultiAction_0.actions as nat),
                r,
                *final(game),
            ),
            same_game_rest(*old(game), *final(game)),
            final(game).players.len() == old(game).players.len(),
    {
        let ghost s0 = initial_state(players_view(game.players@), game.pile@);
        let c = match self {
            Card::MultiAction(c) => c,
            _ => {
                return Ok((PlayInfo::new(), HashSet::new()));
            },
        };
        let ghost n = c.actions as nat;
        let mut info = PlayInfo::new();
        let mut buffs_used: HashSet<usize> = HashSet::new();
        let mut dice_used = false;
        assert(state_of(*game, info, dice_used, buffs_used@) =~= s0);
        let mut k: usize = 0;
        while k < c.actions
            invariant
                *self is MultiAction,
                c == self->MultiAction_0,
                n == c.actions,
                k <= c.actions,
                rolls.len() >= c.actions,
                player_index < game.players.len(),
                game.players.len() == old(game).players.len(),
                forall|j: int| 0 <= j < target_indices.len() ==> target_indices[j] < old(game).players.len(),
                s0 == initial_state(players_view(old(game).players@), old(game).pile@),
                multi_action_play(*self, player_index as int, target_indices@, rolls@, s0, n) is Some,
                multi_action_play(*self, player_index as int, target_indices@, rolls@, s0, k as nat)
                    == Some(state_of(*game, info, dice_used, buffs_used@)),
                same_game_rest(*old(game), *game),
            decreases c.actions - k,
        {
            proof {
                lemma_multi_action_prefix(*self, player_index as int, target_indices@, rolls@, s0, n, (k + 1) as nat);
            }
            let r = self.multi_action_step(k, &mut info, game, player_index, &target_indices, rolls[k], &mut dice_used,
                &mut buffs_used);
            if let Err(e) = r {
                proof {
                    let s1 = multi_action_play(*self, player_index as int, target_indices@, rolls@, s0, (k + 1) as nat).unwrap();
                    lemma_multi_action_error(*self, player_index as int, target_indices@, rolls@, s0, n, (k + 1) as nat, s1);
                }
                return Err(e);
            }
            k = k + 1;
        }
        Ok((info, buffs_used))
    }
}

pub proof fn lemma_total_discards_prefix(players: Seq<crate::player::PlayerView>, i: int)
    requires
        0 <= i <= players.len(),
    ensures
        total_discards(players.take(i)) <= total_discards(players),
    decreases players.len(),
{
    if i < players.len() {
        lemma_total_discards_prefix(players.drop_last(), i);
        assert(players.drop_last().take(i) =~= players.take(i));
    } else {
        assert(players.take(i) =~= players);
    }
}

impl Card {
    /// Play of the Pearth card: heals the player by the number of cards discarded by all players.
    pub(crate) fn play_pearth(&self, player_index: usize, game: &mut Game) -> (r: Result<(PlayInfo, HashSet<usize>), String>)
        requires
            player_index < old(game).players.len(),
            pearth_play(player_index as int, initial_state(players_view(old(game).players@), old(game).pile@)) is Some,
        ensures
            play_outcome(pearth_play(player_index as int, initial_state(players_view(old(game).players@), old(game).pile@)), r, *final(game)),
            same_game_rest(*old(game), *final(game)),
            final(game).players.len() == old(game).players.len(),
    {
        let ghost pv = players_view(game.players@);
        let mut info = PlayInfo::new();
        let mut discards: usize = 0;
        let mut i: usize = 0;
        while i < game.players.len()
            invariant
                i <= game.players.len(),
                pv == players_view(game.players@),
                total_discards(pv) <= usize::MAX,
                discards == total_discards(pv.take(i as int)),
            decreases game.players.len() - i,
        {
            proof {
                assert(pv.take(i + 1).drop_last() =~= pv.take(i as int));
                lemma_total_discards_prefix(pv, i + 1);
                assert(pv[i as int] == game.players@[i as int]@);
            }
            discards = discards + game.players[i].discard_cards.len();
            i = i + 1;
        }
        assert(pv.take(i as int) =~= pv);
        let mut action = PlayAction::new();
        let effect = self.get_heal_effect();
        assert(pv[player_index as int] == game.players@[player_index as int]@);
        let ghost players0 = game.players@;
        let target = game.players[player_index].heal(discards as u32, effect);
        proof {
            crate::play::lemma_players_update(players0, player_index as int, game.players@[player_index as int]);
            crate::play::lemma_targets_push(action.targets@, target);
        }
        action.targets.push(target);
        proof {
            crate::play::lemma_actions_push(info.actions@, action);
        }
        info.actions.push(action);
        Ok((info, HashSet::new()))
    }
}


impl PlayersRollsDiceCardActionType {
    /// Player `who` is affected by `amount` of the card's effect: damage, heal, or that many cards drawn.
    pub fn process_action(&self, amount: u32, who: usize, card: &Card, game: &mut Game) -> (r: ActionTarget)
        requires
            who < old(game).players.len(),
            dice_effect_hit(*self, amount, who as int, card.get_element(), players_view(old(game).players@), old(game).pile@) is Some,
        ensures
            ({
                let (players, pile, t) = dice_effect_hit(*self, amount, who as int, card.get_element(),
                    players_view(old(game).players@), old(game).pile@).unwrap();
                &&& players_view(final(game).players@) == players
                &&& final(game).pile@ == pile
                &&& r@ == t
            }),
            same_game_rest(*old(game), *final(game)),
            final(game).players.len() == old(game).players.len(),
    {
        let ghost players0 = game.players@;
        assert(players_view(players0)[who as int] == players0[who as int]@);
        let r = match self {
            PlayersRollsDiceCardActionType::Attack => {
                let effect = card.get_damage_effect();
                game.players[who].damage(amount, effect)
            },
            PlayersRollsDiceCardActionType::Heal => {
                let effect = card.get_heal_effect();
                game.players[who].heal(amount, effect)
            },
            PlayersRollsDiceCardActionType::Draw => {
                let drawn = Game::give_from_pile(&mut game.pile, &mut game.players[who], amount as usize);
                ActionTarget {
                    player_id: game.players[who].id,
                    action: ActionType::Draw { cards: drawn },
                    effect: String::new(),
                }
            },
        };
        proof {
            lemma_players_update(players0, who as int, game.players@[who as int]);
        }
        r
    }
}

pub proof fn lemma_rolls_sum_prefix(rolls: Seq<u8>, i: int)
    requires
        0 <= i <= rolls.len(),
    ensures
        rolls_sum(rolls.take(i)) <= rolls_sum(rolls),
    decreases rolls.len(),
{
    if i < rolls.len() {
        lemma_rolls_sum_prefix(rolls.drop_last(), i);
        assert(rolls.drop_last().take(i) =~= rolls.take(i));
    } else {
        assert(rolls.take(i) =~= rolls);
    }
}

/// The state of a game with the actions of `info` (no dice shown, no buff used).
pub open spec fn game_state(game: Game, info: PlayInfo) -> PlayState {
    state_of(game, info, false, Set::empty())
}

impl PlayersRollsDiceCardAction {
    /// Applies the card's effect after the dice rolls (`dice_rolls[0]` is the player's, then one per
    /// target), in one action: to every player with its own roll, or to the players with the lowest
    /// roll with the sum of the rolls.
    pub fn process_dice_action(
        &self,
        card: &Card,
        action_type: PlayersRollsDiceCardActionType,
        info: &mut PlayInfo,
        game: &mut Game,
        player_index: usize,
        target_indices: &Vec<usize>,
        dice_rolls: &Vec<u8>,
    ) -> (r: Result<(), String>)
        requires
            dice_rolls.len() == target_indices.len() + 1,
            player_index < old(game).players.len(),
            forall|k: int| 0 <= k < target_indices.len() ==> target_indices[k] < old(game).players.len(),
            *self == PlayersRollsDiceCardAction::AffectsMinRollPlayersRollsSum ==> rolls_sum(dice_rolls@) <= u32::MAX,
            dice_effect_hits(action_type, dice_hits(*self, dice_rolls@, player_index as int, target_indices@),
                card.get_element(), game_state(*old(game), *old(info))) is Some,
        ensures
            r is Ok,
            ({
                let (s, tv) = dice_effect_hits(action_type, dice_hits(*self, dice_rolls@, player_index as int, target_indices@),
                    card.get_element(), game_state(*old(game), *old(info))).unwrap();
                &&& players_view(final(game).players@) == s.players
                &&& final(game).pile@ == s.pile
                &&& final(info)@ == old(info)@.push(PlayActionView { dice_roll: 0u8, player_dice_id: -1i32, targets: tv })
            }),
            same_game_rest(*old(game), *final(game)),
            final(game).players.len() == old(game).players.len(),
    {
        let ghost s0 = game_state(*old(game), *old(info));
        let ghost p = player_index as int;
        let ghost ts = target_indices@;
        let ghost el = card.get_element();
        let ghost hits = dice_hits(*self, dice_rolls@, p, ts);
        let mut action = PlayAction::new();
        let ghost info0 = *info;
        proof {
            assert(hits.take(0) =~= Seq::<(u32, int)>::empty());
            assert(targets_view(action.targets@) =~= Seq::<ActionTargetView>::empty());
            assert(game_state(*game, info0) =~= s0);
        }
        match self {
            PlayersRollsDiceCardAction::AffectsAllPlayers => {
                let mut j: usize = 0;
                while j < dice_rolls.len()
                    invariant
                        j <= dice_rolls.len(),
                        dice_rolls.len() == target_indices.len() + 1,
                        player_index < game.players.len(),
                        game.players.len() == old(game).players.len(),
                        forall|k: int| 0 <= k < target_indices.len() ==> target_indices[k] < old(game).players.len(),
                        hits == dice_hits(PlayersRollsDiceCardAction::AffectsAllPlayers, dice_rolls@, p, ts),
                        p == player_index, ts == target_indices@, el == card.get_element(),
                        dice_effect_hits(action_type, hits, el, s0) is Some,
                        dice_effect_hits(action_type, hits.take(j as int), el, s0)
                            == Some((game_state(*game, info0), targets_view(action.targets@))),
                        action.dice_roll == 0,
                        action.player_dice_id == -1,
                        same_game_rest(*old(game), *game),
                    decreases dice_rolls.len() - j,
                {
                    proof {
                        assert(hits.take(j + 1).drop_last() =~= hits.take(j as int));
                        lemma_dice_effect_hits_prefix(action_type, hits, el, s0, j + 1);
                    }
                    let who = if j == 0 { player_index } else { target_indices[j - 1] };
                    let t = action_type.process_action(dice_rolls[j] as u32, who, card, game);
                    proof {
                        lemma_targets_push(action.targets@, t);
                    }
                    action.targets.push(t);
                    j = j + 1;
                }
                proof {
                    assert(hits.take(j as int) =~= hits);
                }
            },
            PlayersRollsDiceCardAction::AffectsMinRollPlayersRollsSum => {
                let mut amount: u32 = 0;
                let mut j: usize = 0;
                while j < dice_rolls.len()
                    invariant
                        j <= dice_rolls.len(),
                        rolls_sum(dice_rolls@) <= u32::MAX,
                        amount == rolls_sum(dice_rolls@.take(j as int)),
                    decreases dice_rolls.len() - j,
                {
                    proof {
                        assert(dice_rolls@.take(j + 1).drop_last() =~= dice_rolls@.take(j as int));
                        lemma_rolls_sum_prefix(dice_rolls@, j + 1);
                    }
                    amount = amount + dice_rolls[j] as u32;
                    j = j + 1;
                }
                assert(dice_rolls@.take(j as int) =~= dice_rolls@);
                let mut min = dice_rolls[0];
                let mut j: usize = 1;
                assert(dice_rolls@.take(1).drop_last().len() == 0);
                while j < dice_rolls.len()
                    invariant
                        1 <= j <= dice_rolls.len(),
                        min == rolls_min(dice_rolls@.take(j as int)),
                    decreases dice_rolls.len() - j,
                {
                    assert(dice_rolls@.take(j + 1).drop_last() =~= dice_rolls@.take(j as int));
                    if dice_rolls[j] < min {
                        min = dice_rolls[j];
                    }
                    j = j + 1;
                }
                assert(dice_rolls@.take(j as int) =~= dice_rolls@);
                let mut j: usize = 0;
                proof {
                    assert(dice_rolls@.take(0) =~= Seq::<u8>::empty());
                }
                while j < dice_rolls.len()
                    invariant
                        j <= dice_rolls.len(),
                        dice_rolls.len() == target_indices.len() + 1,
                        player_index < game.players.len(),
                        game.players.len() == old(game).players.len(),
                        forall|k: int| 0 <= k < target_indices.len() ==> target_indices[k] < old(game).players.len(),
                        hits == min_roll_hits(dice_rolls@, p, ts, min, amount),
                        p == player_index, ts == target_indices@, el == card.get_element(),
                        dice_effect_hits(action_type, hits, el, s0) is Some,
                        dice_effect_hits(action_type, min_roll_hits(dice_rolls@.take(j as int), p, ts, min, amount), el, s0)
                            == Some((game_state(*game, info0), targets_view(action.targets@))),
                        min_roll_hits(dice_rolls@.take(j as int), p, ts, min, amount).len() <= hits.len(),
                        min_roll_hits(dice_rolls@.take(j as int), p, ts, min, amount)
                            == hits.take(min_roll_hits(dice_rolls@.take(j as int), p, ts, min, amount).len() as int),
                        action.dice_roll == 0,
                        action.player_dice_id == -1,
                        same_game_rest(*old(game), *game),
                    decreases dice_rolls.len() - j,
                {
                    let ghost prev = min_roll_hits(dice_rolls@.take(j as int), p, ts, min, amount);
                    proof {
                        assert(dice_rolls@.take(j + 1).drop_last() =~= dice_rolls@.take(j as int));
                        lemma_min_roll_hits_prefix(dice_rolls@, p, ts, min, amount, j + 1);
                    }
                    if dice_rolls[j] == min {
                        let who = if j == 0 { player_index } else { target_indices[j - 1] };
                        proof {
                            let next = min_roll_hits(dice_rolls@.take(j + 1), p, ts, min, amount);
                            assert(next == prev.push((amount, roller(p, ts, j as int))));
                            assert(next.drop_last() =~= prev);
                            lemma_dice_effect_hits_prefix(action_type, hits, el, s0, next.len() as int);
                        }
                        let t = action_type.process_action(amount, who, card, game);
                        proof {
                            lemma_targets_push(action.targets@, t);
                        }
                        action.targets.push(t);
                    }
                    j = j + 1;
                }
                proof {
                    assert(dice_rolls@.take(j as int) =~= dice_rolls@);
                }
            },
        }
        proof {
            lemma_actions_push(info.actions@, action);
        }
        info.actions.push(action);
        Ok(())
    }
}

pub proof fn lemma_min_roll_hits_prefix(rolls: Seq<u8>, p: int, ts: Seq<usize>, m: u8, amount: u32, i: int)
    requires
        0 <= i <= rolls.len(),
    ensures
        min_roll_hits(rolls.take(i), p, ts, m, amount).len() <= min_roll_hits(rolls, p, ts, m, amount).len(),
        min_roll_hits(rolls.take(i), p, ts, m, amount)
            == min_roll_hits(rolls, p, ts, m, amount).take(min_roll_hits(rolls.take(i), p, ts, m, amount).len() as int),
    decreases rolls.len(),
{
    if i < rolls.len() {
        lemma_min_roll_hits_prefix(rolls.drop_last(), p, ts, m, amount, i);
        assert(rolls.drop_last().take(i) =~= rolls.take(i));
        let a = min_roll_hits(rolls.take(i), p, ts, m, amount);
        let b = min_roll_hits(rolls.drop_last(), p, ts, m, amount);
        let c = min_roll_hits(rolls, p, ts, m, amount);
        assert(c.take(b.len() as int) =~= b);
        assert(c.take(a.len() as int) =~= b.take(a.len() as int));
    } else {
        assert(rolls.take(i) =~= rolls);
        let c = min_roll_hits(rolls, p, ts, m, amount);
        assert(c.take(c.len() as int) =~= c);
    }
}


impl Card {
    /// Play of a dice-rolling card: `rolls[0]` is the player's roll, then one roll per target.
    pub(crate) fn play_rolls_dice(&self, player_index: usize, target_indices: Vec<usize>, game: &mut Game, rolls: &Vec<u8>)
        -> (r: Result<(PlayInfo, HashSet<usize>), String>)
        requires
            *self is PlayersRollsDice,
            player_index < old(game).players.len(),
            forall|k: int| 0 <= k < target_indices.len() ==> target_indices[k] < old(game).players.len(),
            rolls.len() > (if self->PlayersRollsDice_0.target_type == TargetType::All {
                old(game).players.len() - 1
            } else {
                target_indices.len() as int
            }),
            rolls_dice_play(*self, player_index as int, target_indices@, rolls@,
                initial_state(players_view(old(game).players@), old(game).pile@)) is Some,
        ensures
            play_outcome(
                rolls_dice_play(*self, player_index as int, target_indices@, rolls@,
                    initial_state(players_view(old(game).players@), old(game).pile@)),
                r,
                *final(game),
            ),
            same_game_rest(*old(game), *final(game)),
            final(game).players.len() == old(game).players.len(),
    {
        let ghost s0 = initial_state(players_view(game.players@), game.pile@);
        let ghost p = player_index as int;
        proof {
            assert(players_view(game.players@).len() == game.players@.len());
        }
        let c = match self {
            Card::PlayersRollsDice(c) => c,
            _ => {
                return Ok((PlayInfo::new(), HashSet::new()));
            },
        };
        let targets = target_players(game, &target_indices);
        let valid = self.validate_targets(&targets);
        if let Err(e) = valid {
            return Err(e);
        }
        let mut info = PlayInfo::new();
        let ghost tgt = target_indices@;
        let ts = if c.target_type == TargetType::All {
            other_player_indices(player_index, game.players.len())
        } else {
            target_indices
        };
        let ghost used_rolls = rolls@.take(ts.len() + 1int);
        let ghost acts = roll_actions(s0.players, p, ts@, used_rolls);
        proof {
            assert forall|k: int| 0 <= k < ts.len() implies ts[k] < game.players.len() by {
                if c.target_type == TargetType::All {
                    assert(ts@ == others(p, game.players.len() as int));
                }
            }
            assert(info@ =~= s0.actions + acts.take(0));
        }
        let mut dice_rolls: Vec<u8> = Vec::new();
        let mut j: usize = 0;
        while j <= ts.len()
            invariant
                j <= ts.len() + 1,
                ts.len() < rolls.len(),
                player_index < game.players.len(),
                forall|k: int| 0 <= k < ts.len() ==> ts[k] < game.players.len(),
                used_rolls == rolls@.take(ts.len() + 1int),
                acts == roll_actions(s0.players, p, ts@, used_rolls),
                s0.players == players_view(game.players@),
                game.players@ == old(game).players@,
                p == player_index,
                dice_rolls@ == used_rolls.take(j as int),
                info@ == s0.actions + acts.take(j as int),
            decreases ts.len() + 1 - j,
        {
            let who = if j == 0 { player_index } else { ts[j - 1] };
            let roll = rolls[j];
            dice_rolls.push(roll);
            let mut action = PlayAction::new();
            action.dice_roll = roll;
            action.player_dice_id = game.players[who].id;
            proof {
                assert(s0.players[who as int] == game.players@[who as int]@);
                assert(action@ == acts[j as int]);
                lemma_actions_push(info.actions@, action);
                assert(acts.take(j + 1) =~= acts.take(j as int).push(acts[j as int]));
                assert(used_rolls.take(j + 1) =~= used_rolls.take(j as int).push(roll));
            }
            info.actions.push(action);
            j = j + 1;
        }
        proof {
            assert(acts.take(j as int) =~= acts);
            assert(used_rolls.take(j as int) =~= used_rolls);
            assert(game_state(*game, info) == PlayState { actions: s0.actions + acts, ..s0 });
            assert(ts@ == (if c.target_type == TargetType::All { others(p, s0.players.len() as int) } else { tgt }));
            assert(dice_rolls@ == used_rolls);
        }
        let ghost s1 = PlayState { actions: s0.actions + acts, ..s0 };
        let ghost res = rolls_dice_play(*self, p, tgt, rolls@, s0);
        if c.attack {
            let _ = c.dice_action.process_dice_action(self, PlayersRollsDiceCardActionType::Attack, &mut info, game,
                player_index, &ts, &dice_rolls);
        } else if c.heal {
            let _ = c.dice_action.process_dice_action(self, PlayersRollsDiceCardActionType::Heal, &mut info, game,
                player_index, &ts, &dice_rolls);
        } else if c.draw {
            let _ = c.dice_action.process_dice_action(self, PlayersRollsDiceCardActionType::Draw, &mut info, game,
                player_index, &ts, &dice_rolls);
        }
        proof {
            assert(players_view(game.players@).len() == game.players@.len());
            if c.attack || c.heal || c.draw {
                let k = if c.attack {
                    PlayersRollsDiceCardActionType::Attack
                } else if c.heal {
                    PlayersRollsDiceCardActionType::Heal
                } else {
                    PlayersRollsDiceCardActionType::Draw
                };
                lemma_dice_effect_hits_keeps(k, dice_hits(c.dice_action, used_rolls, p, ts@), c.element, s1);
                assert(players_view(game.players@) == res.unwrap().players);
                assert(game.pile@ == res.unwrap().pile);
                assert(info@ == res.unwrap().actions);
            } else {
                assert(res == Some(s1));
            }
        }
        let used: HashSet<usize> = HashSet::new();
        assert(used@ =~= Set::<usize>::empty());
        Ok((info, used))
    }
}

} // verus!
