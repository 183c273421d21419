//! Playing cards: the steps of a play, carried out on a game.
use vstd::prelude::*;
use std::rc::Rc;
use std::collections::HashSet;
use crate::buffs::BuffInfo;
use crate::card::{Card, CardId, Element, Kind, Stars};
use crate::game::{Game, players_view};
use crate::modifiers::ModifierInfo;
use crate::play_info::{ActionTarget, ActionType, PlayAction, PlayInfo, PlayActionView, targets_view, actions_view};
use crate::player::{Player, PlayerView};
use crate::rules::{
    PlayState, apply_attack_buffs, lemma_apply_attack_buffs_prefix, attack_hit, heal_hit, draw_hit,
    card_ids, give_count, with_cards, multi_hits, lemma_multi_hits_prefix, lemma_multi_hits_keeps, TargetStep, target_step,
    fold_targets, lemma_fold_targets_prefix, lemma_fold_targets_step, lemma_fold_targets_error, PlayError,
    error_message, attack_step, attack_phase, heal_phase, draw_phase, effective_targets, default_play,
    others, has_target_all, target_count_accepted, heal_only, expected_target_count, spec_clamp, initial_state,
};
use crate::card::TargetType;
use crate::utils::clamp;
use crate::game::MAX_PLAYERS;

verus! {

broadcast use vstd::std_specs::hash::group_hash_axioms;

/// The game, the actions recorded, the dice flag and the used buffs are those of `s` (its error aside).
pub open spec fn matches_state(
    s: PlayState,
    game: Game,
    info: PlayInfo,
    dice_used: bool,
    buffs_used: Set<usize>,
) -> bool {
    &&& players_view(game.players@) == s.players
    &&& game.pile@ == s.pile
    &&& info@ == s.actions
    &&& dice_used == s.dice_used
    &&& buffs_used == s.buffs_used
}

/// The state reached so far, without error.
pub open spec fn state_of(game: Game, info: PlayInfo, dice_used: bool, buffs_used: Set<usize>) -> PlayState {
    PlayState {
        players: players_view(game.players@),
        pile: game.pile@,
        actions: info@,
        dice_used,
        buffs_used,
        error: None,
    }
}

/// Nothing of the game but its players and its pile changed.
pub open spec fn same_game_rest(a: Game, b: Game) -> bool {
    &&& a.player_profiles == b.player_profiles
    &&& a.current_player_turn == b.current_player_turn
    &&& a.current_player_turn_end == b.current_player_turn_end
    &&& a.estimated_turn_end_offset == b.estimated_turn_end_offset
    &&& a.turn_order == b.turn_order
    &&& a.state == b.state
}

/// Applies each applicable attack buff of `buffs`, in order, to `amount` and records the buffs used.
pub fn check_apply_attack_buffs(
    amount: u32,
    buffs: &Vec<Rc<BuffInfo>>,
    element: Element,
    kind: Kind,
    stars: Stars,
    buffs_used: &mut HashSet<usize>,
) -> (r: u32)
    requires
        apply_attack_buffs(amount, buffs@, element, kind, stars, old(buffs_used)@) is Some,
    ensures
        Some((r, final(buffs_used)@)) == apply_attack_buffs(amount, buffs@, element, kind, stars, old(buffs_used)@),
{
    let ghost used0 = buffs_used@;
    let mut value = amount;
    let mut i: usize = 0;
    while i < buffs.len()
        invariant
            i <= buffs.len(),
            apply_attack_buffs(amount, buffs@, element, kind, stars, used0) is Some,
            Some((value, buffs_used@)) == apply_attack_buffs(amount, buffs@.take(i as int), element, kind, stars, used0),
        decreases buffs.len() - i,
    {
        proof {
            assert(buffs@.take(i + 1).drop_last() =~= buffs@.take(i as int));
            lemma_apply_attack_buffs_prefix(amount, buffs@, element, kind, stars, used0, i + 1);
        }
        let b: &BuffInfo = &buffs[i];
        if b.is_attack_buff() && b.is_applicable(element, kind, stars) {
            value = b.compute(value);
            buffs_used.insert(i);
        }
        i = i + 1;
    }
    proof {
        assert(buffs@.take(buffs.len() as int) =~= buffs@);
    }
    value
}


pub proof fn lemma_players_update(players: Seq<Player>, i: int, p: Player)
    requires
        0 <= i < players.len(),
    ensures
        players_view(players.update(i, p)) == players_view(players).update(i, p@),
{
    assert(players_view(players.update(i, p)) =~= players_view(players).update(i, p@));
}

pub proof fn lemma_actions_push(actions: Seq<PlayAction>, a: PlayAction)
    ensures
        actions_view(actions.push(a)) == actions_view(actions).push(a@),
{
    assert(actions_view(actions.push(a)) =~= actions_view(actions).push(a@));
}

pub proof fn lemma_targets_push(targets: Seq<ActionTarget>, t: ActionTarget)
    ensures
        targets_view(targets.push(t)) == targets_view(targets).push(t@),
{
    assert(targets_view(targets.push(t)) =~= targets_view(targets).push(t@));
}

impl Game {
    /// Moves up to `amount` cards from the top of the pile to the end of the player's hand
    /// and gives their ids.
    pub fn give_from_pile(pile: &mut Vec<Rc<Card>>, player: &mut Player, amount: usize) -> (r: Vec<CardId>)
        ensures
            final(pile)@ == old(pile)@.skip(give_count(old(pile)@.len(), amount) as int),
            final(player)@ == with_cards(old(player)@, old(pile)@.take(give_count(old(pile)@.len(), amount) as int)),
            r@ == card_ids(old(pile)@.take(give_count(old(pile)@.len(), amount) as int)),
    {
        let stop = if amount <= pile.len() { amount } else { pile.len() };
        let ghost pile0 = pile@;
        let ghost hand0 = player.hand_cards@;
        let mut cards: Vec<CardId> = Vec::with_capacity(stop);
        let mut i: usize = 0;
        while i < stop
            invariant
                stop == give_count(pile0.len(), amount),
                i <= stop,
                pile@ == pile0.skip(i as int),
                player.hand_cards@ == hand0 + pile0.take(i as int),
                cards@ == card_ids(pile0.take(i as int)),
                player.id == old(player).id,
                player.name == old(player).name,
                player.health == old(player).health,
                player.discard_cards == old(player).discard_cards,
                player.buffs == old(player).buffs,
            decreases stop - i,
        {
            let card = pile.remove(0);
            proof {
                assert(pile0.skip(i as int)[0] == pile0[i as int]);
                assert(pile0.skip(i as int).subrange(1, pile0.skip(i as int).len() as int) =~= pile0.skip(i + 1));
                assert(pile0.take(i + 1) =~= pile0.take(i as int).push(pile0[i as int]));
                assert(card_ids(pile0.take(i + 1)) =~= card_ids(pile0.take(i as int)).push(pile0[i as int].get_id()));
                assert(hand0 + pile0.take(i + 1) =~= (hand0 + pile0.take(i as int)).push(pile0[i as int]));
            }
            cards.push(card.get_id());
            player.hand_cards.push(card);
            i = i + 1;
        }
        cards
    }
}

impl Card {
    /// `attacker` hits `victim` once with this card: modifier, dice, the attacker's buffs, then damage.
    fn attack_hit(
        &self,
        info: &mut PlayInfo,
        game: &mut Game,
        attacker: usize,
        victim: usize,
        base: u32,
        modifier: Option<ModifierInfo>,
        dice: u8,
        dice_used: &mut bool,
        buffs_used: &mut HashSet<usize>,
    )
        requires
            attacker < old(game).players.len(),
            victim < old(game).players.len(),
            attack_hit(
                state_of(*old(game), *old(info), *old(dice_used), old(buffs_used)@),
                attacker as int,
                victim as int,
                base,
                modifier,
                self.get_element(),
                self.get_kind(),
                self.get_stars(),
                dice,
            ) is Some,
        ensures
            matches_state(
                attack_hit(
                    state_of(*old(game), *old(info), *old(dice_used), old(buffs_used)@),
                    attacker as int,
                    victim as int,
                    base,
                    modifier,
                    self.get_element(),
                    self.get_kind(),
                    self.get_stars(),
                    dice,
                ).unwrap(),
                *final(game),
                *final(info),
                *final(dice_used),
                final(buffs_used)@,
            ),
            same_game_rest(*old(game), *final(game)),
    {
        let ghost players0 = game.players@;
        assert(players_view(players0)[attacker as int] == players0[attacker as int]@);
        assert(players_view(players0)[victim as int] == players0[victim as int]@);
        let (amount, roll, roller) = match modifier {
            Some(m) => m.compute_with_dice(base, &game.players[attacker], &game.players[victim], dice),
            None => (base, 0, -1),
        };
        let mut action = PlayAction::new();
        if !*dice_used && roller != -1 {
            action.dice_roll = roll;
            action.player_dice_id = roller;
            *dice_used = true;
        }
        let amount = check_apply_attack_buffs(
            amount,
            &game.players[attacker].buffs,
            self.get_element(),
            self.get_kind(),
            self.get_stars(),
            buffs_used,
        );
        let effect = self.get_damage_effect();
        let target = game.players[victim].damage(amount, effect);
        proof {
            lemma_players_update(players0, victim as int, game.players@[victim as int]);
            assert(game.players@ == players0.update(victim as int, game.players@[victim as int]));
            lemma_targets_push(action.targets@, target);
            lemma_actions_push(info.actions@, action);
        }
        action.targets.push(target);
        info.actions.push(action);
        proof {
            lemma_actions_push(old(info).actions@, action);
        }
    }
}


/// The play reached state `res` (no overflow on the way), the exec values hold it,
/// and the result tells whether it stopped on an error.
pub open spec fn outcome_matches(
    res: Option<PlayState>,
    r: Result<(), String>,
    game: Game,
    info: PlayInfo,
    dice_used: bool,
    buffs_used: Set<usize>,
) -> bool {
    &&& res is Some
    &&& matches_state(res.unwrap(), game, info, dice_used, buffs_used)
    &&& match r {
        Ok(_) => res.unwrap().error is None,
        Err(e) => res.unwrap().error is Some && e@ == error_message(res.unwrap().error.unwrap()),
    }
}

/// What a card does to each of its targets (the values of an attack, heal or draw).
#[derive(Clone, Copy)]
pub enum TargetAction {
    Attack { base: u32, modifier: Option<ModifierInfo> },
    MultiHit,
    Heal { base: u32, modifier: Option<ModifierInfo> },
    Draw { base: u32, modifier: Option<ModifierInfo> },
}

/// The attack values of a multi-hit card.
pub open spec fn card_attacks(card: Card) -> Seq<u32> {
    match card {
        Card::MultiHit(c) => c.attacks@,
        _ => Seq::empty(),
    }
}

/// The step done on each target by `card` with `action` and `dice`.
pub open spec fn step_of(card: Card, action: TargetAction, dice: u8) -> TargetStep {
    match action {
        TargetAction::Attack { base, modifier } => TargetStep::Attack {
            base,
            modifier,
            element: card.get_element(),
            kind: card.get_kind(),
            stars: card.get_stars(),
            dice,
        },
        TargetAction::MultiHit => TargetStep::MultiHit {
            attacks: card_attacks(card),
            element: card.get_element(),
            kind: card.get_kind(),
            stars: card.get_stars(),
        },
        TargetAction::Heal { base, modifier } => TargetStep::Heal { base, modifier, dice },
        TargetAction::Draw { base, modifier } => TargetStep::Draw { base, modifier, dice },
    }
}

impl Card {
    /// The player `healed` is healed; the modifier reads `mod_player` and `mod_target`.
    pub(crate) fn heal_hit(
        &self,
        info: &mut PlayInfo,
        game: &mut Game,
        mod_player: usize,
        mod_target: usize,
        healed: usize,
        base: u32,
        modifier: Option<ModifierInfo>,
        dice: u8,
        dice_used: &mut bool,
        buffs_used: &HashSet<usize>,
    )
        requires
            mod_player < old(game).players.len(),
            mod_target < old(game).players.len(),
            healed < old(game).players.len(),
            heal_hit(
                state_of(*old(game), *old(info), *old(dice_used), buffs_used@),
                mod_player as int,
                mod_target as int,
                healed as int,
                base,
                modifier,
                dice,
            ) is Some,
        ensures
            matches_state(
                heal_hit(
                    state_of(*old(game), *old(info), *old(dice_used), buffs_used@),
                    mod_player as int,
                    mod_target as int,
                    healed as int,
                    base,
                    modifier,
                    dice,
                ).unwrap(),
                *final(game),
                *final(info),
                *final(dice_used),
                buffs_used@,
            ),
            same_game_rest(*old(game), *final(game)),
    {
        let ghost players0 = game.players@;
        assert(players_view(players0)[mod_player as int] == players0[mod_player as int]@);
        assert(players_view(players0)[mod_target as int] == players0[mod_target as int]@);
        assert(players_view(players0)[healed as int] == players0[healed as int]@);
        let (amount, roll, roller) = match modifier {
            Some(m) => m.compute_with_dice(base, &game.players[mod_player], &game.players[mod_target], dice),
            None => (base, 0, -1),
        };
        let mut action = PlayAction::new();
        if !*dice_used && roller != -1 {
            action.dice_roll = roll;
            action.player_dice_id = roller;
            *dice_used = true;
        }
        let effect = self.get_heal_effect();
        let target = game.players[healed].heal(amount, effect);
        proof {
            lemma_players_update(players0, healed as int, game.players@[healed as int]);
            assert(game.players@ == players0.update(healed as int, game.players@[healed as int]));
            lemma_targets_push(action.targets@, target);
            lemma_actions_push(info.actions@, action);
        }
        action.targets.push(target);
        info.actions.push(action);
        let ghost res = heal_hit(
                    state_of(*old(game), *old(info), *old(dice_used), buffs_used@),
                    mod_player as int,
                    mod_target as int,
                    healed as int,
                    base,
                    modifier,
                    dice,
                ).unwrap();
        assert(players_view(game.players@) == res.players);
        assert(game.pile@ == res.pile);
        assert(info@ == res.actions);
        assert(*dice_used == res.dice_used);
    }

    /// The player `drawer` draws from the pile; the modifier reads `mod_player` and `mod_target`.
    pub(crate) fn draw_hit(
        &self,
        info: &mut PlayInfo,
        game: &mut Game,
        mod_player: usize,
        mod_target: usize,
        drawer: usize,
        base: u32,
        modifier: Option<ModifierInfo>,
        dice: u8,
        dice_used: &mut bool,
        buffs_used: &HashSet<usize>,
    )
        requires
            mod_player < old(game).players.len(),
            mod_target < old(game).players.len(),
            drawer < old(game).players.len(),
            draw_hit(
                state_of(*old(game), *old(info), *old(dice_used), buffs_used@),
                mod_player as int,
                mod_target as int,
                drawer as int,
                base,
                modifier,
                dice,
            ) is Some,
        ensures
            matches_state(
                draw_hit(
                    state_of(*old(game), *old(info), *old(dice_used), buffs_used@),
                    mod_player as int,
                    mod_target as int,
                    drawer as int,
                    base,
                    modifier,
                    dice,
                ).unwrap(),
                *final(game),
                *final(info),
                *final(dice_used),
                buffs_used@,
            ),
            same_game_rest(*old(game), *final(game)),
    {
        let ghost players0 = game.players@;
        assert(players_view(players0)[mod_player as int] == players0[mod_player as int]@);
        assert(players_view(players0)[mod_target as int] == players0[mod_target as int]@);
        assert(players_view(players0)[drawer as int] == players0[drawer as int]@);
        let (amount, roll, roller) = match modifier {
            Some(m) => m.compute_with_dice(base, &game.players[mod_player], &game.players[mod_target], dice),
            None => (base, 0, -1),
        };
        let drawn = Game::give_from_pile(&mut game.pile, &mut game.players[drawer], amount as usize);
        proof {
            lemma_players_update(players0, drawer as int, game.players@[drawer as int]);
            assert(game.players@ == players0.update(drawer as int, game.players@[drawer as int]));
            assert(drawn@.len() == give_count(old(game).pile@.len(), amount as usize));
        }
        if drawn.len() > 0 {
            let mut action = PlayAction::new();
            if !*dice_used && roller != -1 {
                action.dice_roll = roll;
                action.player_dice_id = roller;
                *dice_used = true;
            }
            let target = ActionTarget {
                player_id: game.players[drawer].id,
                action: ActionType::Draw { cards: drawn },
                effect: String::new(),
            };
            proof {
                lemma_targets_push(action.targets@, target);
                lemma_actions_push(info.actions@, action);
            }
            action.targets.push(target);
            info.actions.push(action);
        }
        let ghost res = draw_hit(
                    state_of(*old(game), *old(info), *old(dice_used), buffs_used@),
                    mod_player as int,
                    mod_target as int,
                    drawer as int,
                    base,
                    modifier,
                    dice,
                ).unwrap();
        assert(players_view(game.players@) == res.players);
        assert(game.pile@ == res.pile);
        assert(info@ == res.actions);
        assert(*dice_used == res.dice_used);
    }

    /// `attacker` hits `victim` with each attack value of a multi-hit card, in one action.
    fn multi_hit(
        &self,
        info: &mut PlayInfo,
        game: &mut Game,
        attacker: usize,
        victim: usize,
        attacks: &Vec<u32>,
        dice_used: &bool,
        buffs_used: &mut HashSet<usize>,
    )
        requires
            attacker < old(game).players.len(),
            victim < old(game).players.len(),
            attacker != victim,
            multi_hits(
                state_of(*old(game), *old(info), *dice_used, old(buffs_used)@),
                attacker as int,
                victim as int,
                attacks@,
                self.get_element(),
                self.get_kind(),
                self.get_stars(),
            ) is Some,
        ensures
            ({
                let (s, hits) = multi_hits(
                    state_of(*old(game), *old(info), *dice_used, old(buffs_used)@),
                    attacker as int,
                    victim as int,
                    attacks@,
                    self.get_element(),
                    self.get_kind(),
                    self.get_stars(),
                ).unwrap();
                matches_state(
                    PlayState {
                        actions: s.actions.push(
                            PlayActionView { dice_roll: 0u8, player_dice_id: -1i32, targets: hits },
                        ),
                        ..s
                    },
                    *final(game),
                    *final(info),
                    *dice_used,
                    final(buffs_used)@,
                )
            }),
            same_game_rest(*old(game), *final(game)),
    {
        let ghost s0 = state_of(*old(game), *old(info), *dice_used, old(buffs_used)@);
        let mut action = PlayAction::new();
        let mut j: usize = 0;
        while j < attacks.len()
            invariant
                j <= attacks.len(),
                attacker < game.players.len(),
                victim < game.players.len(),
                attacker != victim,
                multi_hits(s0, attacker as int, victim as int, attacks@, self.get_element(), self.get_kind(), self.get_stars()) is Some,
                multi_hits(s0, attacker as int, victim as int, attacks@.take(j as int), self.get_element(), self.get_kind(), self.get_stars())
                    == Some((state_of(*game, *old(info), *dice_used, buffs_used@), targets_view(action.targets@))),
                action.dice_roll == 0,
                action.player_dice_id == -1,
                info == old(info),
                same_game_rest(*old(game), *game),
            decreases attacks.len() - j,
        {
            let ghost players0 = game.players@;
            proof {
                assert(attacks@.take(j + 1).drop_last() =~= attacks@.take(j as int));
                lemma_multi_hits_prefix(s0, attacker as int, victim as int, attacks@, self.get_element(), self.get_kind(), self.get_stars(), j + 1);
                assert(players_view(players0)[attacker as int] == players0[attacker as int]@);
                assert(players_view(players0)[victim as int] == players0[victim as int]@);
            }
            let amount = check_apply_attack_buffs(
                attacks[j],
                &game.players[attacker].buffs,
                self.get_element(),
                self.get_kind(),
                self.get_stars(),
                buffs_used,
            );
            let effect = self.get_damage_effect();
            let target = game.players[victim].damage(amount, effect);
            proof {
                lemma_players_update(players0, victim as int, game.players@[victim as int]);
                lemma_targets_push(action.targets@, target);
            }
            action.targets.push(target);
            j = j + 1;
        }
        proof {
            assert(attacks@.take(attacks.len() as int) =~= attacks@);
            lemma_actions_push(info.actions@, action);
        }
        info.actions.push(action);
    }
}


impl Card {
    /// Does `action` to one target other than the player.
    fn target_hit(
        &self,
        action: TargetAction,
        info: &mut PlayInfo,
        game: &mut Game,
        player_index: usize,
        target_index: usize,
        dice: u8,
        dice_used: &mut bool,
        buffs_used: &mut HashSet<usize>,
    )
        requires
            player_index < old(game).players.len(),
            target_index < old(game).players.len(),
            target_index != player_index,
            action is MultiHit ==> *self is MultiHit,
            target_step(
                step_of(*self, action, dice),
                player_index as int,
                state_of(*old(game), *old(info), *old(dice_used), old(buffs_used)@),
                target_index,
            ) is Some,
        ensures
            target_step(
                step_of(*self, action, dice),
                player_index as int,
                state_of(*old(game), *old(info), *old(dice_used), old(buffs_used)@),
                target_index,
            ) == Some(state_of(*final(game), *final(info), *final(dice_used), final(buffs_used)@)),
            same_game_rest(*old(game), *final(game)),
            final(game).players.len() == old(game).players.len(),
    {
        let ghost s0 = state_of(*old(game), *old(info), *old(dice_used), old(buffs_used)@);
        let ghost step = step_of(*self, action, dice);
        match action {
            TargetAction::Attack { base, modifier } => {
                self.attack_hit(info, game, player_index, target_index, base, modifier, dice, dice_used, buffs_used);
                proof {
                    let res = attack_hit(s0, player_index as int, target_index as int, base, modifier,
                        self.get_element(), self.get_kind(), self.get_stars(), dice).unwrap();
                    assert(target_step(step, player_index as int, s0, target_index) == Some(res));
                    assert(res =~= state_of(*game, *info, *dice_used, buffs_used@));
                }
            },
            TargetAction::Heal { base, modifier } => {
                self.heal_hit(info, game, target_index, player_index, target_index, base, modifier, dice, dice_used, buffs_used);
                proof {
                    let res = heal_hit(s0, target_index as int, player_index as int, target_index as int, base, modifier, dice).unwrap();
                    assert(target_step(step, player_index as int, s0, target_index) == Some(res));
                    assert(res =~= state_of(*game, *info, *dice_used, buffs_used@));
                }
            },
            TargetAction::Draw { base, modifier } => {
                self.draw_hit(info, game, target_index, target_index, target_index, base, modifier, dice, dice_used, buffs_used);
                proof {
                    let res = draw_hit(s0, target_index as int, target_index as int, target_index as int, base, modifier, dice).unwrap();
                    assert(target_step(step, player_index as int, s0, target_index) == Some(res));
                    assert(res =~= state_of(*game, *info, *dice_used, buffs_used@));
                }
            },
            TargetAction::MultiHit => {
                match self {
                    Card::MultiHit(c) => {
                        self.multi_hit(info, game, player_index, target_index, &c.attacks, dice_used, buffs_used);
                        proof {
                            lemma_multi_hits_keeps(s0, player_index as int, target_index as int, c.attacks@,
                                self.get_element(), self.get_kind(), self.get_stars());
                            let (s1, hits) = multi_hits(s0, player_index as int, target_index as int, c.attacks@,
                                self.get_element(), self.get_kind(), self.get_stars()).unwrap();
                            let res = PlayState {
                                actions: s1.actions.push(PlayActionView { dice_roll: 0u8, player_dice_id: -1i32, targets: hits }),
                                ..s1
                            };
                            assert(target_step(step, player_index as int, s0, target_index) == Some(res));
                            assert(res =~= state_of(*game, *info, *dice_used, buffs_used@));
                        }
                    },
                    _ => {},
                }
            },
        }
        assert(players_view(game.players@).len() == game.players@.len());
        assert(players_view(old(game).players@).len() == old(game).players@.len());
    }

    /// Does `action` to each target in order; a target that is the player stops with an error.
    pub(crate) fn handle_targets(
        &self,
        action: TargetAction,
        info: &mut PlayInfo,
        game: &mut Game,
        player_index: usize,
        target_indices: &Vec<usize>,
        dice: u8,
        dice_used: &mut bool,
        buffs_used: &mut HashSet<usize>,
    ) -> (r: Result<(), String>)
        requires
            player_index < old(game).players.len(),
            forall|i: int| 0 <= i < target_indices.len() ==> target_indices[i] < old(game).players.len(),
            action is MultiHit ==> *self is MultiHit,
            fold_targets(
                step_of(*self, action, dice),
                player_index as int,
                state_of(*old(game), *old(info), *old(dice_used), old(buffs_used)@),
                target_indices@,
            ) is Some,
        ensures
            outcome_matches(
                fold_targets(
                    step_of(*self, action, dice),
                    player_index as int,
                    state_of(*old(game), *old(info), *old(dice_used), old(buffs_used)@),
                    target_indices@,
                ),
                r,
                *final(game),
                *final(info),
                *final(dice_used),
                final(buffs_used)@,
            ),
            same_game_rest(*old(game), *final(game)),
            final(game).players.len() == old(game).players.len(),
    {
        let ghost step = step_of(*self, action, dice);
        let ghost s0 = state_of(*old(game), *old(info), *old(dice_used), old(buffs_used)@);
        let ghost n = game.players.len();
        let mut i: usize = 0;
        proof {
            assert(target_indices@.take(0) =~= Seq::<usize>::empty());
        }
        while i < target_indices.len()
            invariant
                i <= target_indices.len(),
                player_index < game.players.len(),
                game.players.len() == n,
                n == old(game).players.len(),
                forall|k: int| 0 <= k < target_indices.len() ==> target_indices[k] < n,
                action is MultiHit ==> *self is MultiHit,
                step == step_of(*self, action, dice),
                s0 == state_of(*old(game), *old(info), *old(dice_used), old(buffs_used)@),
                fold_targets(step, player_index as int, s0, target_indices@) is Some,
                fold_targets(step, player_index as int, s0, target_indices@.take(i as int))
                    == Some(state_of(*game, *info, *dice_used, buffs_used@)),
                same_game_rest(*old(game), *game),
            decreases target_indices.len() - i,
        {
            let target_index = target_indices[i];
            proof {
                lemma_fold_targets_step(step, player_index as int, s0, target_indices@, i as int);
                lemma_fold_targets_prefix(step, player_index as int, s0, target_indices@, i + 1);
                assert(players_view(game.players@).len() == n);
            }
            if target_index == player_index {
                proof {
                    let s1 = state_of(*game, *info, *dice_used, buffs_used@).with_error(PlayError::TargetIsPlayer);
                    lemma_fold_targets_error(step, player_index as int, s0, target_indices@, i + 1, s1);
                    assert(matches_state(s1, *game, *info, *dice_used, buffs_used@));
                    assert(fold_targets(step, player_index as int, s0, target_indices@) == Some(s1));
                }
                let e = String::from_str("Target is player !");
                assert(e@ == error_message(PlayError::TargetIsPlayer));
                return Err(e);
            }
            self.target_hit(action, info, game, player_index, target_index, dice, dice_used, buffs_used);
            i = i + 1;
        }
        proof {
            assert(target_indices@.take(target_indices.len() as int) =~= target_indices@);
        }
        Ok(())
    }
}


/// A play ended in state `res` (no overflow on the way): the game holds its players and pile,
/// and the result gives its actions and used buffs, or its error.
pub open spec fn play_outcome(
    res: Option<PlayState>,
    r: Result<(PlayInfo, HashSet<usize>), String>,
    game: Game,
) -> bool {
    &&& res is Some
    &&& players_view(game.players@) == res.unwrap().players
    &&& game.pile@ == res.unwrap().pile
    &&& match r {
        Ok((info, used)) => res.unwrap().error is None && info@ == res.unwrap().actions && used@
            == res.unwrap().buffs_used,
        Err(e) => res.unwrap().error is Some && e@ == error_message(res.unwrap().error.unwrap()),
    }
}

/// The indices of the players other than `player_index`, in order.
pub fn other_player_indices(player_index: usize, count: usize) -> (r: Vec<usize>)
    requires
        player_index < count,
    ensures
        r@ == others(player_index as int, count as int),
{
    let mut r: Vec<usize> = Vec::new();
    let mut i: usize = 0;
    while i < count
        invariant
            player_index < count,
            i <= count,
            r@ == others(player_index as int, count as int).take(if i <= player_index { i as int } else { i - 1 }),
        decreases count - i,
    {
        proof {
            let o = others(player_index as int, count as int);
            if i < player_index {
                assert(o.take(i + 1) =~= o.take(i as int).push(i));
            } else if i > player_index {
                assert(o.take(i as int) =~= o.take(i - 1).push(i));
            }
        }
        if i != player_index {
            r.push(i);
        }
        i = i + 1;
    }
    proof {
        assert(others(player_index as int, count as int).take(count - 1) =~= others(player_index as int, count as int));
    }
    r
}

/// The player holds a "target all players" buff.
pub fn holds_target_all_buff(buffs: &Vec<Rc<BuffInfo>>) -> (r: bool)
    ensures
        r == has_target_all(buffs@),
{
    let mut i: usize = 0;
    while i < buffs.len()
        invariant
            i <= buffs.len(),
            forall|k: int| 0 <= k < i ==> !buffs@[k].is_target_all_spec(),
        decreases buffs.len() - i,
    {
        if buffs[i].is_target_all() {
            return true;
        }
        i = i + 1;
    }
    false
}

/// Checks a target count against the count expected from `no_targets` and the target type.
pub(crate) fn check_target_count(no_targets: bool, tt: TargetType, given: usize) -> (r: Result<(), String>)
    ensures
        r is Ok <==> target_count_accepted(no_targets, tt, given as nat),
        r matches Err(e) ==> e@ == error_message(PlayError::InvalidTargetCount),
{
    let expected = if no_targets {
        0
    } else {
        match tt {
            TargetType::Single => clamp(1, MAX_PLAYERS - 1, 1),
            TargetType::Multiple { max } => clamp(1, MAX_PLAYERS - 1, clamp(1, max, given)),
            TargetType::All => {
                return Ok(());
            },
        }
    };
    if given == expected {
        Ok(())
    } else {
        Err(String::from_str("Invalid target count"))
    }
}

impl Card {
    /// Checks the number of targets: none for a card that only heals,
    /// one for a single target, between 1 and the maximum for multiple targets (and at most the
    /// other players), any for a card targeting all players.
    pub fn validate_targets(&self, targets: &Vec<&Player>) -> (r: Result<(), String>)
        ensures
            r is Ok <==> target_count_accepted(heal_only(*self), self.get_target_type(), targets.len() as nat),
            r matches Err(e) ==> e@ == error_message(PlayError::InvalidTargetCount),
    {
        check_target_count(self.get_heal() > 0 && self.get_attack() == 0, self.get_target_type(), targets.len())
    }

    /// Attack of the play: each target in order (and first the player itself for a card that targets both).
    pub(crate) fn handle_attack(
        &self,
        info: &mut PlayInfo,
        game: &mut Game,
        player_index: usize,
        target_indices: &Vec<usize>,
        dice: u8,
        dice_used: &mut bool,
        buffs_used: &mut HashSet<usize>,
    ) -> (r: Result<(), String>)
        requires
            player_index < old(game).players.len(),
            forall|i: int| 0 <= i < target_indices.len() ==> target_indices[i] < old(game).players.len(),
            !(*self is MultiAction || *self is PlayersRollsDice || *self is Pearth),
            attack_phase(*self, player_index as int, target_indices@, dice,
                state_of(*old(game), *old(info), *old(dice_used), old(buffs_used)@)) is Some,
        ensures
            outcome_matches(
                attack_phase(*self, player_index as int, target_indices@, dice,
                    state_of(*old(game), *old(info), *old(dice_used), old(buffs_used)@)),
                r, *final(game), *final(info), *final(dice_used), final(buffs_used)@,
            ),
            same_game_rest(*old(game), *final(game)),
            final(game).players.len() == old(game).players.len(),
    {
        let ghost s0 = state_of(*old(game), *old(info), *old(dice_used), old(buffs_used)@);
        if self.get_attack() > 0 || self.get_attack_modifier().is_some() {
            let action = match self {
                Card::MultiHit(_) => TargetAction::MultiHit,
                _ => TargetAction::Attack { base: self.get_attack(), modifier: self.get_attack_modifier() },
            };
            assert(step_of(*self, action, dice) == attack_step(*self, dice));
            match self {
                Card::TargetBoth(_) => {
                    self.attack_hit(info, game, player_index, player_index, self.get_attack(),
                        self.get_attack_modifier(), dice, dice_used, buffs_used);
                    proof {
                        let s1 = attack_hit(s0, player_index as int, player_index as int, self.get_attack(),
                            self.get_attack_modifier(), self.get_element(), self.get_kind(), self.get_stars(), dice).unwrap();
                        assert(s1 =~= state_of(*game, *info, *dice_used, buffs_used@));
                        assert(players_view(game.players@).len() == game.players@.len());
                        assert(players_view(old(game).players@).len() == old(game).players@.len());
                    }
                    self.handle_targets(action, info, game, player_index, target_indices, dice, dice_used, buffs_used)
                },
                _ => self.handle_targets(action, info, game, player_index, target_indices, dice, dice_used, buffs_used),
            }
        } else {
            proof {
                assert(s0 =~= state_of(*game, *info, *dice_used, buffs_used@));
            }
            Ok(())
        }
    }

    /// Heal of the play: the player (after each target for a card that targets both).
    pub(crate) fn handle_heal(
        &self,
        info: &mut PlayInfo,
        game: &mut Game,
        player_index: usize,
        target_indices: &Vec<usize>,
        dice: u8,
        dice_used: &mut bool,
        buffs_used: &mut HashSet<usize>,
    ) -> (r: Result<(), String>)
        requires
            player_index < old(game).players.len(),
            forall|i: int| 0 <= i < target_indices.len() ==> target_indices[i] < old(game).players.len(),
            heal_phase(*self, player_index as int, target_indices@, dice,
                state_of(*old(game), *old(info), *old(dice_used), old(buffs_used)@)) is Some,
        ensures
            outcome_matches(
                heal_phase(*self, player_index as int, target_indices@, dice,
                    state_of(*old(game), *old(info), *old(dice_used), old(buffs_used)@)),
                r, *final(game), *final(info), *final(dice_used), final(buffs_used)@,
            ),
            same_game_rest(*old(game), *final(game)),
            final(game).players.len() == old(game).players.len(),
    {
        let ghost s0 = state_of(*old(game), *old(info), *old(dice_used), old(buffs_used)@);
        proof {
            assert(players_view(old(game).players@).len() == old(game).players@.len());
        }
        if self.get_heal() > 0 || self.get_heal_modifier().is_some() {
            match self {
                Card::TargetBoth(_) => {
                    let action = TargetAction::Heal { base: self.get_heal(), modifier: self.get_heal_modifier() };
                    let r = self.handle_targets(action, info, game, player_index, target_indices, dice, dice_used, buffs_used);
                    if r.is_err() {
                        return r;
                    }
                },
                _ => {},
            }
            let ghost s1 = state_of(*game, *info, *dice_used, buffs_used@);
            self.heal_hit(info, game, player_index, player_index, player_index, self.get_heal(),
                self.get_heal_modifier(), dice, dice_used, buffs_used);
            proof {
                let s2 = heal_hit(s1, player_index as int, player_index as int, player_index as int,
                    self.get_heal(), self.get_heal_modifier(), dice).unwrap();
                assert(s2 =~= state_of(*game, *info, *dice_used, buffs_used@));
                assert(players_view(game.players@).len() == game.players@.len());
            }
            Ok(())
        } else {
            proof {
                assert(s0 =~= state_of(*game, *info, *dice_used, buffs_used@));
            }
            Ok(())
        }
    }

    /// Draw of the play: the player (after each target for a card that targets both).
    pub(crate) fn handle_draw(
        &self,
        info: &mut PlayInfo,
        game: &mut Game,
        player_index: usize,
        target_indices: &Vec<usize>,
        dice: u8,
        dice_used: &mut bool,
        buffs_used: &mut HashSet<usize>,
    ) -> (r: Result<(), String>)
        requires
            player_index < old(game).players.len(),
            forall|i: int| 0 <= i < target_indices.len() ==> target_indices[i] < old(game).players.len(),
            draw_phase(*self, player_index as int, target_indices@, dice,
                state_of(*old(game), *old(info), *old(dice_used), old(buffs_used)@)) is Some,
        ensures
            outcome_matches(
                draw_phase(*self, player_index as int, target_indices@, dice,
                    state_of(*old(game), *old(info), *old(dice_used), old(buffs_used)@)),
                r, *final(game), *final(info), *final(dice_used), final(buffs_used)@,
            ),
            same_game_rest(*old(game), *final(game)),
            final(game).players.len() == old(game).players.len(),
    {
        let ghost s0 = state_of(*old(game), *old(info), *old(dice_used), old(buffs_used)@);
        proof {
            assert(players_view(old(game).players@).len() == old(game).players@.len());
        }
        if self.get_draw() > 0 || self.get_draw_modifier().is_some() {
            match self {
                Card::TargetBoth(_) => {
                    let action = TargetAction::Draw { base: self.get_draw(), modifier: self.get_draw_modifier() };
                    let r = self.handle_targets(action, info, game, player_index, target_indices, dice, dice_used, buffs_used);
                    if r.is_err() {
                        return r;
                    }
                },
                _ => {},
            }
            let ghost s1 = state_of(*game, *info, *dice_used, buffs_used@);
            self.draw_hit(info, game, player_index, player_index, player_index, self.get_draw(),
                self.get_draw_modifier(), dice, dice_used, buffs_used);
            proof {
                let s2 = draw_hit(s1, player_index as int, player_index as int, player_index as int,
                    self.get_draw(), self.get_draw_modifier(), dice).unwrap();
                assert(s2 =~= state_of(*game, *info, *dice_used, buffs_used@));
                assert(players_view(game.players@).len() == game.players@.len());
            }
            Ok(())
        } else {
            proof {
                assert(s0 =~= state_of(*game, *info, *dice_used, buffs_used@));
            }
            Ok(())
        }
    }
}


/// The players that `target_indices` designates.
pub(crate) fn target_players<'a>(game: &'a Game, target_indices: &Vec<usize>) -> (r: Vec<&'a Player>)
    requires
        forall|i: int| 0 <= i < target_indices.len() ==> target_indices[i] < game.players.len(),
    ensures
        r.len() == target_indices.len(),
{
    let mut targets: Vec<&Player> = Vec::new();
    let mut i: usize = 0;
    while i < target_indices.len()
        invariant
            i <= target_indices.len(),
            targets.len() == i,
            forall|k: int| 0 <= k < target_indices.len() ==> target_indices[k] < game.players.len(),
        decreases target_indices.len() - i,
    {
        targets.push(&game.players[target_indices[i]]);
        i = i + 1;
    }
    targets
}

impl Card {
    /// Common play of a card with one dice roll: checks the number of targets, then attacks,
    /// heals and draws; a card targeting all players (or a player holding a "target all" buff)
    /// acts on every other player.
    pub(crate) fn play_default(&self, player_index: usize, target_indices: Vec<usize>, game: &mut Game, dice: u8)
        -> (r: Result<(PlayInfo, HashSet<usize>), String>)
        requires
            player_index < old(game).players.len(),
            forall|i: int| 0 <= i < target_indices.len() ==> target_indices[i] < old(game).players.len(),
            !(*self is MultiAction || *self is PlayersRollsDice || *self is Pearth),
            default_play(*self, player_index as int, target_indices@, dice,
                initial_state(players_view(old(game).players@), old(game).pile@)) is Some,
        ensures
            play_outcome(
                default_play(*self, player_index as int, target_indices@, dice,
                    initial_state(players_view(old(game).players@), old(game).pile@)),
                r,
                *final(game),
            ),
            same_game_rest(*old(game), *final(game)),
            final(game).players.len() == old(game).players.len(),
    {
        let ghost s0 = initial_state(players_view(game.players@), game.pile@);
        proof {
            assert(players_view(game.players@).len() == game.players@.len());
        }
        let targets = target_players(game, &target_indices);
        let valid = self.validate_targets(&targets);
        if let Err(e) = valid {
            return Err(e);
        }
        let mut info = PlayInfo::new();
        let mut buffs_used: HashSet<usize> = HashSet::new();
        let mut dice_used = false;
        let ts = if self.get_target_type() == TargetType::All || holds_target_all_buff(&game.players[player_index].buffs) {
            other_player_indices(player_index, game.players.len())
        } else {
            target_indices
        };
        proof {
            assert(game.players@[player_index as int]@ == s0.players[player_index as int]);
            assert(ts@ == effective_targets(self.get_target_type(), s0.players, player_index as int, target_indices@));
            assert(state_of(*game, info, dice_used, buffs_used@) =~= s0);
            assert forall|i: int| 0 <= i < ts.len() implies ts[i] < game.players.len() by {
                if !(ts@ =~= target_indices@) {
                    assert(ts@ == others(player_index as int, game.players.len() as int));
                }
            }
        }
        let r1 = self.handle_attack(&mut info, game, player_index, &ts, dice, &mut dice_used, &mut buffs_used);
        if let Err(e) = r1 {
            return Err(e);
        }
        let r2 = self.handle_heal(&mut info, game, player_index, &ts, dice, &mut dice_used, &mut buffs_used);
        if let Err(e) = r2 {
            return Err(e);
        }
        let r3 = self.handle_draw(&mut info, game, player_index, &ts, dice, &mut dice_used, &mut buffs_used);
        if let Err(e) = r3 {
            return Err(e);
        }
        Ok((info, buffs_used))
    }
}

} // verus!
