//! Playing any card: the dice rolls it needs and the play of its variant.
use vstd::prelude::*;
use std::collections::HashSet;
use crate::card::{Card, TargetType};
use crate::complex_play::valid_log;
use crate::complex_rules::{complex_play, complex_logs_fit};
use crate::game::{Game, players_view};
use crate::play::{play_outcome, same_game_rest};
use crate::play_info::PlayInfo;
use crate::rng::roll_dice;
use crate::rules::{PlayState, default_play, initial_state};
use crate::variant_rules::{multi_action_play, rolls_dice_play, pearth_play};

verus! {

/// Dice rolls a play needs: one for most cards, one per action for a multi-action card, one for the
/// player and one per target for a dice-rolling card, none for the Pearth card.
pub open spec fn rolls_needed(card: Card, n_players: nat, n_targets: nat) -> nat {
    match card {
        Card::MultiAction(c) => c.actions as nat,
        Card::PlayersRollsDice(c) => (if c.target_type == TargetType::All { (n_players - 1) as nat } else { n_targets }) + 1,
        Card::Pearth(_) => 0,
        _ => 1,
    }
}

/// Play of `card` by player `p` on `targets`, with the dice rolls `rolls` and, for a complex effect
/// card, the shuffled lists `logs` of its random choices. `None` where the play panics or overflows.
#[verifier::opaque]
pub open spec fn card_play(card: Card, p: int, targets: Seq<usize>, rolls: Seq<u8>, logs: Seq<Seq<Seq<usize>>>, s0: PlayState) -> Option<PlayState> {
    match card {
        Card::MultiAction(c) => multi_action_play(card, p, targets, rolls, s0, c.actions as nat),
        Card::PlayersRollsDice(_) => rolls_dice_play(card, p, targets, rolls, s0),
        Card::Pearth(_) => pearth_play(p, s0),
        Card::ComplexEffect(_) => complex_play(card, p, targets, rolls[0], logs, s0),
        _ => default_play(card, p, targets, rolls[0], s0),
    }
}

/// The shuffled lists of a play: each holds the positions `0..n` once each, and a complex effect
/// card's effects draw the lists they should (how many, and of which hand).
pub open spec fn valid_logs(card: Card, p: int, targets: Seq<usize>, rolls: Seq<u8>, logs: Seq<Seq<Seq<usize>>>, s0: PlayState) -> bool {
    &&& forall|k: int| 0 <= k < logs.len() ==> valid_log(#[trigger] logs[k])
    &&& card is ComplexEffect ==> complex_logs_fit(card, p, targets, rolls[0], logs, s0)
}

/// The rolls are those of a six-sided dice.
pub open spec fn dice_rolls(rolls: Seq<u8>) -> bool {
    forall|k: int| 0 <= k < rolls.len() ==> 1 <= #[trigger] rolls[k] <= 6
}

impl Card {
    /// Number of dice rolls the play of this card needs.
    pub fn rolls_needed(&self, n_players: usize, n_targets: usize) -> (r: usize)
        requires
            n_players > 0,
            n_targets < usize::MAX,
        ensures
            r == rolls_needed(*self, n_players as nat, n_targets as nat),
    {
        match self {
            Card::MultiAction(c) => c.actions,
            Card::PlayersRollsDice(c) => if c.target_type == TargetType::All { n_players } else { n_targets + 1 },
            Card::Pearth(_) => 0,
            _ => 1,
        }
    }

    /// Plays the card for player `player_index` on the players at `target_indices`, with the dice
    /// rolls `rolls` (as many as the card needs). Gives the actions done and the positions of the
    /// player's buffs used, or the error that stopped the play; the game keeps what the play did
    /// before an error.
    pub fn play_with_rolls(&self, player_index: usize, target_indices: Vec<usize>, game: &mut Game, rolls: &Vec<u8>)
        -> (r: Result<(PlayInfo, HashSet<usize>), String>)
        requires
            player_index < old(game).players.len(),
            forall|k: int| 0 <= k < target_indices.len() ==> target_indices[k] < old(game).players.len(),
            rolls.len() >= rolls_needed(*self, old(game).players.len() as nat, target_indices.len() as nat),
            forall|logs: Seq<Seq<Seq<usize>>>|
                card_play(*self, player_index as int, target_indices@, rolls@, logs,
                    initial_state(players_view(old(game).players@), old(game).pile@)) is Some,
        ensures
            exists|logs: Seq<Seq<Seq<usize>>>|
                valid_logs(*self, player_index as int, target_indices@, rolls@, logs,
                    initial_state(players_view(old(game).players@), old(game).pile@)) && play_outcome(
                    #[trigger] card_play(*self, player_index as int, target_indices@, rolls@, logs,
                        initial_state(players_view(old(game).players@), old(game).pile@)),
                    r,
                    *final(game),
                ),
            same_game_rest(*old(game), *final(game)),
            final(game).players.len() == old(game).players.len(),
    {
        let ghost s0 = initial_state(players_view(game.players@), game.pile@);
        let ghost p = player_index as int;
        let ghost t = target_indices@;
        let ghost no_logs = Seq::<Seq<Seq<usize>>>::empty();
        match self {
            Card::MultiAction(c) => {
                assert forall|logs: Seq<Seq<Seq<usize>>>| #[trigger] card_play(*self, p, t, rolls@, logs, s0)
                    == multi_action_play(*self, p, t, rolls@, s0, c.actions as nat) by {
                    reveal(card_play);
                }
                assert(card_play(*self, p, t, rolls@, no_logs, s0) is Some);
                assert(valid_logs(*self, p, t, rolls@, no_logs, s0));
                self.play_multi_action(player_index, target_indices, game, rolls)
            },
            Card::PlayersRollsDice(_) => {
                assert forall|logs: Seq<Seq<Seq<usize>>>| #[trigger] card_play(*self, p, t, rolls@, logs, s0)
                    == rolls_dice_play(*self, p, t, rolls@, s0) by {
                    reveal(card_play);
                }
                assert(card_play(*self, p, t, rolls@, no_logs, s0) is Some);
                assert(valid_logs(*self, p, t, rolls@, no_logs, s0));
                self.play_rolls_dice(player_index, target_indices, game, rolls)
            },
            Card::Pearth(_) => {
                assert forall|logs: Seq<Seq<Seq<usize>>>| #[trigger] card_play(*self, p, t, rolls@, logs, s0)
                    == pearth_play(p, s0) by {
                    reveal(card_play);
                }
                assert(card_play(*self, p, t, rolls@, no_logs, s0) is Some);
                assert(valid_logs(*self, p, t, rolls@, no_logs, s0));
                self.play_pearth(player_index, game)
            },
            Card::ComplexEffect(_) => {
                assert forall|logs: Seq<Seq<Seq<usize>>>| #[trigger] card_play(*self, p, t, rolls@, logs, s0)
                    == complex_play(*self, p, t, rolls@[0], logs, s0) by {
                    reveal(card_play);
                }
                assert forall|logs: Seq<Seq<Seq<usize>>>| #[trigger] complex_play(*self, p, t, rolls@[0], logs, s0) is Some by {
                    assert(card_play(*self, p, t, rolls@, logs, s0) is Some);
                }
                let (r, Ghost(logs)) = self.play_complex(player_index, target_indices, game, rolls[0]);
                assert(valid_logs(*self, p, t, rolls@, logs, s0));
                assert(play_outcome(card_play(*self, p, t, rolls@, logs, s0), r, *game));
                r
            },
            _ => {
                assert forall|logs: Seq<Seq<Seq<usize>>>| #[trigger] card_play(*self, p, t, rolls@, logs, s0)
                    == default_play(*self, p, t, rolls@[0], s0) by {
                    reveal(card_play);
                }
                assert(card_play(*self, p, t, rolls@, no_logs, s0) is Some);
                assert(valid_logs(*self, p, t, rolls@, no_logs, s0));
                self.play_default(player_index, target_indices, game, rolls[0])
            },
        }
    }

    /// Plays the card for player `player_index` on the players at `target_indices`, rolling the dice
    /// the card needs. Gives the actions done and the positions of the player's buffs used, or the
    /// error that stopped the play.
    pub fn play(&self, player_index: usize, target_indices: Vec<usize>, game: &mut Game)
        -> (r: Result<(PlayInfo, HashSet<usize>), String>)
        requires
            player_index < old(game).players.len(),
            target_indices.len() < usize::MAX,
            forall|k: int| 0 <= k < target_indices.len() ==> target_indices[k] < old(game).players.len(),
            forall|rolls: Seq<u8>, logs: Seq<Seq<Seq<usize>>>|
                dice_rolls(rolls) && rolls.len() == rolls_needed(*self, old(game).players.len() as nat, target_indices.len() as nat)
                ==> (#[trigger] card_play(*self, player_index as int, target_indices@, rolls, logs,
                    initial_state(players_view(old(game).players@), old(game).pile@))) is Some,
        ensures
            exists|rolls: Seq<u8>, logs: Seq<Seq<Seq<usize>>>|
                dice_rolls(rolls) && rolls.len() == rolls_needed(*self, old(game).players.len() as nat, target_indices.len() as nat)
                && valid_logs(*self, player_index as int, target_indices@, rolls, logs,
                    initial_state(players_view(old(game).players@), old(game).pile@)) && play_outcome(
                    #[trigger] card_play(*self, player_index as int, target_indices@, rolls, logs,
                        initial_state(players_view(old(game).players@), old(game).pile@)),
                    r,
                    *final(game),
                ),
            same_game_rest(*old(game), *final(game)),
            final(game).players.len() == old(game).players.len(),
    {
        let needed = self.rolls_needed(game.players.len(), target_indices.len());
        let mut rolls: Vec<u8> = Vec::new();
        let mut i: usize = 0;
        while i < needed
            invariant
                i <= needed,
                rolls.len() == i,
                dice_rolls(rolls@),
            decreases needed - i,
        {
            let d = roll_dice();
            rolls.push(d);
            i = i + 1;
        }
        let ghost s0 = initial_state(players_view(game.players@), game.pile@);
        let ghost t = target_indices@;
        let r = self.play_with_rolls(player_index, target_indices, game, &rolls);
        proof {
            let logs = choose|logs: Seq<Seq<Seq<usize>>>|
                valid_logs(*self, player_index as int, t, rolls@, logs, s0) && play_outcome(card_play(*self, player_index as int, t, rolls@, logs, s0), r, *game);
            assert(dice_rolls(rolls@) && rolls@.len() == rolls_needed(*self, old(game).players.len() as nat, t.len() as nat)
                && valid_logs(*self, player_index as int, t, rolls@, logs, s0) && play_outcome(card_play(*self, player_index as int, t, rolls@, logs, s0), r, *game));
        }
        r
    }
}

} // verus!
