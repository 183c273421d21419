use vstd::prelude::*;

verus! {

/// How the dice rolls of a `PlayersRollsDiceCard` decide its effect.
#[derive(Clone, Copy, PartialEq, Eq, Structural, Debug)]
pub enum PlayersRollsDiceCardAction {
    /// All players are affected individually by the card's effects.
    AffectsAllPlayers,
    /// Affects all players with the lowest roll.
    /// The amount is the sum of the dice rolls of each player.
    AffectsMinRollPlayersRollsSum,
}

/// The effect of a `PlayersRollsDiceCard` on each affected player.
#[derive(Clone, Copy, PartialEq, Eq, Structural, Debug)]
pub enum PlayersRollsDiceCardActionType {
    Attack,
    Heal,
    Draw,
}

} // verus!
