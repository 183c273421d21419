use vstd::prelude::*;
use std::rc::Rc;
use crate::card::{Card, CardId};
use crate::player::{Player, PlayerId, PlayerView};
use crate::responses::PlayerProfile;

verus! {

pub const MAX_PLAYERS: usize = 6;
pub const INITIAL_HAND_AMOUNT: usize = 5;
/// A player can't draw if it holds this amount of cards or more.
pub const DRAW_CARD_LIMIT: usize = 5;
/// Duration of a turn, in milliseconds.
pub const TURN_DURATION_MS: i64 = 90000;

#[derive(Clone, Copy, PartialEq, Eq, Structural, Debug)]
pub enum Order {
    Forward,
    Backward,
}

#[derive(Clone, Copy, PartialEq, Eq, Structural, Debug)]
pub enum GameState {
    PreGame,
    InGame,
    EndGame { winner_id: PlayerId },
}

/// A game: its players, the pile of cards to draw from and whose turn it is.
#[derive(Debug)]
pub struct Game {
    pub players: Vec<Player>,
    pub player_profiles: Vec<PlayerProfile>,
    pub pile: Vec<Rc<Card>>,
    pub current_player_turn: usize,
    /// End of the current turn, in milliseconds since the Unix epoch.
    pub current_player_turn_end: i64,
    /// Estimated amount of time that it will take for the web app to show the actions to the user,
    /// in milliseconds. Is determined when playing a card, and reset when the turn is advanced.
    pub estimated_turn_end_offset: u128,
    pub turn_order: Order,
    pub state: GameState,
}

/// The players' models.
pub open spec fn players_view(players: Seq<Player>) -> Seq<PlayerView> {
    players.map_values(|p: Player| p@)
}

} // verus!
