use vstd::prelude::*;
use std::rc::Rc;
use crate::buffs::BuffInfo;
use crate::card::{Card, CardId, EffectId};
use crate::play_info::PlayAction;
use crate::player::PlayerId;

verus! {

/// Account of a player taking part in a game.
#[derive(Debug)]
pub struct PlayerProfile {
    pub id: PlayerId,
    pub name: String,
}

/// What a player sees of an opponent.
#[derive(Debug)]
pub struct OpponentState {
    pub player_id: PlayerId,
    pub health: u32,
    pub card_count: u32,
    pub discard_cards: Vec<CardId>,
}

/// A card action, as shown to the players.
#[derive(Debug)]
pub struct CardAction {
    pub dice_roll: u8,
    pub targets: Vec<CardActionTarget>,
}

/// A target of a card action, as shown to the players.
#[derive(Debug)]
pub struct CardActionTarget {
    pub player_id: PlayerId,
    pub action: CardActionType,
    pub effect: EffectId,
}

/// What a card action does to its target, as shown to the players.
#[derive(Debug)]
pub enum CardActionType {
    Attack { amount: u32 },
    Heal { amount: u32 },
}

/// The state of a game as one player sees it.
#[derive(Debug)]
pub struct GameStateForPlayer {
    pub current_player_turn: PlayerId,
    /// end of the current turn, in milliseconds since the Unix epoch
    pub current_player_turn_end: i64,
    pub health: u32,
    pub cards: Vec<CardId>,
    pub discard_cards: Vec<CardId>,
    pub opponents: Vec<OpponentState>,
    pub cards_in_pile: u32,
}

/// Messages of the game server to the players.
#[derive(Debug)]
pub enum ServerResponse {
    Message { message: String },
    /// Sent when a player connects: the id assigned to it and all players' profiles.
    SessionInfo { id: PlayerId, players: Vec<PlayerProfile> },
    /// The game as one player sees it.
    GameStatus {
        current_player_turn: PlayerId,
        current_player_turn_end: i64,
        health: u32,
        cards: Vec<CardId>,
        discard_cards: Vec<CardId>,
        opponents: Vec<OpponentState>,
        cards_in_pile: u32,
    },
    /// A card was played.
    PlayCard { player_id: PlayerId, card_id: CardId, hand_index: u32, actions: Vec<PlayAction> },
    /// The buffs a player holds.
    PlayerBuffStatus { player_id: PlayerId, buffs: Vec<Rc<BuffInfo>> },
    /// A card was drawn by a player (-1 for an opponent's card).
    DrawCard { player_id: PlayerId, card_id: CardId },
    /// The turn passed to a player.
    ChangeTurn { player_id: PlayerId, turn_end: i64 },
    /// The discarded cards went back to the pile.
    CollectDiscardCards { cards_in_pile: u32 },
    /// The game is over.
    GameEnd { winner_id: PlayerId },
}

impl OpponentState {
    /// A copy of the state.
    pub fn duplicate(&self) -> (r: OpponentState)
        ensures
            r.player_id == self.player_id,
            r.health == self.health,
            r.card_count == self.card_count,
            r.discard_cards@ == self.discard_cards@,
    {
        OpponentState {
            player_id: self.player_id,
            health: self.health,
            card_count: self.card_count,
            discard_cards: self.discard_cards.clone(),
        }
    }
}

/// The opponents' states are copies of each other, field by field.
pub open spec fn same_opponents(a: Seq<OpponentState>, b: Seq<OpponentState>) -> bool {
    &&& a.len() == b.len()
    &&& forall|i: int| 0 <= i < a.len() ==> {
        &&& (#[trigger] a[i]).player_id == b[i].player_id
        &&& a[i].health == b[i].health
        &&& a[i].card_count == b[i].card_count
        &&& a[i].discard_cards@ == b[i].discard_cards@
    }
}

impl GameStateForPlayer {
    /// The state as a message to the player.
    pub fn to_server_response(&self) -> (r: ServerResponse)
        ensures
            r matches ServerResponse::GameStatus {
                current_player_turn,
                current_player_turn_end,
                health,
                cards,
                discard_cards,
                opponents,
                cards_in_pile,
            } && current_player_turn == self.current_player_turn && current_player_turn_end
                == self.current_player_turn_end && health == self.health && cards@ == self.cards@ && discard_cards@
                == self.discard_cards@ && same_opponents(opponents@, self.opponents@) && cards_in_pile == self.cards_in_pile,
    {
        let mut opponents: Vec<OpponentState> = Vec::new();
        let mut i: usize = 0;
        while i < self.opponents.len()
            invariant
                i <= self.opponents.len(),
                same_opponents(opponents@, self.opponents@.take(i as int)),
            decreases self.opponents.len() - i,
        {
            let o = self.opponents[i].duplicate();
            opponents.push(o);
            i = i + 1;
            assert(same_opponents(opponents@, self.opponents@.take(i as int)));
        }
        assert(self.opponents@.take(i as int) =~= self.opponents@);
        ServerResponse::GameStatus {
            current_player_turn: self.current_player_turn,
            current_player_turn_end: self.current_player_turn_end,
            health: self.health,
            cards: self.cards.clone(),
            discard_cards: self.discard_cards.clone(),
            opponents,
            cards_in_pile: self.cards_in_pile,
        }
    }
}

/// Ids of the cards.
pub fn card_ids_of(cards: &Vec<Rc<Card>>) -> (r: Vec<CardId>)
    ensures
        r@ == crate::rules::card_ids(cards@),
{
    let mut r: Vec<CardId> = Vec::new();
    let mut i: usize = 0;
    while i < cards.len()
        invariant
            i <= cards.len(),
            r@ == crate::rules::card_ids(cards@.take(i as int)),
        decreases cards.len() - i,
    {
        assert(crate::rules::card_ids(cards@.take(i + 1)) =~= crate::rules::card_ids(cards@.take(i as int)).push(cards@[i as int].get_id()));
        r.push(cards[i].get_id());
        i = i + 1;
    }
    assert(cards@.take(i as int) =~= cards@);
    r
}

} // verus!
