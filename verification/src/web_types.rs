//! Values exchanged with the web clients: the actions a player sends during a game, the bodies of
//! the friend requests, text of bounded length, the set of users online, and the names of the
//! database's enumerated types.
use vstd::prelude::*;
use vstd::string::StringSliceAdditionalSpecFns;
use std::collections::HashSet;
use crate::player::PlayerId;

verus! {

/// An action a player sends during a game.
#[derive(Debug)]
pub enum UserAction {
    /// The player plays the card at `card_index` of its hand on the players `targets`; the dice
    /// are rolled by the server.
    PlayCard { card_index: usize, targets: Vec<PlayerId> },
    /// The player draws a card.
    DrawCard {},
    /// The player sends a chat message.
    SendChatMessage { message: String },
}

/// Body of a friend request.
#[derive(Debug)]
pub struct NewFriendRequestJSON {
    /// Username of the user to send a friend request to
    pub username: String,
}

/// Body of the answer to a friend request.
#[derive(Debug)]
pub struct FriendRequestResponseJSON {
    /// Whether the request is accepted (true) or declined (false)
    pub accepted: bool,
}

/// The database's type of card elements.
#[derive(Debug, Clone, Copy)]
pub struct CardElement;

/// The database's type of card kinds.
#[derive(Debug, Clone, Copy)]
pub struct CardType;

/// The database's type of cosmetics.
#[derive(Debug, Clone, Copy)]
pub struct CosmeticType;

/// The description of the web API.
#[derive(Debug, Clone, Copy)]
pub struct ApiDoc;

/// The ids of the users who are online.
pub type Presence = HashSet<i32>;

/// Nobody online yet.
pub fn new_presence() -> (r: Presence)
    ensures
        r@ == Set::<i32>::empty(),
{
    HashSet::new()
}

/// Text of at most `MAX_LENGTH` bytes.
#[derive(Debug)]
pub struct LimitedString<const MAX_LENGTH: usize>(pub String);

/// Number of bytes of the text.
pub open spec fn byte_len(s: &String) -> nat {
    vstd::utf8::encode_utf8(s@).len()
}

impl<const MAX_LENGTH: usize> LimitedString<MAX_LENGTH> {
    /// The text, when it has at most `MAX_LENGTH` bytes; else its length in bytes.
    pub fn new(inner: String) -> (r: Result<Self, usize>)
        ensures
            match r {
                Ok(l) => l.0@ == inner@ && byte_len(&inner) <= MAX_LENGTH,
                Err(n) => n == byte_len(&inner) && n > MAX_LENGTH,
            },
    {
        let text = inner.as_str();
        let n = text.as_bytes().len();
        assert(text.spec_bytes() == vstd::utf8::encode_utf8(inner@));
        if n > MAX_LENGTH {
            Err(n)
        } else {
            Ok(LimitedString(inner))
        }
    }

    /// The text.
    pub fn as_string(&self) -> (r: &String)
        ensures
            r@ == self.0@,
    {
        &self.0
    }
}

} // verus!
