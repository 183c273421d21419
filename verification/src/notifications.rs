//! Server-sent events: which connected clients hear of a friend request, of a change in a lobby's
//! players or ready states, and of the start of a lobby's game.
use vstd::prelude::*;
use std::collections::HashSet;
use crate::friends::Friend;
use crate::lobby::copy_set;

verus! {

broadcast use vstd::std_specs::hash::group_hash_axioms;

/// An event sent to a client.
#[derive(Debug)]
pub enum SseMessage {
    /// A friend request from `user` changed; `status` is its status.
    FriendRequest { request_id: i32, user: i32, status: i32 },
    /// The players of the client's lobby are now `users`.
    LobbyUserListChange { users: HashSet<i32> },
    /// Player `user` of the client's lobby is now ready or not.
    LobbyUserReadyChange { user: i32, ready: bool },
    /// The game of the client's lobby started.
    GameStarted { game_id: u128 },
}

/// The event that tells the receiver of a friend request of its change.
pub fn friend_request_message(f: &Friend) -> (r: SseMessage)
    ensures
        r matches SseMessage::FriendRequest { request_id, user, status } && request_id == f.id && user == f.account1
            && status == f.status,
{
    SseMessage::FriendRequest { request_id: f.id, user: f.account1, status: f.status }
}

/// The event that tells a lobby's clients of its players.
pub fn lobby_user_list_message(users: &HashSet<i32>) -> (r: SseMessage)
    ensures
        r matches SseMessage::LobbyUserListChange { users: u } && u@ == users@,
{
    SseMessage::LobbyUserListChange { users: copy_set(users) }
}

/// Position of the first client that is the receiver of the request (the number of clients when
/// none is): only that client hears of it.
pub fn friend_request_recipient(clients: &Vec<i32>, f: &Friend) -> (r: usize)
    ensures
        r <= clients.len(),
        r < clients.len() ==> clients@[r as int] == f.account2,
        forall|k: int| 0 <= k < r ==> #[trigger] clients@[k] != f.account2,
{
    let mut i: usize = 0;
    while i < clients.len()
        invariant
            i <= clients.len(),
            forall|k: int| 0 <= k < i ==> #[trigger] clients@[k] != f.account2,
        decreases clients.len() - i,
    {
        if clients[i] == f.account2 {
            return i;
        }
        i = i + 1;
    }
    i
}

/// The client hears of a change in the lobby of `users`: it is in the lobby, and is not `skip`.
pub open spec fn hears(client: i32, users: Set<i32>, skip: Option<i32>) -> bool {
    users.contains(client) && skip != Some(client)
}

/// The positions, in order, of the clients that hear of a change in the lobby of `users`.
pub open spec fn lobby_recipients_of(clients: Seq<i32>, users: Set<i32>, skip: Option<i32>) -> Seq<usize>
    decreases clients.len(),
{
    if clients.len() == 0 {
        Seq::empty()
    } else {
        let rest = lobby_recipients_of(clients.drop_last(), users, skip);
        if hears(clients.last(), users, skip) {
            rest.push((clients.len() - 1) as usize)
        } else {
            rest
        }
    }
}

/// The positions of the clients that hear of a change in the lobby of `users`: those in the lobby
/// but `skip`, the player who made the change, if any.
pub fn lobby_recipients(clients: &Vec<i32>, users: &HashSet<i32>, skip: Option<i32>) -> (r: Vec<usize>)
    ensures
        r@ == lobby_recipients_of(clients@, users@, skip),
{
    let mut r: Vec<usize> = Vec::new();
    let mut i: usize = 0;
    while i < clients.len()
        invariant
            i <= clients.len(),
            r@ == lobby_recipients_of(clients@.take(i as int), users@, skip),
        decreases clients.len() - i,
    {
        proof {
            assert(clients@.take(i + 1).drop_last() =~= clients@.take(i as int));
            assert(clients@.take(i + 1).last() == clients@[i as int]);
        }
        let c = clients[i];
        let skipped = match skip {
            Some(s) => s == c,
            None => false,
        };
        if users.contains(&c) && !skipped {
            r.push(i);
        }
        i = i + 1;
    }
    proof {
        assert(clients@.take(i as int) =~= clients@);
    }
    r
}

} // verus!
