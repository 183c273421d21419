//! Lobbies: players gather in a lobby, get ready, and a game starts for them.
use vstd::prelude::*;
use std::collections::HashSet;
use vstd::std_specs::iter::IteratorSpec;
use crate::game::MAX_PLAYERS;

verus! {

broadcast use vstd::std_specs::hash::group_hash_axioms;

/// Number of lobbies on a page of the lobby list.
pub const LOBBY_PAGE_SIZE: usize = 20;

/// Length of a lobby id.
pub const LOBBY_ID_LEN: usize = 7;

pub type LobbyId = String;

/// A lobby: the players in it, those ready, whether it is listed, and the game started from it.
#[derive(Debug)]
pub struct Lobby {
    pub id: String,
    pub users: HashSet<i32>,
    pub users_ready: HashSet<i32>,
    /// if unlisted the lobby is not returned by the lobby list
    pub unlisted: bool,
    /// the game started from the lobby, as the integer of its UUID
    pub game_id: Option<u128>,
}

/// Simplified lobby, as shown to the players.
#[derive(Debug)]
pub struct LobbyInfo {
    pub id: String,
    pub users: HashSet<i32>,
    pub users_ready: HashSet<i32>,
    pub ingame: bool,
}

/// A page of the lobby list.
#[derive(Debug)]
pub struct LobbyPageList {
    pub entries: Vec<LobbyInfo>,
    pub page: usize,
    pub page_count: usize,
}

/// What a player asks for when creating a lobby.
#[derive(Debug)]
pub struct CreateLobbyInfo {
    pub unlisted: bool,
}

/// Index entry: the lobby a player is in.
#[derive(Debug)]
pub struct RUsersLobby {
    pub user_id: i32,
    pub lobby_id: LobbyId,
}

/// What a player asks for when joining a lobby.
#[derive(Debug)]
pub struct LobbyJoinInfo {
    pub lobby_id: LobbyId,
}

/// What a player asks for when changing its ready state.
#[derive(Debug)]
pub struct LobbyReadyInfo {
    pub ready: bool,
}

/// Why a lobby request is refused.
#[derive(Debug)]
pub enum LobbyError {
    /// The request conflicts with the state of the lobby or of the player.
    Conflict(String),
    BadRequest(String),
    NotFound(String),
    /// The server could not serve the request.
    Internal(String),
}

/// Mathematical model of a lobby.
#[verifier::ext_equal]
pub struct LobbyView {
    pub id: Seq<char>,
    pub users: Set<i32>,
    pub users_ready: Set<i32>,
    pub unlisted: bool,
    pub game_id: Option<u128>,
}

impl View for Lobby {
    type V = LobbyView;

    open spec fn view(&self) -> LobbyView {
        LobbyView {
            id: self.id@,
            users: self.users@,
            users_ready: self.users_ready@,
            unlisted: self.unlisted,
            game_id: self.game_id,
        }
    }
}

pub proof fn lemma_set_keys(s: &HashSet<i32>)
    ensures
        vstd::std_specs::hash::spec_hash_keys_iter(s).remaining().map_values(|p: &i32| *p).to_set() == s@,
{
    let keys = vstd::std_specs::hash::spec_hash_keys_iter(s).remaining().map_values(|p: &i32| *p);
    let rem = vstd::std_specs::hash::spec_hash_keys_iter(s).remaining();
    vstd::std_specs::hash::axiom_spec_hash_keys_iter(s);
    assert(rem.unref() =~= keys);
}

/// A copy of the set.
pub fn copy_set(s: &HashSet<i32>) -> (r: HashSet<i32>)
    ensures
        r@ == s@,
{
    let mut r: HashSet<i32> = HashSet::new();
    let ghost keys = vstd::std_specs::hash::spec_hash_keys_iter(s).remaining().map_values(|p: &i32| *p);
    let ghost mut n: int = 0;
    proof {
        lemma_set_keys(s);
    }
    for x in it: s.iter()
        invariant
            it.seq().map_values(|p: &i32| *p) == keys,
            n == it.index(),
            r@ == keys.take(n).to_set(),
    {
        proof {
            assert(keys.take(n + 1) =~= keys.take(n).push(*x));
            keys.take(n).lemma_push_to_set_commute(*x);
            n = n + 1;
        }
        r.insert(*x);
    }
    assert(keys.take(n) =~= keys);
    r
}

impl Lobby {
    /// An empty lobby, not in game.
    pub fn new(id: String, unlisted: bool) -> (r: Self)
        ensures
            r.id@ == id@,
            r.users@ == Set::<i32>::empty(),
            r.users_ready@ == Set::<i32>::empty(),
            r.unlisted == unlisted,
            r.game_id is None,
    {
        Self { id, users: HashSet::new(), users_ready: HashSet::new(), unlisted, game_id: None }
    }

    /// Every player in the lobby is ready.
    pub fn all_users_ready(&self) -> (r: bool)
        ensures
            r == self.users@.subset_of(self.users_ready@),
    {
        let ghost keys = vstd::std_specs::hash::spec_hash_keys_iter(&self.users).remaining().map_values(|p: &i32| *p);
        let ghost mut n: int = 0;
        proof {
            lemma_set_keys(&self.users);
        }
        let mut all = true;
        for x in it: self.users.iter()
            invariant
                it.seq().map_values(|p: &i32| *p) == keys,
                n == it.index(),
                all == (forall|k: int| 0 <= k < n ==> self.users_ready@.contains(#[trigger] keys[k])),
        {
            proof {
                assert(keys[n] == *x);
                n = n + 1;
            }
            if !self.users_ready.contains(x) {
                all = false;
            }
        }
        proof {
            assert(n == keys.len());
            if all {
                assert forall|u: i32| self.users@.contains(u) implies self.users_ready@.contains(u) by {
                    assert(keys.to_set().contains(u));
                    let k = choose|k: int| 0 <= k < keys.len() && keys[k] == u;
                }
            } else {
                let k = choose|k: int| 0 <= k < n && !self.users_ready@.contains(#[trigger] keys[k]);
                assert(keys.to_set().contains(keys[k]));
            }
        }
        all
    }

    /// A copy of the lobby.
    pub fn copy(&self) -> (r: Lobby)
        ensures
            r@ == self@,
    {
        Lobby {
            id: self.id.clone(),
            users: copy_set(&self.users),
            users_ready: copy_set(&self.users_ready),
            unlisted: self.unlisted,
            game_id: self.game_id,
        }
    }

    /// The lobby as shown to the players.
    pub fn info(&self) -> (r: LobbyInfo)
        ensures
            r.id@ == self.id@,
            r.users@ == self.users@,
            r.users_ready@ == self.users_ready@,
            r.ingame == self.game_id is Some,
    {
        LobbyInfo {
            id: self.id.clone(),
            users: copy_set(&self.users),
            users_ready: copy_set(&self.users_ready),
            ingame: self.game_id.is_some(),
        }
    }
}

/// Number of pages of the lobby list for `count` listed lobbies.
pub fn page_count(count: u64) -> (r: u64)
    ensures
        r * LOBBY_PAGE_SIZE >= count,
        r == 0 || (r - 1) * LOBBY_PAGE_SIZE < count,
{
    let r = count / 20 + if count % 20 == 0 { 0 } else { 1 };
    r
}

/// A new lobby with id `id`, holding its creator; refused when the creator is already in a lobby.
pub fn create_lobby(id: String, creator_id: i32, info: &CreateLobbyInfo, creator_in_lobby: bool) -> (r: Result<Lobby, LobbyError>)
    ensures
        match r {
            Ok(lobby) => !creator_in_lobby && lobby.id@ == id@ && lobby.users@ == set![creator_id]
                && lobby.users_ready@ == Set::<i32>::empty() && lobby.unlisted == info.unlisted && lobby.game_id is None,
            Err(e) => creator_in_lobby && (e matches LobbyError::Conflict(m) && m@ == "User is already in a lobby !"@),
        },
{
    if creator_in_lobby {
        return Err(LobbyError::Conflict(String::from_str("User is already in a lobby !")));
    }
    let mut lobby = Lobby::new(id, info.unlisted);
    lobby.users.insert(creator_id);
    assert(lobby.users@ =~= set![creator_id]);
    Ok(lobby)
}

impl Lobby {
    /// A player joins the lobby: refused when it is already in a lobby, or when the lobby is full.
    pub fn join(&mut self, account_id: i32, user_in_lobby: bool) -> (r: Result<(), LobbyError>)
        ensures
            match r {
                Ok(_) => !user_in_lobby && old(self).users@.len() + 1 <= MAX_PLAYERS && final(self).users@
                    == old(self).users@.insert(account_id),
                Err(e) => final(self).users@ == old(self).users@ && if user_in_lobby {
                    e matches LobbyError::Conflict(m) && m@ == "User is already in a lobby !"@
                } else {
                    old(self).users@.len() + 1 > MAX_PLAYERS && (e matches LobbyError::BadRequest(m) && m@
                        == "Lobby is full !"@)
                },
            },
            final(self).users_ready@ == old(self).users_ready@,
            final(self).id == old(self).id,
            final(self).unlisted == old(self).unlisted,
            final(self).game_id == old(self).game_id,
    {
        if user_in_lobby {
            return Err(LobbyError::Conflict(String::from_str("User is already in a lobby !")));
        }
        if self.users.len() >= MAX_PLAYERS {
            return Err(LobbyError::BadRequest(String::from_str("Lobby is full !")));
        }
        self.users.insert(account_id);
        Ok(())
    }

    /// A player leaves the lobby (and is no longer ready): refused when every player is ready and
    /// there are several. Tells whether the lobby is now empty.
    pub fn leave(&mut self, account_id: i32) -> (r: Result<bool, LobbyError>)
        ensures
            match r {
                Ok(empty) => !(old(self).users@.subset_of(old(self).users_ready@) && old(self).users@.len() > 1)
                    && final(self).users@ == old(self).users@.remove(account_id)
                    && final(self).users_ready@ == old(self).users_ready@.remove(account_id)
                    && empty == (final(self).users@.len() == 0),
                Err(e) => old(self).users@.subset_of(old(self).users_ready@) && old(self).users@.len() > 1
                    && *final(self) == *old(self)
                    && (e matches LobbyError::Conflict(m) && m@ == "Can't leave because all users are ready !"@),
            },
            final(self).id == old(self).id,
            final(self).unlisted == old(self).unlisted,
            final(self).game_id == old(self).game_id,
    {
        if self.all_users_ready() && self.users.len() > 1 {
            return Err(LobbyError::Conflict(String::from_str("Can't leave because all users are ready !")));
        }
        self.users.remove(&account_id);
        self.users_ready.remove(&account_id);
        Ok(self.users.len() == 0)
    }

    /// A player changes its ready state: refused once a game has started, or when every player is
    /// ready and there are several.
    pub fn update_user_ready_state(&mut self, account_id: i32, ready: bool) -> (r: Result<(), LobbyError>)
        ensures
            match r {
                Ok(_) => old(self).game_id is None && !(old(self).users@.subset_of(old(self).users_ready@)
                    && old(self).users@.len() > 1) && final(self).users_ready@ == if ready {
                    old(self).users_ready@.insert(account_id)
                } else {
                    old(self).users_ready@.remove(account_id)
                },
                Err(e) => *final(self) == *old(self) && if old(self).game_id is Some {
                    e matches LobbyError::Conflict(m) && m@ == "Can't update because a game has already started !"@
                } else {
                    old(self).users@.subset_of(old(self).users_ready@) && old(self).users@.len() > 1
                        && (e matches LobbyError::Conflict(m) && m@ == "Can't update because all users are ready !"@)
                },
            },
            final(self).users@ == old(self).users@,
            final(self).id == old(self).id,
            final(self).unlisted == old(self).unlisted,
            final(self).game_id == old(self).game_id,
    {
        if self.game_id.is_some() {
            return Err(LobbyError::Conflict(String::from_str("Can't update because a game has already started !")));
        }
        if self.all_users_ready() && self.users.len() > 1 {
            return Err(LobbyError::Conflict(String::from_str("Can't update because all users are ready !")));
        }
        if ready {
            self.users_ready.insert(account_id);
        } else {
            self.users_ready.remove(&account_id);
        }
        Ok(())
    }
}

impl Lobby {
    /// The game of the lobby is over: nobody in it is ready any more.
    pub fn reset_users_ready(&mut self)
        ensures
            final(self).users_ready@ == Set::<i32>::empty(),
            final(self).users == old(self).users,
            final(self).id == old(self).id,
            final(self).unlisted == old(self).unlisted,
            final(self).game_id == old(self).game_id,
    {
        self.users_ready = HashSet::new();
    }
}

/// The page `page` of the lobby list, from the listed lobbies of that page and the number `count`
/// of listed lobbies: each lobby's summary, the page, and the number of pages.
pub fn lobby_page_list(page_entries: &Vec<Lobby>, page: usize, count: u64) -> (r: LobbyPageList)
    requires
        count <= usize::MAX,
    ensures
        r.entries.len() == page_entries.len(),
        forall|k: int| 0 <= k < r.entries.len() ==> {
            &&& (#[trigger] r.entries@[k]).id@ == page_entries@[k].id@
            &&& r.entries@[k].users@ == page_entries@[k].users@
            &&& r.entries@[k].users_ready@ == page_entries@[k].users_ready@
            &&& r.entries@[k].ingame == page_entries@[k].game_id is Some
        },
        r.page == page,
        r.page_count * LOBBY_PAGE_SIZE >= count,
        r.page_count == 0 || (r.page_count - 1) * LOBBY_PAGE_SIZE < count,
{
    let mut entries: Vec<LobbyInfo> = Vec::new();
    let mut i: usize = 0;
    while i < page_entries.len()
        invariant
            i <= page_entries.len(),
            entries.len() == i,
            forall|k: int| 0 <= k < i ==> {
                &&& (#[trigger] entries@[k]).id@ == page_entries@[k].id@
                &&& entries@[k].users@ == page_entries@[k].users@
                &&& entries@[k].users_ready@ == page_entries@[k].users_ready@
                &&& entries@[k].ingame == page_entries@[k].game_id is Some
            },
        decreases page_entries.len() - i,
    {
        entries.push(page_entries[i].info());
        i = i + 1;
    }
    let pages = page_count(count);
    assert(pages <= count);
    LobbyPageList { entries, page, page_count: pages as usize }
}

} // verus!
