//! The backend's lobbies, kept in memory. Every lobby has a well-formed id of its own and between one
//! and `MAX_PLAYERS` players, its ready players are among its players, and no player is in two
//! lobbies.
use vstd::prelude::*;
use crate::game::MAX_PLAYERS;
use crate::lobby::{
    Lobby, LobbyError, LobbyId, LobbyView, LobbyPageList, CreateLobbyInfo, create_lobby as new_lobby, lobby_page_list,
    LOBBY_PAGE_SIZE,
};
use crate::lobby_id::{generate_lobby_id as draw_lobby_id, is_lobby_id};

verus! {

broadcast use vstd::std_specs::hash::group_hash_axioms;

/// The backend's store of lobbies, in the order they were created.
pub struct BackendDb {
    lobbies: Vec<Lobby>,
}

/// The models of the lobbies.
pub open spec fn lobby_views(ls: Seq<Lobby>) -> Seq<LobbyView> {
    ls.map_values(|l: Lobby| l@)
}

impl View for BackendDb {
    type V = Seq<LobbyView>;

    closed spec fn view(&self) -> Seq<LobbyView> {
        lobby_views(self.lobbies@)
    }
}

/// A lobby of the store: a well-formed id, between one and `MAX_PLAYERS` players, and ready players
/// among them.
pub open spec fn lobby_wf(l: LobbyView) -> bool {
    &&& is_lobby_id(l.id)
    &&& l.users.finite()
    &&& 0 < l.users.len() <= MAX_PLAYERS
    &&& l.users_ready.subset_of(l.users)
}

/// The lobbies of a store: each well formed, their ids distinct, and no player in two of them.
pub open spec fn store_wf(ls: Seq<LobbyView>) -> bool {
    &&& forall|i: int| 0 <= i < ls.len() ==> lobby_wf(#[trigger] ls[i])
    &&& forall|i: int, j: int| 0 <= i < j < ls.len() ==> (#[trigger] ls[i]).id != (#[trigger] ls[j]).id
    &&& forall|i: int, j: int, u: i32|
        0 <= i < ls.len() && 0 <= j < ls.len() && i != j && #[trigger] ls[i].users.contains(u)
            ==> !#[trigger] ls[j].users.contains(u)
}

/// Position of the lobby that holds player `u` (the number of lobbies when none does).
pub open spec fn user_lobby(ls: Seq<LobbyView>, u: i32) -> int
    decreases ls.len(),
{
    if ls.len() == 0 {
        0
    } else if ls[0].users.contains(u) {
        0
    } else {
        1 + user_lobby(ls.drop_first(), u)
    }
}

/// Position of the lobby with id `id` (the number of lobbies when none has it).
pub open spec fn lobby_with_id(ls: Seq<LobbyView>, id: Seq<char>) -> int
    decreases ls.len(),
{
    if ls.len() == 0 {
        0
    } else if ls[0].id == id {
        0
    } else {
        1 + lobby_with_id(ls.drop_first(), id)
    }
}

/// Position of the first lobby whose game is `game_id` (the number of lobbies when none is).
pub open spec fn lobby_with_game(ls: Seq<LobbyView>, game_id: u128) -> int
    decreases ls.len(),
{
    if ls.len() == 0 {
        0
    } else if ls[0].game_id == Some(game_id) {
        0
    } else {
        1 + lobby_with_game(ls.drop_first(), game_id)
    }
}

pub proof fn lemma_user_lobby(ls: Seq<LobbyView>, u: i32)
    ensures
        0 <= user_lobby(ls, u) <= ls.len(),
        user_lobby(ls, u) < ls.len() ==> ls[user_lobby(ls, u)].users.contains(u),
        forall|k: int| 0 <= k < user_lobby(ls, u) ==> !(#[trigger] ls[k]).users.contains(u),
    decreases ls.len(),
{
    if ls.len() > 0 && !ls[0].users.contains(u) {
        lemma_user_lobby(ls.drop_first(), u);
        assert forall|k: int| 0 <= k < user_lobby(ls, u) implies !(#[trigger] ls[k]).users.contains(u) by {
            if k > 0 {
                assert(ls[k] == ls.drop_first()[k - 1]);
            }
        }
    }
}

pub proof fn lemma_lobby_with_id(ls: Seq<LobbyView>, id: Seq<char>)
    ensures
        0 <= lobby_with_id(ls, id) <= ls.len(),
        lobby_with_id(ls, id) < ls.len() ==> ls[lobby_with_id(ls, id)].id == id,
        forall|k: int| 0 <= k < lobby_with_id(ls, id) ==> (#[trigger] ls[k]).id != id,
    decreases ls.len(),
{
    if ls.len() > 0 && ls[0].id != id {
        lemma_lobby_with_id(ls.drop_first(), id);
        assert forall|k: int| 0 <= k < lobby_with_id(ls, id) implies (#[trigger] ls[k]).id != id by {
            if k > 0 {
                assert(ls[k] == ls.drop_first()[k - 1]);
            }
        }
    }
}

pub proof fn lemma_lobby_with_game(ls: Seq<LobbyView>, game_id: u128)
    ensures
        0 <= lobby_with_game(ls, game_id) <= ls.len(),
        lobby_with_game(ls, game_id) < ls.len() ==> ls[lobby_with_game(ls, game_id)].game_id == Some(game_id),
        forall|k: int| 0 <= k < lobby_with_game(ls, game_id) ==> (#[trigger] ls[k]).game_id != Some(game_id),
    decreases ls.len(),
{
    if ls.len() > 0 && ls[0].game_id != Some(game_id) {
        lemma_lobby_with_game(ls.drop_first(), game_id);
        assert forall|k: int| 0 <= k < lobby_with_game(ls, game_id) implies (#[trigger] ls[k]).game_id != Some(game_id) by {
            if k > 0 {
                assert(ls[k] == ls.drop_first()[k - 1]);
            }
        }
    }
}


/// The store after player `u` creates a lobby with id `id`.
pub open spec fn created(ls: Seq<LobbyView>, id: Seq<char>, u: i32, unlisted: bool) -> Seq<LobbyView> {
    ls.push(LobbyView { id, users: set![u], users_ready: Set::empty(), unlisted, game_id: None })
}

/// The store after player `u` joins the lobby at `j`.
pub open spec fn joined(ls: Seq<LobbyView>, j: int, u: i32) -> Seq<LobbyView> {
    ls.update(j, LobbyView { users: ls[j].users.insert(u), ..ls[j] })
}

/// The lobby after player `u` leaves it: it is neither in it nor ready.
pub open spec fn lobby_left(l: LobbyView, u: i32) -> LobbyView {
    LobbyView { users: l.users.remove(u), users_ready: l.users_ready.remove(u), ..l }
}

/// The store after player `u` leaves the lobby at `j`, which goes away once empty.
pub open spec fn left(ls: Seq<LobbyView>, j: int, u: i32) -> Seq<LobbyView> {
    if lobby_left(ls[j], u).users.len() == 0 {
        ls.remove(j)
    } else {
        ls.update(j, lobby_left(ls[j], u))
    }
}

/// Every player of the lobby is ready, and there are several: the game starts.
pub open spec fn everyone_ready(l: LobbyView) -> bool {
    l.users.subset_of(l.users_ready) && l.users.len() > 1
}

/// The lobby after player `u` says whether it is ready.
pub open spec fn lobby_readied(l: LobbyView, u: i32, ready: bool) -> LobbyView {
    LobbyView { users_ready: if ready { l.users_ready.insert(u) } else { l.users_ready.remove(u) }, ..l }
}

/// The listed lobbies, in order.
pub open spec fn listed(ls: Seq<LobbyView>) -> Seq<LobbyView>
    decreases ls.len(),
{
    if ls.len() == 0 {
        Seq::empty()
    } else if ls.last().unlisted {
        listed(ls.drop_last())
    } else {
        listed(ls.drop_last()).push(ls.last())
    }
}

/// The listed lobbies on page `page` of the lobby list.
pub open spec fn page_of(ls: Seq<LobbyView>, page: int) -> Seq<LobbyView> {
    let all = listed(ls);
    let lo = if page * LOBBY_PAGE_SIZE <= all.len() { page * LOBBY_PAGE_SIZE } else { all.len() as int };
    let hi = if page * LOBBY_PAGE_SIZE + LOBBY_PAGE_SIZE <= all.len() {
        page * LOBBY_PAGE_SIZE + LOBBY_PAGE_SIZE
    } else {
        all.len() as int
    };
    all.subrange(lo, hi)
}

/// Every one of `LOBBY_ID_ATTEMPTS` ids drawn was the id of a lobby of the store.
pub open spec fn ids_all_taken(ls: Seq<LobbyView>) -> bool {
    exists|ids: Seq<Seq<char>>| {
        &&& ids.len() == crate::lobby_id::LOBBY_ID_ATTEMPTS
        &&& forall|k: int| 0 <= k < ids.len() ==> lobby_with_id(ls, #[trigger] ids[k]) < ls.len()
    }
}

/// Removing a lobby keeps the store well formed.
pub proof fn lemma_wf_remove(ls: Seq<LobbyView>, j: int)
    requires
        store_wf(ls),
        0 <= j < ls.len(),
    ensures
        store_wf(ls.remove(j)),
{
    let r = ls.remove(j);
    assert forall|i: int| 0 <= i < r.len() implies lobby_wf(#[trigger] r[i]) by {
        if i < j {
            assert(r[i] == ls[i]);
        } else {
            assert(r[i] == ls[i + 1]);
        }
    }
    assert forall|a: int, b: int| 0 <= a < b < r.len() implies (#[trigger] r[a]).id != (#[trigger] r[b]).id by {
        let a0 = if a < j { a } else { a + 1 };
        let b0 = if b < j { b } else { b + 1 };
        assert(r[a] == ls[a0] && r[b] == ls[b0]);
        assert(ls[a0].id != ls[b0].id);
    }
    assert forall|a: int, b: int, u: i32|
        0 <= a < r.len() && 0 <= b < r.len() && a != b && #[trigger] r[a].users.contains(u)
        implies !#[trigger] r[b].users.contains(u) by {
        let a0 = if a < j { a } else { a + 1 };
        let b0 = if b < j { b } else { b + 1 };
        assert(r[a] == ls[a0] && r[b] == ls[b0]);
        assert(ls[a0].users.contains(u));
    }
}

/// Replacing a lobby by a well-formed one with the same id, whose players are in no other lobby,
/// keeps the store well formed.
pub proof fn lemma_wf_update(ls: Seq<LobbyView>, j: int, l: LobbyView)
    requires
        store_wf(ls),
        0 <= j < ls.len(),
        lobby_wf(l),
        l.id == ls[j].id,
        forall|k: int, u: i32| 0 <= k < ls.len() && k != j && #[trigger] l.users.contains(u) ==> !#[trigger] ls[k].users.contains(u),
    ensures
        store_wf(ls.update(j, l)),
{
    let r = ls.update(j, l);
    assert forall|i: int| 0 <= i < r.len() implies lobby_wf(#[trigger] r[i]) by {}
    assert forall|a: int, b: int| 0 <= a < b < r.len() implies (#[trigger] r[a]).id != (#[trigger] r[b]).id by {
        assert(ls[a].id != ls[b].id);
    }
    assert forall|a: int, b: int, u: i32|
        0 <= a < r.len() && 0 <= b < r.len() && a != b && #[trigger] r[a].users.contains(u)
        implies !#[trigger] r[b].users.contains(u) by {
        if a == j {
            assert(!ls[b].users.contains(u));
        } else if b == j {
            assert(ls[a].users.contains(u));
            if l.users.contains(u) {
                assert(!ls[a].users.contains(u));
            }
        } else {
            assert(ls[a].users.contains(u));
        }
    }
}

impl BackendDb {
    /// The store's invariant.
    pub open spec fn wf(&self) -> bool {
        store_wf(self@)
    }

    /// An empty store.
    pub fn new() -> (r: Self)
        ensures
            r@ == Seq::<LobbyView>::empty(),
            r.wf(),
    {
        let r = BackendDb { lobbies: Vec::new() };
        assert(r@ =~= Seq::<LobbyView>::empty());
        r
    }

    /// The lobbies, in the order they were created.
    pub fn lobbies(&self) -> (r: &Vec<Lobby>)
        ensures
            lobby_views(r@) == self@,
    {
        &self.lobbies
    }

    /// Position of the lobby that holds the player (the number of lobbies when none does).
    fn position_of_user(&self, account_id: i32) -> (r: usize)
        ensures
            r == user_lobby(self@, account_id),
    {
        proof {
            lemma_user_lobby(self@, account_id);
        }
        let mut i: usize = 0;
        while i < self.lobbies.len()
            invariant
                i <= self.lobbies.len(),
                self@.len() == self.lobbies.len(),
                i <= user_lobby(self@, account_id),
                0 <= user_lobby(self@, account_id) <= self@.len(),
                user_lobby(self@, account_id) < self@.len() ==> self@[user_lobby(self@, account_id)].users.contains(account_id),
                forall|k: int| 0 <= k < user_lobby(self@, account_id) ==> !(#[trigger] self@[k]).users.contains(account_id),
            decreases self.lobbies.len() - i,
        {
            assert(self@[i as int] == self.lobbies@[i as int]@);
            if self.lobbies[i].users.contains(&account_id) {
                return i;
            }
            i = i + 1;
        }
        i
    }

    /// Position of the lobby with this id (the number of lobbies when none has it).
    fn position_of_id(&self, id: &String) -> (r: usize)
        ensures
            r == lobby_with_id(self@, id@),
    {
        proof {
            lemma_lobby_with_id(self@, id@);
        }
        let mut i: usize = 0;
        while i < self.lobbies.len()
            invariant
                i <= self.lobbies.len(),
                self@.len() == self.lobbies.len(),
                i <= lobby_with_id(self@, id@),
                0 <= lobby_with_id(self@, id@) <= self@.len(),
                lobby_with_id(self@, id@) < self@.len() ==> self@[lobby_with_id(self@, id@)].id == id@,
                forall|k: int| 0 <= k < lobby_with_id(self@, id@) ==> (#[trigger] self@[k]).id != id@,
            decreases self.lobbies.len() - i,
        {
            assert(self@[i as int] == self.lobbies@[i as int]@);
            if self.lobbies[i].id == *id {
                return i;
            }
            i = i + 1;
        }
        i
    }

    /// The lobby the player is in, if any.
    pub fn get_lobby_for_user(&self, account_id: i32) -> (r: Option<&Lobby>)
        ensures
            r is Some <==> user_lobby(self@, account_id) < self@.len(),
            r is Some ==> r->0@ == self@[user_lobby(self@, account_id)],
    {
        let i = self.position_of_user(account_id);
        if i < self.lobbies.len() {
            assert(self@[i as int] == self.lobbies@[i as int]@);
            Some(&self.lobbies[i])
        } else {
            None
        }
    }

    /// The lobby with this id, if any.
    pub fn find_lobby(&self, id: &String) -> (r: Option<&Lobby>)
        ensures
            r is Some <==> lobby_with_id(self@, id@) < self@.len(),
            r is Some ==> r->0@ == self@[lobby_with_id(self@, id@)],
    {
        let i = self.position_of_id(id);
        if i < self.lobbies.len() {
            assert(self@[i as int] == self.lobbies@[i as int]@);
            Some(&self.lobbies[i])
        } else {
            None
        }
    }

    /// A new lobby id, which no lobby of the store has.
    pub fn generate_lobby_id(&self) -> (r: Result<LobbyId, String>)
        ensures
            match r {
                Ok(id) => is_lobby_id(id@) && lobby_with_id(self@, id@) == self@.len(),
                Err(e) => e@ == "Unable to generate new lobby id !"@ && ids_all_taken(self@),
            },
            self@.len() == 0 ==> r is Ok,
    {
        let taken = |id: &String| -> (t: Option<bool>)
            ensures
                t == Some(lobby_with_id(self@, id@) < self@.len()),
            { Some(self.position_of_id(id) < self.lobbies.len()) };
        let r = draw_lobby_id(taken);
        proof {
            if r is Ok {
                lemma_lobby_with_id(self@, r->Ok_0@);
            } else {
                assert forall|id: &String| !#[trigger] taken.ensures((id,), None) by {}
                let ids = choose|ids: Seq<String>| {
                    &&& ids.len() == crate::lobby_id::LOBBY_ID_ATTEMPTS
                    &&& forall|k: int| 0 <= k < ids.len() ==> #[trigger] taken.ensures((&ids[k],), Some(true))
                };
                let vs = ids.map_values(|x: String| x@);
                assert forall|k: int| 0 <= k < vs.len() implies lobby_with_id(self@, #[trigger] vs[k]) < self@.len() by {
                    assert(taken.ensures((&ids[k],), Some(true)));
                }
                assert(vs.len() == crate::lobby_id::LOBBY_ID_ATTEMPTS);
                if self@.len() == 0 {
                    assert(lobby_with_id(self@, vs[0]) < self@.len());
                }
            }
        }
        r
    }

    /// A new lobby, listed or not, holding its creator; refused when the creator is already in a lobby.
    pub fn create_lobby(&mut self, creator_id: i32, info: &CreateLobbyInfo) -> (r: Result<Lobby, LobbyError>)
        requires
            old(self).wf(),
        ensures
            final(self).wf(),
            user_lobby(old(self)@, creator_id) < old(self)@.len() ==> final(self)@ == old(self)@
                && (r matches Err(LobbyError::Conflict(m)) && m@ == "User is already in a lobby !"@),
            user_lobby(old(self)@, creator_id) >= old(self)@.len() ==> match r {
                Ok(l) => is_lobby_id(l.id@) && lobby_with_id(old(self)@, l.id@) == old(self)@.len()
                    && final(self)@ == created(old(self)@, l.id@, creator_id, info.unlisted)
                    && l@ == final(self)@.last(),
                Err(e) => final(self)@ == old(self)@ && ids_all_taken(old(self)@)
                    && (e matches LobbyError::Internal(m) && m@ == "Unable to generate new lobby id !"@),
            },
            old(self)@.len() == 0 ==> r is Ok,
    {
        proof {
            lemma_user_lobby(self@, creator_id);
        }
        if self.position_of_user(creator_id) < self.lobbies.len() {
            return Err(LobbyError::Conflict(String::from_str("User is already in a lobby !")));
        }
        let id = match self.generate_lobby_id() {
            Ok(id) => id,
            Err(e) => {
                return Err(LobbyError::Internal(e));
            },
        };
        let ghost old_ls = self@;
        proof {
            lemma_lobby_with_id(old_ls, id@);
        }
        let lobby = match new_lobby(id, creator_id, info, false) {
            Ok(l) => l,
            Err(e) => {
                return Err(e);
            },
        };
        let copy = lobby.copy();
        self.lobbies.push(lobby);
        proof {
            let ls = self@;
            assert(ls =~= created(old_ls, copy.id@, creator_id, info.unlisted));
            assert(set![creator_id].len() == 1) by {
                assert(set![creator_id] =~= Set::<i32>::empty().insert(creator_id));
            }
            assert forall|i: int| 0 <= i < ls.len() implies lobby_wf(#[trigger] ls[i]) by {
                if i < old_ls.len() {
                    assert(ls[i] == old_ls[i]);
                }
            }
            assert forall|a: int, b: int| 0 <= a < b < ls.len() implies (#[trigger] ls[a]).id != (#[trigger] ls[b]).id by {
                if b == old_ls.len() {
                    assert(old_ls[a].id != copy.id@);
                } else {
                    assert(old_ls[a].id != old_ls[b].id);
                }
            }
            assert forall|a: int, b: int, u: i32|
                0 <= a < ls.len() && 0 <= b < ls.len() && a != b && #[trigger] ls[a].users.contains(u)
                implies !#[trigger] ls[b].users.contains(u) by {
                if a == old_ls.len() {
                    assert(u == creator_id);
                    assert(!old_ls[b].users.contains(creator_id));
                } else if b == old_ls.len() {
                    assert(old_ls[a].users.contains(u));
                    assert(!old_ls[a].users.contains(creator_id));
                } else {
                    assert(old_ls[a].users.contains(u));
                }
            }
        }
        Ok(copy)
    }

    /// Player `account_id` joins the lobby with id `lobby_id`: refused when the player is already in
    /// a lobby, when there is no such lobby, or when the lobby is full. Gives the lobby joined.
    pub fn join_lobby(&mut self, lobby_id: &String, account_id: i32) -> (r: Result<Lobby, LobbyError>)
        requires
            old(self).wf(),
        ensures
            final(self).wf(),
            ({
                let ls = old(self)@;
                let j = lobby_with_id(ls, lobby_id@);
                if user_lobby(ls, account_id) < ls.len() {
                    final(self)@ == ls && (r matches Err(LobbyError::Conflict(m)) && m@ == "User is already in a lobby !"@)
                } else if j >= ls.len() {
                    final(self)@ == ls && (r matches Err(LobbyError::NotFound(m)) && m@ == "Lobby doesn't exist !"@)
                } else if ls[j].users.len() + 1 > MAX_PLAYERS {
                    final(self)@ == ls && (r matches Err(LobbyError::BadRequest(m)) && m@ == "Lobby is full !"@)
                } else {
                    final(self)@ == joined(ls, j, account_id) && (r matches Ok(l) && l@ == final(self)@[j])
                }
            }),
    {
        let ghost ls = self@;
        proof {
            lemma_user_lobby(ls, account_id);
            lemma_lobby_with_id(ls, lobby_id@);
        }
        if self.position_of_user(account_id) < self.lobbies.len() {
            return Err(LobbyError::Conflict(String::from_str("User is already in a lobby !")));
        }
        let j = self.position_of_id(lobby_id);
        if j >= self.lobbies.len() {
            return Err(LobbyError::NotFound(String::from_str("Lobby doesn't exist !")));
        }
        let ghost old_l = self.lobbies@[j as int];
        let mut lobby = self.lobbies.remove(j);
        let res = lobby.join(account_id, false);
        let copy = lobby.copy();
        self.lobbies.insert(j, lobby);
        proof {
            assert(self.lobbies@ =~= old(self).lobbies@.update(j as int, lobby));
            assert(self@ =~= ls.update(j as int, lobby@));
            if res is Ok {
                assert(lobby@ =~= LobbyView { users: ls[j as int].users.insert(account_id), ..ls[j as int] });
                assert forall|k: int, u: i32| 0 <= k < ls.len() && k != j && #[trigger] lobby@.users.contains(u)
                    implies !#[trigger] ls[k].users.contains(u) by {
                    if u != account_id {
                        assert(ls[j as int].users.contains(u));
                    }
                }
                lemma_wf_update(ls, j as int, lobby@);
            } else {
                assert(lobby@ =~= ls[j as int]);
                assert(self@ =~= ls);
            }
        }
        match res {
            Ok(_) => Ok(copy),
            Err(e) => Err(e),
        }
    }

    /// Player `account_id` leaves its lobby, and is no longer ready; the lobby goes away once empty.
    /// Refused when the player is in no lobby, or when every player of its lobby is ready and there
    /// are several. Gives the lobby left.
    pub fn leave_lobby(&mut self, account_id: i32) -> (r: Result<Lobby, LobbyError>)
        requires
            old(self).wf(),
        ensures
            final(self).wf(),
            ({
                let ls = old(self)@;
                let j = user_lobby(ls, account_id);
                if j >= ls.len() {
                    final(self)@ == ls && (r matches Err(LobbyError::NotFound(m)) && m@ == "User is not in a lobby !"@)
                } else if everyone_ready(ls[j]) {
                    final(self)@ == ls
                        && (r matches Err(LobbyError::Conflict(m)) && m@ == "Can't leave because all users are ready !"@)
                } else {
                    final(self)@ == left(ls, j, account_id) && (r matches Ok(l) && l@ == lobby_left(ls[j], account_id))
                }
            }),
            r is Ok ==> user_lobby(final(self)@, account_id) >= final(self)@.len(),
    {
        let ghost ls = self@;
        proof {
            lemma_user_lobby(ls, account_id);
            if user_lobby(ls, account_id) < ls.len() {
                law_leave_frees_the_player(ls, account_id);
            }
        }
        let j = self.position_of_user(account_id);
        if j >= self.lobbies.len() {
            return Err(LobbyError::NotFound(String::from_str("User is not in a lobby !")));
        }
        let mut lobby = self.lobbies.remove(j);
        let res = lobby.leave(account_id);
        let copy = lobby.copy();
        match res {
            Ok(empty) => {
                if empty {
                    proof {
                        assert(self@ =~= ls.remove(j as int));
                        lemma_wf_remove(ls, j as int);
                    }
                } else {
                    self.lobbies.insert(j, lobby);
                    proof {
                        assert(self.lobbies@ =~= old(self).lobbies@.update(j as int, lobby));
                        assert(self@ =~= ls.update(j as int, lobby@));
                        assert(lobby@ =~= lobby_left(ls[j as int], account_id));
                        lemma_wf_update(ls, j as int, lobby@);
                    }
                }
                proof {
                    assert(lobby@ =~= lobby_left(ls[j as int], account_id));
                }
                Ok(copy)
            },
            Err(e) => {
                self.lobbies.insert(j, lobby);
                proof {
                    assert(self.lobbies@ =~= old(self).lobbies@);
                }
                Err(e)
            },
        }
    }

    /// Player `account_id` says whether it is ready. Refused when the player is in no lobby, when the
    /// game of its lobby has started, or when every player of its lobby is ready and there are
    /// several. Gives the player's lobby.
    pub fn update_user_ready_state(&mut self, account_id: i32, ready: bool) -> (r: Result<Lobby, LobbyError>)
        requires
            old(self).wf(),
        ensures
            final(self).wf(),
            ({
                let ls = old(self)@;
                let j = user_lobby(ls, account_id);
                if j >= ls.len() {
                    final(self)@ == ls && (r matches Err(LobbyError::NotFound(m)) && m@ == "User is not in a lobby !"@)
                } else if ls[j].game_id is Some {
                    final(self)@ == ls && (r matches Err(LobbyError::Conflict(m))
                        && m@ == "Can't update because a game has already started !"@)
                } else if everyone_ready(ls[j]) {
                    final(self)@ == ls
                        && (r matches Err(LobbyError::Conflict(m)) && m@ == "Can't update because all users are ready !"@)
                } else {
                    final(self)@ == ls.update(j, lobby_readied(ls[j], account_id, ready))
                        && (r matches Ok(l) && l@ == final(self)@[j])
                }
            }),
    {
        let ghost ls = self@;
        proof {
            lemma_user_lobby(ls, account_id);
        }
        let j = self.position_of_user(account_id);
        if j >= self.lobbies.len() {
            return Err(LobbyError::NotFound(String::from_str("User is not in a lobby !")));
        }
        let mut lobby = self.lobbies.remove(j);
        let res = lobby.update_user_ready_state(account_id, ready);
        let copy = lobby.copy();
        self.lobbies.insert(j, lobby);
        proof {
            assert(self.lobbies@ =~= old(self).lobbies@.update(j as int, lobby));
            assert(self@ =~= ls.update(j as int, lobby@));
            if res is Ok {
                assert(lobby@ =~= lobby_readied(ls[j as int], account_id, ready));
                lemma_wf_update(ls, j as int, lobby@);
            } else {
                assert(self@ =~= ls);
            }
        }
        match res {
            Ok(_) => Ok(copy),
            Err(e) => Err(e),
        }
    }

    /// The game `game_id` is over: nobody in the first lobby of that game is ready any more.
    pub fn reset_users_ready_on_game_end(&mut self, game_id: u128)
        requires
            old(self).wf(),
        ensures
            final(self).wf(),
            ({
                let ls = old(self)@;
                let j = lobby_with_game(ls, game_id);
                final(self)@ == if j < ls.len() {
                    ls.update(j, (LobbyView { users_ready: Set::empty(), ..ls[j] }))
                } else {
                    ls
                }
            }),
    {
        let ghost ls = self@;
        proof {
            lemma_lobby_with_game(ls, game_id);
        }
        let mut j: usize = 0;
        while j < self.lobbies.len() && self.lobbies[j].game_id != Some(game_id)
            invariant
                self@ == ls,
                j <= self.lobbies.len(),
                self@.len() == self.lobbies.len(),
                j <= lobby_with_game(ls, game_id),
                0 <= lobby_with_game(ls, game_id) <= ls.len(),
                lobby_with_game(ls, game_id) < ls.len() ==> ls[lobby_with_game(ls, game_id)].game_id == Some(game_id),
            decreases self.lobbies.len() - j,
        {
            assert(self@[j as int] == self.lobbies@[j as int]@);
            j = j + 1;
        }
        proof {
            if j < self.lobbies.len() {
                assert(self@[j as int] == self.lobbies@[j as int]@);
            }
        }
        if j < self.lobbies.len() {
            let mut lobby = self.lobbies.remove(j);
            lobby.reset_users_ready();
            self.lobbies.insert(j, lobby);
            proof {
                assert(self.lobbies@ =~= old(self).lobbies@.update(j as int, lobby));
                assert(self@ =~= ls.update(j as int, lobby@));
                assert(lobby@ =~= LobbyView { users_ready: Set::empty(), ..ls[j as int] });
                lemma_wf_update(ls, j as int, lobby@);
            }
        }
    }

    /// The lobby with id `lobby_id`, if any, is now in the game `game_id`.
    pub fn set_game_id(&mut self, lobby_id: &String, game_id: u128)
        requires
            old(self).wf(),
        ensures
            final(self).wf(),
            ({
                let ls = old(self)@;
                let j = lobby_with_id(ls, lobby_id@);
                final(self)@ == if j < ls.len() {
                    ls.update(j, (LobbyView { game_id: Some(game_id), ..ls[j] }))
                } else {
                    ls
                }
            }),
    {
        let ghost ls = self@;
        let j = self.position_of_id(lobby_id);
        if j < self.lobbies.len() {
            let mut lobby = self.lobbies.remove(j);
            lobby.game_id = Some(game_id);
            self.lobbies.insert(j, lobby);
            proof {
                assert(self.lobbies@ =~= old(self).lobbies@.update(j as int, lobby));
                assert(self@ =~= ls.update(j as int, lobby@));
                assert(lobby@ =~= LobbyView { game_id: Some(game_id), ..ls[j as int] });
                lemma_wf_update(ls, j as int, lobby@);
            }
        }
    }

    /// Page `page` of the lobby list: the listed lobbies of the page, in order, the page, and the
    /// number of pages of listed lobbies.
    pub fn paginate_lobby_list(&self, page: usize) -> (r: LobbyPageList)
        requires
            page * LOBBY_PAGE_SIZE + LOBBY_PAGE_SIZE <= usize::MAX,
        ensures
            r.entries.len() == page_of(self@, page as int).len(),
            forall|k: int| 0 <= k < r.entries.len() ==> {
                &&& (#[trigger] r.entries@[k]).id@ == page_of(self@, page as int)[k].id
                &&& r.entries@[k].users@ == page_of(self@, page as int)[k].users
                &&& r.entries@[k].users_ready@ == page_of(self@, page as int)[k].users_ready
                &&& r.entries@[k].ingame == page_of(self@, page as int)[k].game_id is Some
            },
            r.page == page,
            r.page_count * LOBBY_PAGE_SIZE >= listed(self@).len(),
            r.page_count == 0 || (r.page_count - 1) * LOBBY_PAGE_SIZE < listed(self@).len(),
    {
        let start: usize = page * LOBBY_PAGE_SIZE;
        let end: usize = start + LOBBY_PAGE_SIZE;
        let mut entries: Vec<Lobby> = Vec::new();
        let mut count: usize = 0;
        let mut i: usize = 0;
        while i < self.lobbies.len()
            invariant
                i <= self.lobbies.len(),
                self@.len() == self.lobbies.len(),
                start == page * LOBBY_PAGE_SIZE,
                end == start + LOBBY_PAGE_SIZE,
                count == listed(self@.take(i as int)).len(),
                count <= i,
                lobby_views(entries@) == listed(self@.take(i as int)).subrange(
                    if start <= count { start as int } else { count as int },
                    if end <= count { end as int } else { count as int },
                ),
            decreases self.lobbies.len() - i,
        {
            let ghost before = self@.take(i as int);
            let ghost after = self@.take(i + 1);
            proof {
                assert(after.drop_last() =~= before);
                assert(after.last() == self@[i as int]);
                assert(self@[i as int] == self.lobbies@[i as int]@);
            }
            if !self.lobbies[i].unlisted {
                let ghost old_entries = entries@;
                if start <= count && count < end {
                    let c = self.lobbies[i].copy();
                    entries.push(c);
                    assert(entries@.last()@ == self@[i as int]);
                }
                proof {
                    let lb = listed(before);
                    let la = listed(after);
                    assert(la == lb.push(self@[i as int]));
                    let lo = if start <= count { start as int } else { count as int };
                    let hi = if end <= count { end as int } else { count as int };
                    let lo2 = if start <= count + 1 { start as int } else { count + 1 };
                    let hi2 = if end <= count + 1 { end as int } else { count + 1 };
                    if start <= count && count < end {
                        assert(lo2 == lo && hi2 == hi + 1);
                        assert(lobby_views(old_entries).len() == hi - lo);
                        assert(entries@ == old_entries.push(entries@.last()));
                        assert(la[hi] == self@[i as int]);
                        assert forall|k: int| 0 <= k < entries@.len() implies lobby_views(entries@)[k] == la.subrange(lo2, hi2)[k] by {
                            if k < old_entries.len() {
                                assert(entries@[k] == old_entries[k]);
                                assert(lobby_views(old_entries)[k] == lb.subrange(lo, hi)[k]);
                            }
                        }
                    } else if count < start {
                        assert(lo2 == hi2);
                    } else {
                        assert(lo2 == lo && hi2 == hi);
                        assert forall|k: int| 0 <= k < entries@.len() implies lobby_views(entries@)[k] == la.subrange(lo2, hi2)[k] by {
                            assert(lobby_views(old_entries)[k] == lb.subrange(lo, hi)[k]);
                        }
                    }
                    assert(lobby_views(entries@) =~= la.subrange(lo2, hi2));
                }
                count = count + 1;
            } else {
                proof {
                    assert(listed(after) == listed(before));
                }
            }
            i = i + 1;
        }
        proof {
            assert(self@.take(i as int) =~= self@);
        }
        let r = lobby_page_list(&entries, page, count as u64);
        proof {
            assert forall|k: int| 0 <= k < r.entries.len() implies page_of(self@, page as int)[k] == entries@[k]@ by {
                assert(lobby_views(entries@)[k] == entries@[k]@);
            }
        }
        r
    }
}

/// A player is in one lobby at most: in a well-formed store, the lobby that holds a player is the one
/// found for it.
pub proof fn law_one_lobby_per_player(ls: Seq<LobbyView>, i: int, u: i32)
    requires
        store_wf(ls),
        0 <= i < ls.len(),
        ls[i].users.contains(u),
    ensures
        user_lobby(ls, u) == i,
{
    lemma_user_lobby(ls, u);
    let j = user_lobby(ls, u);
    if j != i {
        assert(j < i);
        assert(ls[j].users.contains(u));
    }
}

/// A player in no lobby who joins one and leaves it again gives back the store as it was: in between
/// its lobby is the one it joined, and leaving is not refused.
pub proof fn law_join_then_leave(ls: Seq<LobbyView>, j: int, u: i32)
    requires
        store_wf(ls),
        0 <= j < ls.len(),
        user_lobby(ls, u) >= ls.len(),
        ls[j].users.len() + 1 <= MAX_PLAYERS,
    ensures
        user_lobby(joined(ls, j, u), u) == j,
        !everyone_ready(joined(ls, j, u)[j]),
        left(joined(ls, j, u), j, u) == ls,
{
    lemma_user_lobby(ls, u);
    let js = joined(ls, j, u);
    lemma_user_lobby(js, u);
    let k = user_lobby(js, u);
    if k < j {
        assert(js[k] == ls[k]);
    }
    assert(!ls[j].users.contains(u));
    assert(!js[j].users_ready.contains(u));
    let l = lobby_left(js[j], u);
    assert(l.users =~= ls[j].users);
    assert(l.users_ready =~= ls[j].users_ready);
    assert(l =~= ls[j]);
    assert(left(js, j, u) =~= ls);
}

/// A player in no lobby who creates one and leaves it gives back the store as it was: the lobby goes
/// away, and leaving is not refused.
pub proof fn law_create_then_leave(ls: Seq<LobbyView>, id: Seq<char>, u: i32, unlisted: bool)
    requires
        store_wf(ls),
        user_lobby(ls, u) >= ls.len(),
    ensures
        user_lobby(created(ls, id, u, unlisted), u) == ls.len(),
        !everyone_ready(created(ls, id, u, unlisted)[ls.len() as int]),
        left(created(ls, id, u, unlisted), ls.len() as int, u) == ls,
{
    lemma_user_lobby(ls, u);
    let cs = created(ls, id, u, unlisted);
    lemma_user_lobby(cs, u);
    let k = user_lobby(cs, u);
    if k < ls.len() {
        assert(cs[k] == ls[k]);
    }
    assert(set![u] =~= Set::<i32>::empty().insert(u));
    assert(lobby_left(cs[ls.len() as int], u).users =~= Set::<i32>::empty());
    assert(left(cs, ls.len() as int, u) =~= ls);
}

/// A player that leaves its lobby is then in none.
pub proof fn law_leave_frees_the_player(ls: Seq<LobbyView>, u: i32)
    requires
        store_wf(ls),
        user_lobby(ls, u) < ls.len(),
    ensures
        user_lobby(left(ls, user_lobby(ls, u), u), u) >= left(ls, user_lobby(ls, u), u).len(),
{
    let j = user_lobby(ls, u);
    let rs = left(ls, j, u);
    lemma_user_lobby(ls, u);
    lemma_user_lobby(rs, u);
    let k = user_lobby(rs, u);
    if k < rs.len() {
        if lobby_left(ls[j], u).users.len() == 0 {
            let k0 = if k < j { k } else { k + 1 };
            assert(rs[k] == ls[k0]);
            assert(k0 != j);
        } else if k != j {
            assert(rs[k] == ls[k]);
        }
    }
}

/// Getting ready and then not ready gives back the lobby.
pub proof fn law_ready_then_not_ready(l: LobbyView, u: i32)
    requires
        !l.users_ready.contains(u),
    ensures
        lobby_readied(lobby_readied(l, u, true), u, false) == l,
{
    assert(lobby_readied(lobby_readied(l, u, true), u, false) =~= l);
}

} // verus!
