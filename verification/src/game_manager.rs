//! The room manager: players' sessions gather in rooms and get told of each other's moves.
use vstd::prelude::*;

verus! {

/// Messages sent by a client.
#[derive(Debug)]
pub enum ClientMessage {
    CreateRoom { name: String },
    JoinRoom { room_id: String },
    StartGame,
    PlayCard { card_id: usize },
    DrawCard,
}

/// Messages sent to a client.
#[derive(Debug)]
pub enum ServerMessage {
    RoomCreated { room_id: String },
    JoinedRoom { room_id: String, players: Vec<String> },
    GameStarted { your_hand: Vec<usize>, turn: usize },
    CardPlayed { player: String, card_id: usize },
    CardDrawn { player: String, card_id: usize },
    Error { msg: String },
}

/// A message for one session.
#[derive(Debug)]
pub struct Delivery {
    pub session: String,
    pub message: ServerMessage,
}

/// The room manager: the connected sessions and the rooms, each with the sessions in it.
#[derive(Debug)]
pub struct GameServer {
    pub sessions: Vec<String>,
    pub rooms: Vec<(String, Vec<String>)>,
}

/// A random number with `rand::random`; chance decides it, nothing is stated of it.
#[verifier::external_body]
fn random_u64() -> u64 {
    rand::random::<u64>()
}

/// A card number between 1 and 100, chosen by chance.
fn random_card() -> (r: usize)
    ensures
        1 <= r <= 100,
{
    (random_u64() % 100 + 1) as usize
}

/// The views of the strings.
pub open spec fn views(v: Seq<String>) -> Seq<Seq<char>> {
    v.map_values(|s: String| s@)
}

/// Position of the first string with view `s` (the length when none has it).
pub open spec fn position_of(v: Seq<Seq<char>>, s: Seq<char>) -> int
    decreases v.len(),
{
    if v.len() == 0 {
        0
    } else if v[0] == s {
        0
    } else {
        1 + position_of(v.drop_first(), s)
    }
}

pub proof fn lemma_position_of(v: Seq<Seq<char>>, s: Seq<char>, j: int)
    requires
        0 <= j <= v.len(),
        forall|k: int| 0 <= k < j ==> v[k] != s,
        j == v.len() || v[j] == s,
    ensures
        position_of(v, s) == j,
    decreases j,
{
    if j > 0 {
        assert forall|k: int| 0 <= k < j - 1 implies v.drop_first()[k] != s by {
            assert(v.drop_first()[k] == v[k + 1]);
        }
        lemma_position_of(v.drop_first(), s, j - 1);
    }
}

/// Position of the first string equal to `s` (the length when none is).
pub fn find_string(v: &Vec<String>, s: &String) -> (r: usize)
    ensures
        r == position_of(views(v@), s@),
        r <= v.len(),
{
    let mut i: usize = 0;
    while i < v.len()
        invariant
            i <= v.len(),
            forall|k: int| 0 <= k < i ==> views(v@)[k] != s@,
        decreases v.len() - i,
    {
        if v[i] == *s {
            proof {
                lemma_position_of(views(v@), s@, i as int);
            }
            return i;
        }
        i = i + 1;
    }
    proof {
        lemma_position_of(views(v@), s@, i as int);
    }
    i
}

/// The rooms' ids.
pub open spec fn room_ids(rooms: Seq<(String, Vec<String>)>) -> Seq<Seq<char>> {
    rooms.map_values(|r: (String, Vec<String>)| r.0@)
}

/// Position of the first room that holds session `sid` (the number of rooms when none does).
pub open spec fn room_with(rooms: Seq<(String, Vec<String>)>, sid: Seq<char>) -> int
    decreases rooms.len(),
{
    if rooms.len() == 0 {
        0
    } else if views(rooms[0].1@).contains(sid) {
        0
    } else {
        1 + room_with(rooms.drop_first(), sid)
    }
}

/// A copy of the strings.
pub fn copy_strings(v: &Vec<String>) -> (r: Vec<String>)
    ensures
        views(r@) == views(v@),
{
    let mut r: Vec<String> = Vec::new();
    let mut i: usize = 0;
    while i < v.len()
        invariant
            i <= v.len(),
            views(r@) == views(v@.take(i as int)),
        decreases v.len() - i,
    {
        let c = v[i].clone();
        proof {
            assert(views(r@.push(c)) =~= views(r@).push(c@));
            assert(views(v@.take(i + 1)) =~= views(v@.take(i as int)).push(v@[i as int]@));
        }
        r.push(c);
        i = i + 1;
    }
    assert(v@.take(i as int) =~= v@);
    r
}

/// The deliveries are, in order, `message(p)` for each member `p` of `members` that is connected.
pub open spec fn delivered_to_connected(out: Seq<Delivery>, members: Seq<Seq<char>>, sessions: Seq<Seq<char>>) -> bool {
    views(out.map_values(|d: Delivery| d.session)) == members.filter(|p: Seq<char>| sessions.contains(p))
}

impl GameServer {
    /// No session, no room.
    pub fn new() -> (r: Self)
        ensures
            r.sessions@.len() == 0,
            r.rooms@.len() == 0,
    {
        GameServer { sessions: Vec::new(), rooms: Vec::new() }
    }

    /// A session connects.
    pub fn connect(&mut self, session_id: String)
        ensures
            views(final(self).sessions@) == (if views(old(self).sessions@).contains(session_id@) {
                views(old(self).sessions@)
            } else {
                views(old(self).sessions@).push(session_id@)
            }),
            final(self).rooms == old(self).rooms,
    {
        let i = find_string(&self.sessions, &session_id);
        proof {
            lemma_position_of_contains(views(self.sessions@), session_id@);
        }
        if i == self.sessions.len() {
            proof {
                assert(views(self.sessions@.push(session_id)) =~= views(self.sessions@).push(session_id@));
            }
            self.sessions.push(session_id);
        }
    }

    /// Sends a message of kind `kind` to each connected member of `members`, in order.
    fn send_to_members(&self, members: &Vec<String>, kind: MessageKind, room_id: &String, player: &String, card_id: usize, out: &mut Vec<Delivery>)
        ensures
            final(out)@.len() >= old(out)@.len(),
            final(out)@.take(old(out)@.len() as int) == old(out)@,
            delivered_to_connected(final(out)@.skip(old(out)@.len() as int), views(members@), views(self.sessions@)),
            forall|k: int| old(out)@.len() <= k < final(out)@.len() ==> message_of_kind(
                (#[trigger] final(out)@[k]).message,
                kind,
                room_id@,
                views(members@),
                player@,
                card_id,
            ),
    {
        let ghost n0 = out.len();
        let ghost ms = views(members@);
        let ghost ss = views(self.sessions@);
        let ghost pred = |q: Seq<char>| ss.contains(q);
        let mut i: usize = 0;
        while i < members.len()
            invariant
                i <= members.len(),
                n0 == old(out)@.len(),
                out@.len() >= n0,
                out@.take(n0 as int) == old(out)@,
                ms == views(members@),
                ss == views(self.sessions@),
                pred == (|q: Seq<char>| ss.contains(q)),
                views(out@.skip(n0 as int).map_values(|d: Delivery| d.session)) == ms.take(i as int).filter(pred),
                forall|k: int| n0 <= k < out@.len() ==> message_of_kind((#[trigger] out@[k]).message, kind, room_id@, ms, player@, card_id),
            decreases members.len() - i,
        {
            let p = &members[i];
            let j = find_string(&self.sessions, p);
            proof {
                lemma_position_of_contains(ss, p@);
                assert(ms.take(i + 1).drop_last() =~= ms.take(i as int));
                assert(ms.take(i + 1).last() == p@);
                assert(ms.take(i + 1).len() == i + 1);
                reveal(Seq::filter);
                assert(ms.take(i + 1).filter(pred) == if pred(p@) {
                    ms.take(i as int).filter(pred).push(p@)
                } else {
                    ms.take(i as int).filter(pred)
                });
            }
            if j < self.sessions.len() {
                let message = match kind {
                    MessageKind::Joined => ServerMessage::JoinedRoom { room_id: room_id.clone(), players: copy_strings(members) },
                    MessageKind::Played => ServerMessage::CardPlayed { player: player.clone(), card_id },
                    MessageKind::Drawn => ServerMessage::CardDrawn { player: player.clone(), card_id },
                    MessageKind::Started => {
                        let mut hand: Vec<usize> = Vec::new();
                        let mut h: usize = 0;
                        while h < 5
                            invariant
                                h <= 5,
                                hand.len() == h,
                                forall|x: int| 0 <= x < h ==> 1 <= #[trigger] hand@[x] <= 100,
                            decreases 5 - h,
                        {
                            hand.push(random_card());
                            h = h + 1;
                        }
                        ServerMessage::GameStarted { your_hand: hand, turn: 0 }
                    },
                };
                let d = Delivery { session: p.clone(), message };
                let ghost before = out@;
                out.push(d);
                proof {
                    assert(out@.take(n0 as int) =~= before.take(n0 as int));
                    assert(out@.skip(n0 as int) =~= before.skip(n0 as int).push(d));
                    assert(views(out@.skip(n0 as int).map_values(|d: Delivery| d.session)) =~= views(
                        before.skip(n0 as int).map_values(|d: Delivery| d.session),
                    ).push(p@));
                }
            }
            i = i + 1;
        }
        proof {
            assert(ms.take(i as int) =~= ms);
        }
    }
}

/// Every message tells that `player` drew card `card`.
pub open spec fn all_drawn(out: Seq<Delivery>, player: Seq<char>, card: usize) -> bool {
    forall|k: int| 0 <= k < out.len() ==> message_of_kind((#[trigger] out[k]).message, MessageKind::Drawn, Seq::empty(),
        Seq::empty(), player, card)
}

/// The kinds of message sent to the members of a room.
#[derive(Clone, Copy)]
pub enum MessageKind {
    Joined,
    Played,
    Drawn,
    Started,
}

/// The message is of kind `kind`, with the given values (a new game gives a hand of five cards
/// between 1 and 100 and the first turn).
pub open spec fn message_of_kind(m: ServerMessage, kind: MessageKind, room: Seq<char>, members: Seq<Seq<char>>, player: Seq<char>, card: usize) -> bool {
    match kind {
        MessageKind::Joined => m matches ServerMessage::JoinedRoom { room_id, players } && room_id@ == room && views(players@) == members,
        MessageKind::Played => m matches ServerMessage::CardPlayed { player: p, card_id } && p@ == player && card_id == card,
        MessageKind::Drawn => m matches ServerMessage::CardDrawn { player: p, card_id } && p@ == player && card_id == card,
        MessageKind::Started => m matches ServerMessage::GameStarted { your_hand, turn } && turn == 0 && your_hand.len() == 5
            && forall|h: int| 0 <= h < 5 ==> 1 <= #[trigger] your_hand@[h] <= 100,
    }
}

pub proof fn lemma_position_of_contains(v: Seq<Seq<char>>, s: Seq<char>)
    ensures
        0 <= position_of(v, s) <= v.len(),
        position_of(v, s) < v.len() <==> v.contains(s),
        position_of(v, s) < v.len() ==> v[position_of(v, s)] == s,
    decreases v.len(),
{
    if v.len() > 0 && v[0] != s {
        lemma_position_of_contains(v.drop_first(), s);
        if v.contains(s) {
            let k = choose|k: int| 0 <= k < v.len() && v[k] == s;
            assert(v.drop_first()[k - 1] == s);
        }
        if v.drop_first().contains(s) {
            let k = choose|k: int| 0 <= k < v.drop_first().len() && v.drop_first()[k] == s;
            assert(v[k + 1] == s);
        }
    } else if v.len() > 0 {
        assert(v[0] == s);
    }
}


/// A lowercase hexadecimal digit.
pub open spec fn is_lower_hex(c: char) -> bool {
    ('0' <= c && c <= '9') || ('a' <= c && c <= 'f')
}

/// The hyphenated lowercase text of a random (version 4) UUID: 36 characters, hyphens at 8, 13, 18
/// and 23, hexadecimal digits elsewhere, the version digit `4` at 14 and a variant digit `8`, `9`,
/// `a` or `b` at 19.
pub open spec fn is_uuid_v4_text(s: Seq<char>) -> bool {
    &&& s.len() == 36
    &&& forall|k: int| 0 <= k < 36 ==> if k == 8 || k == 13 || k == 18 || k == 23 {
        #[trigger] s[k] == '-'
    } else {
        is_lower_hex(s[k])
    }
    &&& s[14] == '4'
    &&& (s[19] == '8' || s[19] == '9' || s[19] == 'a' || s[19] == 'b')
}

/// A new random (version 4) UUID from `uuid::Uuid::new_v4`, in the text that its `Display` writes
/// (the hyphenated lowercase form): room ids and password reset tokens. Chance decides the random
/// digits; the form, the version digit and the variant digit are stated.
#[verifier::external_body]
pub(crate) fn new_room_id() -> (r: String)
    ensures
        is_uuid_v4_text(r@),
{
    uuid::Uuid::new_v4().to_string()
}

/// The strings other than `s`, in order.
pub fn without(v: &Vec<String>, s: &String) -> (r: Vec<String>)
    ensures
        views(r@) == views(v@).filter(|x: Seq<char>| x != s@),
{
    let ghost pred = |x: Seq<char>| x != s@;
    let ghost vs = views(v@);
    let mut r: Vec<String> = Vec::new();
    let mut i: usize = 0;
    while i < v.len()
        invariant
            i <= v.len(),
            vs == views(v@),
            pred == (|x: Seq<char>| x != s@),
            views(r@) == vs.take(i as int).filter(pred),
        decreases v.len() - i,
    {
        proof {
            assert(vs.take(i + 1).drop_last() =~= vs.take(i as int));
            assert(vs.take(i + 1).len() == i + 1);
            reveal(Seq::filter);
            assert(vs.take(i + 1).filter(pred) == if pred(vs[i as int]) {
                vs.take(i as int).filter(pred).push(vs[i as int])
            } else {
                vs.take(i as int).filter(pred)
            });
        }
        if v[i] != *s {
            let c = v[i].clone();
            proof {
                assert(views(r@.push(c)) =~= views(r@).push(c@));
            }
            r.push(c);
        }
        i = i + 1;
    }
    assert(vs.take(i as int) =~= vs);
    r
}

/// Position of the room with id `id` (the number of rooms when there is none).
pub fn find_room(rooms: &Vec<(String, Vec<String>)>, id: &String) -> (r: usize)
    ensures
        r == position_of(room_ids(rooms@), id@),
        r <= rooms.len(),
{
    let ghost ids = room_ids(rooms@);
    let mut i: usize = 0;
    while i < rooms.len()
        invariant
            i <= rooms.len(),
            ids == room_ids(rooms@),
            forall|k: int| 0 <= k < i ==> ids[k] != id@,
        decreases rooms.len() - i,
    {
        if rooms[i].0 == *id {
            proof {
                lemma_position_of(ids, id@, i as int);
            }
            return i;
        }
        i = i + 1;
    }
    proof {
        lemma_position_of(ids, id@, i as int);
    }
    i
}

pub proof fn lemma_room_with(rooms: Seq<(String, Vec<String>)>, sid: Seq<char>, j: int)
    requires
        0 <= j <= rooms.len(),
        forall|k: int| 0 <= k < j ==> !views((#[trigger] rooms[k]).1@).contains(sid),
        j == rooms.len() || views(rooms[j].1@).contains(sid),
    ensures
        room_with(rooms, sid) == j,
    decreases j,
{
    if j > 0 {
        assert forall|k: int| 0 <= k < j - 1 implies !views((#[trigger] rooms.drop_first()[k]).1@).contains(sid) by {
            assert(rooms.drop_first()[k] == rooms[k + 1]);
        }
        lemma_room_with(rooms.drop_first(), sid, j - 1);
    }
}

/// Position of the first room holding session `sid` (the number of rooms when none does).
pub fn find_member_room(rooms: &Vec<(String, Vec<String>)>, sid: &String) -> (r: usize)
    ensures
        r == room_with(rooms@, sid@),
        r <= rooms.len(),
{
    let mut i: usize = 0;
    while i < rooms.len()
        invariant
            i <= rooms.len(),
            forall|k: int| 0 <= k < i ==> !views((#[trigger] rooms@[k]).1@).contains(sid@),
        decreases rooms.len() - i,
    {
        let j = find_string(&rooms[i].1, sid);
        proof {
            lemma_position_of_contains(views(rooms@[i as int].1@), sid@);
        }
        if j < rooms[i].1.len() {
            proof {
                lemma_room_with(rooms@, sid@, i as int);
            }
            return i;
        }
        i = i + 1;
    }
    proof {
        lemma_room_with(rooms@, sid@, i as int);
    }
    i
}

impl GameServer {
    /// A session disconnects: it leaves the sessions and every room.
    pub fn disconnect(&mut self, session_id: &String)
        ensures
            views(final(self).sessions@) == views(old(self).sessions@).filter(|s: Seq<char>| s != session_id@),
            final(self).rooms.len() == old(self).rooms.len(),
            forall|k: int| 0 <= k < final(self).rooms.len() ==> {
                &&& (#[trigger] final(self).rooms@[k]).0@ == old(self).rooms@[k].0@
                &&& views(final(self).rooms@[k].1@) == views(old(self).rooms@[k].1@).filter(|s: Seq<char>| s != session_id@)
            },
    {
        self.sessions = without(&self.sessions, session_id);
        let mut rooms: Vec<(String, Vec<String>)> = Vec::new();
        let ghost r0 = self.rooms@;
        while self.rooms.len() > 0
            invariant
                rooms.len() + self.rooms.len() == r0.len(),
                self.rooms@ == r0.skip(rooms.len() as int),
                forall|k: int| 0 <= k < rooms.len() ==> {
                    &&& (#[trigger] rooms@[k]).0@ == r0[k].0@
                    &&& views(rooms@[k].1@) == views(r0[k].1@).filter(|s: Seq<char>| s != session_id@)
                },
                views(self.sessions@) == views(old(self).sessions@).filter(|s: Seq<char>| s != session_id@),
            decreases self.rooms.len(),
        {
            let (id, members) = self.rooms.remove(0);
            proof {
                assert(r0.skip(rooms.len() as int)[0] == r0[rooms.len() as int]);
                assert(r0.skip(rooms.len() as int).subrange(1, r0.skip(rooms.len() as int).len() as int) =~= r0.skip(rooms.len() + 1));
            }
            let kept = without(&members, session_id);
            rooms.push((id, kept));
        }
        self.rooms = rooms;
    }

    /// Handles a message of session `sid`: creating or joining a room, starting the game of its room,
    /// or telling its room of a card played or drawn. Gives the messages to deliver.
    pub fn handle(&mut self, sid: String, msg: ClientMessage) -> (r: Vec<Delivery>)
        ensures
            final(self).sessions == old(self).sessions,
            match msg {
                ClientMessage::CreateRoom { .. } => {
                    &&& final(self).rooms.len() == old(self).rooms.len() + 1
                    &&& final(self).rooms@.drop_last() == old(self).rooms@
                    &&& is_uuid_v4_text(final(self).rooms@.last().0@)
                    &&& views(final(self).rooms@.last().1@) == seq![sid@]
                    &&& r.len() == (if views(old(self).sessions@).contains(sid@) { 1int } else { 0 })
                    &&& forall|k: int| 0 <= k < r.len() ==> (#[trigger] r@[k]).session@ == sid@
                        && (r@[k].message matches ServerMessage::RoomCreated { room_id } && room_id@ == final(self).rooms@.last().0@)
                },
                ClientMessage::JoinRoom { room_id } => {
                    let i = position_of(room_ids(old(self).rooms@), room_id@);
                    if i < old(self).rooms.len() {
                        &&& final(self).rooms.len() == old(self).rooms.len()
                        &&& final(self).rooms@[i].0 == old(self).rooms@[i].0
                        &&& forall|k: int| 0 <= k < final(self).rooms.len() && k != i ==> #[trigger] final(self).rooms@[k] == old(self).rooms@[k]
                        &&& views(final(self).rooms@[i].1@) == views(old(self).rooms@[i].1@).push(sid@)
                        &&& delivered_to_connected(r@, views(final(self).rooms@[i].1@), views(old(self).sessions@))
                        &&& forall|k: int| 0 <= k < r.len() ==> message_of_kind((#[trigger] r@[k]).message, MessageKind::Joined,
                            room_id@, views(final(self).rooms@[i].1@), sid@, 0)
                    } else {
                        &&& final(self).rooms == old(self).rooms
                        &&& r.len() == (if views(old(self).sessions@).contains(sid@) { 1int } else { 0 })
                        &&& forall|k: int| 0 <= k < r.len() ==> (#[trigger] r@[k]).session@ == sid@
                            && (r@[k].message matches ServerMessage::Error { msg } && msg@ == "Room not found"@)
                    }
                },
                ClientMessage::StartGame => {
                    let i = room_with(old(self).rooms@, sid@);
                    &&& final(self).rooms == old(self).rooms
                    &&& i < old(self).rooms.len() ==> delivered_to_connected(r@, views(old(self).rooms@[i].1@), views(old(self).sessions@))
                    &&& i >= old(self).rooms.len() ==> r.len() == 0
                    &&& forall|k: int| 0 <= k < r.len() ==> message_of_kind((#[trigger] r@[k]).message, MessageKind::Started,
                        Seq::empty(), Seq::empty(), sid@, 0)
                },
                ClientMessage::PlayCard { card_id } => {
                    let i = room_with(old(self).rooms@, sid@);
                    &&& final(self).rooms == old(self).rooms
                    &&& i < old(self).rooms.len() ==> delivered_to_connected(r@, views(old(self).rooms@[i].1@), views(old(self).sessions@))
                    &&& i >= old(self).rooms.len() ==> r.len() == 0
                    &&& forall|k: int| 0 <= k < r.len() ==> message_of_kind((#[trigger] r@[k]).message, MessageKind::Played,
                        Seq::empty(), Seq::empty(), sid@, card_id)
                },
                ClientMessage::DrawCard => {
                    let i = room_with(old(self).rooms@, sid@);
                    &&& final(self).rooms == old(self).rooms
                    &&& i < old(self).rooms.len() ==> delivered_to_connected(r@, views(old(self).rooms@[i].1@), views(old(self).sessions@))
                    &&& i >= old(self).rooms.len() ==> r.len() == 0
                    &&& exists|c: usize| 1 <= c <= 100 && #[trigger] all_drawn(r@, sid@, c)
                },
            },
    {
        let mut out: Vec<Delivery> = Vec::new();
        let connected = find_string(&self.sessions, &sid) < self.sessions.len();
        proof {
            lemma_position_of_contains(views(self.sessions@), sid@);
        }
        let no_room = String::new();
        match msg {
            ClientMessage::CreateRoom { .. } => {
                let room_id = new_room_id();
                let mut members: Vec<String> = Vec::new();
                members.push(sid.clone());
                assert(views(members@) =~= seq![sid@]);
                if connected {
                    out.push(Delivery { session: sid, message: ServerMessage::RoomCreated { room_id: room_id.clone() } });
                }
                self.rooms.push((room_id, members));
                assert(self.rooms@.drop_last() =~= old(self).rooms@);
                out
            },
            ClientMessage::JoinRoom { room_id } => {
                let i = find_room(&self.rooms, &room_id);
                if i < self.rooms.len() {
                    let (rid, mut members) = self.rooms.remove(i);
                    let ghost old_members = members@;
                    let c = sid.clone();
                    members.push(c);
                    assert(views(members@) =~= views(old_members).push(sid@));
                    self.send_to_members(&members, MessageKind::Joined, &room_id, &sid, 0, &mut out);
                    let ghost removed = self.rooms@;
                    self.rooms.insert(i, (rid, members));
                    proof {
                        assert forall|k: int| 0 <= k < self.rooms.len() && k != i implies #[trigger] self.rooms@[k] == old(self).rooms@[k] by {
                            if k < i {
                                assert(self.rooms@[k] == removed[k]);
                            } else {
                                assert(self.rooms@[k] == removed[k - 1]);
                            }
                        }
                    }
                    assert(out@.skip(0) =~= out@);
                    out
                } else {
                    if connected {
                        out.push(Delivery { session: sid, message: ServerMessage::Error { msg: String::from_str("Room not found") } });
                    }
                    out
                }
            },
            ClientMessage::StartGame => {
                let i = find_member_room(&self.rooms, &sid);
                if i < self.rooms.len() {
                    self.send_to_members(&self.rooms[i].1, MessageKind::Started, &no_room, &sid, 0, &mut out);
                    assert(out@.skip(0) =~= out@);
                }
                out
            },
            ClientMessage::PlayCard { card_id } => {
                let i = find_member_room(&self.rooms, &sid);
                if i < self.rooms.len() {
                    self.send_to_members(&self.rooms[i].1, MessageKind::Played, &no_room, &sid, card_id, &mut out);
                    assert(out@.skip(0) =~= out@);
                }
                out
            },
            ClientMessage::DrawCard => {
                let card_id = random_card();
                let i = find_member_room(&self.rooms, &sid);
                if i < self.rooms.len() {
                    self.send_to_members(&self.rooms[i].1, MessageKind::Drawn, &no_room, &sid, card_id, &mut out);
                    assert(out@.skip(0) =~= out@);
                }
                assert(all_drawn(out@, sid@, card_id));
                out
            },
        }
    }
}

} // verus!
