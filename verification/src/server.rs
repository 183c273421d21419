//! The game server's decisions: what each command or tick does to the game and which messages go to
//! which connection. Sending the messages, reading the clock and receiving commands are left to the
//! caller.
use vstd::prelude::*;
use std::rc::Rc;
use crate::card::{Card, CardId};
use crate::game::{Game, GameState, players_view, DRAW_CARD_LIMIT};
use crate::game_ops::{
    index_of_id, opponents_of, next_index, pile_with_discards, find_player, rc_share, play_card_refusal, play_card_defined,
    play_card_play, play_card_rolls, play_card_result,
};
use crate::card_play::dice_rolls;
use crate::play_info::PlayInfo;
use crate::player::{PlayerId, PlayerView};
use crate::responses::{PlayerProfile, ServerResponse};
use crate::rules::{with_cards, card_ids};
use crate::game::TURN_DURATION_MS;

verus! {

broadcast use vstd::seq_lib::group_to_multiset_ensures;

/// Connection id.
pub type ConnId = u64;

/// A message for one connection.
#[derive(Debug)]
pub struct Outgoing {
    pub conn: ConnId,
    pub response: ServerResponse,
}

/// The game server: the players' connections (in the order they connected) and the game.
#[derive(Debug)]
pub struct GameServer {
    pub sessions: Vec<(ConnId, PlayerId)>,
    /// accounts of the players
    pub accounts: Vec<PlayerProfile>,
    pub game: Game,
}

/// The players' ids are all different.
pub open spec fn distinct_ids(players: Seq<PlayerView>) -> bool {
    forall|i: int, j: int| 0 <= i < j < players.len() ==> players[i].id != players[j].id
}

impl GameServer {
    /// The server is consistent: the current player is a player of the game, the players' ids are all
    /// different, and every connection belongs to a player of the game.
    pub open spec fn wf(&self) -> bool {
        &&& self.game.current_player_turn < self.game.players.len()
        &&& distinct_ids(players_view(self.game.players@))
        &&& forall|k: int| 0 <= k < self.sessions.len() ==> index_of_id(players_view(self.game.players@), (#[trigger] self.sessions@[k]).1) < self.game.players.len()
    }
}

/// The message is a turn change to `conn`.
pub open spec fn is_change_turn(o: Outgoing, conn: ConnId, id: PlayerId, end: i64) -> bool {
    &&& o.conn == conn
    &&& o.response matches ServerResponse::ChangeTurn { player_id, turn_end } && player_id == id && turn_end == end
}

/// The message tells `conn` that player `id` drew card `card` (-1 when `conn` is not that player's).
pub open spec fn is_draw(o: Outgoing, conn: ConnId, id: PlayerId, card: CardId) -> bool {
    &&& o.conn == conn
    &&& o.response matches ServerResponse::DrawCard { player_id, card_id } && player_id == id && card_id == card
}

/// The message tells `conn` that the game is over.
pub open spec fn is_game_end(o: Outgoing, conn: ConnId, winner: PlayerId) -> bool {
    &&& o.conn == conn
    &&& o.response matches ServerResponse::GameEnd { winner_id } && winner_id == winner
}

/// The messages tell each connection, in order, that player `id` drew card `card`
/// (-1 for the connections of other players).
pub open spec fn draw_messages(out: Seq<Outgoing>, sessions: Seq<(ConnId, PlayerId)>, id: PlayerId, card: CardId) -> bool {
    &&& out.len() == sessions.len()
    &&& forall|k: int| 0 <= k < sessions.len() ==> is_draw(
        #[trigger] out[k],
        sessions[k].0,
        id,
        if sessions[k].1 == id { card } else { -1i32 },
    )
}

/// The discarded cards go back to the pile before the player at `next` draws: its hand is below
/// the draw limit and the pile alone cannot fill it.
pub open spec fn needs_collect(pv: Seq<PlayerView>, pile_len: nat, next: int) -> bool {
    pv[next].hand.len() < DRAW_CARD_LIMIT && pile_len + pv[next].hand.len() < DRAW_CARD_LIMIT
}

/// Number of cards the player at `next` draws to reach the draw limit.
pub open spec fn draw_count(pv: Seq<PlayerView>, next: int) -> nat {
    if pv[next].hand.len() < DRAW_CARD_LIMIT { (DRAW_CARD_LIMIT - pv[next].hand.len()) as nat } else { 0 }
}

/// The players with no discarded cards left.
pub open spec fn without_discards(pv: Seq<PlayerView>) -> Seq<PlayerView> {
    pv.map_values(|p: PlayerView| PlayerView { discard: Seq::empty(), ..p })
}

/// The message tells `conn` that the discarded cards went back to the pile, which now holds `count`
/// cards.
pub open spec fn is_collect(o: Outgoing, conn: ConnId, count: nat) -> bool {
    &&& o.conn == conn
    &&& o.response matches ServerResponse::CollectDiscardCards { cards_in_pile } && cards_in_pile == count as u32
}

/// The messages tell each connection, round after round, that player `id` drew each card of `cards`
/// in turn.
pub open spec fn draw_rounds(out: Seq<Outgoing>, sessions: Seq<(ConnId, PlayerId)>, id: PlayerId, cards: Seq<Rc<Card>>) -> bool
    decreases cards.len(),
{
    if cards.len() == 0 {
        out.len() == 0
    } else {
        &&& out.len() >= sessions.len()
        &&& draw_rounds(out.subrange(0, out.len() - sessions.len()), sessions, id, cards.drop_last())
        &&& draw_messages(out.subrange(out.len() - sessions.len(), out.len() as int), sessions, id, cards.last().get_id())
    }
}

/// The player at `next` refills its hand after the turn change: with `pile1` the pile it draws from
/// (the pile, or the pile with every discarded card put back in an order chance decides, when the
/// pile alone cannot fill the hand), it draws the top cards of `pile1` up to the draw limit, leaving
/// the players `pv2` and the pile `pile2`. The messages `out` tell each connection of the cards put
/// back, if any, then of each card drawn.
pub open spec fn refill(
    pv: Seq<PlayerView>,
    pile: Seq<Rc<Card>>,
    next: int,
    pile1: Seq<Rc<Card>>,
    pv2: Seq<PlayerView>,
    pile2: Seq<Rc<Card>>,
    sessions: Seq<(ConnId, PlayerId)>,
    id: PlayerId,
    out: Seq<Outgoing>,
) -> bool {
    let collect = needs_collect(pv, pile.len(), next);
    let pv1 = if collect { without_discards(pv) } else { pv };
    let k = draw_count(pv, next);
    let base: int = if collect { sessions.len() as int } else { 0 };
    &&& if collect { pile1.to_multiset() == pile_with_discards(pile, pv).to_multiset() } else { pile1 == pile }
    &&& k <= pile1.len()
    &&& pv2 == pv1.update(next, with_cards(pv1[next], pile1.take(k as int)))
    &&& pile2 == pile1.skip(k as int)
    &&& out.len() >= base
    &&& collect ==> forall|j: int| 0 <= j < sessions.len() ==> is_collect(#[trigger] out[j], sessions[j].0, pile1.len())
    &&& draw_rounds(out.skip(base), sessions, id, pile1.take(k as int))
}

/// The sessions other than those of connection `conn`, in order.
pub open spec fn without_conn(sessions: Seq<(ConnId, PlayerId)>, conn: ConnId) -> Seq<(ConnId, PlayerId)> {
    sessions.filter(not_conn(conn))
}

/// The session is not one of connection `conn`.
pub open spec fn not_conn(conn: ConnId) -> spec_fn((ConnId, PlayerId)) -> bool {
    |s: (ConnId, PlayerId)| s.0 != conn
}

/// Removing a connection's sessions twice is removing them once.
pub proof fn lemma_without_conn_twice(sessions: Seq<(ConnId, PlayerId)>, conn: ConnId)
    ensures
        without_conn(without_conn(sessions, conn), conn) == without_conn(sessions, conn),
    decreases sessions.len(),
{
    let pred = not_conn(conn);
    if sessions.len() > 0 {
        let init = sessions.drop_last();
        lemma_without_conn_twice(init, conn);
        assert(init.push(sessions.last()) == sessions);
        init.lemma_filter_push(sessions.last(), pred);
        init.filter(pred).lemma_filter_push(sessions.last(), pred);
    } else {
        reveal(Seq::filter);
        assert(without_conn(sessions, conn) =~= sessions);
    }
}

/// Removing a connection's sessions after adding one of its sessions at the end is removing them.
pub proof fn lemma_without_conn_push(sessions: Seq<(ConnId, PlayerId)>, conn: ConnId, id: PlayerId)
    ensures
        without_conn(sessions.push((conn, id)), conn) == without_conn(sessions, conn),
{
    sessions.lemma_filter_push((conn, id), not_conn(conn));
}

/// The first connection of player `id`, if it has one.
pub open spec fn first_conn_of(sessions: Seq<(ConnId, PlayerId)>, id: PlayerId) -> Option<ConnId>
    decreases sessions.len(),
{
    if sessions.len() == 0 {
        None
    } else if sessions[0].1 == id {
        Some(sessions[0].0)
    } else {
        first_conn_of(sessions.drop_first(), id)
    }
}

/// When player `id` can draw a card, the turn can then pass without overflow or panic: a turn
/// order that steps back stays in the range of `i32`, the next turn's end fits in an `i64`, and the
/// hands can be filled from the pile.
pub open spec fn draw_can_pass(g: Game, id: PlayerId, now_ms: i64) -> bool {
    let pv = players_view(g.players@);
    let i = index_of_id(pv, id);
    (i < pv.len() && pv[i].hand.len() < DRAW_CARD_LIMIT && g.pile@.len() > 0) ==> {
        &&& g.turn_order == crate::game::Order::Backward ==> (g.current_player_turn as i32) > i32::MIN
        &&& now_ms + TURN_DURATION_MS + g.estimated_turn_end_offset <= i64::MAX
        &&& can_fill_hand(
            pv.update(i, with_cards(pv[i], seq![g.pile@[0]])),
            (g.pile@.len() - 1) as nat,
            g.current_player_turn,
            g.turn_order,
        )
    }
}

/// The reply to player `id`, if any, is the game as it sees it, sent to its first connection; there is
/// one exactly when the player has a connection.
pub open spec fn status_reply(r: Option<Outgoing>, sessions: Seq<(ConnId, PlayerId)>, g: Game, id: PlayerId) -> bool {
    match first_conn_of(sessions, id) {
        Some(c) => r matches Some(o) && is_status_for(o, c, g, id),
        None => r is None,
    }
}

/// The one message of a list of at most one, if any.
pub open spec fn single_reply(v: Seq<Outgoing>) -> Option<Outgoing> {
    if v.len() == 1 { Some(v[0]) } else { None }
}

/// The message to `conn` is the game as player `id` sees it.
pub open spec fn is_status_for(o: Outgoing, conn: ConnId, g: Game, id: PlayerId) -> bool {
    let pv = players_view(g.players@);
    let i = index_of_id(pv, id);
    &&& o.conn == conn
    &&& o.response matches ServerResponse::GameStatus {
        current_player_turn,
        current_player_turn_end,
        health,
        cards,
        discard_cards,
        opponents,
        cards_in_pile,
    } && current_player_turn == pv[g.current_player_turn as int].id && current_player_turn_end == g.current_player_turn_end
        && health == pv[i].health as u32 && cards@ == card_ids(pv[i].hand) && discard_cards@ == card_ids(pv[i].discard)
        && opponents.len() == opponents_of(pv, id).len() && cards_in_pile == g.pile@.len() as u32
}

/// The connections other than `conn`, in order.
pub open spec fn chat_conns(sessions: Seq<(ConnId, PlayerId)>, conn: ConnId) -> Seq<ConnId>
    decreases sessions.len(),
{
    if sessions.len() == 0 {
        Seq::empty()
    } else {
        let prev = chat_conns(sessions.drop_last(), conn);
        if sessions.last().0 != conn { prev.push(sessions.last().0) } else { prev }
    }
}

/// First connection of player `id`, if it has one.
pub fn session_of(sessions: &Vec<(ConnId, PlayerId)>, id: PlayerId) -> (r: Option<ConnId>)
    ensures
        r == first_conn_of(sessions@, id),
        match r {
            Some(c) => exists|k: int| 0 <= k < sessions.len() && #[trigger] sessions@[k] == (c, id),
            None => forall|k: int| 0 <= k < sessions.len() ==> (#[trigger] sessions@[k]).1 != id,
        },
{
    let mut i: usize = 0;
    assert(sessions@.skip(0) =~= sessions@);
    while i < sessions.len()
        invariant
            i <= sessions.len(),
            forall|k: int| 0 <= k < i ==> (#[trigger] sessions@[k]).1 != id,
            first_conn_of(sessions@, id) == first_conn_of(sessions@.skip(i as int), id),
        decreases sessions.len() - i,
    {
        assert(sessions@.skip(i as int)[0] == sessions@[i as int]);
        if sessions[i].1 == id {
            assert(sessions@[i as int] == (sessions[i as int].0, id));
            return Some(sessions[i].0);
        }
        assert(sessions@.skip(i as int).drop_first() =~= sessions@.skip(i + 1));
        i = i + 1;
    }
    assert(sessions@.skip(i as int).len() == 0);
    None
}

/// The turn passed from the server `s0` to the server `s1`, with the messages `out`, at `now_ms`:
/// when the game is over, every connection is told the winner and `over` holds. Otherwise the next
/// player's turn starts, ending a turn's duration (and the time to show the last play) after
/// `now_ms`; every connection is told; then the player refills its hand.
pub open spec fn turn_passed(s0: GameServer, now_ms: i64, out: Seq<Outgoing>, over: bool, s1: GameServer) -> bool {
    &&& s1.sessions == s0.sessions
    &&& s1.accounts == s0.accounts
    &&& match s0.game.state {
        GameState::EndGame { winner_id } => {
            &&& over
            &&& s1.game == s0.game
            &&& out.len() == s0.sessions.len()
            &&& forall|k: int| 0 <= k < out.len() ==> is_game_end(#[trigger] out[k], s0.sessions@[k].0, winner_id)
        },
        _ => {
            let g = s0.game;
            let next = next_index(g.turn_order, g.current_player_turn, g.players.len() as nat);
            let id = g.players@[next as int].id;
            &&& !over
            &&& s1.game.current_player_turn == next
            &&& s1.game.current_player_turn_end == now_ms + TURN_DURATION_MS + g.estimated_turn_end_offset
            &&& s1.game.estimated_turn_end_offset == 0
            &&& s1.game.state == g.state
            &&& s1.game.turn_order == g.turn_order
            &&& s1.game.player_profiles == g.player_profiles
            &&& s1.game.players.len() == g.players.len()
            &&& s1.game.players@[next as int]@.hand.len() == if g.players@[next as int]@.hand.len() < DRAW_CARD_LIMIT {
                DRAW_CARD_LIMIT as nat
            } else {
                g.players@[next as int]@.hand.len()
            }
            &&& out.len() >= s0.sessions.len()
            &&& forall|k: int| 0 <= k < s0.sessions.len() ==> is_change_turn(
                #[trigger] out[k],
                s0.sessions@[k].0,
                id,
                s1.game.current_player_turn_end,
            )
            &&& exists|pile1: Seq<Rc<Card>>| #[trigger] refill(
                players_view(g.players@),
                g.pile@,
                next as int,
                pile1,
                players_view(s1.game.players@),
                s1.game.pile@,
                s0.sessions@,
                id,
                out.skip(s0.sessions.len() as int),
            )
        },
    }
}

impl GameServer {
    /// A server for a new game between `players`, with the cards `cards`.
    pub fn new(players: Vec<PlayerProfile>, cards: Vec<Rc<Card>>, now_ms: i64) -> (r: Self)
        ensures
            r.sessions@ == Seq::<(ConnId, PlayerId)>::empty(),
            r.accounts@ == players@,
            r.game.state == GameState::PreGame,
            r.game.pile@ == cards@,
            players_view(r.game.players@) == crate::game_ops::new_players(players@),
    {
        let game = Game::new(&players, cards, now_ms);
        GameServer { sessions: Vec::new(), accounts: players, game }
    }

    /// Tells each connection that player `id` drew card `card_id` (-1 for the other players').
    fn draw_notifications(&self, id: PlayerId, card_id: CardId, out: &mut Vec<Outgoing>)
        ensures
            final(out)@.len() == old(out)@.len() + self.sessions.len(),
            final(out)@.take(old(out)@.len() as int) == old(out)@,
            draw_messages(final(out)@.skip(old(out)@.len() as int), self.sessions@, id, card_id),
    {
        let ghost n0 = out.len();
        let mut i: usize = 0;
        while i < self.sessions.len()
            invariant
                i <= self.sessions.len(),
                out.len() == n0 + i,
                out@.take(n0 as int) == old(out)@,
                n0 == old(out)@.len(),
                forall|k: int| 0 <= k < i ==> is_draw(
                    #[trigger] out@[n0 + k],
                    self.sessions@[k].0,
                    id,
                    if self.sessions@[k].1 == id { card_id } else { -1i32 },
                ),
            decreases self.sessions.len() - i,
        {
            let (conn, pid) = self.sessions[i];
            let card = if pid == id { card_id } else { -1 };
            out.push(Outgoing { conn, response: ServerResponse::DrawCard { player_id: id, card_id: card } });
            i = i + 1;
        }
        proof {
            let tail = out@.skip(n0 as int);
            assert forall|k: int| 0 <= k < self.sessions.len() implies is_draw(
                #[trigger] tail[k],
                self.sessions@[k].0,
                id,
                if self.sessions@[k].1 == id { card_id } else { -1i32 },
            ) by {
                assert(tail[k] == out@[n0 + k]);
            }
        }
    }

    /// Passes the turn: when the game is over, tells every connection the winner (the caller then
    /// resets the lobby's ready states) and gives `true`. Otherwise the next player's turn starts,
    /// every connection is told, the discarded cards go back to the shuffled pile when the pile cannot
    /// fill the player's hand, and the player draws up to the draw limit.
    pub fn advance_turn(&mut self, now_ms: i64) -> (r: (Vec<Outgoing>, bool))
        requires
            old(self).wf(),
            old(self).game.turn_order == crate::game::Order::Backward ==> (old(self).game.current_player_turn as i32) > i32::MIN,
            now_ms + TURN_DURATION_MS + old(self).game.estimated_turn_end_offset <= i64::MAX,
            ({
                let g = old(self).game;
                let next = next_index(g.turn_order, g.current_player_turn, g.players.len() as nat);
                let hand = g.players@[next as int].hand_cards@.len();
                hand < DRAW_CARD_LIMIT ==> g.pile@.len() + crate::variant_rules::total_discards(players_view(g.players@))
                    >= DRAW_CARD_LIMIT - hand
            }),
        ensures
            final(self).sessions == old(self).sessions,
            final(self).accounts == old(self).accounts,
            turn_passed(*old(self), now_ms, r.0@, r.1, *final(self)),
            final(self).wf(),
    {
        let ghost s0 = *self;
        match self.game.state {
            GameState::EndGame { winner_id } => {
                let mut out: Vec<Outgoing> = Vec::new();
                let mut i: usize = 0;
                while i < self.sessions.len()
                    invariant
                        *self == s0,
                        i <= self.sessions.len(),
                        out.len() == i,
                        forall|k: int| 0 <= k < i ==> is_game_end(#[trigger] out@[k], self.sessions@[k].0, winner_id),
                    decreases self.sessions.len() - i,
                {
                    out.push(Outgoing { conn: self.sessions[i].0, response: ServerResponse::GameEnd { winner_id } });
                    i = i + 1;
                }
                return (out, true);
            },
            _ => {},
        }
        self.game.advance_turn(now_ms);
        let id = self.game.current_player_id();
        let end = self.game.current_player_turn_end;
        let mut out: Vec<Outgoing> = Vec::new();
        let mut i: usize = 0;
        while i < self.sessions.len()
            invariant
                self.sessions == s0.sessions,
                self.accounts == s0.accounts,
                i <= self.sessions.len(),
                out.len() == i,
                forall|k: int| 0 <= k < i ==> is_change_turn(#[trigger] out@[k], self.sessions@[k].0, id, end),
            decreases self.sessions.len() - i,
        {
            out.push(Outgoing { conn: self.sessions[i].0, response: ServerResponse::ChangeTurn { player_id: id, turn_end: end } });
            i = i + 1;
        }
        let ghost g1 = self.game;
        let ghost n = self.sessions.len();
        let ghost pv0 = players_view(g1.players@);
        let cur = self.game.current_player_turn;
        let mut card_count = self.game.players[cur].hand_cards.len();
        let ghost d0 = card_count;
        proof {
            assert(pv0[cur as int] == g1.players@[cur as int]@);
        }
        if card_count < DRAW_CARD_LIMIT && self.game.pile.len() < DRAW_CARD_LIMIT - card_count {
            self.game.collect_discard_cards();
            proof {
                crate::laws::law_collect_discards_keeps_cards(g1.pile@, players_view(g1.players@));
                assert forall|k: int| 0 <= k < self.game.players.len() implies players_view(self.game.players@)[k].id
                    == players_view(g1.players@)[k].id by {
                    assert(self.game.players@[k]@ == (PlayerView { discard: Seq::empty(), ..g1.players@[k]@ }));
                }
                assert(self.game.players@[cur as int]@ == (PlayerView { discard: Seq::empty(), ..g1.players@[cur as int]@ }));
            }
            let ghost pile_before = self.game.pile@;
            proof {
                assert(players_view(self.game.players@) =~= without_discards(pv0));
            }
            self.game.shuffle_pile();
            proof {
                assert(pile_before.to_multiset().len() == pile_before.len());
                assert(self.game.pile@.to_multiset().len() == self.game.pile@.len());
                assert(self.game.pile@.len() == g1.pile@.len() + crate::variant_rules::total_discards(players_view(g1.players@)));
            }
            let n_pile = self.game.pile.len();
            let ghost g_sh = self.game;
            let mut j: usize = 0;
            while j < self.sessions.len()
                invariant
                    self.sessions == s0.sessions,
                    self.accounts == s0.accounts,
                    self.game == g_sh,
                    n_pile == g_sh.pile@.len(),
                    j <= self.sessions.len(),
                    out.len() == i + j,
                    i == self.sessions.len(),
                    forall|k: int| 0 <= k < i ==> is_change_turn(#[trigger] out@[k], self.sessions@[k].0, id, end),
                    forall|k: int| 0 <= k < j ==> is_collect(#[trigger] out@[i + k], self.sessions@[k].0, g_sh.pile@.len()),
                decreases self.sessions.len() - j,
            {
                out.push(Outgoing {
                    conn: self.sessions[j].0,
                    response: ServerResponse::CollectDiscardCards { cards_in_pile: #[verifier::truncate] (n_pile as u32) },
                });
                j = j + 1;
            }
        }
        let ghost g2 = self.game;
        let ghost pile1 = g2.pile@;
        let ghost pv1 = players_view(g2.players@);
        let ghost base = out.len();
        let ghost out_base = out@;
        proof {
            assert(out@.skip(base as int) =~= Seq::<Outgoing>::empty());
            assert(pile1.take(0) =~= Seq::<Rc<Card>>::empty());
            assert(pile1.skip(0) =~= pile1);
            assert(with_cards(pv1[cur as int], Seq::<Rc<Card>>::empty()) == pv1[cur as int]) by {
                assert(pv1[cur as int].hand + Seq::<Rc<Card>>::empty() =~= pv1[cur as int].hand);
            }
            assert(pv1.update(cur as int, pv1[cur as int]) =~= pv1);
        }
        proof {
            assert(players_view(g2.players@).len() == g2.players.len());
            assert(players_view(g1.players@).len() == g1.players.len());
            assert(forall|k: int| 0 <= k < g2.players.len() ==> (#[trigger] players_view(g2.players@)[k]).id
                == players_view(g1.players@)[k].id);
            assert(g1.players == s0.game.players);
            assert(distinct_ids(players_view(g2.players@))) by {
                assert forall|a: int, b: int| 0 <= a < b < players_view(g2.players@).len() implies
                    players_view(g2.players@)[a].id != players_view(g2.players@)[b].id by {
                    assert(players_view(g2.players@)[a].id == players_view(g1.players@)[a].id);
                    assert(players_view(g2.players@)[b].id == players_view(g1.players@)[b].id);
                }
            }
            lemma_index_of_distinct(players_view(g2.players@), cur as int);
            assert(players_view(g2.players@)[cur as int] == g2.players@[cur as int]@);
            assert(g2.players@[cur as int].hand_cards@.len() == s0.game.players@[cur as int].hand_cards@.len());
        }
        while card_count < DRAW_CARD_LIMIT
            invariant
                self.sessions == s0.sessions,
                self.accounts == s0.accounts,
                cur < self.game.players.len(),
                self.game.players.len() == g2.players.len(),
                self.game.current_player_turn == cur,
                self.game.current_player_turn_end == end,
                self.game.estimated_turn_end_offset == 0,
                self.game.state == g1.state,
                self.game.turn_order == g1.turn_order,
                self.game.player_profiles == g1.player_profiles,
                id == players_view(g2.players@)[cur as int].id,
                forall|k: int| 0 <= k < self.game.players.len() ==> (#[trigger] players_view(self.game.players@)[k]).id
                    == players_view(g2.players@)[k].id,
                distinct_ids(players_view(g2.players@)),
                card_count == self.game.players@[cur as int].hand_cards@.len(),
                g2.players@[cur as int].hand_cards@.len() >= DRAW_CARD_LIMIT ==> card_count == g2.players@[cur as int].hand_cards@.len(),
                g2.players@[cur as int].hand_cards@.len() < DRAW_CARD_LIMIT ==> card_count <= DRAW_CARD_LIMIT,
                card_count < DRAW_CARD_LIMIT ==> self.game.pile@.len() >= DRAW_CARD_LIMIT - card_count,
                out.len() >= self.sessions.len(),
                forall|k: int| 0 <= k < self.sessions.len() ==> is_change_turn(#[trigger] out@[k], self.sessions@[k].0, id, end),
                d0 <= card_count,
                d0 == g2.players@[cur as int].hand_cards@.len(),
                pv1 == players_view(g2.players@),
                self.game.pile@ == pile1.skip(card_count - d0),
                card_count - d0 <= pile1.len(),
                players_view(self.game.players@) == pv1.update(cur as int, with_cards(pv1[cur as int], pile1.take(card_count - d0))),
                out.len() >= base,
                out@.take(base as int) == out_base,
                draw_rounds(out@.skip(base as int), self.sessions@, id, pile1.take(card_count - d0)),
            decreases DRAW_CARD_LIMIT - card_count,
        {
            proof {
                lemma_same_ids_index(players_view(g2.players@), players_view(self.game.players@), id);
                lemma_index_of_distinct(players_view(g2.players@), cur as int);
                assert(players_view(self.game.players@)[cur as int] == self.game.players@[cur as int]@);
            }
            let ghost before = self.game;
            let drawn = self.game.draw_card(id);
            assert(drawn is Ok);
            let card_id = match drawn {
                Ok(c) => c,
                Err(_) => -1,
            };
            card_count = card_count + 1;
            proof {
                assert(players_view(self.game.players@).len() == self.game.players.len());
                assert(players_view(before.players@).len() == before.players.len());
                assert(players_view(self.game.players@)[cur as int] == self.game.players@[cur as int]@);
                assert forall|k: int| 0 <= k < self.game.players.len() implies (#[trigger] players_view(self.game.players@)[k]).id
                    == players_view(g2.players@)[k].id by {
                    assert(players_view(before.players@)[k].id == players_view(g2.players@)[k].id);
                }
            }
            let ghost out0 = out@;
            self.draw_notifications(id, card_id, &mut out);
            proof {
                assert forall|k: int| 0 <= k < self.sessions.len() implies is_change_turn(#[trigger] out@[k], self.sessions@[k].0, id, end) by {
                    assert(out@[k] == out@.take(out0.len() as int)[k]);
                }
                let d = (card_count - 1 - d0) as int;
                let bp = before.pile@;
                assert(bp == pile1.skip(d));
                assert(bp[0] == pile1[d]);
                assert(self.game.pile@ =~= pile1.skip(d + 1));
                assert(pile1.take(d + 1) =~= pile1.take(d).push(pile1[d]));
                let bpv = players_view(before.players@);
                assert(index_of_id(bpv, id) == cur as int) by {
                    lemma_same_ids_index(players_view(g2.players@), bpv, id);
                    lemma_index_of_distinct(players_view(g2.players@), cur as int);
                }
                assert(with_cards(with_cards(pv1[cur as int], pile1.take(d)), seq![bp[0]]) == with_cards(pv1[cur as int], pile1.take(d + 1))) by {
                    assert(pv1[cur as int].hand + pile1.take(d) + seq![bp[0]] =~= pv1[cur as int].hand + pile1.take(d + 1));
                }
                assert(players_view(self.game.players@) =~= pv1.update(cur as int, with_cards(pv1[cur as int], pile1.take(d + 1))));
                assert(out@.take(base as int) =~= out0.take(base as int));
                let tail = out@.skip(base as int);
                assert(tail.subrange(0, tail.len() - self.sessions.len()) =~= out0.skip(base as int));
                assert(tail.subrange(tail.len() - self.sessions.len(), tail.len() as int) =~= out@.skip(out0.len() as int));
                assert(pile1.take(d + 1).drop_last() =~= pile1.take(d));
                assert(pile1.take(d + 1).last() == bp[0]);
            }
        }
        proof {
            let pv = players_view(self.game.players@);
            assert(pv.len() == self.game.players.len());
            assert(players_view(s0.game.players@).len() == s0.game.players.len());
            assert forall|k: int| 0 <= k < pv.len() implies (#[trigger] pv[k]).id == players_view(s0.game.players@)[k].id by {
                assert(pv[k].id == players_view(g2.players@)[k].id);
            }
            assert forall|a: int, b: int| 0 <= a < b < pv.len() implies pv[a].id != pv[b].id by {
                assert(pv[a].id == players_view(s0.game.players@)[a].id);
                assert(pv[b].id == players_view(s0.game.players@)[b].id);
            }
            assert forall|k: int| 0 <= k < self.sessions.len() implies index_of_id(pv, (#[trigger] self.sessions@[k]).1)
                < self.game.players.len() by {
                lemma_same_ids_index(players_view(s0.game.players@), pv, self.sessions@[k].1);
            }
            assert(pv[cur as int] == self.game.players@[cur as int]@);
            let g = s0.game;
            let next = next_index(g.turn_order, g.current_player_turn, g.players.len() as nat);
            assert(self.game.current_player_turn == next);
            assert(self.game.current_player_turn_end == now_ms + TURN_DURATION_MS + g.estimated_turn_end_offset);
            assert(self.game.state == g.state);
            assert(g.players@[next as int]@.hand.len() == g.players@[next as int].hand_cards@.len());
            assert(self.game.players@[next as int]@.hand.len() == if g.players@[next as int]@.hand.len() < DRAW_CARD_LIMIT {
                DRAW_CARD_LIMIT as nat
            } else {
                g.players@[next as int]@.hand.len()
            });
            assert(id == g.players@[next as int].id);
            let pvg = players_view(g.players@);
            assert(pvg == pv0);
            assert(pvg[next as int].hand.len() == d0);
            let k = draw_count(pvg, next as int);
            assert(card_count - d0 == k);
            let collect = needs_collect(pvg, g.pile@.len(), next as int);
            let b: int = if collect { n as int } else { 0 };
            assert(base == n + b);
            let rest = out@.skip(n as int);
            assert(rest.skip(b) =~= out@.skip(base as int));
            if collect {
                assert(pile1.to_multiset() == pile_with_discards(g.pile@, pvg).to_multiset());
                assert(pv1 == without_discards(pvg));
                assert forall|j: int| 0 <= j < n implies is_collect(#[trigger] rest[j], s0.sessions@[j].0, pile1.len()) by {
                    assert(rest[j] == out@[n + j]);
                    assert(out@[n + j] == out_base[n + j]);
                }
            } else {
                assert(pile1 == g.pile@);
                assert(pv1 == pvg);
            }
            assert(refill(pvg, g.pile@, next as int, pile1, players_view(self.game.players@), self.game.pile@, s0.sessions@, id, rest));
        }
        let ghost out_v = out@;
        let ret = (out, false);
        proof {
            assert(ret.0@ == out_v);
            assert(ret.0@.skip(old(self).sessions.len() as int) == out_v.skip(old(self).sessions.len() as int));
            let g = old(self).game;
            let next = next_index(g.turn_order, g.current_player_turn, g.players.len() as nat);
            assert(exists|p1: Seq<Rc<Card>>| #[trigger] refill(
                        players_view(g.players@),
                        g.pile@,
                        next as int,
                        p1,
                        players_view(self.game.players@),
                        self.game.pile@,
                        old(self).sessions@,
                        g.players@[next as int].id,
                        ret.0@.skip(old(self).sessions.len() as int),
                    ));
            assert(self.sessions == old(self).sessions);
        }
        ret
    }
}


pub proof fn lemma_index_of_distinct(players: Seq<PlayerView>, i: int)
    requires
        distinct_ids(players),
        0 <= i < players.len(),
    ensures
        index_of_id(players, players[i].id) == i,
{
    crate::game_ops::lemma_index_of_id(players, players[i].id, i);
}

pub proof fn lemma_same_ids_index(a: Seq<PlayerView>, b: Seq<PlayerView>, id: PlayerId)
    requires
        a.len() == b.len(),
        forall|k: int| 0 <= k < b.len() ==> (#[trigger] b[k]).id == a[k].id,
    ensures
        index_of_id(a, id) == index_of_id(b, id),
    decreases a.len(),
{
    if a.len() > 0 {
        assert forall|k: int| 0 <= k < b.len() - 1 implies (#[trigger] b.drop_first()[k]).id == a.drop_first()[k].id by {
            assert(b.drop_first()[k] == b[k + 1]);
            assert(a.drop_first()[k] == a[k + 1]);
        }
        assert(b[0].id == a[0].id);
        lemma_same_ids_index(a.drop_first(), b.drop_first(), id);
    }
}


/// The next player can fill its hand up to the draw limit from the pile and the discarded cards.
pub open spec fn can_fill_hand(pv: Seq<PlayerView>, pile_len: nat, current: usize, order: crate::game::Order) -> bool {
    let next = next_index(order, current, pv.len());
    let hand = pv[next as int].hand.len();
    hand < DRAW_CARD_LIMIT ==> pile_len + crate::variant_rules::total_discards(pv) >= DRAW_CARD_LIMIT - hand
}

/// The turn can be passed without overflow or panic.
pub open spec fn can_advance(s: GameServer, now_ms: i64) -> bool {
    &&& s.wf()
    &&& s.game.turn_order == crate::game::Order::Backward ==> (s.game.current_player_turn as i32) > i32::MIN
    &&& now_ms + TURN_DURATION_MS + s.game.estimated_turn_end_offset <= i64::MAX
    &&& can_fill_hand(players_view(s.game.players@), s.game.pile@.len(), s.game.current_player_turn, s.game.turn_order)
}

impl GameServer {
    /// A connection closes: its sessions are removed.
    pub fn disconnect(&mut self, conn: ConnId)
        ensures
            final(self).game == old(self).game,
            final(self).accounts == old(self).accounts,
            final(self).sessions@ == without_conn(old(self).sessions@, conn),
            old(self).wf() ==> final(self).wf(),
    {
        let ghost pred = not_conn(conn);
        let ghost s0 = self.sessions@;
        let mut kept: Vec<(ConnId, PlayerId)> = Vec::new();
        let mut i: usize = 0;
        while i < self.sessions.len()
            invariant
                i <= self.sessions.len(),
                s0 == self.sessions@,
                pred == not_conn(conn),
                kept@ == s0.take(i as int).filter(pred),
            decreases self.sessions.len() - i,
        {
            proof {
                assert(s0.take(i + 1).drop_last() =~= s0.take(i as int));
                assert(s0.take(i + 1).len() == i + 1);
                reveal(Seq::filter);
                assert(s0.take(i + 1).filter(pred) == if pred(s0[i as int]) {
                    s0.take(i as int).filter(pred).push(s0[i as int])
                } else {
                    s0.take(i as int).filter(pred)
                });
            }
            if self.sessions[i].0 != conn {
                kept.push(self.sessions[i]);
            }
            i = i + 1;
        }
        proof {
            assert(s0.take(i as int) =~= s0);
        }
        self.sessions = kept;
        proof {
            if old(self).wf() {
                assert forall|k: int| 0 <= k < self.sessions.len() implies index_of_id(players_view(self.game.players@),
                    (#[trigger] self.sessions@[k]).1) < self.game.players.len() by {
                    assert(s0.filter(pred).contains(self.sessions@[k]));
                    s0.lemma_filter_contains_rev(pred, self.sessions@[k]);
                    let j = choose|j: int| 0 <= j < s0.len() && s0[j] == self.sessions@[k];
                    assert(index_of_id(players_view(self.game.players@), s0[j].1) < self.game.players.len());
                }
            }
        }
    }

    /// A chat message of connection `conn`, sent to every other connection, in order.
    pub fn chat(&self, conn: ConnId, msg: &String) -> (r: Vec<Outgoing>)
        ensures
            r.len() == chat_conns(self.sessions@, conn).len(),
            forall|k: int| 0 <= k < r.len() ==> (#[trigger] r@[k]).conn == chat_conns(self.sessions@, conn)[k]
                && (r@[k].response matches ServerResponse::Message { message } && message@ == msg@),
    {
        let mut out: Vec<Outgoing> = Vec::new();
        let mut i: usize = 0;
        while i < self.sessions.len()
            invariant
                i <= self.sessions.len(),
                out.len() == chat_conns(self.sessions@.take(i as int), conn).len(),
                forall|k: int| 0 <= k < out.len() ==> (#[trigger] out@[k]).conn == chat_conns(self.sessions@.take(i as int), conn)[k]
                    && (out@[k].response matches ServerResponse::Message { message } && message@ == msg@),
            decreases self.sessions.len() - i,
        {
            assert(self.sessions@.take(i + 1).drop_last() =~= self.sessions@.take(i as int));
            if self.sessions[i].0 != conn {
                out.push(Outgoing { conn: self.sessions[i].0, response: ServerResponse::Message { message: msg.clone() } });
            }
            i = i + 1;
        }
        assert(self.sessions@.take(i as int) =~= self.sessions@);
        out
    }

    /// The players' profiles.
    pub fn session_info(&self) -> (r: Vec<PlayerProfile>)
        ensures
            r.len() == self.game.player_profiles.len(),
            forall|k: int| 0 <= k < r.len() ==> (#[trigger] r@[k]).id == self.game.player_profiles@[k].id
                && r@[k].name@ == self.game.player_profiles@[k].name@,
    {
        let mut r: Vec<PlayerProfile> = Vec::new();
        let mut i: usize = 0;
        while i < self.game.player_profiles.len()
            invariant
                i <= self.game.player_profiles.len(),
                r.len() == i,
                forall|k: int| 0 <= k < i ==> (#[trigger] r@[k]).id == self.game.player_profiles@[k].id
                    && r@[k].name@ == self.game.player_profiles@[k].name@,
            decreases self.game.player_profiles.len() - i,
        {
            r.push(self.game.player_profiles[i].copy());
            i = i + 1;
        }
        r
    }

    /// The game as player `player_id` sees it, as a message to its connection (none when it has
    /// no connection).
    pub fn game_state_message(&self, player_id: PlayerId) -> (r: Option<Outgoing>)
        requires
            self.wf(),
        ensures
            r matches Some(o) ==> is_status_for(o, o.conn, self.game, player_id) && first_conn_of(self.sessions@, player_id) == Some(o.conn)
                && exists|k: int| 0 <= k < self.sessions.len() && #[trigger] self.sessions@[k] == (o.conn, player_id),
            r is None ==> forall|k: int| 0 <= k < self.sessions.len() ==> (#[trigger] self.sessions@[k]).1 != player_id,
            status_reply(r, self.sessions@, self.game, player_id),
    {
        match session_of(&self.sessions, player_id) {
            Some(conn) => {
                let st = self.game.status_for_player(player_id);
                match st {
                    Ok(state) => Some(Outgoing { conn, response: state.to_server_response() }),
                    Err(_) => None,
                }
            },
            None => None,
        }
    }

    /// Checks, once a second, whether the current player missed its turn: then the turn passes.
    pub fn on_tick(&mut self, now_ms: i64) -> (r: (Vec<Outgoing>, bool))
        requires
            can_advance(*old(self), now_ms),
        ensures
            final(self).sessions == old(self).sessions,
            !(old(self).game.state == GameState::InGame && old(self).game.current_player_turn_end < now_ms) ==> {
                &&& *final(self) == *old(self)
                &&& r.0.len() == 0
                &&& !r.1
            },
            (old(self).game.state == GameState::InGame && old(self).game.current_player_turn_end < now_ms) ==> turn_passed(
                *old(self),
                now_ms,
                r.0@,
                r.1,
                *final(self),
            ),
            final(self).wf(),
    {
        match self.game.state {
            GameState::InGame => {
                if self.game.current_player_turn_end < now_ms {
                    return self.advance_turn(now_ms);
                }
            },
            _ => {},
        }
        (Vec::new(), false)
    }

    /// Player `player_id` draws a card: on success every connection is told (the card's id only to
    /// the player's) and the turn passes; on failure the player is sent the game's state. Someone
    /// who does not play the game is refused, has no connection, and is sent nothing.
    pub fn handle_draw_card(&mut self, player_id: PlayerId, now_ms: i64) -> (r: (Result<CardId, String>, Vec<Outgoing>, bool))
        requires
            old(self).wf(),
            draw_can_pass(old(self).game, player_id, now_ms),
        ensures
            final(self).sessions == old(self).sessions,
            final(self).wf(),
            index_of_id(players_view(old(self).game.players@), player_id) >= old(self).game.players.len() ==> {
                &&& r.0 matches Err(e) && e@ == "Player not found"@
                &&& r.1.len() == 0
                &&& !r.2
                &&& *final(self) == *old(self)
            },
            match r.0 {
                Ok(card_id) => {
                    let pv = players_view(old(self).game.players@);
                    let i = index_of_id(pv, player_id);
                    &&& i < pv.len()
                    &&& pv[i].hand.len() < DRAW_CARD_LIMIT
                    &&& old(self).game.pile@.len() > 0
                    &&& card_id == old(self).game.pile@[0].get_id()
                    &&& r.1.len() >= old(self).sessions.len()
                    &&& draw_messages(r.1@.take(old(self).sessions.len() as int), old(self).sessions@, player_id, card_id)
                    &&& exists|g1: Game| {
                        &&& g1.pile@ == old(self).game.pile@.drop_first()
                        &&& players_view(g1.players@) == pv.update(i, with_cards(pv[i], seq![old(self).game.pile@[0]]))
                        &&& g1 == (Game { players: g1.players, pile: g1.pile, ..old(self).game })
                        &&& #[trigger] turn_passed(
                            GameServer { sessions: old(self).sessions, accounts: old(self).accounts, game: g1 },
                            now_ms,
                            r.1@.skip(old(self).sessions.len() as int),
                            r.2,
                            *final(self),
                        )
                    }
                },
                Err(e) => {
                    let pv = players_view(old(self).game.players@);
                    let i = index_of_id(pv, player_id);
                    &&& !(i < pv.len() && pv[i].hand.len() < DRAW_CARD_LIMIT && old(self).game.pile@.len() > 0)
                    &&& e@ == (if i >= pv.len() {
                        "Player not found"@
                    } else if pv[i].hand.len() >= DRAW_CARD_LIMIT {
                        "Player can't draw more cards"@
                    } else {
                        "Pile is empty"@
                    })
                    &&& final(self).game == old(self).game
                    &&& !r.2
                    &&& r.1.len() <= 1
                    &&& status_reply(single_reply(r.1@), old(self).sessions@, old(self).game, player_id)
                },
            },
    {
        let ghost s0 = *self;
        let result = self.game.draw_card(player_id);
        match result {
            Ok(card_id) => {
                let mut out: Vec<Outgoing> = Vec::new();
                self.draw_notifications(player_id, card_id, &mut out);
                proof {
                    let pv0 = players_view(s0.game.players@);
                    let pv = players_view(self.game.players@);
                    let i = index_of_id(pv0, player_id);
                    assert(pv0.len() == s0.game.players.len());
                    assert(pv.len() == self.game.players.len());
                    crate::game_ops::lemma_index_of_id_bound(pv0, player_id);
                    assert(pv == pv0.update(i, with_cards(pv0[i], seq![s0.game.pile@[0]])));
                    assert(pv.len() == pv0.len());
                    assert forall|k: int| 0 <= k < pv.len() implies (#[trigger] pv[k]).id == pv0[k].id by {
                        if k == i {
                            assert(pv[k] == with_cards(pv0[i], seq![s0.game.pile@[0]]));
                        }
                    }
                    assert forall|a: int, b: int| 0 <= a < b < pv.len() implies pv[a].id != pv[b].id by {
                        assert(pv[a].id == pv0[a].id);
                        assert(pv[b].id == pv0[b].id);
                    }
                    assert forall|k: int| 0 <= k < self.sessions.len() implies index_of_id(pv, (#[trigger] self.sessions@[k]).1)
                        < self.game.players.len() by {
                        lemma_same_ids_index(pv0, pv, self.sessions@[k].1);
                    }
                    assert(out@.skip(0) =~= out@);
                    assert(pv.len() == self.game.players.len());
                }
                let ghost s_mid = *self;
                let (more, over) = self.advance_turn(now_ms);
                let mut all = out;
                let mut more = more;
                let ghost n0 = all.len();
                let ghost more_v = more@;
                all.append(&mut more);
                proof {
                    assert(all@.take(n0 as int) =~= out@);
                    assert(all@.skip(n0 as int) =~= more_v);
                    assert(s_mid == (GameServer { sessions: s0.sessions, accounts: s0.accounts, game: s_mid.game }));
                    assert(s_mid.game == (Game { players: s_mid.game.players, pile: s_mid.game.pile, ..s0.game }));
                    assert(turn_passed(
                        GameServer { sessions: s0.sessions, accounts: s0.accounts, game: s_mid.game },
                        now_ms,
                        all@.skip(s0.sessions.len() as int),
                        over,
                        *self,
                    ));
                }
                let ghost all_v = all@;
                let ret = (Ok(card_id), all, over);
                proof {
                    assert(ret.1@.skip(s0.sessions.len() as int) == all_v.skip(s0.sessions.len() as int));
                    let pv = players_view(s0.game.players@);
                    let i = index_of_id(pv, player_id);
                    let g1 = s_mid.game;
                    assert(g1.pile@ == s0.game.pile@.drop_first());
                    assert(players_view(g1.players@) == pv.update(i, with_cards(pv[i], seq![s0.game.pile@[0]])));
                    assert(turn_passed(
                        GameServer { sessions: s0.sessions, accounts: s0.accounts, game: g1 },
                        now_ms,
                        ret.1@.skip(s0.sessions.len() as int),
                        ret.2,
                        *self,
                    ));
                }
                ret
            },
            Err(e) => {
                let mut out: Vec<Outgoing> = Vec::new();
                let reply = self.game_state_message(player_id);
                match reply {
                    Some(o) => out.push(o),
                    None => {},
                }
                proof {
                    assert(single_reply(out@) == reply);
                }
                (Err(e), out, false)
            },
        }
    }
}


/// The number of cards the players discarded, or `cap` when there are at least that many.
fn discards_up_to(players: &Vec<crate::player::Player>, cap: usize) -> (r: usize)
    ensures
        r == (if crate::variant_rules::total_discards(players_view(players@)) < cap {
            crate::variant_rules::total_discards(players_view(players@))
        } else {
            cap as nat
        }),
{
    let mut total: usize = 0;
    let mut i: usize = 0;
    while i < players.len()
        invariant
            i <= players.len(),
            total == (if crate::variant_rules::total_discards(players_view(players@).take(i as int)) < cap {
                crate::variant_rules::total_discards(players_view(players@).take(i as int))
            } else {
                cap as nat
            }),
        decreases players.len() - i,
    {
        proof {
            let pv = players_view(players@);
            assert(pv.take(i + 1).drop_last() =~= pv.take(i as int));
            assert(pv.take(i + 1).last() == players@[i as int]@);
        }
        let d = players[i].discard_cards.len();
        if total < cap {
            if d >= cap - total {
                total = cap;
            } else {
                total = total + d;
            }
        }
        i = i + 1;
    }
    proof {
        assert(players_view(players@).take(i as int) =~= players_view(players@));
    }
    total
}

/// Whether the next player's hand can be filled once the turn passes: exactly `can_fill_hand`.
fn can_fill_hand_exec(players: &Vec<crate::player::Player>, pile_len: usize, next: usize, extra: Option<usize>) -> (r: bool)
    requires
        next < players.len(),
        extra matches Some(i) ==> i < players.len(),
    ensures
        ({
            let pv = players_view(players@);
            let hand = pv[next as int].hand.len() + (if extra == Some(next) { 1int } else { 0 });
            r == (hand < DRAW_CARD_LIMIT ==> pile_len + crate::variant_rules::total_discards(pv) >= DRAW_CARD_LIMIT - hand)
        }),
{
    let mut hand = players[next].hand_cards.len();
    if extra == Some(next) {
        if hand >= DRAW_CARD_LIMIT {
            return true;
        }
        hand = hand + 1;
    }
    if hand >= DRAW_CARD_LIMIT {
        return true;
    }
    let need = DRAW_CARD_LIMIT - hand;
    if pile_len >= need {
        return true;
    }
    let d = discards_up_to(players, DRAW_CARD_LIMIT);
    pile_len + d >= need
}

impl GameServer {
    /// Whether the turn can pass at `now_ms` without overflow or panic: exactly `can_advance`.
    pub fn can_advance_now(&self, now_ms: i64) -> (r: bool)
        requires
            self.wf(),
        ensures
            r == can_advance(*self, now_ms),
    {
        if self.game.turn_order == crate::game::Order::Backward && !((#[verifier::truncate] (self.game.current_player_turn as i32)) > i32::MIN) {
            return false;
        }
        if self.game.estimated_turn_end_offset > 18446744073709551615u128 {
            return false;
        }
        if (now_ms as i128) + (TURN_DURATION_MS as i128) + (self.game.estimated_turn_end_offset as i128) > 9223372036854775807i128 {
            return false;
        }
        let next = self.game.next_player_index();
        proof {
            assert(players_view(self.game.players@).len() == self.game.players.len());
        }
        can_fill_hand_exec(&self.game.players, self.game.pile.len(), next, None)
    }

    /// Whether player `player_id` may ask to draw at `now_ms`: exactly what `handle_draw_card`
    /// requires (a draw that is refused always may).
    pub fn can_draw_now(&self, player_id: PlayerId, now_ms: i64) -> (r: bool)
        requires
            self.wf(),
        ensures
            r == draw_can_pass(self.game, player_id, now_ms),
    {
        let ghost pv = players_view(self.game.players@);
        let i = match crate::game_ops::find_player(&self.game.players, player_id) {
            Some(i) => i,
            None => {
                return true;
            },
        };
        if !(self.game.players[i].hand_cards.len() < DRAW_CARD_LIMIT && self.game.pile.len() > 0) {
            return true;
        }
        if self.game.turn_order == crate::game::Order::Backward && !((#[verifier::truncate] (self.game.current_player_turn as i32)) > i32::MIN) {
            return false;
        }
        if self.game.estimated_turn_end_offset > 18446744073709551615u128 {
            return false;
        }
        if (now_ms as i128) + (TURN_DURATION_MS as i128) + (self.game.estimated_turn_end_offset as i128) > 9223372036854775807i128 {
            return false;
        }
        let next = self.game.next_player_index();
        let r = can_fill_hand_exec(&self.game.players, self.game.pile.len() - 1, next, Some(i));
        proof {
            let pv2 = pv.update(i as int, with_cards(pv[i as int], seq![self.game.pile@[0]]));
            assert(pv.len() == self.game.players.len());
            assert(pv[i as int] == self.game.players@[i as int]@);
            assert(pv2.len() == pv.len());
            assert(pv2[next as int].hand.len() == pv[next as int].hand.len() + (if i == next { 1int } else { 0 }));
            lemma_total_discards_update(pv, i as int, with_cards(pv[i as int], seq![self.game.pile@[0]]));
        }
        r
    }
}

proof fn lemma_total_discards_update(pv: Seq<PlayerView>, i: int, p: PlayerView)
    requires
        0 <= i < pv.len(),
        p.discard == pv[i].discard,
    ensures
        crate::variant_rules::total_discards(pv.update(i, p)) == crate::variant_rules::total_discards(pv),
    decreases pv.len(),
{
    if i < pv.len() - 1 {
        lemma_total_discards_update(pv.drop_last(), i, p);
        assert(pv.update(i, p).drop_last() =~= pv.drop_last().update(i, p));
    } else {
        assert(pv.update(i, p).drop_last() =~= pv.drop_last());
    }
}

} // verus!
