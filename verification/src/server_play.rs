//! The game server's commands that change the game: a player connects (which starts the game the
//! first time), and a player plays a card.
use vstd::prelude::*;
use std::rc::Rc;
use crate::buffs::BuffInfo;
use crate::card::{Card, CardId};
use crate::card_play::dice_rolls;
use crate::game::{Game, GameState, Order, players_view, INITIAL_HAND_AMOUNT, TURN_DURATION_MS};
use crate::game_ops::{
    index_of_id, next_index, deal, finish_play, target_positions, rc_share, find_player, play_card_refusal,
    play_card_defined, play_card_play, play_card_rolls, play_card_result, play_card_logs,
};
use crate::ids_law::{same_ids, lemma_same_ids_trans, law_play_keeps_players, law_finish_keeps_players};
use crate::play_info::{PlayInfo, PlayActionView, actions_view, actions_time, duplicate_actions};
use crate::player::{PlayerId, PlayerView};
use crate::responses::ServerResponse;
use crate::rules::initial_state;
use crate::server::{lemma_index_of_distinct, single_reply, status_reply, ConnId, Outgoing, GameServer, can_fill_hand, turn_passed, first_conn_of, without_conn, lemma_without_conn_push, lemma_without_conn_twice, is_status_for, chat_conns, session_of, lemma_same_ids_index};

verus! {

/// A new connection id, from `uid::IdU64::new().get()`. That function hands out the values of a
/// counter shared by the whole process, starting at 1, and panics once the counter wraps around.
/// The contract claims only that the id is not 0; that it differs from the ids given before rests on
/// that counter, which no contract here can name, and is not stated.
#[verifier::external_body]
fn new_conn_id() -> (r: ConnId)
    ensures
        r != 0,
{
    uid::IdU64::<ConnId>::new().get()
}

/// A copy of a list of shared values, each shared again.
pub fn share_all<T>(v: &Vec<Rc<T>>) -> (r: Vec<Rc<T>>)
    ensures
        r@ == v@,
{
    let mut r: Vec<Rc<T>> = Vec::new();
    let mut i: usize = 0;
    while i < v.len()
        invariant
            i <= v.len(),
            r@ == v@.take(i as int),
        decreases v.len() - i,
    {
        r.push(rc_share(&v[i]));
        proof {
            assert(v@.take(i + 1) =~= v@.take(i as int).push(v@[i as int]));
        }
        i = i + 1;
    }
    proof {
        assert(v@.take(i as int) =~= v@);
    }
    r
}

/// Dealing the first cards keeps the players and their ids.
pub proof fn lemma_deal_ids(players: Seq<PlayerView>, pile: Seq<Rc<Card>>, amount: usize)
    ensures
        same_ids(players, deal(players, pile, amount).0),
    decreases players.len(),
{
    if players.len() > 0 {
        lemma_deal_ids(players.drop_last(), pile, amount);
        let d = deal(players, pile, amount).0;
        assert forall|k: int| 0 <= k < players.len() implies (#[trigger] players[k]).id == d[k].id by {
            if k < players.len() - 1 {
                assert(players.drop_last()[k] == players[k]);
            }
        }
    }
}

/// Positions found for target ids: one per id, each a position of a player.
pub proof fn lemma_target_positions(players: Seq<PlayerView>, ids: Seq<PlayerId>, player_id: PlayerId)
    ensures
        target_positions(players, ids, player_id) matches Some(ts) ==> {
            &&& ts.len() == ids.len()
            &&& forall|k: int| 0 <= k < ts.len() ==> ts[k] < players.len()
        },
    decreases ids.len(),
{
    if ids.len() > 0 {
        lemma_target_positions(players, ids.drop_last(), player_id);
        match target_positions(players, ids, player_id) {
            Some(ts) => {
                let ps = target_positions(players, ids.drop_last(), player_id).unwrap();
                crate::game_ops::lemma_index_of_id_bound(players, ids.last());
                assert(ts == ps.push(index_of_id(players, ids.last()) as usize));
                assert forall|k: int| 0 <= k < ts.len() implies ts[k] < players.len() by {
                    if k < ps.len() {
                        assert(ts[k] == ps[k]);
                    }
                }
            },
            None => {},
        }
    }
}

/// A server whose game kept the players' ids, the turn and the connections stays consistent.
pub proof fn lemma_wf_same_ids(s0: GameServer, s1: GameServer)
    requires
        s0.wf(),
        s1.sessions == s0.sessions,
        s1.game.current_player_turn == s0.game.current_player_turn,
        same_ids(players_view(s0.game.players@), players_view(s1.game.players@)),
    ensures
        s1.wf(),
{
    let pv0 = players_view(s0.game.players@);
    let pv1 = players_view(s1.game.players@);
    assert(pv0.len() == s0.game.players.len());
    assert(pv1.len() == s1.game.players.len());
    assert forall|a: int, b: int| 0 <= a < b < pv1.len() implies pv1[a].id != pv1[b].id by {
        assert(pv0[a].id == pv1[a].id);
        assert(pv0[b].id == pv1[b].id);
    }
    assert forall|k: int| 0 <= k < s1.sessions.len() implies index_of_id(pv1, (#[trigger] s1.sessions@[k]).1)
        < s1.game.players.len() by {
        assert(index_of_id(pv0, s0.sessions@[k].1) < s0.game.players.len());
        lemma_same_ids_index(pv0, pv1, s1.sessions@[k].1);
    }
}

/// The message tells `conn` that player `id` played the card `card` from position `hand_index` of
/// its hand, with the actions `actions`.
pub open spec fn is_play(o: Outgoing, conn: ConnId, id: PlayerId, card: CardId, hand_index: u32, actions: Seq<PlayActionView>) -> bool {
    &&& o.conn == conn
    &&& o.response matches ServerResponse::PlayCard { player_id, card_id, hand_index: h, actions: a }
        && player_id == id && card_id == card && h == hand_index && actions_view(a@) == actions
}

/// The message tells `conn` the buffs that player `id` holds.
pub open spec fn is_buff_status(o: Outgoing, conn: ConnId, id: PlayerId, buffs: Seq<Rc<BuffInfo>>) -> bool {
    &&& o.conn == conn
    &&& o.response matches ServerResponse::PlayerBuffStatus { player_id, buffs: b } && player_id == id && b@ == buffs
}

/// The messages tell each connection in turn of the play, then of the player's buffs.
pub open spec fn play_messages(
    out: Seq<Outgoing>,
    sessions: Seq<(ConnId, PlayerId)>,
    id: PlayerId,
    card: CardId,
    hand_index: u32,
    actions: Seq<PlayActionView>,
    buffs: Seq<Rc<BuffInfo>>,
) -> bool {
    &&& out.len() == 2 * sessions.len()
    &&& forall|k: int| #![trigger sessions[k]] 0 <= k < sessions.len() ==> {
        &&& is_play(out[2 * k], sessions[k].0, id, card, hand_index, actions)
        &&& is_buff_status(out[2 * k + 1], sessions[k].0, id, buffs)
    }
}

/// Whatever the dice and the shuffles give, once the play succeeded the turn can be passed without
/// overflow or panic.
pub open spec fn can_advance_after_play(g: Game, player_id: PlayerId, card_index: usize, targets: Seq<PlayerId>, now_ms: i64) -> bool {
    play_card_refusal(g, player_id, card_index, targets) is None ==> forall|rolls: Seq<u8>, logs: Seq<Seq<Seq<usize>>>|
        dice_rolls(rolls) && rolls.len() == play_card_rolls(g, player_id, card_index, targets) ==> {
            let res = (#[trigger] play_card_play(g, player_id, card_index, targets, rolls, logs)).unwrap();
            let i = index_of_id(players_view(g.players@), player_id);
            res.error is None ==> {
                &&& now_ms + TURN_DURATION_MS + g.estimated_turn_end_offset + actions_time(res.actions) <= i64::MAX
                &&& can_fill_hand(
                    finish_play(res.players, i, card_index as int, res.buffs_used).unwrap(),
                    res.pile.len(),
                    g.current_player_turn,
                    g.turn_order,
                )
            }
        }
}

impl GameServer {
    /// Player `player_id` connects: its first connection, if any, is closed, every connection but
    /// connection 0 is told that someone joined, and the new connection gets a fresh id (replacing a
    /// connection with the same id). The first connection starts the game and each connection is then
    /// sent its game state; later ones send the player the game's state. When the game is over the
    /// new connection is closed again and `true` says that the server stops; only then may someone
    /// who does not play the game connect.
    pub fn connect(&mut self, player_id: PlayerId, now_ms: i64) -> (r: (ConnId, Vec<Outgoing>, bool))
        requires
            old(self).wf(),
            old(self).game.state is EndGame || index_of_id(players_view(old(self).game.players@), player_id)
                < old(self).game.players.len(),
            now_ms + TURN_DURATION_MS <= i64::MAX,
        ensures
            final(self).wf(),
            final(self).accounts == old(self).accounts,
            r.0 != 0,
            ({
                let s1 = match first_conn_of(old(self).sessions@, player_id) {
                    Some(c) => without_conn(old(self).sessions@, c),
                    None => old(self).sessions@,
                };
                let s2 = without_conn(s1, r.0);
                &&& r.1.len() >= chat_conns(s1, 0).len()
                &&& forall|k: int| 0 <= k < chat_conns(s1, 0).len() ==> (#[trigger] r.1@[k]).conn == chat_conns(s1, 0)[k]
                    && (r.1@[k].response matches ServerResponse::Message { message } && message@ == "Someone joined"@)
                &&& match old(self).game.state {
                    GameState::EndGame { .. } => {
                        &&& r.2
                        &&& final(self).game == old(self).game
                        &&& final(self).sessions@ == s2
                    },
                    GameState::PreGame => {
                        let n = final(self).sessions.len();
                        &&& !r.2
                        &&& final(self).sessions@ == s2.push((r.0, player_id))
                        &&& final(self).game.state == GameState::InGame
                        &&& final(self).game.current_player_turn_end == now_ms + TURN_DURATION_MS
                        &&& final(self).game.current_player_turn == old(self).game.current_player_turn
                        &&& final(self).game.player_profiles == old(self).game.player_profiles
                        &&& exists|shuffled: Seq<Rc<Card>>| {
                            &&& #[trigger] shuffled.to_multiset() == old(self).game.pile@.to_multiset()
                            &&& (players_view(final(self).game.players@), final(self).game.pile@)
                                == deal(players_view(old(self).game.players@), shuffled, INITIAL_HAND_AMOUNT)
                        }
                        &&& r.1.len() == chat_conns(s1, 0).len() + n
                        &&& forall|k: int| #![trigger final(self).sessions@[k]] 0 <= k < n ==> is_status_for(
                            r.1@[chat_conns(s1, 0).len() + k],
                            final(self).sessions@[k].0,
                            final(self).game,
                            final(self).sessions@[k].1,
                        )
                    },
                    GameState::InGame => {
                        &&& !r.2
                        &&& final(self).sessions@ == s2.push((r.0, player_id))
                        &&& final(self).game == old(self).game
                        &&& r.1.len() == chat_conns(s1, 0).len() + 1
                        &&& is_status_for(r.1@.last(), r.1@.last().conn, old(self).game, player_id)
                        &&& first_conn_of(final(self).sessions@, player_id) == Some(r.1@.last().conn)
                    },
                }
            }),
    {
        let ghost s0 = self.sessions@;
        match session_of(&self.sessions, player_id) {
            Some(c) => self.disconnect(c),
            None => {},
        }
        let ghost s1 = self.sessions@;
        assert(s1 == match first_conn_of(s0, player_id) {
            Some(c) => without_conn(s0, c),
            None => s0,
        });
        let mut out = self.chat(0, &String::from_str("Someone joined"));
        assert(out.len() == chat_conns(s1, 0).len());
        assert(forall|k: int| 0 <= k < chat_conns(s1, 0).len() ==> (#[trigger] out@[k]).conn == chat_conns(s1, 0)[k]
            && (out@[k].response matches ServerResponse::Message { message } && message@ == "Someone joined"@));
        let ghost n_chat = out.len();
        let ghost chat_out = out@;
        let id = new_conn_id();
        self.disconnect(id);
        self.sessions.push((id, player_id));
        assert(self.sessions@[self.sessions.len() - 1] == (id, player_id));
        match self.game.state {
            GameState::EndGame { .. } => {
                self.disconnect(id);
                proof {
                    lemma_without_conn_push(without_conn(s1, id), id, player_id);
                    lemma_without_conn_twice(s1, id);
                }
                return (id, out, true);
            },
            GameState::PreGame => {
                let ghost s_before = *self;
                self.game.begin(now_ms);
                proof {
                    let shuffled = choose|shuffled: Seq<Rc<Card>>| {
                        &&& #[trigger] shuffled.to_multiset() == s_before.game.pile@.to_multiset()
                        &&& (players_view(self.game.players@), self.game.pile@)
                            == deal(players_view(s_before.game.players@), shuffled, INITIAL_HAND_AMOUNT)
                    };
                    lemma_deal_ids(players_view(s_before.game.players@), shuffled, INITIAL_HAND_AMOUNT);
                    lemma_wf_same_ids(s_before, *self);
                }
                let mut i: usize = 0;
                while i < self.sessions.len()
                    invariant
                        self.wf(),
                        i <= self.sessions.len(),
                        out.len() == n_chat + i,
                        forall|k: int| #![trigger self.sessions@[k]] 0 <= k < i ==> is_status_for(
                            out@[n_chat + k],
                            self.sessions@[k].0,
                            self.game,
                            self.sessions@[k].1,
                        ),
                        forall|k: int| 0 <= k < n_chat ==> #[trigger] out@[k] == chat_out[k],
                    decreases self.sessions.len() - i,
                {
                    let (conn, pid) = self.sessions[i];
                    assert(self.sessions@[i as int] == (conn, pid));
                    match self.game.status_for_player(pid) {
                        Ok(st) => {
                            out.push(Outgoing { conn, response: st.to_server_response() });
                        },
                        Err(_) => {},
                    }
                    i = i + 1;
                }
            },
            GameState::InGame => {
                match self.game_state_message(player_id) {
                    Some(o) => out.push(o),
                    None => {},
                }
            },
        }
        (id, out, false)
    }
}


impl GameServer {
    /// Player `player_id` plays the card at `card_index` of its hand on the players `targets`. On
    /// success every connection is told of the play and of the player's buffs, then the turn passes
    /// (`true` when the game is over); on failure the player is sent the game's state. Someone who
    /// does not play the game is refused, has no connection, and is sent nothing.
    pub fn handle_play_card(&mut self, player_id: PlayerId, card_index: usize, targets: Vec<PlayerId>, now_ms: i64) -> (r: (
        Result<PlayInfo, String>,
        Vec<Outgoing>,
        bool,
    ))
        requires
            old(self).wf(),
            targets.len() < usize::MAX,
            play_card_defined(old(self).game, player_id, card_index, targets@),
            old(self).game.turn_order == Order::Backward ==> (old(self).game.current_player_turn as i32) > i32::MIN,
            can_advance_after_play(old(self).game, player_id, card_index, targets@, now_ms),
        ensures
            final(self).sessions == old(self).sessions,
            final(self).accounts == old(self).accounts,
            final(self).wf(),
            index_of_id(players_view(old(self).game.players@), player_id) >= old(self).game.players.len() ==> {
                &&& r.0 matches Err(e) && e@ == "Not player's current turn"@
                &&& r.1.len() == 0
                &&& !r.2
                &&& *final(self) == *old(self)
            },
            match play_card_refusal(old(self).game, player_id, card_index, targets@) {
                Some(msg) => {
                    &&& r.0 matches Err(e) && e@ == msg
                    &&& final(self).game == old(self).game
                    &&& !r.2
                    &&& r.1.len() <= 1
                    &&& status_reply(single_reply(r.1@), old(self).sessions@, old(self).game, player_id)
                },
                None => exists|rolls: Seq<u8>, logs: Seq<Seq<Seq<usize>>>, g1: Game|
                    #![trigger play_card_result(old(self).game, player_id, card_index, play_card_play(old(self).game, player_id, card_index, targets@, rolls, logs).unwrap(), r.0, g1)]
                    {
                    let pv = players_view(old(self).game.players@);
                    let i = index_of_id(pv, player_id);
                    let n = old(self).sessions.len();
                    &&& dice_rolls(rolls)
                    &&& rolls.len() == play_card_rolls(old(self).game, player_id, card_index, targets@)
                    &&& play_card_logs(old(self).game, player_id, card_index, targets@, rolls, logs)
                    &&& play_card_result(
                        old(self).game,
                        player_id,
                        card_index,
                        play_card_play(old(self).game, player_id, card_index, targets@, rolls, logs).unwrap(),
                        r.0,
                        g1,
                    )
                    &&& match r.0 {
                        Ok(info) => {
                            &&& r.1.len() >= 2 * n
                            &&& play_messages(
                                r.1@.take(2 * n),
                                old(self).sessions@,
                                player_id,
                                pv[i].hand[card_index as int].get_id(),
                                card_index as u32,
                                info@,
                                g1.players@[g1.current_player_turn as int].buffs@,
                            )
                            &&& turn_passed(
                                GameServer { sessions: old(self).sessions, accounts: old(self).accounts, game: g1 },
                                now_ms,
                                r.1@.skip(2 * n),
                                r.2,
                                *final(self),
                            )
                        },
                        Err(_) => {
                            &&& final(self).game == g1
                            &&& !r.2
                            &&& r.1.len() <= 1
                            &&& status_reply(single_reply(r.1@), old(self).sessions@, g1, player_id)
                        },
                    }
                },
            },
    {
        let ghost s0 = *self;
        let ghost pv0 = players_view(self.game.players@);
        let card_id: CardId = match find_player(&self.game.players, player_id) {
            Some(i) => if card_index < self.game.players[i].hand_cards.len() {
                self.game.players[i].hand_cards[card_index].get_id()
            } else {
                -1
            },
            None => -1,
        };
        let result = self.game.play_card(player_id, card_index, targets);
        proof {
            assert(pv0.len() == s0.game.players.len());
            lemma_index_of_distinct(pv0, s0.game.current_player_turn as int);
            if play_card_refusal(s0.game, player_id, card_index, targets@) is None {
                let (rolls, logs) = choose|rolls: Seq<u8>, logs: Seq<Seq<Seq<usize>>>|
                    dice_rolls(rolls) && rolls.len() == play_card_rolls(s0.game, player_id, card_index, targets@)
                    && play_card_logs(s0.game, player_id, card_index, targets@, rolls, logs) && play_card_result(s0.game, player_id, card_index,
                        (#[trigger] play_card_play(s0.game, player_id, card_index, targets@, rolls, logs)).unwrap(), result, self.game);
                let i = index_of_id(pv0, player_id);
                let ts = target_positions(pv0, targets@, player_id).unwrap();
                lemma_target_positions(pv0, targets@, player_id);
                let card = *pv0[i].hand[card_index as int];
                let st0 = initial_state(pv0, s0.game.pile@);
                law_play_keeps_players(card, i, ts, rolls, logs, st0);
                let res = play_card_play(s0.game, player_id, card_index, targets@, rolls, logs).unwrap();
                match result {
                    Ok(_) => {
                        law_finish_keeps_players(res.players, i, card_index as int, res.buffs_used);
                        lemma_same_ids_trans(pv0, res.players, finish_play(res.players, i, card_index as int, res.buffs_used).unwrap());
                    },
                    Err(_) => {},
                }
                lemma_wf_same_ids(s0, *self);
                lemma_same_ids_index(pv0, players_view(self.game.players@), player_id);
            }
        }
        match result {
            Ok(info) => {
                let ghost n = self.sessions.len();
                let cur = self.game.current_player_turn;
                let mut out: Vec<Outgoing> = Vec::new();
                let mut k: usize = 0;
                while k < self.sessions.len()
                    invariant
                        *self == *self,
                        k <= self.sessions.len(),
                        cur == self.game.current_player_turn,
                        cur < self.game.players.len(),
                        out.len() == 2 * k,
                        forall|j: int| #![trigger self.sessions@[j]] 0 <= j < k ==> {
                            &&& is_play(out@[2 * j], self.sessions@[j].0, player_id, card_id, card_index as u32, info@)
                            &&& is_buff_status(out@[2 * j + 1], self.sessions@[j].0, player_id, self.game.players@[cur as int].buffs@)
                        },
                    decreases self.sessions.len() - k,
                {
                    let conn = self.sessions[k].0;
                    let actions = duplicate_actions(&info.actions);
                    out.push(Outgoing {
                        conn,
                        response: ServerResponse::PlayCard { player_id, card_id, hand_index: card_index as u32, actions },
                    });
                    let buffs = share_all(&self.game.players[cur].buffs);
                    out.push(Outgoing { conn, response: ServerResponse::PlayerBuffStatus { player_id, buffs } });
                    proof {
                        assert forall|j: int| #![trigger self.sessions@[j]] 0 <= j < k + 1 implies {
                            &&& is_play(out@[2 * j], self.sessions@[j].0, player_id, card_id, card_index as u32, info@)
                            &&& is_buff_status(out@[2 * j + 1], self.sessions@[j].0, player_id, self.game.players@[cur as int].buffs@)
                        } by {
                            if j == k {
                                assert(self.sessions@[j].0 == conn);
                            }
                        }
                    }
                    k = k + 1;
                }
                let ghost s_mid = *self;
                let (more, over) = self.advance_turn(now_ms);
                let mut all = out;
                let mut more = more;
                let ghost first = all@;
                let ghost more_v = more@;
                all.append(&mut more);
                proof {
                    assert(all@.take(2 * n) =~= first);
                    assert(all@.skip(2 * n) =~= more_v);
                    assert(s_mid == (GameServer { sessions: s0.sessions, accounts: s0.accounts, game: s_mid.game }));
                }
                let ghost all_v = all@;
                let ret = (Ok(info), all, over);
                proof {
                    assert(ret.1@.skip(2 * n) == all_v.skip(2 * n));
                    assert(ret.1@.take(2 * n) == all_v.take(2 * n));
                }
                ret
            },
            Err(e) => {
                let mut out: Vec<Outgoing> = Vec::new();
                let reply = self.game_state_message(player_id);
                match reply {
                    Some(o) => out.push(o),
                    None => {},
                }
                proof {
                    assert(single_reply(out@) == reply);
                }
                (Err(e), out, false)
            },
        }
    }
}

} // verus!
