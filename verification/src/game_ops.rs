//! The game's turns: starting, drawing, advancing the turn and the end of a game.
use vstd::prelude::*;
use std::rc::Rc;
use std::collections::HashSet;
use crate::buffs::{BuffInfo, BuffLifeTime};
use crate::card::{Card, CardId};
use crate::game::{Game, GameState, Order, players_view, DRAW_CARD_LIMIT, INITIAL_HAND_AMOUNT, TURN_DURATION_MS};
use crate::player::{Player, PlayerId, PlayerView};
use crate::responses::{PlayerProfile, OpponentState, GameStateForPlayer, card_ids_of};
use crate::rng::shuffle;
use crate::rules::{give_count, with_cards, card_ids, PlayState, initial_state, error_message};
use crate::card_play::{card_play, rolls_needed, dice_rolls, valid_logs};
use crate::play::play_outcome;
use crate::play_info::{PlayInfo, actions_time, DURATION_LIMIT_MS};

verus! {

/// `Rc::clone`: another pointer to the same value.
#[verifier::external_body]
pub(crate) fn rc_share<T>(rc: &Rc<T>) -> (r: Rc<T>)
    ensures
        r == *rc,
{
    Rc::clone(rc)
}

impl Card {
    /// The buffs that the card grants to its player when played.
    pub fn get_buffs(&self) -> (r: Vec<Rc<BuffInfo>>)
        ensures
            r@ == self.spec_buffs(),
    {
        let empty: Vec<Rc<BuffInfo>> = Vec::new();
        let buffs = match self {
            Card::Basic(c) => &c.buffs,
            Card::MultiHit(c) => &c.buffs,
            Card::TargetBoth(c) => &c.buffs,
            Card::MultiAction(c) => &c.buffs,
            Card::PlayersRollsDice(c) => &c.buffs,
            _ => &empty,
        };
        let mut r: Vec<Rc<BuffInfo>> = Vec::new();
        let mut i: usize = 0;
        while i < buffs.len()
            invariant
                i <= buffs.len(),
                r@ == buffs@.take(i as int),
            decreases buffs.len() - i,
        {
            assert(buffs@.take(i + 1) =~= buffs@.take(i as int).push(buffs@[i as int]));
            r.push(rc_share(&buffs[i]));
            i = i + 1;
        }
        assert(buffs@.take(i as int) =~= buffs@);
        assert(empty@ =~= Seq::<Rc<BuffInfo>>::empty());
        r
    }
}

impl PlayerProfile {
    /// A copy of the profile.
    pub fn copy(&self) -> (r: PlayerProfile)
        ensures
            r.id == self.id,
            r.name@ == self.name@,
    {
        PlayerProfile { id: self.id, name: self.name.clone() }
    }
}

/// The models of the profiles: ids and names.
pub open spec fn profiles_view(profiles: Seq<PlayerProfile>) -> Seq<(PlayerId, Seq<char>)> {
    profiles.map_values(|p: PlayerProfile| (p.id, p.name@))
}

/// A player with full health and no cards for each profile.
pub open spec fn new_players(profiles: Seq<PlayerProfile>) -> Seq<PlayerView> {
    profiles.map_values(
        |prf: PlayerProfile| PlayerView {
            id: prf.id,
            name: prf.name@,
            health: crate::player::PLAYER_MAX_HEALTH,
            hand: Seq::empty(),
            discard: Seq::empty(),
            buffs: Seq::empty(),
        },
    )
}

/// Position of the first player with id `id` (the number of players when none has it).
pub open spec fn index_of_id(players: Seq<PlayerView>, id: PlayerId) -> int
    decreases players.len(),
{
    if players.len() == 0 {
        0
    } else if players[0].id == id {
        0
    } else {
        1 + index_of_id(players.drop_first(), id)
    }
}

pub proof fn lemma_index_of_id(players: Seq<PlayerView>, id: PlayerId, j: int)
    requires
        0 <= j <= players.len(),
        forall|k: int| 0 <= k < j ==> (#[trigger] players[k]).id != id,
        j == players.len() || players[j].id == id,
    ensures
        index_of_id(players, id) == j,
    decreases j,
{
    if j > 0 {
        assert forall|k: int| 0 <= k < j - 1 implies (#[trigger] players.drop_first()[k]).id != id by {
            assert(players.drop_first()[k] == players[k + 1]);
        }
        lemma_index_of_id(players.drop_first(), id, j - 1);
    }
}

pub proof fn lemma_index_of_id_bound(players: Seq<PlayerView>, id: PlayerId)
    ensures
        0 <= index_of_id(players, id) <= players.len(),
        index_of_id(players, id) < players.len() ==> players[index_of_id(players, id)].id == id,
    decreases players.len(),
{
    if players.len() > 0 && players[0].id != id {
        lemma_index_of_id_bound(players.drop_first(), id);
    }
}

/// Position of the first player with id `id`.
pub fn find_player(players: &Vec<Player>, id: PlayerId) -> (r: Option<usize>)
    ensures
        match r {
            Some(i) => i == index_of_id(players_view(players@), id) && i < players.len(),
            None => index_of_id(players_view(players@), id) == players.len(),
        },
{
    let ghost pv = players_view(players@);
    let mut i: usize = 0;
    while i < players.len()
        invariant
            i <= players.len(),
            pv == players_view(players@),
            forall|k: int| 0 <= k < i ==> (#[trigger] pv[k]).id != id,
        decreases players.len() - i,
    {
        assert(pv[i as int] == players@[i as int]@);
        if players[i].id == id {
            proof {
                lemma_index_of_id(pv, id, i as int);
            }
            return Some(i);
        }
        i = i + 1;
    }
    proof {
        lemma_index_of_id(pv, id, i as int);
    }
    None
}

/// The players other than `p`, in order.
pub open spec fn without(players: Seq<PlayerView>, p: int) -> Seq<PlayerView> {
    players.remove(p)
}

/// The players still alive (health above 0), in order.
pub open spec fn alive(players: Seq<PlayerView>) -> Seq<PlayerView>
    decreases players.len(),
{
    if players.len() == 0 {
        Seq::empty()
    } else {
        let prev = alive(players.drop_last());
        if players.last().health > 0 { prev.push(players.last()) } else { prev }
    }
}

/// The state of a game after a card was played: over when one player (the winner) or none (the
/// winner is the current player) is alive.
pub open spec fn state_after_play(state: GameState, players: Seq<PlayerView>, current_id: PlayerId) -> GameState {
    let a = alive(players);
    if a.len() == 1 {
        GameState::EndGame { winner_id: a[0].id }
    } else if a.len() == 0 {
        GameState::EndGame { winner_id: current_id }
    } else {
        state
    }
}

/// The player whose turn follows, in the game's turn order.
pub open spec fn next_index(order: Order, current: usize, n: nat) -> usize {
    match order {
        Order::Forward => if current + 1 >= n { 0 } else { (current + 1) as usize },
        Order::Backward => if (current as i32) - 1 < 0 { (n - 1) as usize } else { (current - 1) as usize },
    }
}

/// The buffs a player keeps after a play: those lasting until used and not used by it.
pub open spec fn kept_buffs(buffs: Seq<Rc<BuffInfo>>, used: Set<usize>) -> Seq<Rc<BuffInfo>>
    decreases buffs.len(),
{
    if buffs.len() == 0 {
        Seq::empty()
    } else {
        let prev = kept_buffs(buffs.drop_last(), used);
        let i = (buffs.len() - 1) as usize;
        if buffs.last().lifetime() == BuffLifeTime::UntilUsed && !used.contains(i) {
            prev.push(buffs.last())
        } else {
            prev
        }
    }
}

/// The pile with every player's discarded cards added, player after player.
pub open spec fn pile_with_discards(pile: Seq<Rc<Card>>, players: Seq<PlayerView>) -> Seq<Rc<Card>>
    decreases players.len(),
{
    if players.len() == 0 { pile } else { pile_with_discards(pile, players.drop_last()) + players.last().discard }
}

impl Game {
    /// A game before it begins: a player with full health and no cards for each profile, the cards
    /// given as the pile, the first player's turn, ending at `now_ms`.
    pub fn new(player_profiles: &Vec<PlayerProfile>, cards: Vec<Rc<Card>>, now_ms: i64) -> (r: Self)
        ensures
            players_view(r.players@) == new_players(player_profiles@),
            profiles_view(r.player_profiles@) == profiles_view(player_profiles@),
            r.pile@ == cards@,
            r.current_player_turn == 0,
            r.current_player_turn_end == now_ms,
            r.estimated_turn_end_offset == 0,
            r.turn_order == Order::Forward,
            r.state == GameState::PreGame,
    {
        let mut players: Vec<Player> = Vec::new();
        let mut profiles: Vec<PlayerProfile> = Vec::new();
        let mut i: usize = 0;
        while i < player_profiles.len()
            invariant
                i <= player_profiles.len(),
                players_view(players@) == new_players(player_profiles@.take(i as int)),
                profiles_view(profiles@) == profiles_view(player_profiles@.take(i as int)),
            decreases player_profiles.len() - i,
        {
            let prf = &player_profiles[i];
            let pl = Player::new(prf.id, prf.name.clone());
            let cp = prf.copy();
            proof {
                assert(player_profiles@.take(i + 1) =~= player_profiles@.take(i as int).push(*prf));
                assert(players_view(players@.push(pl)) =~= players_view(players@).push(pl@));
                assert(new_players(player_profiles@.take(i + 1)) =~= new_players(player_profiles@.take(i as int)).push(pl@));
                assert(profiles_view(profiles@.push(cp)) =~= profiles_view(profiles@).push((cp.id, cp.name@)));
                assert(profiles_view(player_profiles@.take(i + 1)) =~= profiles_view(player_profiles@.take(i as int)).push((prf.id, prf.name@)));
            }
            players.push(pl);
            profiles.push(cp);
            i = i + 1;
        }
        proof {
            assert(player_profiles@.take(i as int) =~= player_profiles@);
        }
        Game {
            players,
            player_profiles: profiles,
            pile: cards,
            current_player_turn: 0,
            current_player_turn_end: now_ms,
            estimated_turn_end_offset: 0,
            turn_order: Order::Forward,
            state: GameState::PreGame,
        }
    }

    /// Shuffles the pile: the same cards, in an order that chance decides.
    pub fn shuffle_pile(&mut self)
        ensures
            final(self).pile@.to_multiset() == old(self).pile@.to_multiset(),
            final(self).players == old(self).players,
            final(self).player_profiles == old(self).player_profiles,
            final(self).current_player_turn == old(self).current_player_turn,
            final(self).current_player_turn_end == old(self).current_player_turn_end,
            final(self).estimated_turn_end_offset == old(self).estimated_turn_end_offset,
            final(self).turn_order == old(self).turn_order,
            final(self).state == old(self).state,
    {
        shuffle(&mut self.pile);
    }

    /// Id of the player whose turn it is.
    pub fn current_player_id(&self) -> (r: PlayerId)
        requires
            self.current_player_turn < self.players.len(),
        ensures
            r == self.players@[self.current_player_turn as int].id,
    {
        self.players[self.current_player_turn].id
    }

    /// The player whose turn it is, to be changed in place.
    pub fn current_player(&mut self) -> (r: &mut Player)
        requires
            old(self).current_player_turn < old(self).players.len(),
        ensures
            *r == old(self).players@[old(self).current_player_turn as int],
            final(self).players@ == old(self).players@.update(old(self).current_player_turn as int, *final(r)),
            *final(self) == (Game { players: final(self).players, ..*old(self) }),
    {
        let i = self.current_player_turn;
        &mut self.players[i]
    }

    /// Position of the player whose turn follows, in the game's turn order.
    pub fn next_player_index(&self) -> (r: usize)
        requires
            self.turn_order == Order::Backward ==> (self.current_player_turn as i32) > i32::MIN
                && ((self.current_player_turn as i32) < 1 ==> self.players.len() > 0),
        ensures
            r == next_index(self.turn_order, self.current_player_turn, self.players.len() as nat),
    {
        match self.turn_order {
            Order::Forward => {
                if self.players.len() == 0 || self.current_player_turn >= self.players.len() - 1 {
                    0
                } else {
                    self.current_player_turn + 1
                }
            },
            Order::Backward => {
                if (self.current_player_turn as i32) < 1 {
                    self.players.len() - 1
                } else {
                    self.current_player_turn - 1
                }
            },
        }
    }

    /// Passes the turn to the next player: its turn ends a turn's duration after `now_ms`, plus the
    /// time the web app takes to show the last play; that time is reset.
    pub fn advance_turn(&mut self, now_ms: i64)
        requires
            old(self).turn_order == Order::Backward ==> (old(self).current_player_turn as i32) > i32::MIN
                && ((old(self).current_player_turn as i32) < 1 ==> old(self).players.len() > 0),
            now_ms + TURN_DURATION_MS + old(self).estimated_turn_end_offset <= i64::MAX,
        ensures
            final(self).current_player_turn == next_index(old(self).turn_order, old(self).current_player_turn, old(self).players.len() as nat),
            final(self).current_player_turn_end == now_ms + TURN_DURATION_MS + old(self).estimated_turn_end_offset,
            final(self).estimated_turn_end_offset == 0,
            final(self).players == old(self).players,
            final(self).pile == old(self).pile,
            final(self).player_profiles == old(self).player_profiles,
            final(self).turn_order == old(self).turn_order,
            final(self).state == old(self).state,
    {
        self.current_player_turn = self.next_player_index();
        let end: i128 = now_ms as i128 + TURN_DURATION_MS as i128 + self.estimated_turn_end_offset as i128;
        self.current_player_turn_end = end as i64;
        self.estimated_turn_end_offset = 0;
    }

    /// Moves every player's discarded cards, player after player, to the end of the pile.
    pub fn collect_discard_cards(&mut self)
        ensures
            final(self).pile@ == pile_with_discards(old(self).pile@, players_view(old(self).players@)),
            final(self).players.len() == old(self).players.len(),
            forall|i: int| 0 <= i < old(self).players.len() ==> (#[trigger] final(self).players@[i])@
                == (PlayerView { discard: Seq::empty(), ..old(self).players@[i]@ }),
            final(self).player_profiles == old(self).player_profiles,
            final(self).current_player_turn == old(self).current_player_turn,
            final(self).current_player_turn_end == old(self).current_player_turn_end,
            final(self).estimated_turn_end_offset == old(self).estimated_turn_end_offset,
            final(self).turn_order == old(self).turn_order,
            final(self).state == old(self).state,
    {
        let ghost pv0 = players_view(self.players@);
        let mut i: usize = 0;
        while i < self.players.len()
            invariant
                i <= self.players.len(),
                self.players.len() == pv0.len(),
                pv0 == players_view(old(self).players@),
                self.pile@ == pile_with_discards(old(self).pile@, pv0.take(i as int)),
                forall|k: int| 0 <= k < i ==> (#[trigger] self.players@[k])@ == (PlayerView { discard: Seq::empty(), ..pv0[k] }),
                forall|k: int| i <= k < self.players.len() ==> (#[trigger] self.players@[k]) == old(self).players@[k],
                self.player_profiles == old(self).player_profiles,
                self.current_player_turn == old(self).current_player_turn,
                self.current_player_turn_end == old(self).current_player_turn_end,
                self.estimated_turn_end_offset == old(self).estimated_turn_end_offset,
                self.turn_order == old(self).turn_order,
                self.state == old(self).state,
            decreases self.players.len() - i,
        {
            proof {
                assert(pv0.take(i + 1).drop_last() =~= pv0.take(i as int));
                assert(pv0[i as int] == old(self).players@[i as int]@);
            }
            self.pile.append(&mut self.players[i].discard_cards);
            i = i + 1;
        }
        proof {
            assert(pv0.take(i as int) =~= pv0);
        }
    }

    /// Removes from player `player_index` the buffs that end with this play: those lasting until the
    /// end of the turn, and those lasting until used that the play used.
    pub fn remove_player_buffs_used(&mut self, player_index: usize, buffs_used: HashSet<usize>)
        requires
            player_index < old(self).players.len(),
        ensures
            players_view(final(self).players@) == players_view(old(self).players@).update(
                player_index as int,
                PlayerView { buffs: kept_buffs(old(self).players@[player_index as int].buffs@, buffs_used@), ..old(self).players@[player_index as int]@ },
            ),
            final(self).pile == old(self).pile,
            final(self).player_profiles == old(self).player_profiles,
            final(self).current_player_turn == old(self).current_player_turn,
            final(self).current_player_turn_end == old(self).current_player_turn_end,
            final(self).estimated_turn_end_offset == old(self).estimated_turn_end_offset,
            final(self).turn_order == old(self).turn_order,
            final(self).state == old(self).state,
    {
        let ghost players0 = self.players@;
        let ghost buffs0 = self.players@[player_index as int].buffs@;
        let mut kept: Vec<Rc<BuffInfo>> = Vec::new();
        let mut i: usize = 0;
        while i < self.players[player_index].buffs.len()
            invariant
                player_index < self.players.len(),
                self.players@ == players0,
                buffs0 == self.players@[player_index as int].buffs@,
                i <= buffs0.len(),
                kept@ == kept_buffs(buffs0.take(i as int), buffs_used@),
            decreases buffs0.len() - i,
        {
            proof {
                assert(buffs0.take(i + 1).drop_last() =~= buffs0.take(i as int));
            }
            let b = &self.players[player_index].buffs[i];
            let keep = match b.get_lifetime() {
                BuffLifeTime::UntilNextTurnEnd => false,
                BuffLifeTime::UntilUsed => !buffs_used.contains(&i),
            };
            if keep {
                kept.push(rc_share(b));
            }
            i = i + 1;
        }
        proof {
            assert(buffs0.take(i as int) =~= buffs0);
        }
        self.players[player_index].buffs = kept;
        proof {
            crate::play::lemma_players_update(players0, player_index as int, self.players@[player_index as int]);
        }
    }

    /// Player `player_id` draws the top card of the pile, when it holds fewer cards than the draw
    /// limit and the pile is not empty. Gives the id of the card drawn.
    pub fn draw_card(&mut self, player_id: PlayerId) -> (r: Result<CardId, String>)
        ensures
            match r {
                Err(e) => {
                    &&& *final(self) == *old(self)
                    &&& {
                        let pv = players_view(old(self).players@);
                        let i = index_of_id(pv, player_id);
                        if i >= pv.len() {
                            e@ == "Player not found"@
                        } else if pv[i].hand.len() >= DRAW_CARD_LIMIT {
                            e@ == "Player can't draw more cards"@
                        } else {
                            old(self).pile@.len() == 0 && e@ == "Pile is empty"@
                        }
                    }
                },
                Ok(id) => {
                    let pv = players_view(old(self).players@);
                    let i = index_of_id(pv, player_id);
                    &&& i < pv.len()
                    &&& pv[i].hand.len() < DRAW_CARD_LIMIT
                    &&& old(self).pile@.len() > 0
                    &&& id == old(self).pile@[0].get_id()
                    &&& final(self).pile@ == old(self).pile@.drop_first()
                    &&& players_view(final(self).players@) == pv.update(i, with_cards(pv[i], seq![old(self).pile@[0]]))
                    &&& final(self).player_profiles == old(self).player_profiles
                    &&& final(self).current_player_turn == old(self).current_player_turn
                    &&& final(self).current_player_turn_end == old(self).current_player_turn_end
                    &&& final(self).estimated_turn_end_offset == old(self).estimated_turn_end_offset
                    &&& final(self).turn_order == old(self).turn_order
                    &&& final(self).state == old(self).state
                },
            },
    {
        let ghost pv = players_view(self.players@);
        let player_index = match find_player(&self.players, player_id) {
            Some(i) => i,
            None => {
                return Err(String::from_str("Player not found"));
            },
        };
        assert(pv[player_index as int] == self.players@[player_index as int]@);
        if self.players[player_index].hand_cards.len() >= DRAW_CARD_LIMIT {
            return Err(String::from_str("Player can't draw more cards"));
        }
        if self.pile.len() == 0 {
            return Err(String::from_str("Pile is empty"));
        }
        let ghost players0 = self.players@;
        let ghost pile0 = self.pile@;
        let _ = Game::give_from_pile(&mut self.pile, &mut self.players[player_index], 1);
        proof {
            crate::play::lemma_players_update(players0, player_index as int, self.players@[player_index as int]);
            assert(pile0.take(1) =~= seq![pile0[0]]);
            assert(pile0.skip(1) =~= pile0.drop_first());
        }
        let card_index = self.players[player_index].hand_cards.len() - 1;
        Ok(self.players[player_index].hand_cards[card_index].get_id())
    }
}


/// The first `players.len()` players, each given up to `amount` cards from the top of the pile in
/// turn; gives the players and the pile left.
pub open spec fn deal(players: Seq<PlayerView>, pile: Seq<Rc<Card>>, amount: usize) -> (Seq<PlayerView>, Seq<Rc<Card>>)
    decreases players.len(),
{
    if players.len() == 0 {
        (Seq::empty(), pile)
    } else {
        let (ps, rest) = deal(players.drop_last(), pile, amount);
        let n = give_count(rest.len(), amount);
        (ps.push(with_cards(players.last(), rest.take(n as int))), rest.skip(n as int))
    }
}

impl Game {
    /// Starts the game: shuffles the pile, gives each player its first cards in turn, and starts the
    /// first turn, ending a turn's duration after `now_ms`.
    pub fn begin(&mut self, now_ms: i64)
        requires
            now_ms + TURN_DURATION_MS <= i64::MAX,
        ensures
            exists|shuffled: Seq<Rc<Card>>| {
                &&& #[trigger] shuffled.to_multiset() == old(self).pile@.to_multiset()
                &&& (players_view(final(self).players@), final(self).pile@)
                    == deal(players_view(old(self).players@), shuffled, INITIAL_HAND_AMOUNT)
            },
            final(self).current_player_turn_end == now_ms + TURN_DURATION_MS,
            final(self).state == GameState::InGame,
            final(self).player_profiles == old(self).player_profiles,
            final(self).current_player_turn == old(self).current_player_turn,
            final(self).estimated_turn_end_offset == old(self).estimated_turn_end_offset,
            final(self).turn_order == old(self).turn_order,
    {
        self.shuffle_pile();
        let ghost shuffled = self.pile@;
        let ghost pv0 = players_view(self.players@);
        let mut i: usize = 0;
        proof {
            assert(pv0.take(0) =~= Seq::<PlayerView>::empty());
        }
        while i < self.players.len()
            invariant
                i <= self.players.len(),
                pv0.len() == self.players.len(),
                pv0 == players_view(old(self).players@),
                (players_view(self.players@).take(i as int), self.pile@) == deal(pv0.take(i as int), shuffled, INITIAL_HAND_AMOUNT),
                forall|k: int| i <= k < self.players.len() ==> (#[trigger] self.players@[k])@ == pv0[k],
                self.player_profiles == old(self).player_profiles,
                self.current_player_turn == old(self).current_player_turn,
                self.estimated_turn_end_offset == old(self).estimated_turn_end_offset,
                self.turn_order == old(self).turn_order,
                shuffled.to_multiset() == old(self).pile@.to_multiset(),
            decreases self.players.len() - i,
        {
            let ghost players0 = self.players@;
            proof {
                assert(pv0.take(i + 1).drop_last() =~= pv0.take(i as int));
                assert(pv0.take(i + 1).last() == pv0[i as int]);
            }
            let _ = Game::give_from_pile(&mut self.pile, &mut self.players[i], INITIAL_HAND_AMOUNT);
            proof {
                crate::play::lemma_players_update(players0, i as int, self.players@[i as int]);
                assert(players_view(self.players@).take(i + 1) =~= players_view(players0).take(i as int).push(self.players@[i as int]@));
            }
            i = i + 1;
        }
        proof {
            assert(pv0.take(i as int) =~= pv0);
            assert(players_view(self.players@).take(i as int) =~= players_view(self.players@));
        }
        self.current_player_turn_end = now_ms + TURN_DURATION_MS;
        self.state = GameState::InGame;
    }
}


/// Positions of the targets given by id (the first player with each id); `None` when an id is the
/// player's own or no player has it.
pub open spec fn target_positions(players: Seq<PlayerView>, ids: Seq<PlayerId>, player_id: PlayerId) -> Option<Seq<usize>>
    decreases ids.len(),
{
    if ids.len() == 0 {
        Some(Seq::empty())
    } else {
        match target_positions(players, ids.drop_last(), player_id) {
            None => None,
            Some(ps) => {
                let id = ids.last();
                let i = index_of_id(players, id);
                if id == player_id || i >= players.len() { None } else { Some(ps.push(i as usize)) }
            },
        }
    }
}

/// The players after a play of the card at `card_index` by player `p`: its buffs that end with the
/// play are removed, the card leaves its hand for its discarded cards, and the card's buffs are
/// granted to it. `None` when the hand no longer holds that position.
pub open spec fn finish_play(players: Seq<PlayerView>, p: int, card_index: int, used: Set<usize>) -> Option<Seq<PlayerView>> {
    let pl = players[p];
    if card_index >= pl.hand.len() {
        None
    } else {
        let c = pl.hand[card_index];
        Some(
            players.update(
                p,
                PlayerView {
                    hand: pl.hand.remove(card_index),
                    discard: pl.discard.push(c),
                    buffs: kept_buffs(pl.buffs, used) + c.spec_buffs(),
                    ..pl
                },
            ),
        )
    }
}

/// Why `play_card` refuses a play before the card acts, if it does: not the player's turn, unknown
/// player, invalid target, or no card at that position of the hand.
pub open spec fn play_card_refusal(g: Game, player_id: PlayerId, card_index: usize, targets: Seq<PlayerId>) -> Option<Seq<char>> {
    let pv = players_view(g.players@);
    let i = index_of_id(pv, player_id);
    if pv[g.current_player_turn as int].id != player_id {
        Some("Not player's current turn"@)
    } else if i >= pv.len() {
        Some("Player not found"@)
    } else if target_positions(pv, targets, player_id) is None {
        Some("Invalid target ID"@)
    } else if card_index >= pv[i].hand.len() {
        Some("Card not in hand"@)
    } else {
        None
    }
}

/// The play that `play_card` makes, with dice rolls `rolls` and shuffled lists `logs`.
pub open spec fn play_card_play(g: Game, player_id: PlayerId, card_index: usize, targets: Seq<PlayerId>, rolls: Seq<u8>, logs: Seq<Seq<Seq<usize>>>) -> Option<PlayState> {
    let pv = players_view(g.players@);
    let i = index_of_id(pv, player_id);
    card_play(*pv[i].hand[card_index as int], i, target_positions(pv, targets, player_id).unwrap(), rolls, logs,
        initial_state(pv, g.pile@))
}

/// The shuffled lists of the play that `play_card` makes are those its card draws.
pub open spec fn play_card_logs(g: Game, player_id: PlayerId, card_index: usize, targets: Seq<PlayerId>, rolls: Seq<u8>, logs: Seq<Seq<Seq<usize>>>) -> bool {
    let pv = players_view(g.players@);
    let i = index_of_id(pv, player_id);
    valid_logs(*pv[i].hand[card_index as int], i, target_positions(pv, targets, player_id).unwrap(), rolls, logs,
        initial_state(pv, g.pile@))
}

/// Dice rolls a play by `play_card` needs.
pub open spec fn play_card_rolls(g: Game, player_id: PlayerId, card_index: usize, targets: Seq<PlayerId>) -> nat {
    let pv = players_view(g.players@);
    let i = index_of_id(pv, player_id);
    rolls_needed(*pv[i].hand[card_index as int], pv.len(), targets.len())
}

/// The play can be carried out without overflow or panic: the card acts, and after a play without
/// error the card is still in the hand and the time to show the actions adds up within a `Duration`.
pub open spec fn play_card_defined(g: Game, player_id: PlayerId, card_index: usize, targets: Seq<PlayerId>) -> bool {
    play_card_refusal(g, player_id, card_index, targets) is None ==> forall|rolls: Seq<u8>, logs: Seq<Seq<Seq<usize>>>|
        dice_rolls(rolls) && rolls.len() == play_card_rolls(g, player_id, card_index, targets)
        ==> {
            let res = #[trigger] play_card_play(g, player_id, card_index, targets, rolls, logs);
            &&& res is Some
            &&& res.unwrap().error is None ==> {
                &&& finish_play(res.unwrap().players, index_of_id(players_view(g.players@), player_id), card_index as int, res.unwrap().buffs_used) is Some
                &&& g.estimated_turn_end_offset + actions_time(res.unwrap().actions) < DURATION_LIMIT_MS
            }
        }
}

/// The game after `play_card` made the play `res` (the game `g` before it).
pub open spec fn play_card_result(g: Game, player_id: PlayerId, card_index: usize, res: PlayState, r: Result<PlayInfo, String>, g2: Game) -> bool {
    let pv = players_view(g.players@);
    let i = index_of_id(pv, player_id);
    &&& g2.pile@ == res.pile
    &&& g2.player_profiles == g.player_profiles
    &&& g2.current_player_turn == g.current_player_turn
    &&& g2.current_player_turn_end == g.current_player_turn_end
    &&& g2.turn_order == g.turn_order
    &&& match r {
        Err(e) => {
            &&& res.error is Some
            &&& e@ == error_message(res.error.unwrap())
            &&& players_view(g2.players@) == res.players
            &&& g2.estimated_turn_end_offset == g.estimated_turn_end_offset
            &&& g2.state == g.state
        },
        Ok(info) => {
            let players = finish_play(res.players, i, card_index as int, res.buffs_used).unwrap();
            &&& res.error is None
            &&& info@ == res.actions
            &&& players_view(g2.players@) == players
            &&& g2.estimated_turn_end_offset == g.estimated_turn_end_offset + actions_time(res.actions)
            &&& g2.state == state_after_play(g.state, players, players[g.current_player_turn as int].id)
        },
    }
}


impl Game {
    /// Updates the game's state once a card was played: the game is over when one player (the
    /// winner) or none (the winner is the current player) is alive.
    fn check_game_over(&mut self)
        requires
            old(self).current_player_turn < old(self).players.len(),
        ensures
            final(self).state == state_after_play(old(self).state, players_view(old(self).players@),
                old(self).players@[old(self).current_player_turn as int].id),
            final(self).players == old(self).players,
            final(self).pile == old(self).pile,
            final(self).player_profiles == old(self).player_profiles,
            final(self).current_player_turn == old(self).current_player_turn,
            final(self).current_player_turn_end == old(self).current_player_turn_end,
            final(self).estimated_turn_end_offset == old(self).estimated_turn_end_offset,
            final(self).turn_order == old(self).turn_order,
    {
        let ghost pv = players_view(self.players@);
        let mut count: usize = 0;
        let mut first: PlayerId = 0;
        let mut i: usize = 0;
        while i < self.players.len()
            invariant
                i <= self.players.len(),
                pv == players_view(self.players@),
                count == alive(pv.take(i as int)).len(),
                count <= i,
                count > 0 ==> first == alive(pv.take(i as int))[0].id,
            decreases self.players.len() - i,
        {
            proof {
                assert(pv.take(i + 1).drop_last() =~= pv.take(i as int));
                assert(pv[i as int] == self.players@[i as int]@);
            }
            if self.players[i].health > 0 {
                if count == 0 {
                    first = self.players[i].id;
                }
                count = count + 1;
            }
            i = i + 1;
        }
        proof {
            assert(pv.take(i as int) =~= pv);
        }
        if count == 1 {
            self.state = GameState::EndGame { winner_id: first };
        } else if count == 0 {
            self.state = GameState::EndGame { winner_id: self.current_player_id() };
        }
    }

    /// Player `player_id` plays the card at `card_index` of its hand on the players with ids
    /// `targets`, on its turn. After a play without error, the buffs that end with it are removed,
    /// the card goes to the player's discarded cards, its buffs are granted to the player, the game
    /// ends if at most one player is alive, and the time to show the actions is added to the turn.
    /// Gives the actions done, or the error (the game keeps what the play did before an error).
    pub fn play_card(&mut self, player_id: PlayerId, card_index: usize, targets: Vec<PlayerId>) -> (r: Result<PlayInfo, String>)
        requires
            old(self).current_player_turn < old(self).players.len(),
            targets.len() < usize::MAX,
            play_card_defined(*old(self), player_id, card_index, targets@),
        ensures
            match play_card_refusal(*old(self), player_id, card_index, targets@) {
                Some(msg) => r matches Err(e) && e@ == msg && *final(self) == *old(self),
                None => exists|rolls: Seq<u8>, logs: Seq<Seq<Seq<usize>>>|
                    dice_rolls(rolls) && rolls.len() == play_card_rolls(*old(self), player_id, card_index, targets@)
                    && play_card_logs(*old(self), player_id, card_index, targets@, rolls, logs)
                    && play_card_result(*old(self), player_id, card_index,
                        (#[trigger] play_card_play(*old(self), player_id, card_index, targets@, rolls, logs)).unwrap(), r, *final(self)),
            },
    {
        let ghost g0 = *self;
        let ghost pv = players_view(self.players@);
        assert(pv[self.current_player_turn as int] == self.players@[self.current_player_turn as int]@);
        if self.current_player_id() != player_id {
            return Err(String::from_str("Not player's current turn"));
        }
        let player_index = match find_player(&self.players, player_id) {
            Some(i) => i,
            None => {
                return Err(String::from_str("Player not found"));
            },
        };
        let mut target_indices: Vec<usize> = Vec::new();
        let mut k: usize = 0;
        while k < targets.len()
            invariant
                k <= targets.len(),
                *self == g0,
                pv == players_view(self.players@),
                target_positions(pv, targets@.take(k as int), player_id) == Some(target_indices@),
                target_indices.len() == k,
                forall|j: int| 0 <= j < target_indices.len() ==> target_indices[j] < self.players.len(),
                player_index == index_of_id(pv, player_id),
                player_index < pv.len(),
                pv[g0.current_player_turn as int].id == player_id,
            decreases targets.len() - k,
        {
            proof {
                assert(targets@.take(k + 1).drop_last() =~= targets@.take(k as int));
            }
            let id = targets[k];
            if id == player_id {
                proof {
                    assert(target_positions(pv, targets@.take(k + 1), player_id) is None);
                    lemma_target_positions_none(pv, targets@, player_id, k + 1);
                    assert(play_card_refusal(g0, player_id, card_index, targets@) == Some("Invalid target ID"@));
                }
                return Err(String::from_str("Invalid target ID"));
            }
            match find_player(&self.players, id) {
                Some(i) => {
                    target_indices.push(i);
                },
                None => {
                    proof {
                        assert(target_positions(pv, targets@.take(k + 1), player_id) is None);
                        lemma_target_positions_none(pv, targets@, player_id, k + 1);
                        assert(play_card_refusal(g0, player_id, card_index, targets@) == Some("Invalid target ID"@));
                    }
                    return Err(String::from_str("Invalid target ID"));
                },
            }
            k = k + 1;
        }
        proof {
            assert(targets@.take(k as int) =~= targets@);
        }
        assert(pv[player_index as int] == self.players@[player_index as int]@);
        if card_index >= self.players[player_index].hand_cards.len() {
            return Err(String::from_str("Card not in hand"));
        }
        let card = rc_share(&self.players[player_index].hand_cards[card_index]);
        let ghost s0 = initial_state(pv, self.pile@);
        let ghost tgt = target_indices@;
        proof {
            assert(play_card_refusal(g0, player_id, card_index, targets@) is None);
            assert(target_positions(pv, targets@, player_id) == Some(tgt));
            assert(*card == *pv[player_index as int].hand[card_index as int]);
            assert forall|rolls: Seq<u8>, logs: Seq<Seq<Seq<usize>>>|
                dice_rolls(rolls) && rolls.len() == rolls_needed(*card, pv.len(), tgt.len() as nat)
                implies (#[trigger] card_play(*card, player_index as int, tgt, rolls, logs, s0)) is Some by {
                assert(play_card_play(g0, player_id, card_index, targets@, rolls, logs) is Some);
            }
        }
        let res = card.play(player_index, target_indices, self);
        let ghost g1 = *self;
        match res {
            Ok((info, used)) => {
                let ghost rolls_logs: (Seq<u8>, Seq<Seq<Seq<usize>>>) = choose|rolls: Seq<u8>, logs: Seq<Seq<Seq<usize>>>|
                    dice_rolls(rolls) && rolls.len() == rolls_needed(*card, pv.len(), tgt.len() as nat)
                    && valid_logs(*card, player_index as int, tgt, rolls, logs, s0) && play_outcome(
                        card_play(*card, player_index as int, tgt, rolls, logs, s0), Ok((info, used)), g1);
                let ghost rs = play_card_play(g0, player_id, card_index, targets@, rolls_logs.0, rolls_logs.1).unwrap();
                proof {
                    assert(play_card_play(g0, player_id, card_index, targets@, rolls_logs.0, rolls_logs.1)
                        == card_play(*card, player_index as int, tgt, rolls_logs.0, rolls_logs.1, s0));
                }
                proof {
                    assert(players_view(g1.players@).len() == g1.players@.len());
                    assert(players_view(g1.players@)[player_index as int] == g1.players@[player_index as int]@);
                }
                self.remove_player_buffs_used(player_index, used);
                let ghost players1 = self.players@;
                let ghost pl0 = g1.players@[player_index as int]@;
                assert(players_view(players1).len() == players1.len());
                assert(players_view(players1)[player_index as int] == players1[player_index as int]@);
                assert(play_card_rolls(g0, player_id, card_index, targets@) == rolls_needed(*card, pv.len(), tgt.len() as nat));
                assert(rs.error is None);
                assert(finish_play(rs.players, player_index as int, card_index as int, rs.buffs_used) is Some);
                let c = self.players[player_index].hand_cards.remove(card_index);
                let buffs = c.get_buffs();
                let mut j: usize = 0;
                let ghost base_buffs = self.players@[player_index as int].buffs@;
                while j < buffs.len()
                    invariant
                        j <= buffs.len(),
                        player_index < self.players.len(),
                        players1.len() == self.players.len(),
                        self.players@ == players1.update(player_index as int, self.players@[player_index as int]),
                        self.players@[player_index as int].buffs@ == base_buffs + buffs@.take(j as int),
                        self.players@[player_index as int].hand_cards@ == players1[player_index as int].hand_cards@.remove(card_index as int),
                        self.players@[player_index as int].discard_cards@ == players1[player_index as int].discard_cards@,
                        self.players@[player_index as int].id == players1[player_index as int].id,
                        self.players@[player_index as int].name == players1[player_index as int].name,
                        self.players@[player_index as int].health == players1[player_index as int].health,
                        self.pile == g1.pile,
                        self.player_profiles == g1.player_profiles,
                        self.current_player_turn == g1.current_player_turn,
                        self.current_player_turn_end == g1.current_player_turn_end,
                        self.estimated_turn_end_offset == g1.estimated_turn_end_offset,
                        self.turn_order == g1.turn_order,
                        self.state == g1.state,
                    decreases buffs.len() - j,
                {
                    assert(base_buffs + buffs@.take(j + 1) =~= (base_buffs + buffs@.take(j as int)).push(buffs@[j as int]));
                    let b = rc_share(&buffs[j]);
                    self.players[player_index].buffs.push(b);
                    j = j + 1;
                }
                self.players[player_index].discard_cards.push(c);
                proof {
                    assert(buffs@.take(j as int) =~= buffs@);
                    let fin = finish_play(rs.players, player_index as int, card_index as int, rs.buffs_used).unwrap();
                    crate::play::lemma_players_update(players1, player_index as int, self.players@[player_index as int]);
                    assert(self.players@ == players1.update(player_index as int, self.players@[player_index as int]));
                    assert(players_view(self.players@) =~= fin);
                }
                let ghost g2 = *self;
                self.check_game_over();
                self.estimated_turn_end_offset = self.estimated_turn_end_offset + info.get_estimated_time();
                proof {
                    let fin = finish_play(rs.players, player_index as int, card_index as int, rs.buffs_used).unwrap();
                    assert(players_view(g2.players@) == fin);
                    assert(g2.players@[g2.current_player_turn as int].id == fin[g0.current_player_turn as int].id);
                    assert(play_card_result(g0, player_id, card_index, rs, Ok(info), *self));
                }
                Ok(info)
            },
            Err(msg) => {
                proof {
                    let (rolls, logs) = choose|rolls: Seq<u8>, logs: Seq<Seq<Seq<usize>>>|
                        dice_rolls(rolls) && rolls.len() == rolls_needed(*card, pv.len(), tgt.len() as nat)
                        && valid_logs(*card, player_index as int, tgt, rolls, logs, s0) && play_outcome(
                            card_play(*card, player_index as int, tgt, rolls, logs, s0), Err(msg), g1);
                    assert(play_card_play(g0, player_id, card_index, targets@, rolls, logs)
                        == card_play(*card, player_index as int, tgt, rolls, logs, s0));
                    assert(play_card_rolls(g0, player_id, card_index, targets@) == rolls_needed(*card, pv.len(), tgt.len() as nat));
                    assert(play_card_result(g0, player_id, card_index,
                        play_card_play(g0, player_id, card_index, targets@, rolls, logs).unwrap(), Err(msg), *self));
                }
                Err(msg)
            },
        }
    }
}

pub proof fn lemma_target_positions_none(players: Seq<PlayerView>, ids: Seq<PlayerId>, player_id: PlayerId, k: int)
    requires
        0 < k <= ids.len(),
        target_positions(players, ids.take(k), player_id) is None,
    ensures
        target_positions(players, ids, player_id) is None,
    decreases ids.len(),
{
    if k < ids.len() {
        assert(ids.drop_last().take(k) =~= ids.take(k));
        lemma_target_positions_none(players, ids.drop_last(), player_id, k);
    } else {
        assert(ids.take(k) =~= ids);
    }
}


/// The players other than those with id `id`, in order.
pub open spec fn opponents_of(players: Seq<PlayerView>, id: PlayerId) -> Seq<PlayerView>
    decreases players.len(),
{
    if players.len() == 0 {
        Seq::empty()
    } else {
        let prev = opponents_of(players.drop_last(), id);
        if players.last().id != id { prev.push(players.last()) } else { prev }
    }
}

/// The opponent state shows the opponent's id, health (taken as a `u32`), number of cards in hand
/// (taken as a `u32`) and discarded cards.
pub open spec fn shows_opponent(o: OpponentState, p: PlayerView) -> bool {
    &&& o.player_id == p.id
    &&& o.health == p.health as u32
    &&& o.card_count == p.hand.len() as u32
    &&& o.discard_cards@ == card_ids(p.discard)
}

/// `st` is the game `g` as player `id` sees it: whose turn it is and until when, its health, hand and
/// discarded cards, what it sees of each opponent, and the number of cards in the pile.
pub open spec fn is_status_of(st: GameStateForPlayer, g: Game, id: PlayerId) -> bool {
    let pv = players_view(g.players@);
    let i = index_of_id(pv, id);
    &&& st.current_player_turn == pv[g.current_player_turn as int].id
    &&& st.current_player_turn_end == g.current_player_turn_end
    &&& st.health == pv[i].health as u32
    &&& st.cards@ == card_ids(pv[i].hand)
    &&& st.discard_cards@ == card_ids(pv[i].discard)
    &&& st.cards_in_pile == g.pile@.len() as u32
    &&& st.opponents.len() == opponents_of(pv, id).len()
    &&& forall|k: int| 0 <= k < st.opponents.len() ==> shows_opponent(
        #[trigger] st.opponents@[k],
        opponents_of(pv, id)[k],
    )
}

/// The players differ at most in which cards the opponents of `id` hold, each opponent holding as
/// many cards in both.
pub open spec fn same_but_opponent_hands(pv1: Seq<PlayerView>, pv2: Seq<PlayerView>, id: PlayerId) -> bool {
    &&& pv1.len() == pv2.len()
    &&& forall|k: int| 0 <= k < pv1.len() ==> {
        &&& (#[trigger] pv1[k]).id == pv2[k].id
        &&& pv1[k].health == pv2[k].health
        &&& pv1[k].discard == pv2[k].discard
        &&& pv1[k].hand.len() == pv2[k].hand.len()
        &&& pv1[k].id == id ==> pv1[k].hand == pv2[k].hand
    }
}

pub proof fn lemma_opponents_same_view(pv1: Seq<PlayerView>, pv2: Seq<PlayerView>, id: PlayerId)
    requires
        same_but_opponent_hands(pv1, pv2, id),
    ensures
        opponents_of(pv1, id).len() == opponents_of(pv2, id).len(),
        forall|k: int| 0 <= k < opponents_of(pv1, id).len() ==> {
            &&& (#[trigger] opponents_of(pv1, id)[k]).id == opponents_of(pv2, id)[k].id
            &&& opponents_of(pv1, id)[k].health == opponents_of(pv2, id)[k].health
            &&& opponents_of(pv1, id)[k].hand.len() == opponents_of(pv2, id)[k].hand.len()
            &&& opponents_of(pv1, id)[k].discard == opponents_of(pv2, id)[k].discard
        },
    decreases pv1.len(),
{
    if pv1.len() > 0 {
        let d1 = pv1.drop_last();
        let d2 = pv2.drop_last();
        assert forall|k: int| 0 <= k < d1.len() implies {
            &&& (#[trigger] d1[k]).id == d2[k].id
            &&& d1[k].health == d2[k].health
            &&& d1[k].discard == d2[k].discard
            &&& d1[k].hand.len() == d2[k].hand.len()
            &&& d1[k].id == id ==> d1[k].hand == d2[k].hand
        } by {
            assert(d1[k] == pv1[k] && d2[k] == pv2[k]);
        }
        lemma_opponents_same_view(d1, d2, id);
        assert(pv1.last() == pv1[pv1.len() - 1] && pv2.last() == pv2[pv2.len() - 1]);
    }
}

pub proof fn lemma_index_of_same_ids(pv1: Seq<PlayerView>, pv2: Seq<PlayerView>, id: PlayerId)
    requires
        pv1.len() == pv2.len(),
        forall|k: int| 0 <= k < pv1.len() ==> (#[trigger] pv1[k]).id == pv2[k].id,
    ensures
        index_of_id(pv1, id) == index_of_id(pv2, id),
    decreases pv1.len(),
{
    if pv1.len() > 0 {
        assert(pv1[0].id == pv2[0].id);
        let d1 = pv1.drop_first();
        let d2 = pv2.drop_first();
        assert forall|k: int| 0 <= k < d1.len() implies (#[trigger] d1[k]).id == d2[k].id by {
            assert(d1[k] == pv1[k + 1] && d2[k] == pv2[k + 1]);
        }
        lemma_index_of_same_ids(d1, d2, id);
    }
}

/// A player's view of the game shows the opponents' hands only by their sizes: two games that
/// differ only in which cards the opponents hold, each holding as many, look the same to it.
pub proof fn law_opponent_hands_hidden(g1: Game, g2: Game, id: PlayerId, st: GameStateForPlayer)
    requires
        same_but_opponent_hands(players_view(g1.players@), players_view(g2.players@), id),
        g1.current_player_turn == g2.current_player_turn,
        g1.current_player_turn < g1.players.len(),
        g1.current_player_turn_end == g2.current_player_turn_end,
        g1.pile@.len() == g2.pile@.len(),
        index_of_id(players_view(g1.players@), id) < g1.players.len(),
    ensures
        is_status_of(st, g1, id) <==> is_status_of(st, g2, id),
{
    let pv1 = players_view(g1.players@);
    let pv2 = players_view(g2.players@);
    lemma_opponents_same_view(pv1, pv2, id);
    lemma_index_of_same_ids(pv1, pv2, id);
    lemma_index_of_id_bound(pv1, id);
    let i = index_of_id(pv1, id);
    assert(pv1[i].id == id);
    assert(pv1[g1.current_player_turn as int].id == pv2[g2.current_player_turn as int].id);
}

impl Game {
    /// The game as player `player_id` sees it: whose turn it is and until when, its health, hand and
    /// discarded cards, what it sees of each opponent, and the number of cards in the pile.
    pub fn status_for_player(&self, player_id: PlayerId) -> (r: Result<GameStateForPlayer, String>)
        requires
            self.current_player_turn < self.players.len(),
        ensures
            ({
                let pv = players_view(self.players@);
                let i = index_of_id(pv, player_id);
                match r {
                    Err(e) => i >= pv.len() && e@ == "Player not found"@,
                    Ok(st) => i < pv.len() && is_status_of(st, *self, player_id),
                }
            }),
    {
        let ghost pv = players_view(self.players@);
        let player_index = match find_player(&self.players, player_id) {
            Some(i) => i,
            None => {
                return Err(String::from_str("Player not found"));
            },
        };
        let player = &self.players[player_index];
        assert(pv[player_index as int] == player@);
        let mut opponents: Vec<OpponentState> = Vec::new();
        let mut i: usize = 0;
        while i < self.players.len()
            invariant
                i <= self.players.len(),
                pv == players_view(self.players@),
                opponents.len() == opponents_of(pv.take(i as int), player_id).len(),
                forall|k: int| 0 <= k < opponents.len() ==> shows_opponent(
                    #[trigger] opponents@[k],
                    opponents_of(pv.take(i as int), player_id)[k],
                ),
            decreases self.players.len() - i,
        {
            proof {
                assert(pv.take(i + 1).drop_last() =~= pv.take(i as int));
                assert(pv[i as int] == self.players@[i as int]@);
            }
            let opp = &self.players[i];
            if opp.id != player_id {
                let o = OpponentState {
                    player_id: opp.id,
                    health: opp.health as u32,
                    card_count: opp.hand_cards.len() as u32,
                    discard_cards: card_ids_of(&opp.discard_cards),
                };
                opponents.push(o);
            }
            i = i + 1;
        }
        proof {
            assert(pv.take(i as int) =~= pv);
        }
        assert(pv[self.current_player_turn as int] == self.players@[self.current_player_turn as int]@);
        Ok(GameStateForPlayer {
            current_player_turn: self.current_player_id(),
            current_player_turn_end: self.current_player_turn_end,
            health: player.health as u32,
            cards: card_ids_of(&player.hand_cards),
            discard_cards: card_ids_of(&player.discard_cards),
            opponents,
            cards_in_pile: self.pile.len() as u32,
        })
    }
}

} // verus!
