//! The engine itself: the registry of live games, their moves, the two
//! expiry indices and the account balances, with the four state-changing
//! operations (start, join, reveal, tick). Each operation's contract says
//! that it performs exactly the corresponding transition of the model in
//! `state`.

use vstd::prelude::*;

use crate::assoc::{
    key_index, lemma_key_index, lemma_lookup_absent, lemma_lookup_at_index, lookup, remove_key,
    store,
};
use crate::game::{Game, GameStage, Hand, Move};
use crate::hashing::{hash_move, Digest};
use crate::settlement::settle;
use crate::state::{
    balance_of, bucket_of, credit, credit_all, end_betting_all, end_game_all,
    end_game_all_events, index_append, lemma_wf_end_betting, lemma_wf_end_game, lemma_wf_join,
    lemma_wf_lookup, lemma_wf_reveal, lemma_wf_start, lemma_wf_tick, spec_end_betting,
    spec_end_game, spec_join, spec_reveal_move, spec_start, spec_tick, spec_tick_events,
    spec_valid_round_length, well_formed, GameRecord, StateView,
};

verus! {

/// Why an operation was rejected; every rejection leaves the state unchanged.
#[derive(Clone, Copy, PartialEq, Eq, Structural, Debug)]
pub enum Error {
    /// Round length is outside the configured bounds.
    RoundLengthInvalid,
    /// The actor cannot pay the stake.
    MoneyNotEnough,
    /// A game under this commitment already exists.
    GameExists,
    /// No game exists under this identifier.
    GameMissing,
    /// The game is not in the stage this action needs.
    GameWrongStage,
    /// The player already made a move in this game.
    PlayerMoveMade,
    /// The player made no move in this game.
    PlayerMoveMissing,
    /// The reveal's leading byte does not decode to a hand.
    PlayerMoveInvalid,
    /// The reveal does not hash to the player's commitment.
    PlayerRevealMismatch,
}

/// What an accepted operation reports to outside observers.
#[derive(Clone, Debug)]
pub enum Event {
    /// A game was created.
    GameStarted { game_id: Digest, owner: u64, round_length: u64, bet: u64 },
    /// A player joined a game.
    BetPlaced { game_id: Digest, player: u64 },
    /// A player revealed their move.
    MoveRevealed { game_id: Digest, player: u64 },
    /// A game was settled and removed: each listed player received `reward`.
    GameEnded { game_id: Digest, winners: Vec<u64>, reward: u64 },
}

/// The configured bounds on a game's round length.
#[derive(Clone, Copy, PartialEq, Eq, Structural, Debug)]
pub struct Config {
    pub min_round_length: u64,
    pub max_round_length: u64,
}

/// One live game and its moves, keyed by player.
pub struct GameEntry {
    pub game: Game,
    pub moves: Vec<(u64, Move)>,
}

impl View for GameEntry {
    type V = GameRecord;

    open spec fn view(&self) -> GameRecord {
        GameRecord { game: self.game, moves: self.moves@ }
    }
}

/// The games table as the model sees it.
pub open spec fn games_view(v: Seq<(Digest, GameEntry)>) -> Seq<(Digest, GameRecord)> {
    v.map_values(|e: (Digest, GameEntry)| (e.0, e.1@))
}

/// An expiry index as the model sees it.
pub open spec fn index_view(v: Seq<(u64, Vec<Digest>)>) -> Seq<(u64, Seq<Digest>)> {
    v.map_values(|e: (u64, Vec<Digest>)| (e.0, e.1@))
}

/// The engine: configuration, clock, live games with their moves, the two
/// expiry indices, and the account balances.
pub struct Pallet {
    pub config: Config,
    pub now: u64,
    pub games: Vec<(Digest, GameEntry)>,
    pub betting_index: Vec<(u64, Vec<Digest>)>,
    pub revealing_index: Vec<(u64, Vec<Digest>)>,
    pub balances: Vec<(u64, u64)>,
}

impl View for Pallet {
    type V = StateView;

    open spec fn view(&self) -> StateView {
        StateView {
            min_round_length: self.config.min_round_length,
            max_round_length: self.config.max_round_length,
            now: self.now,
            games: games_view(self.games@),
            betting_index: index_view(self.betting_index@),
            revealing_index: index_view(self.revealing_index@),
            balances: self.balances@,
        }
    }
}

/// Find the position of a game in the table.
fn game_table_index(games: &Vec<(Digest, GameEntry)>, game_id: &Digest) -> (r: Option<usize>)
    ensures
        match r {
            Some(i) => {
                &&& i < games@.len()
                &&& i as int == key_index(games_view(games@), *game_id)
                &&& games@[i as int].0 == *game_id
                &&& lookup(games_view(games@), *game_id) == Some(games@[i as int].1@)
            },
            None => lookup(games_view(games@), *game_id) is None,
        },
{
    let ghost gv = games_view(games@);
    let mut i: usize = 0;
    while i < games.len()
        invariant
            0 <= i <= games@.len(),
            gv == games_view(games@),
            gv.len() == games@.len(),
            forall|j: int| 0 <= j < i ==> (#[trigger] gv[j]).0 != *game_id,
            forall|j: int| 0 <= j < games@.len() ==> (#[trigger] gv[j]) == (
                games@[j].0,
                games@[j].1@,
            ),
        decreases games@.len() - i,
    {
        if games[i].0 == *game_id {
            proof {
                lemma_lookup_at_index(gv, *game_id, i as int);
                lemma_key_index(gv, *game_id);
            }
            return Some(i);
        }
        i = i + 1;
    }
    proof {
        lemma_lookup_absent(gv, *game_id);
    }
    None
}

/// Find the position of a time point in an expiry index.
fn index_table_index(index: &Vec<(u64, Vec<Digest>)>, t: u64) -> (r: Option<usize>)
    ensures
        match r {
            Some(i) => {
                &&& i < index@.len()
                &&& i as int == key_index(index_view(index@), t)
                &&& index@[i as int].0 == t
                &&& lookup(index_view(index@), t) == Some(index@[i as int].1@)
            },
            None => lookup(index_view(index@), t) is None,
        },
{
    let ghost iv = index_view(index@);
    let mut i: usize = 0;
    while i < index.len()
        invariant
            0 <= i <= index@.len(),
            iv == index_view(index@),
            iv.len() == index@.len(),
            forall|j: int| 0 <= j < i ==> (#[trigger] iv[j]).0 != t,
            forall|j: int| 0 <= j < index@.len() ==> (#[trigger] iv[j]) == (
                index@[j].0,
                index@[j].1@,
            ),
        decreases index@.len() - i,
    {
        if index[i].0 == t {
            proof {
                lemma_lookup_at_index(iv, t, i as int);
                lemma_key_index(iv, t);
            }
            return Some(i);
        }
        i = i + 1;
    }
    proof {
        lemma_lookup_absent(iv, t);
    }
    None
}

/// Find the position of a player's move in a game's move list.
fn move_table_index(moves: &Vec<(u64, Move)>, player: u64) -> (r: Option<usize>)
    ensures
        match r {
            Some(i) => {
                &&& i < moves@.len()
                &&& i as int == key_index(moves@, player)
                &&& moves@[i as int].0 == player
                &&& lookup(moves@, player) == Some(moves@[i as int].1)
            },
            None => lookup(moves@, player) is None,
        },
{
    let mut i: usize = 0;
    while i < moves.len()
        invariant
            0 <= i <= moves@.len(),
            forall|j: int| 0 <= j < i ==> (#[trigger] moves@[j]).0 != player,
        decreases moves@.len() - i,
    {
        if moves[i].0 == player {
            proof {
                lemma_lookup_at_index(moves@, player, i as int);
                lemma_key_index(moves@, player);
            }
            return Some(i);
        }
        i = i + 1;
    }
    proof {
        lemma_lookup_absent(moves@, player);
    }
    None
}

/// Find the position of an account in the balances table.
fn balance_table_index(balances: &Vec<(u64, u64)>, who: u64) -> (r: Option<usize>)
    ensures
        match r {
            Some(i) => {
                &&& i < balances@.len()
                &&& i as int == key_index(balances@, who)
                &&& balances@[i as int].0 == who
                &&& lookup(balances@, who) == Some(balances@[i as int].1)
            },
            None => lookup(balances@, who) is None,
        },
{
    let mut i: usize = 0;
    while i < balances.len()
        invariant
            0 <= i <= balances@.len(),
            forall|j: int| 0 <= j < i ==> (#[trigger] balances@[j]).0 != who,
        decreases balances@.len() - i,
    {
        if balances[i].0 == who {
            proof {
                lemma_lookup_at_index(balances@, who, i as int);
                lemma_key_index(balances@, who);
            }
            return Some(i);
        }
        i = i + 1;
    }
    proof {
        lemma_lookup_absent(balances@, who);
    }
    None
}

/// Read an account's balance; an account never seen holds nothing.
fn read_balance(balances: &Vec<(u64, u64)>, who: u64) -> (r: u64)
    ensures
        r == balance_of(balances@, who),
{
    match balance_table_index(balances, who) {
        Some(i) => balances[i].1,
        None => 0,
    }
}

/// Bind an account to a balance.
fn write_balance(balances: &mut Vec<(u64, u64)>, who: u64, amount: u64)
    ensures
        final(balances)@ == store(old(balances)@, who, amount),
{
    match balance_table_index(balances, who) {
        Some(i) => {
            balances.remove(i);
            balances.insert(i, (who, amount));
            proof {
                assert(balances@ =~= old(balances)@.update(i as int, (who, amount)));
            }
        },
        None => {
            balances.push((who, amount));
        },
    }
}

/// Schedule one more game at a time point of an expiry index.
fn index_append_exec(index: &mut Vec<(u64, Vec<Digest>)>, t: u64, id: Digest)
    ensures
        index_view(final(index)@) == index_append(index_view(old(index)@), t, id),
{
    let ghost iv = index_view(old(index)@);
    match index_table_index(index, t) {
        Some(i) => {
            let mut entry = index.remove(i);
            entry.1.push(id);
            index.insert(i, entry);
            proof {
                assert(index_view(index@) =~= iv.update(
                    i as int,
                    (t, bucket_of(iv, t).push(id)),
                ));
            }
        },
        None => {
            let mut bucket: Vec<Digest> = Vec::new();
            bucket.push(id);
            index.push((t, bucket));
            proof {
                assert(bucket_of(iv, t).push(id) =~= bucket@);
                assert(index_view(index@) =~= iv.push((t, bucket@)));
            }
        },
    }
}

/// Take and return the whole bucket of a time point; a time point never
/// scheduled yields no games.
fn index_drain(index: &mut Vec<(u64, Vec<Digest>)>, t: u64) -> (r: Vec<Digest>)
    ensures
        r@ == bucket_of(index_view(old(index)@), t),
        index_view(final(index)@) == remove_key(index_view(old(index)@), t),
{
    let ghost iv = index_view(old(index)@);
    match index_table_index(index, t) {
        Some(i) => {
            let entry = index.remove(i);
            proof {
                assert(index_view(index@) =~= iv.remove(i as int));
            }
            entry.1
        },
        None => {
            let empty: Vec<Digest> = Vec::new();
            proof {
                assert(empty@ =~= bucket_of(iv, t));
            }
            empty
        },
    }
}

impl Pallet {
    /// A fresh engine at time zero, with no games and no balances. The lower
    /// round-length bound must be positive so that a window never closes in
    /// the same tick that opens it.
    pub fn new(config: Config) -> (r: Pallet)
        requires
            1 <= config.min_round_length <= config.max_round_length,
        ensures
            well_formed(r@),
            r@.min_round_length == config.min_round_length,
            r@.max_round_length == config.max_round_length,
            r@.now == 0,
            r@.games == Seq::<(Digest, GameRecord)>::empty(),
            r@.betting_index == Seq::<(u64, Seq<Digest>)>::empty(),
            r@.revealing_index == Seq::<(u64, Seq<Digest>)>::empty(),
            r@.balances == Seq::<(u64, u64)>::empty(),
    {
        let r = Pallet {
            config,
            now: 0,
            games: Vec::new(),
            betting_index: Vec::new(),
            revealing_index: Vec::new(),
            balances: Vec::new(),
        };
        proof {
            assert(r@.games =~= Seq::<(Digest, GameRecord)>::empty());
            assert(r@.betting_index =~= Seq::<(u64, Seq<Digest>)>::empty());
            assert(r@.revealing_index =~= Seq::<(u64, Seq<Digest>)>::empty());
        }
        r
    }

    /// Bind an account to a balance, as a genesis or faucet step.
    pub fn set_balance(&mut self, who: u64, amount: u64)
        requires
            well_formed(old(self)@),
        ensures
            well_formed(final(self)@),
            final(self)@ == (StateView {
                balances: store(old(self)@.balances, who, amount),
                ..old(self)@
            }),
    {
        write_balance(&mut self.balances, who, amount);
        proof {
            crate::assoc::lemma_store(old(self)@.balances, who, amount, who);
        }
    }

    /// An account's balance.
    pub fn balance_of(&self, who: u64) -> (r: u64)
        ensures
            r == balance_of(self@.balances, who),
    {
        read_balance(&self.balances, who)
    }

    /// Whether a round length lies within the configured bounds.
    pub fn valid_round_length(&self, round_length: u64) -> (r: bool)
        ensures
            r == spec_valid_round_length(self@, round_length),
    {
        round_length >= self.config.min_round_length && round_length
            <= self.config.max_round_length
    }

    /// Start a new game in the betting stage: the creator's commitment
    /// becomes the game's identifier, the stake is withdrawn from the
    /// creator, and the betting window is scheduled to close one round
    /// length from now.
    pub fn start(&mut self, owner: u64, round_length: u64, bet: u64, move_hash: Digest) -> (r:
        Result<Event, Error>)
        requires
            well_formed(old(self)@),
        ensures
            well_formed(final(self)@),
            final(self)@ == spec_start(old(self)@, owner, round_length, bet, move_hash).0,
            r is Ok <==> spec_start(old(self)@, owner, round_length, bet, move_hash).1 is Ok,
            r matches Err(e) ==> spec_start(old(self)@, owner, round_length, bet, move_hash).1
                == Err::<(), Error>(e),
            r matches Ok(e) ==> e == (Event::GameStarted { game_id: move_hash, owner, round_length, bet }),
    {
        proof {
            lemma_wf_start(old(self)@, owner, round_length, bet, move_hash);
        }
        if !self.valid_round_length(round_length) {
            return Err(Error::RoundLengthInvalid);
        }
        if game_table_index(&self.games, &move_hash).is_some() {
            return Err(Error::GameExists);
        }
        let balance = read_balance(&self.balances, owner);
        if balance < bet {
            return Err(Error::MoneyNotEnough);
        }
        write_balance(&mut self.balances, owner, balance - bet);
        let deadline = self.now.saturating_add(round_length);
        index_append_exec(&mut self.betting_index, deadline, move_hash);
        let mut moves: Vec<(u64, Move)> = Vec::new();
        moves.push((owner, Move::new(move_hash)));
        let entry = GameEntry { game: Game::start(self.now, round_length, bet), moves };
        self.games.push((move_hash, entry));
        proof {
            let s = old(self)@;
            let rec = GameRecord {
                game: Game {
                    start: s.now,
                    round_length,
                    bet,
                    stage: GameStage::Betting { participating_players: 1u64 },
                },
                moves: seq![(owner, Move { hash: move_hash, hand: None })],
            };
            assert(entry@.moves =~= rec.moves);
            assert(self@.games =~= s.games.push((move_hash, rec)));
            assert(self@ == spec_start(s, owner, round_length, bet, move_hash).0);
        }
        Ok(Event::GameStarted { game_id: move_hash, owner, round_length, bet })
    }

    /// Join a game that is still betting: the stake is withdrawn from the
    /// joiner, the player count grows by one, and the joiner's unrevealed
    /// move is recorded under their commitment.
    pub fn join(&mut self, joiner: u64, game_id: Digest, move_hash: Digest) -> (r: Result<
        Event,
        Error,
    >)
        requires
            well_formed(old(self)@),
        ensures
            well_formed(final(self)@),
            final(self)@ == spec_join(old(self)@, joiner, game_id, move_hash).0,
            r is Ok <==> spec_join(old(self)@, joiner, game_id, move_hash).1 is Ok,
            r matches Err(e) ==> spec_join(old(self)@, joiner, game_id, move_hash).1 == Err::<
                (),
                Error,
            >(e),
            r matches Ok(e) ==> e == (Event::BetPlaced { game_id, player: joiner }),
    {
        let ghost s = old(self)@;
        let i = match game_table_index(&self.games, &game_id) {
            Some(i) => i,
            None => {
                return Err(Error::GameMissing);
            },
        };
        let ghost rec = lookup(s.games, game_id)->Some_0;
        let is_betting = match self.games[i].1.game.stage {
            GameStage::Betting { .. } => true,
            _ => false,
        };
        if !is_betting {
            return Err(Error::GameWrongStage);
        }
        if move_table_index(&self.games[i].1.moves, joiner).is_some() {
            return Err(Error::PlayerMoveMade);
        }
        let bet = self.games[i].1.game.bet;
        let balance = read_balance(&self.balances, joiner);
        if balance < bet {
            return Err(Error::MoneyNotEnough);
        }
        proof {
            lemma_wf_lookup(s, game_id);
        }
        write_balance(&mut self.balances, joiner, balance - bet);
        let mut pair = self.games.remove(i);
        pair.1.moves.push((joiner, Move::new(move_hash)));
        let n_now = pair.1.moves.len();
        proof {
            assert(rec.game.stage->participating_players < u64::MAX) by {
                assert(n_now as int == rec.moves.len() + 1);
            }
            lemma_wf_join(s, joiner, game_id, move_hash);
        }
        pair.1.game.join();
        self.games.insert(i, pair);
        proof {
            let rec2 = GameRecord {
                game: Game {
                    stage: GameStage::Betting {
                        participating_players: (rec.game.stage->participating_players + 1) as u64,
                    },
                    ..rec.game
                },
                moves: rec.moves.push((joiner, Move { hash: move_hash, hand: None })),
            };
            assert(pair.1@.moves =~= rec2.moves);
            assert(self@.games =~= store(s.games, game_id, rec2));
            assert(self@ == spec_join(s, joiner, game_id, move_hash).0);
        }
        Ok(Event::BetPlaced { game_id, player: joiner })
    }
}

/// Pay each listed account the same amount, in list order.
fn credit_winners(balances: &mut Vec<(u64, u64)>, winners: &Vec<u64>, reward: u64)
    ensures
        final(balances)@ == credit_all(old(balances)@, winners@, reward),
{
    let ghost bal0 = old(balances)@;
    proof {
        assert(winners@.skip(0) =~= winners@);
    }
    let mut j: usize = 0;
    while j < winners.len()
        invariant
            0 <= j <= winners@.len(),
            credit_all(bal0, winners@, reward) == credit_all(
                balances@,
                winners@.skip(j as int),
                reward,
            ),
        decreases winners@.len() - j,
    {
        let ghost pre = balances@;
        let who = winners[j];
        let b = read_balance(balances, who);
        write_balance(balances, who, b.saturating_add(reward));
        proof {
            assert(winners@.skip(j as int).drop_first() =~= winners@.skip(j + 1 as int));
            assert(winners@.skip(j as int)[0] == winners@[j as int]);
            assert(balances@ == credit(pre, who, reward));
        }
        j = j + 1;
    }
    proof {
        assert(winners@.skip(winners@.len() as int) =~= Seq::<u64>::empty());
    }
}

impl Pallet {
    /// End a game, if it still exists: the game and all its moves are
    /// removed, the settlement of its revealed moves is paid out, and the
    /// settlement event is returned. Ending a game that is already gone does
    /// nothing.
    pub fn end_game(&mut self, game_id: &Digest) -> (r: Option<Event>)
        requires
            well_formed(old(self)@),
        ensures
            well_formed(final(self)@),
            final(self)@ == spec_end_game(old(self)@, *game_id).0,
            r is Some <==> spec_end_game(old(self)@, *game_id).1 is Some,
            r matches Some(e) ==> e matches Event::GameEnded { game_id: g, winners, reward }
                && g == *game_id && winners@ == spec_end_game(old(self)@, *game_id).1->Some_0.0
                && reward == spec_end_game(old(self)@, *game_id).1->Some_0.1,
    {
        let ghost s = old(self)@;
        proof {
            lemma_wf_end_game(s, *game_id);
        }
        let i = match game_table_index(&self.games, game_id) {
            Some(i) => i,
            None => {
                return None;
            },
        };
        let ghost rec = lookup(s.games, *game_id)->Some_0;
        let pair = self.games.remove(i);
        let (winners, reward) = settle(&pair.1.moves, pair.1.game.bet);
        credit_winners(&mut self.balances, &winners, reward);
        proof {
            assert(self@.games =~= remove_key(s.games, *game_id));
            assert(self@ == spec_end_game(s, *game_id).0);
        }
        Some(Event::GameEnded { game_id: *game_id, winners, reward })
    }

    /// Reveal a move in a game that is revealing: the payload must hash to
    /// the player's commitment and its leading byte must decode to a hand.
    /// The hand is recorded; when this reveal was the last outstanding one
    /// the game is settled, removed, and its settlement event returned.
    pub fn reveal_move(&mut self, player: u64, game_id: Digest, move_reveal: &Vec<u8>) -> (r:
        Result<Option<Event>, Error>)
        requires
            well_formed(old(self)@),
        ensures
            well_formed(final(self)@),
            final(self)@ == spec_reveal_move(old(self)@, player, game_id, move_reveal@).0,
            r is Ok <==> spec_reveal_move(old(self)@, player, game_id, move_reveal@).1 is Ok,
            r matches Err(e) ==> spec_reveal_move(old(self)@, player, game_id, move_reveal@).1
                == Err::<(), Error>(e),
            r matches Ok(Some(e)) ==> e matches Event::GameEnded { game_id: g, winners, reward }
                && g == game_id,
            r matches Ok(o) ==> (o is Some <==> (lookup(old(self)@.games, game_id)->Some_0).game.stage
                == GameStage::Revealing { anticipated_players: 1u64 }),
    {
        let ghost s = old(self)@;
        proof {
            lemma_wf_reveal(s, player, game_id, move_reveal@);
        }
        let i = match game_table_index(&self.games, &game_id) {
            Some(i) => i,
            None => {
                return Err(Error::GameMissing);
            },
        };
        let ghost rec = lookup(s.games, game_id)->Some_0;
        let is_revealing = match self.games[i].1.game.stage {
            GameStage::Revealing { .. } => true,
            _ => false,
        };
        if !is_revealing {
            return Err(Error::GameWrongStage);
        }
        let j = match move_table_index(&self.games[i].1.moves, player) {
            Some(j) => j,
            None => {
                return Err(Error::PlayerMoveMissing);
            },
        };
        let mv = self.games[i].1.moves[j];
        let digest = hash_move(move_reveal);
        if !(digest == mv.1.hash) {
            return Err(Error::PlayerRevealMismatch);
        }
        if move_reveal.len() == 0 {
            return Err(Error::PlayerMoveInvalid);
        }
        let hand = match Hand::new(move_reveal[0]) {
            Some(h) => h,
            None => {
                return Err(Error::PlayerMoveInvalid);
            },
        };
        proof {
            lemma_wf_lookup(s, game_id);
        }
        let last = self.games[i].1.game.last_revealing();
        let mut pair = self.games.remove(i);
        pair.1.moves.remove(j);
        pair.1.moves.insert(j, (player, Move { hash: mv.1.hash, hand: Some(hand) }));
        let ghost new_moves = store(rec.moves, player, Move { hash: mv.1.hash, hand: Some(hand) });
        proof {
            assert(pair.1.moves@ =~= new_moves);
        }
        if last {
            let (winners, reward) = settle(&pair.1.moves, pair.1.game.bet);
            credit_winners(&mut self.balances, &winners, reward);
            proof {
                let rec1 = GameRecord { game: rec.game, moves: new_moves };
                let s1 = StateView { games: store(s.games, game_id, rec1), ..s };
                crate::assoc::lemma_store(s.games, game_id, rec1, game_id);
                lemma_key_index(s1.games, game_id);
                lemma_key_index(s.games, game_id);
                assert(s1.games.remove(key_index(s1.games, game_id)) =~= s.games.remove(
                    key_index(s.games, game_id),
                ));
                assert(self@.games =~= remove_key(s1.games, game_id));
                assert(self@ == spec_reveal_move(s, player, game_id, move_reveal@).0);
            }
            Ok(Some(Event::GameEnded { game_id, winners, reward }))
        } else {
            pair.1.game.record_reveal();
            self.games.insert(i, pair);
            proof {
                let rec2 = GameRecord {
                    game: Game {
                        stage: GameStage::Revealing {
                            anticipated_players: (rec.game.stage->anticipated_players - 1) as u64,
                        },
                        ..rec.game
                    },
                    moves: new_moves,
                };
                assert(self@.games =~= store(s.games, game_id, rec2));
                assert(self@ == spec_reveal_move(s, player, game_id, move_reveal@).0);
            }
            Ok(None)
        }
    }

    /// Close one betting window: the game, if it still exists and is still
    /// betting, moves to the revealing stage and its revealing expiry is
    /// scheduled one round length ahead; anything else is silently skipped.
    fn end_betting_one(&mut self, game_id: Digest, t: u64)
        requires
            well_formed(old(self)@),
        ensures
            well_formed(final(self)@),
            final(self)@ == spec_end_betting(old(self)@, game_id, t),
    {
        let ghost s = old(self)@;
        proof {
            lemma_wf_end_betting(s, game_id, t);
        }
        let i = match game_table_index(&self.games, &game_id) {
            Some(i) => i,
            None => {
                return ;
            },
        };
        let ghost rec = lookup(s.games, game_id)->Some_0;
        let is_betting = match self.games[i].1.game.stage {
            GameStage::Betting { .. } => true,
            _ => false,
        };
        if !is_betting {
            return ;
        }
        let mut pair = self.games.remove(i);
        pair.1.game.start_revealing();
        let deadline = t.saturating_add(pair.1.game.round_length);
        self.games.insert(i, pair);
        index_append_exec(&mut self.revealing_index, deadline, game_id);
        proof {
            let rec2 = GameRecord {
                game: Game {
                    stage: GameStage::Revealing {
                        anticipated_players: rec.game.stage->participating_players,
                    },
                    ..rec.game
                },
                moves: rec.moves,
            };
            assert(self@.games =~= store(s.games, game_id, rec2));
            assert(self@ == spec_end_betting(s, game_id, t));
        }
    }

    /// The per-tick hook: move the clock to `now`, close every betting
    /// window listed at `now`, then end every game whose revealing window is
    /// listed at `now`, returning the settlement events in order. A tick for
    /// an already drained time point changes nothing.
    pub fn on_initialize(&mut self, now: u64) -> (r: Vec<Event>)
        requires
            well_formed(old(self)@),
        ensures
            well_formed(final(self)@),
            final(self)@ == spec_tick(old(self)@, now),
            events_match(r@, spec_tick_events(old(self)@, now)),
    {
        let ghost s = old(self)@;
        proof {
            lemma_wf_tick(s, now);
        }
        self.now = now;
        let bids = index_drain(&mut self.betting_index, now);
        let ghost s1 = StateView {
            betting_index: remove_key(StateView { now, ..s }.betting_index, now),
            ..StateView { now, ..s }
        };
        proof {
            assert(self@ == s1);
            crate::assoc::lemma_remove_key(s.betting_index, now, now);
            assert(bids@.skip(0) =~= bids@);
        }
        let mut k: usize = 0;
        while k < bids.len()
            invariant
                0 <= k <= bids@.len(),
                well_formed(self@),
                end_betting_all(s1, bids@, now) == end_betting_all(
                    self@,
                    bids@.skip(k as int),
                    now,
                ),
            decreases bids@.len() - k,
        {
            proof {
                assert(bids@.skip(k as int).drop_first() =~= bids@.skip(k + 1 as int));
                assert(bids@.skip(k as int)[0] == bids@[k as int]);
            }
            self.end_betting_one(bids[k], now);
            k = k + 1;
        }
        proof {
            assert(bids@.skip(bids@.len() as int) =~= Seq::<Digest>::empty());
        }
        let ghost s2 = end_betting_all(s1, bids@, now);
        let rids = index_drain(&mut self.revealing_index, now);
        let ghost s3 = StateView { revealing_index: remove_key(s2.revealing_index, now), ..s2 };
        proof {
            assert(self@ == s3);
            crate::assoc::lemma_remove_key(s2.revealing_index, now, now);
            assert(rids@.skip(0) =~= rids@);
            assert(Seq::<Event>::empty().map_values(|ev: Event| ended_event_triple(ev)) =~= Seq::<
                (Digest, Seq<u64>, u64),
            >::empty());
        }
        let mut events: Vec<Event> = Vec::new();
        let mut k2: usize = 0;
        while k2 < rids.len()
            invariant
                0 <= k2 <= rids@.len(),
                well_formed(self@),
                end_game_all(s3, rids@) == end_game_all(self@, rids@.skip(k2 as int)),
                end_game_all_events(s3, rids@) == events@.map_values(|ev: Event| ended_event_triple(ev))
                    + end_game_all_events(self@, rids@.skip(k2 as int)),
                forall|x: int| 0 <= x < events@.len() ==> (#[trigger] events@[x]) is GameEnded,
            decreases rids@.len() - k2,
        {
            let ghost pre = self@;
            let ghost pre_events = events@;
            proof {
                assert(rids@.skip(k2 as int).drop_first() =~= rids@.skip(k2 + 1 as int));
                assert(rids@.skip(k2 as int)[0] == rids@[k2 as int]);
            }
            let id = rids[k2];
            match self.end_game(&id) {
                Some(e) => {
                    events.push(e);
                    proof {
                        assert(events@.map_values(|ev: Event| ended_event_triple(ev)) =~= pre_events.map_values(
                            |ev: Event| ended_event_triple(ev),
                        ).push(ended_event_triple(events@[events@.len() - 1])));
                        assert((pre_events.map_values(|ev: Event| ended_event_triple(ev)) + seq![
                            ended_event_triple(events@[events@.len() - 1]),
                        ]) + end_game_all_events(self@, rids@.skip(k2 + 1 as int))
                            =~= pre_events.map_values(|ev: Event| ended_event_triple(ev)) + (seq![
                            ended_event_triple(events@[events@.len() - 1]),
                        ] + end_game_all_events(self@, rids@.skip(k2 + 1 as int))));
                    }
                },
                None => {
                    proof {
                        assert(Seq::<(Digest, Seq<u64>, u64)>::empty() + end_game_all_events(
                            self@,
                            rids@.skip(k2 + 1 as int),
                        ) =~= end_game_all_events(self@, rids@.skip(k2 + 1 as int)));
                    }
                },
            }
            k2 = k2 + 1;
        }
        proof {
            assert(rids@.skip(rids@.len() as int) =~= Seq::<Digest>::empty());
            assert(end_game_all_events(self@, Seq::<Digest>::empty()) =~= Seq::<
                (Digest, Seq<u64>, u64),
            >::empty());
            assert(events@.map_values(|ev: Event| ended_event_triple(ev)) + Seq::<
                (Digest, Seq<u64>, u64),
            >::empty() =~= events@.map_values(|ev: Event| ended_event_triple(ev)));
        }
        events
    }

    /// The current time point the engine has been advanced to.
    pub fn now(&self) -> (r: u64)
        ensures
            r == self@.now,
    {
        self.now
    }

    /// The record of a live game, if any exists under this identifier.
    pub fn game_of(&self, game_id: &Digest) -> (r: Option<Game>)
        ensures
            r == match lookup(self@.games, *game_id) {
                Some(rec) => Some(rec.game),
                None => None::<Game>,
            },
    {
        match game_table_index(&self.games, game_id) {
            Some(i) => Some(self.games[i].1.game),
            None => None,
        }
    }

    /// Whether a live game exists under this identifier.
    pub fn contains_game(&self, game_id: &Digest) -> (r: bool)
        ensures
            r == (lookup(self@.games, *game_id) is Some),
    {
        game_table_index(&self.games, game_id).is_some()
    }

    /// A player's move in a game, if the game is live and the player made
    /// one.
    pub fn move_of(&self, game_id: &Digest, player: u64) -> (r: Option<Move>)
        ensures
            r == match lookup(self@.games, *game_id) {
                Some(rec) => lookup(rec.moves, player),
                None => None::<Move>,
            },
    {
        match game_table_index(&self.games, game_id) {
            Some(i) => match move_table_index(&self.games[i].1.moves, player) {
                Some(j) => Some(self.games[i].1.moves[j].1),
                None => None,
            },
            None => None,
        }
    }

    /// How many moves a live game holds; a missing game holds none.
    pub fn moves_count(&self, game_id: &Digest) -> (r: usize)
        ensures
            r as int == match lookup(self@.games, *game_id) {
                Some(rec) => rec.moves.len() as int,
                None => 0,
            },
    {
        match game_table_index(&self.games, game_id) {
            Some(i) => self.games[i].1.moves.len(),
            None => 0,
        }
    }

    /// Whether a betting expiry bucket exists at this time point.
    pub fn has_betting_expiry(&self, t: u64) -> (r: bool)
        ensures
            r == (lookup(self@.betting_index, t) is Some),
    {
        index_table_index(&self.betting_index, t).is_some()
    }

    /// Whether a revealing expiry bucket exists at this time point.
    pub fn has_revealing_expiry(&self, t: u64) -> (r: bool)
        ensures
            r == (lookup(self@.revealing_index, t) is Some),
    {
        index_table_index(&self.revealing_index, t).is_some()
    }

    /// How many games the betting expiry bucket at this time point lists.
    pub fn betting_expiry_count(&self, t: u64) -> (r: usize)
        ensures
            r as int == bucket_of(self@.betting_index, t).len() as int,
    {
        match index_table_index(&self.betting_index, t) {
            Some(i) => self.betting_index[i].1.len(),
            None => 0,
        }
    }

    /// How many games the revealing expiry bucket at this time point lists.
    pub fn revealing_expiry_count(&self, t: u64) -> (r: usize)
        ensures
            r as int == bucket_of(self@.revealing_index, t).len() as int,
    {
        match index_table_index(&self.revealing_index, t) {
            Some(i) => self.revealing_index[i].1.len(),
            None => 0,
        }
    }

    /// Whether the betting expiry bucket at this time point lists this game.
    pub fn betting_expiry_lists(&self, t: u64, game_id: &Digest) -> (r: bool)
        ensures
            r == bucket_of(self@.betting_index, t).contains(*game_id),
    {
        match index_table_index(&self.betting_index, t) {
            Some(i) => bucket_contains(&self.betting_index[i].1, game_id),
            None => false,
        }
    }

    /// Whether the revealing expiry bucket at this time point lists this
    /// game.
    pub fn revealing_expiry_lists(&self, t: u64, game_id: &Digest) -> (r: bool)
        ensures
            r == bucket_of(self@.revealing_index, t).contains(*game_id),
    {
        match index_table_index(&self.revealing_index, t) {
            Some(i) => bucket_contains(&self.revealing_index[i].1, game_id),
            None => false,
        }
    }
}

/// Whether a bucket lists a game.
fn bucket_contains(bucket: &Vec<Digest>, game_id: &Digest) -> (r: bool)
    ensures
        r == bucket@.contains(*game_id),
{
    let mut i: usize = 0;
    while i < bucket.len()
        invariant
            0 <= i <= bucket@.len(),
            forall|j: int| 0 <= j < i ==> bucket@[j] != *game_id,
        decreases bucket@.len() - i,
    {
        if bucket[i] == *game_id {
            return true;
        }
        i = i + 1;
    }
    false
}

/// The settlement a `GameEnded` event reports, as the model states it.
pub open spec fn ended_event_triple(e: Event) -> (Digest, Seq<u64>, u64) {
    match e {
        Event::GameEnded { game_id, winners, reward } => (game_id, winners@, reward),
        _ => (
            vstd::pervasive::arbitrary(),
            vstd::pervasive::arbitrary(),
            vstd::pervasive::arbitrary(),
        ),
    }
}

/// The listed events are exactly the listed settlements, in order.
pub open spec fn events_match(es: Seq<Event>, ts: Seq<(Digest, Seq<u64>, u64)>) -> bool {
    &&& es.len() == ts.len()
    &&& forall|i: int|
        0 <= i < es.len() ==> (#[trigger] es[i]) is GameEnded && ended_event_triple(es[i]) == ts[i]
}

} // verus!
