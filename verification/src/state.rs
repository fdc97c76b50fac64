//! The mathematical model of the engine: the state as keyed tables of plain
//! values, one transition function per operation, and the facts that every
//! reachable state keeps. The executable engine's contracts say exactly that
//! each call performs the corresponding transition.

use vstd::prelude::*;

use crate::assoc::{
    key_index, lemma_key_index, lemma_store, lemma_remove_key, lookup, remove_key, store,
    unique_keys,
};
use crate::game::{spec_hand_of_byte, Game, GameStage, Move};
use crate::hashing::{digest_of, Digest};
use crate::pallet::Error;
use crate::settlement::{settlement_reward, settlement_winners};

verus! {

/// One live game as the model sees it: the game record and its per-player
/// moves in insertion order.
pub struct GameRecord {
    pub game: Game,
    pub moves: Seq<(u64, Move)>,
}

/// The whole engine state: the configured round-length bounds, the current
/// time point, the live games with their moves, the two expiry indices, and
/// every account's balance.
pub struct StateView {
    pub min_round_length: u64,
    pub max_round_length: u64,
    pub now: u64,
    pub games: Seq<(Digest, GameRecord)>,
    pub betting_index: Seq<(u64, Seq<Digest>)>,
    pub revealing_index: Seq<(u64, Seq<Digest>)>,
    pub balances: Seq<(u64, u64)>,
}

/// An account's balance; an account never seen holds nothing.
pub open spec fn balance_of(balances: Seq<(u64, u64)>, who: u64) -> u64 {
    match lookup(balances, who) {
        Some(b) => b,
        None => 0u64,
    }
}

/// The games listed under a time point; a time point never scheduled lists
/// none.
pub open spec fn bucket_of(index: Seq<(u64, Seq<Digest>)>, t: u64) -> Seq<Digest> {
    match lookup(index, t) {
        Some(b) => b,
        None => Seq::empty(),
    }
}

/// Schedule one more game at a time point.
pub open spec fn index_append(index: Seq<(u64, Seq<Digest>)>, t: u64, id: Digest) -> Seq<
    (u64, Seq<Digest>),
> {
    store(index, t, bucket_of(index, t).push(id))
}

/// Pay `amount` into an account, saturating at the largest representable
/// balance.
pub open spec fn credit(balances: Seq<(u64, u64)>, who: u64, amount: u64) -> Seq<(u64, u64)> {
    store(balances, who, balance_of(balances, who).saturating_add(amount))
}

/// Pay `amount` to each listed account in turn.
pub open spec fn credit_all(balances: Seq<(u64, u64)>, winners: Seq<u64>, amount: u64) -> Seq<
    (u64, u64),
>
    decreases winners.len(),
{
    if winners.len() == 0 {
        balances
    } else {
        credit_all(credit(balances, winners[0], amount), winners.drop_first(), amount)
    }
}

/// A round length the configuration accepts.
pub open spec fn spec_valid_round_length(s: StateView, round_length: u64) -> bool {
    s.min_round_length <= round_length && round_length <= s.max_round_length
}

/// What every live game keeps: distinct players, at least the creator's move,
/// a round length the configuration accepted, while betting a player count
/// equal to the move count with no hand revealed, and while revealing an
/// anticipated count between one and the move count.
pub open spec fn wf_game(min_round_length: u64, max_round_length: u64, rec: GameRecord) -> bool {
    &&& unique_keys(rec.moves)
    &&& rec.moves.len() >= 1
    &&& min_round_length <= rec.game.round_length <= max_round_length
    &&& match rec.game.stage {
        GameStage::Betting { participating_players } => {
            &&& participating_players == rec.moves.len()
            &&& forall|i: int| 0 <= i < rec.moves.len() ==> (#[trigger] rec.moves[i]).1.hand is None
        },
        GameStage::Revealing { anticipated_players } => 1 <= anticipated_players
            <= rec.moves.len(),
    }
}

/// What every reachable state keeps: a positive lower round-length bound,
/// distinct keys in every table, and every game well formed.
pub open spec fn well_formed(s: StateView) -> bool {
    &&& 1 <= s.min_round_length <= s.max_round_length
    &&& unique_keys(s.games)
    &&& forall|i: int|
        0 <= i < s.games.len() ==> wf_game(
            s.min_round_length,
            s.max_round_length,
            (#[trigger] s.games[i]).1,
        )
    &&& unique_keys(s.betting_index)
    &&& unique_keys(s.revealing_index)
    &&& unique_keys(s.balances)
}

/// The betting deadline of a game: one round length past its start.
pub open spec fn betting_deadline(g: Game) -> u64 {
    g.start.saturating_add(g.round_length)
}

/// Every betting game is listed in the betting expiry bucket at its
/// deadline: the tick at that time point is what will advance it.
pub open spec fn scheduled(s: StateView) -> bool {
    forall|i: int|
        0 <= i < s.games.len() ==> ((#[trigger] s.games[i]).1.game.stage is Betting
            ==> bucket_of(s.betting_index, betting_deadline(s.games[i].1.game)).contains(
            s.games[i].0,
        ))
}

/// A game found in a well-formed state is well formed.
pub proof fn lemma_wf_lookup(s: StateView, game_id: Digest)
    requires
        well_formed(s),
        lookup(s.games, game_id) is Some,
    ensures
        wf_game(s.min_round_length, s.max_round_length, lookup(s.games, game_id)->Some_0),
{
    lemma_key_index(s.games, game_id);
}

/// Starting a game: rejected when the round length is out of bounds, when a
/// game under this commitment already exists, or when the creator cannot pay
/// the stake; otherwise the stake is withdrawn, the game is recorded in the
/// betting stage with the creator's unrevealed move, and its betting expiry
/// is scheduled one round length ahead.
pub open spec fn spec_start(
    s: StateView,
    owner: u64,
    round_length: u64,
    bet: u64,
    move_hash: Digest,
) -> (StateView, Result<(), Error>) {
    if !spec_valid_round_length(s, round_length) {
        (s, Err(Error::RoundLengthInvalid))
    } else if lookup(s.games, move_hash) is Some {
        (s, Err(Error::GameExists))
    } else if balance_of(s.balances, owner) < bet {
        (s, Err(Error::MoneyNotEnough))
    } else {
        let rec = GameRecord {
            game: Game {
                start: s.now,
                round_length,
                bet,
                stage: GameStage::Betting { participating_players: 1u64 },
            },
            moves: seq![(owner, Move { hash: move_hash, hand: None })],
        };
        (
            StateView {
                games: s.games.push((move_hash, rec)),
                betting_index: index_append(
                    s.betting_index,
                    s.now.saturating_add(round_length),
                    move_hash,
                ),
                balances: store(
                    s.balances,
                    owner,
                    (balance_of(s.balances, owner) - bet) as u64,
                ),
                ..s
            },
            Ok(()),
        )
    }
}

/// Joining a game: rejected when the game is missing, not in the betting
/// stage, already holds a move by this player, or the player cannot pay the
/// stake; otherwise the stake is withdrawn, the player count grows by one and
/// the player's unrevealed move is recorded.
pub open spec fn spec_join(s: StateView, joiner: u64, game_id: Digest, move_hash: Digest) -> (
    StateView,
    Result<(), Error>,
) {
    match lookup(s.games, game_id) {
        None => (s, Err(Error::GameMissing)),
        Some(rec) => {
            if !(rec.game.stage is Betting) {
                (s, Err(Error::GameWrongStage))
            } else if lookup(rec.moves, joiner) is Some {
                (s, Err(Error::PlayerMoveMade))
            } else if balance_of(s.balances, joiner) < rec.game.bet {
                (s, Err(Error::MoneyNotEnough))
            } else {
                let rec2 = GameRecord {
                    game: Game {
                        stage: GameStage::Betting {
                            participating_players: (rec.game.stage->participating_players
                                + 1) as u64,
                        },
                        ..rec.game
                    },
                    moves: rec.moves.push((joiner, Move { hash: move_hash, hand: None })),
                };
                (
                    StateView {
                        games: store(s.games, game_id, rec2),
                        balances: store(
                            s.balances,
                            joiner,
                            (balance_of(s.balances, joiner) - rec.game.bet) as u64,
                        ),
                        ..s
                    },
                    Ok(()),
                )
            }
        },
    }
}

/// Ending a game: a no-op when the game is missing; otherwise the game and
/// all its moves are removed, and the settlement of its revealed moves pays
/// each settled player their reward.
pub open spec fn spec_end_game(s: StateView, game_id: Digest) -> (
    StateView,
    Option<(Seq<u64>, u64)>,
) {
    match lookup(s.games, game_id) {
        None => (s, None::<(Seq<u64>, u64)>),
        Some(rec) => {
            let winners = settlement_winners(rec.moves);
            let reward = settlement_reward(rec.moves, rec.game.bet);
            (
                StateView {
                    games: remove_key(s.games, game_id),
                    balances: credit_all(s.balances, winners, reward),
                    ..s
                },
                Some((winners, reward)),
            )
        },
    }
}

/// Revealing a move: rejected when the game is missing or not revealing, the
/// player has no move, the payload does not hash to the player's commitment,
/// or its leading byte is no hand; otherwise the hand is recorded, and either
/// the game ends (when this reveal was the last outstanding one) or the
/// anticipated count drops by one. A repeated reveal of the same payload is
/// accepted again, and counts against the anticipated count again.
pub open spec fn spec_reveal_move(s: StateView, player: u64, game_id: Digest, payload: Seq<u8>) -> (
    StateView,
    Result<(), Error>,
) {
    match lookup(s.games, game_id) {
        None => (s, Err(Error::GameMissing)),
        Some(rec) => {
            if !(rec.game.stage is Revealing) {
                (s, Err(Error::GameWrongStage))
            } else {
                match lookup(rec.moves, player) {
                    None => (s, Err(Error::PlayerMoveMissing)),
                    Some(mv) => {
                        if digest_of(payload) != mv.hash {
                            (s, Err(Error::PlayerRevealMismatch))
                        } else if payload.len() == 0 || spec_hand_of_byte(payload[0]) is None {
                            (s, Err(Error::PlayerMoveInvalid))
                        } else {
                            let new_moves = store(
                                rec.moves,
                                player,
                                Move { hash: mv.hash, hand: spec_hand_of_byte(payload[0]) },
                            );
                            if rec.game.stage->anticipated_players == 1 {
                                let s1 = StateView {
                                    games: store(
                                        s.games,
                                        game_id,
                                        GameRecord { game: rec.game, moves: new_moves },
                                    ),
                                    ..s
                                };
                                (spec_end_game(s1, game_id).0, Ok(()))
                            } else {
                                let rec2 = GameRecord {
                                    game: Game {
                                        stage: GameStage::Revealing {
                                            anticipated_players: (rec.game.stage
                                                ->anticipated_players - 1) as u64,
                                        },
                                        ..rec.game
                                    },
                                    moves: new_moves,
                                };
                                (
                                    StateView { games: store(s.games, game_id, rec2), ..s },
                                    Ok(()),
                                )
                            }
                        }
                    },
                }
            }
        },
    }
}

/// Closing a betting window: the listed game, if it still exists and is still
/// betting, moves to the revealing stage with its player count as the
/// anticipated count, and its revealing expiry is scheduled one round length
/// ahead; a missing or already advanced game is silently skipped.
pub open spec fn spec_end_betting(s: StateView, game_id: Digest, t: u64) -> StateView {
    match lookup(s.games, game_id) {
        None => s,
        Some(rec) => {
            if rec.game.stage is Betting {
                let rec2 = GameRecord {
                    game: Game {
                        stage: GameStage::Revealing {
                            anticipated_players: rec.game.stage->participating_players,
                        },
                        ..rec.game
                    },
                    moves: rec.moves,
                };
                StateView {
                    games: store(s.games, game_id, rec2),
                    revealing_index: index_append(
                        s.revealing_index,
                        t.saturating_add(rec.game.round_length),
                        game_id,
                    ),
                    ..s
                }
            } else {
                s
            }
        },
    }
}

/// Close the betting window of each listed game in turn.
pub open spec fn end_betting_all(s: StateView, ids: Seq<Digest>, t: u64) -> StateView
    decreases ids.len(),
{
    if ids.len() == 0 {
        s
    } else {
        end_betting_all(spec_end_betting(s, ids[0], t), ids.drop_first(), t)
    }
}

/// End each listed game in turn.
pub open spec fn end_game_all(s: StateView, ids: Seq<Digest>) -> StateView
    decreases ids.len(),
{
    if ids.len() == 0 {
        s
    } else {
        end_game_all(spec_end_game(s, ids[0]).0, ids.drop_first())
    }
}

/// The settlements that ending each listed game in turn reports: one triple
/// of game, paid players and reward per game that still existed.
pub open spec fn end_game_all_events(s: StateView, ids: Seq<Digest>) -> Seq<
    (Digest, Seq<u64>, u64),
>
    decreases ids.len(),
{
    if ids.len() == 0 {
        Seq::empty()
    } else {
        (match spec_end_game(s, ids[0]).1 {
            Some((winners, reward)) => seq![(ids[0], winners, reward)],
            None => Seq::empty(),
        }) + end_game_all_events(spec_end_game(s, ids[0]).0, ids.drop_first())
    }
}

/// A tick at time `t`: the clock moves to `t`, the betting expiries listed at
/// `t` are drained and processed, then the revealing expiries listed at `t`
/// are drained and every game still listed there is ended.
pub open spec fn spec_tick(s: StateView, t: u64) -> StateView {
    let s0 = StateView { now: t, ..s };
    let bids = bucket_of(s0.betting_index, t);
    let s1 = StateView { betting_index: remove_key(s0.betting_index, t), ..s0 };
    let s2 = end_betting_all(s1, bids, t);
    let rids = bucket_of(s2.revealing_index, t);
    let s3 = StateView { revealing_index: remove_key(s2.revealing_index, t), ..s2 };
    end_game_all(s3, rids)
}

/// Starting a game keeps the state well formed.
pub proof fn lemma_wf_start(s: StateView, owner: u64, round_length: u64, bet: u64, move_hash: Digest)
    requires
        well_formed(s),
    ensures
        well_formed(spec_start(s, owner, round_length, bet, move_hash).0),
{
    let (s2, r) = spec_start(s, owner, round_length, bet, move_hash);
    if r is Ok {
        let rec = GameRecord {
            game: Game {
                start: s.now,
                round_length,
                bet,
                stage: GameStage::Betting { participating_players: 1u64 },
            },
            moves: seq![(owner, Move { hash: move_hash, hand: None })],
        };
        crate::assoc::lemma_unique_push(s.games, (move_hash, rec));
        assert forall|i: int| 0 <= i < s2.games.len() implies wf_game(
            s2.min_round_length,
            s2.max_round_length,
            (#[trigger] s2.games[i]).1,
        ) by {
            if i < s.games.len() {
                assert(s2.games[i] == s.games[i]);
            } else {
                assert(s2.games[i].1 == rec);
            }
        }
        let t = s.now.saturating_add(round_length);
        lemma_store(s.betting_index, t, bucket_of(s.betting_index, t).push(move_hash), t);
        lemma_store(s.balances, owner, (balance_of(s.balances, owner) - bet) as u64, owner);
    }
}

/// Joining a game keeps the state well formed, as long as the player count
/// can still grow.
pub proof fn lemma_wf_join(s: StateView, joiner: u64, game_id: Digest, move_hash: Digest)
    requires
        well_formed(s),
        (match lookup(s.games, game_id) {
            Some(rec) => rec.game.stage matches GameStage::Betting { participating_players }
                ==> participating_players < u64::MAX,
            None => true,
        }),
    ensures
        well_formed(spec_join(s, joiner, game_id, move_hash).0),
{
    let (s2, r) = spec_join(s, joiner, game_id, move_hash);
    if r is Ok {
        let rec = lookup(s.games, game_id)->Some_0;
        lemma_wf_lookup(s, game_id);
        let new_move = (joiner, Move { hash: move_hash, hand: None });
        crate::assoc::lemma_unique_push(rec.moves, new_move);
        let rec2 = GameRecord {
            game: Game {
                stage: GameStage::Betting {
                    participating_players: (rec.game.stage->participating_players + 1) as u64,
                },
                ..rec.game
            },
            moves: rec.moves.push(new_move),
        };
        assert forall|i: int| 0 <= i < rec2.moves.len() implies (#[trigger] rec2.moves[i]).1.hand
            is None by {
            if i < rec.moves.len() {
                assert(rec2.moves[i] == rec.moves[i]);
            }
        }
        lemma_store(s.games, game_id, rec2, game_id);
        lemma_key_index(s.games, game_id);
        assert forall|i: int| 0 <= i < s2.games.len() implies wf_game(
            s2.min_round_length,
            s2.max_round_length,
            (#[trigger] s2.games[i]).1,
        ) by {
            if i != key_index(s.games, game_id) {
                assert(s2.games[i] == s.games[i]);
            }
        }
        lemma_store(s.balances, joiner, (balance_of(s.balances, joiner) - rec.game.bet) as u64, joiner);
    }
}

/// Crediting any list of accounts keeps balance keys distinct.
pub proof fn lemma_unique_credit_all(balances: Seq<(u64, u64)>, winners: Seq<u64>, amount: u64)
    requires
        unique_keys(balances),
    ensures
        unique_keys(credit_all(balances, winners, amount)),
    decreases winners.len(),
{
    if winners.len() > 0 {
        lemma_store(
            balances,
            winners[0],
            balance_of(balances, winners[0]).saturating_add(amount),
            winners[0],
        );
        lemma_unique_credit_all(credit(balances, winners[0], amount), winners.drop_first(), amount);
    }
}

/// Ending a game keeps the state well formed.
pub proof fn lemma_wf_end_game(s: StateView, game_id: Digest)
    requires
        well_formed(s),
    ensures
        well_formed(spec_end_game(s, game_id).0),
{
    let (s2, r) = spec_end_game(s, game_id);
    if r is Some {
        let rec = lookup(s.games, game_id)->Some_0;
        lemma_key_index(s.games, game_id);
        let i = key_index(s.games, game_id);
        crate::assoc::lemma_unique_remove(s.games, i);
        assert forall|j: int| 0 <= j < s2.games.len() implies wf_game(
            s2.min_round_length,
            s2.max_round_length,
            (#[trigger] s2.games[j]).1,
        ) by {
            if j < i {
                assert(s2.games[j] == s.games[j]);
            } else {
                assert(s2.games[j] == s.games[j + 1]);
            }
        }
        lemma_unique_credit_all(
            s.balances,
            settlement_winners(rec.moves),
            settlement_reward(rec.moves, rec.game.bet),
        );
    }
}

/// Revealing a move keeps the state well formed.
pub proof fn lemma_wf_reveal(s: StateView, player: u64, game_id: Digest, payload: Seq<u8>)
    requires
        well_formed(s),
    ensures
        well_formed(spec_reveal_move(s, player, game_id, payload).0),
{
    let (s2, r) = spec_reveal_move(s, player, game_id, payload);
    if r is Ok {
        let rec = lookup(s.games, game_id)->Some_0;
        lemma_wf_lookup(s, game_id);
        let mv = lookup(rec.moves, player)->Some_0;
        let new_mv = Move { hash: mv.hash, hand: spec_hand_of_byte(payload[0]) };
        let new_moves = store(rec.moves, player, new_mv);
        lemma_store(rec.moves, player, new_mv, player);
        lemma_key_index(rec.moves, player);
        assert(new_moves.len() == rec.moves.len());
        lemma_key_index(s.games, game_id);
        let i = key_index(s.games, game_id);
        let k = rec.game.stage->anticipated_players;
        if k == 1 {
            let rec1 = GameRecord { game: rec.game, moves: new_moves };
            let s1 = StateView { games: store(s.games, game_id, rec1), ..s };
            lemma_store(s.games, game_id, rec1, game_id);
            assert forall|j: int| 0 <= j < s1.games.len() implies wf_game(
                s1.min_round_length,
                s1.max_round_length,
                (#[trigger] s1.games[j]).1,
            ) by {
                if j != i {
                    assert(s1.games[j] == s.games[j]);
                }
            }
            lemma_wf_end_game(s1, game_id);
        } else {
            let rec2 = GameRecord {
                game: Game {
                    stage: GameStage::Revealing { anticipated_players: (k - 1) as u64 },
                    ..rec.game
                },
                moves: new_moves,
            };
            lemma_store(s.games, game_id, rec2, game_id);
            assert forall|j: int| 0 <= j < s2.games.len() implies wf_game(
                s2.min_round_length,
                s2.max_round_length,
                (#[trigger] s2.games[j]).1,
            ) by {
                if j != i {
                    assert(s2.games[j] == s.games[j]);
                }
            }
        }
    }
}

/// Closing one betting window keeps the state well formed.
pub proof fn lemma_wf_end_betting(s: StateView, game_id: Digest, t: u64)
    requires
        well_formed(s),
    ensures
        well_formed(spec_end_betting(s, game_id, t)),
{
    let s2 = spec_end_betting(s, game_id, t);
    match lookup(s.games, game_id) {
        None => {},
        Some(rec) => {
            if rec.game.stage is Betting {
                lemma_wf_lookup(s, game_id);
                let rec2 = GameRecord {
                    game: Game {
                        stage: GameStage::Revealing {
                            anticipated_players: rec.game.stage->participating_players,
                        },
                        ..rec.game
                    },
                    moves: rec.moves,
                };
                lemma_store(s.games, game_id, rec2, game_id);
                lemma_key_index(s.games, game_id);
                let i = key_index(s.games, game_id);
                assert forall|j: int| 0 <= j < s2.games.len() implies wf_game(
                    s2.min_round_length,
                    s2.max_round_length,
                    (#[trigger] s2.games[j]).1,
                ) by {
                    if j != i {
                        assert(s2.games[j] == s.games[j]);
                    }
                }
                let d = t.saturating_add(rec.game.round_length);
                lemma_store(s.revealing_index, d, bucket_of(s.revealing_index, d).push(game_id), d);
            }
        },
    }
}

/// Closing every listed betting window keeps the state well formed.
pub proof fn lemma_wf_end_betting_all(s: StateView, ids: Seq<Digest>, t: u64)
    requires
        well_formed(s),
    ensures
        well_formed(end_betting_all(s, ids, t)),
    decreases ids.len(),
{
    if ids.len() > 0 {
        lemma_wf_end_betting(s, ids[0], t);
        lemma_wf_end_betting_all(spec_end_betting(s, ids[0], t), ids.drop_first(), t);
    }
}

/// Ending every listed game keeps the state well formed.
pub proof fn lemma_wf_end_game_all(s: StateView, ids: Seq<Digest>)
    requires
        well_formed(s),
    ensures
        well_formed(end_game_all(s, ids)),
    decreases ids.len(),
{
    if ids.len() > 0 {
        lemma_wf_end_game(s, ids[0]);
        lemma_wf_end_game_all(spec_end_game(s, ids[0]).0, ids.drop_first());
    }
}

/// A tick keeps the state well formed.
pub proof fn lemma_wf_tick(s: StateView, t: u64)
    requires
        well_formed(s),
    ensures
        well_formed(spec_tick(s, t)),
{
    let s0 = StateView { now: t, ..s };
    let bids = bucket_of(s0.betting_index, t);
    lemma_remove_key(s0.betting_index, t, t);
    let s1 = StateView { betting_index: remove_key(s0.betting_index, t), ..s0 };
    lemma_wf_end_betting_all(s1, bids, t);
    let s2 = end_betting_all(s1, bids, t);
    let rids = bucket_of(s2.revealing_index, t);
    lemma_remove_key(s2.revealing_index, t, t);
    let s3 = StateView { revealing_index: remove_key(s2.revealing_index, t), ..s2 };
    lemma_wf_end_game_all(s3, rids);
}

/// The settlements a tick at time `t` reports.
pub open spec fn spec_tick_events(s: StateView, t: u64) -> Seq<(Digest, Seq<u64>, u64)> {
    let s0 = StateView { now: t, ..s };
    let bids = bucket_of(s0.betting_index, t);
    let s1 = StateView { betting_index: remove_key(s0.betting_index, t), ..s0 };
    let s2 = end_betting_all(s1, bids, t);
    let rids = bucket_of(s2.revealing_index, t);
    let s3 = StateView { revealing_index: remove_key(s2.revealing_index, t), ..s2 };
    end_game_all_events(s3, rids)
}

} // verus!
