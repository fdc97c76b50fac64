//! The laws the engine obeys, stated over the model's transitions and proved
//! once and for all: uniqueness of a game per commitment, rejection of late
//! or repeated actions, what a tick does to a game past its deadline and to
//! an already drained time point, and how settlement treats unanimous hands,
//! no-shows and the pool.

use vstd::prelude::*;

use vstd::arithmetic::div_mod::{lemma_div_by_multiple, lemma_fundamental_div_mod, lemma_mod_bound};

use crate::assoc::{
    key_index, lemma_key_index, lemma_lookup_push, lemma_remove_key, lemma_store, lookup,
    remove_key, store, unique_keys,
};
use crate::game::{spec_beaten_by, spec_hand_of_byte, Game, GameStage, Hand, Move};
use crate::hashing::{digest_of, Digest};
use crate::pallet::Error;
use crate::settlement::{
    hand_present, lemma_hand_present_prefix, lemma_winners_prefix_member, players_of, pool_of,
    settlement_reward, settlement_winners, winners_of, winners_prefix, winning_move,
};
use crate::state::{
    betting_deadline, bucket_of, end_betting_all, end_game_all, lemma_wf_end_betting,
    lemma_wf_end_game, lemma_wf_lookup, lemma_wf_tick, scheduled, spec_end_betting, spec_end_game,
    spec_join, spec_reveal_move, spec_start, spec_tick, spec_valid_round_length, well_formed,
    GameRecord, StateView,
};

verus! {

/// A game starts exactly once per commitment: once a start under `move_hash`
/// has succeeded, every further start under the same commitment whose round
/// length the configuration accepts is rejected with `GameExists` and
/// changes nothing.
pub proof fn lemma_start_exactly_once(
    s: StateView,
    owner1: u64,
    round_length1: u64,
    bet1: u64,
    owner2: u64,
    round_length2: u64,
    bet2: u64,
    move_hash: Digest,
)
    requires
        well_formed(s),
        spec_start(s, owner1, round_length1, bet1, move_hash).1 is Ok,
        spec_valid_round_length(s, round_length2),
    ensures
        spec_start(
            spec_start(s, owner1, round_length1, bet1, move_hash).0,
            owner2,
            round_length2,
            bet2,
            move_hash,
        ).1 == Err::<(), Error>(Error::GameExists),
        spec_start(
            spec_start(s, owner1, round_length1, bet1, move_hash).0,
            owner2,
            round_length2,
            bet2,
            move_hash,
        ).0 == spec_start(s, owner1, round_length1, bet1, move_hash).0,
{
    let s1 = spec_start(s, owner1, round_length1, bet1, move_hash).0;
    let rec = GameRecord {
        game: Game {
            start: s.now,
            round_length: round_length1,
            bet: bet1,
            stage: GameStage::Betting { participating_players: 1u64 },
        },
        moves: seq![(owner1, Move { hash: move_hash, hand: None })],
    };
    lemma_lookup_push(s.games, (move_hash, rec), move_hash);
    assert(lookup(s1.games, move_hash) is Some);
}

/// A successful start leaves the new game betting with one participant and
/// lists it in the betting expiry bucket at its deadline, one round length
/// from now: the tick at that deadline is what advances it.
pub proof fn lemma_start_schedules_expiry(
    s: StateView,
    owner: u64,
    round_length: u64,
    bet: u64,
    move_hash: Digest,
)
    requires
        well_formed(s),
        spec_start(s, owner, round_length, bet, move_hash).1 is Ok,
    ensures
        lookup(spec_start(s, owner, round_length, bet, move_hash).0.games, move_hash) is Some,
        (lookup(spec_start(s, owner, round_length, bet, move_hash).0.games, move_hash)->Some_0)
            .game.stage == (GameStage::Betting { participating_players: 1u64 }),
        bucket_of(
            spec_start(s, owner, round_length, bet, move_hash).0.betting_index,
            s.now.saturating_add(round_length),
        ).contains(move_hash),
{
    let s1 = spec_start(s, owner, round_length, bet, move_hash).0;
    let rec = GameRecord {
        game: Game {
            start: s.now,
            round_length,
            bet,
            stage: GameStage::Betting { participating_players: 1u64 },
        },
        moves: seq![(owner, Move { hash: move_hash, hand: None })],
    };
    lemma_lookup_push(s.games, (move_hash, rec), move_hash);
    let d = s.now.saturating_add(round_length);
    let b = bucket_of(s.betting_index, d);
    lemma_store(s.betting_index, d, b.push(move_hash), d);
    assert(b.push(move_hash)[b.len() as int] == move_hash);
}

/// A join against a game that is revealing is rejected with
/// `GameWrongStage`; one against a game that has ended (and is therefore
/// gone) is rejected with `GameMissing`. Either rejection changes nothing.
pub proof fn lemma_join_rejected_when_not_betting(
    s: StateView,
    joiner: u64,
    game_id: Digest,
    move_hash: Digest,
)
    requires
        lookup(s.games, game_id) matches Some(rec) ==> rec.game.stage is Revealing,
    ensures
        spec_join(s, joiner, game_id, move_hash).0 == s,
        spec_join(s, joiner, game_id, move_hash).1 == if lookup(s.games, game_id) is Some {
            Err::<(), Error>(Error::GameWrongStage)
        } else {
            Err::<(), Error>(Error::GameMissing)
        },
{
}

/// A player who already joined a game always gets `PlayerMoveMade` on a
/// second join, whatever commitment they send, and the second attempt
/// changes nothing.
pub proof fn lemma_join_twice(
    s: StateView,
    joiner: u64,
    game_id: Digest,
    move_hash1: Digest,
    move_hash2: Digest,
)
    requires
        well_formed(s),
        spec_join(s, joiner, game_id, move_hash1).1 is Ok,
    ensures
        spec_join(
            spec_join(s, joiner, game_id, move_hash1).0,
            joiner,
            game_id,
            move_hash2,
        ).1 == Err::<(), Error>(Error::PlayerMoveMade),
        spec_join(spec_join(s, joiner, game_id, move_hash1).0, joiner, game_id, move_hash2).0
            == spec_join(s, joiner, game_id, move_hash1).0,
{
    let rec = lookup(s.games, game_id)->Some_0;
    let rec2 = GameRecord {
        game: Game {
            stage: GameStage::Betting {
                participating_players: (rec.game.stage->participating_players + 1) as u64,
            },
            ..rec.game
        },
        moves: rec.moves.push((joiner, Move { hash: move_hash1, hand: None })),
    };
    lemma_store(s.games, game_id, rec2, game_id);
    lemma_lookup_push(rec.moves, (joiner, Move { hash: move_hash1, hand: None }), joiner);
}

/// For a player with a move in a revealing game: the reveal is accepted
/// exactly when the payload hashes to the player's commitment and its
/// leading byte decodes to a hand; a payload that does not hash to the
/// commitment is rejected with `PlayerRevealMismatch` and changes nothing.
pub proof fn lemma_reveal_accepted_iff(s: StateView, player: u64, game_id: Digest, payload: Seq<u8>)
    requires
        lookup(s.games, game_id) is Some,
        (lookup(s.games, game_id)->Some_0).game.stage is Revealing,
        lookup((lookup(s.games, game_id)->Some_0).moves, player) is Some,
    ensures
        spec_reveal_move(s, player, game_id, payload).1 is Ok <==> {
            &&& digest_of(payload) == (lookup(
                (lookup(s.games, game_id)->Some_0).moves,
                player,
            )->Some_0).hash
            &&& payload.len() > 0
            &&& spec_hand_of_byte(payload[0]) is Some
        },
        digest_of(payload) != (lookup((lookup(s.games, game_id)->Some_0).moves, player)->Some_0).hash
            ==> spec_reveal_move(s, player, game_id, payload) == (
            s,
            Err::<(), Error>(Error::PlayerRevealMismatch),
        ),
{
}

/// Ending a game removes it and all its moves: afterwards both `join` and
/// `reveal` against that identifier are rejected with `GameMissing` and
/// change nothing.
pub proof fn lemma_end_game_removes_all(
    s: StateView,
    game_id: Digest,
    player: u64,
    move_hash: Digest,
    payload: Seq<u8>,
)
    requires
        well_formed(s),
    ensures
        lookup(spec_end_game(s, game_id).0.games, game_id) is None,
        spec_join(spec_end_game(s, game_id).0, player, game_id, move_hash).1 == Err::<
            (),
            Error,
        >(Error::GameMissing),
        spec_join(spec_end_game(s, game_id).0, player, game_id, move_hash).0 == spec_end_game(
            s,
            game_id,
        ).0,
        spec_reveal_move(spec_end_game(s, game_id).0, player, game_id, payload).1 == Err::<
            (),
            Error,
        >(Error::GameMissing),
        spec_reveal_move(spec_end_game(s, game_id).0, player, game_id, payload).0
            == spec_end_game(s, game_id).0,
{
    lemma_remove_key(s.games, game_id, game_id);
}

/// Closing betting windows leaves the betting index, the balances, the
/// clock and the configuration alone, and never touches the revealing
/// bucket of the current time point.
proof fn lemma_end_betting_all_frame(s: StateView, ids: Seq<Digest>, t: u64)
    requires
        well_formed(s),
        t < u64::MAX,
    ensures
        well_formed(end_betting_all(s, ids, t)),
        end_betting_all(s, ids, t).betting_index == s.betting_index,
        end_betting_all(s, ids, t).balances == s.balances,
        end_betting_all(s, ids, t).now == s.now,
        end_betting_all(s, ids, t).min_round_length == s.min_round_length,
        end_betting_all(s, ids, t).max_round_length == s.max_round_length,
        lookup(end_betting_all(s, ids, t).revealing_index, t) == lookup(s.revealing_index, t),
    decreases ids.len(),
{
    if ids.len() > 0 {
        let s2 = spec_end_betting(s, ids[0], t);
        lemma_wf_end_betting(s, ids[0], t);
        match lookup(s.games, ids[0]) {
            None => {},
            Some(rec) => {
                if rec.game.stage is Betting {
                    lemma_wf_lookup(s, ids[0]);
                    let d = t.saturating_add(rec.game.round_length);
                    assert(d != t);
                    lemma_store(
                        s.revealing_index,
                        d,
                        bucket_of(s.revealing_index, d).push(ids[0]),
                        t,
                    );
                }
            },
        }
        lemma_end_betting_all_frame(s2, ids.drop_first(), t);
    }
}

/// Ending games never touches the expiry indices, the clock or the
/// configuration.
proof fn lemma_end_game_all_frame(s: StateView, ids: Seq<Digest>)
    requires
        well_formed(s),
    ensures
        well_formed(end_game_all(s, ids)),
        end_game_all(s, ids).betting_index == s.betting_index,
        end_game_all(s, ids).revealing_index == s.revealing_index,
        end_game_all(s, ids).now == s.now,
        end_game_all(s, ids).min_round_length == s.min_round_length,
        end_game_all(s, ids).max_round_length == s.max_round_length,
    decreases ids.len(),
{
    if ids.len() > 0 {
        lemma_wf_end_game(s, ids[0]);
        lemma_end_game_all_frame(spec_end_game(s, ids[0]).0, ids.drop_first());
    }
}

/// Ending a list of games leaves any game not on the list alone.
proof fn lemma_end_game_all_preserves_absent(s: StateView, ids: Seq<Digest>, game_id: Digest)
    requires
        well_formed(s),
        !ids.contains(game_id),
    ensures
        well_formed(end_game_all(s, ids)),
        lookup(end_game_all(s, ids).games, game_id) == lookup(s.games, game_id),
    decreases ids.len(),
{
    if ids.len() > 0 {
        assert(ids[0] != game_id) by {
            if ids[0] == game_id {
                assert(ids.contains(game_id));
            }
        }
        lemma_remove_key(s.games, ids[0], game_id);
        lemma_wf_end_game(s, ids[0]);
        assert(!ids.drop_first().contains(game_id)) by {
            if ids.drop_first().contains(game_id) {
                let j = choose|j: int|
                    0 <= j < ids.drop_first().len() && ids.drop_first()[j] == game_id;
                assert(ids[j + 1] == game_id);
            }
        }
        lemma_end_game_all_preserves_absent(spec_end_game(s, ids[0]).0, ids.drop_first(), game_id);
    }
}

/// A game that is already revealing is left alone by the closing of betting
/// windows, and keeps its place in whatever revealing bucket lists it.
proof fn lemma_end_betting_all_keeps_revealing(
    s: StateView,
    ids: Seq<Digest>,
    t: u64,
    game_id: Digest,
    d: u64,
)
    requires
        well_formed(s),
        t < u64::MAX,
        lookup(s.games, game_id) is Some,
        (lookup(s.games, game_id)->Some_0).game.stage is Revealing,
        bucket_of(s.revealing_index, d).contains(game_id),
    ensures
        well_formed(end_betting_all(s, ids, t)),
        lookup(end_betting_all(s, ids, t).games, game_id) == lookup(s.games, game_id),
        bucket_of(end_betting_all(s, ids, t).revealing_index, d).contains(game_id),
    decreases ids.len(),
{
    if ids.len() > 0 {
        let s2 = spec_end_betting(s, ids[0], t);
        lemma_wf_end_betting(s, ids[0], t);
        match lookup(s.games, ids[0]) {
            None => {},
            Some(rec) => {
                if rec.game.stage is Betting {
                    let d0 = t.saturating_add(rec.game.round_length);
                    let rec2 = GameRecord {
                        game: Game {
                            stage: GameStage::Revealing {
                                anticipated_players: rec.game.stage->participating_players,
                            },
                            ..rec.game
                        },
                        moves: rec.moves,
                    };
                    lemma_store(s.games, ids[0], rec2, game_id);
                    lemma_store(
                        s.revealing_index,
                        d0,
                        bucket_of(s.revealing_index, d0).push(ids[0]),
                        d,
                    );
                    if d0 == d {
                        let b = bucket_of(s.revealing_index, d);
                        let j = choose|j: int| 0 <= j < b.len() && b[j] == game_id;
                        assert(b.push(ids[0])[j] == game_id);
                    }
                }
            },
        }
        lemma_end_betting_all_keeps_revealing(s2, ids.drop_first(), t, game_id, d);
    }
}

/// Closing the listed betting windows moves a listed betting game to the
/// revealing stage, with its player count as the anticipated count, and
/// schedules its revealing expiry one round length ahead.
proof fn lemma_end_betting_all_flips(s: StateView, ids: Seq<Digest>, t: u64, game_id: Digest)
    requires
        well_formed(s),
        t < u64::MAX,
        ids.contains(game_id),
        lookup(s.games, game_id) is Some,
        (lookup(s.games, game_id)->Some_0).game.stage is Betting,
    ensures
        well_formed(end_betting_all(s, ids, t)),
        lookup(end_betting_all(s, ids, t).games, game_id) == Some(
            GameRecord {
                game: Game {
                    stage: GameStage::Revealing {
                        anticipated_players: (lookup(s.games, game_id)->Some_0).game.stage
                            ->participating_players,
                    },
                    ..(lookup(s.games, game_id)->Some_0).game
                },
                moves: (lookup(s.games, game_id)->Some_0).moves,
            },
        ),
        bucket_of(
            end_betting_all(s, ids, t).revealing_index,
            t.saturating_add((lookup(s.games, game_id)->Some_0).game.round_length),
        ).contains(game_id),
    decreases ids.len(),
{
    let rec = lookup(s.games, game_id)->Some_0;
    let d = t.saturating_add(rec.game.round_length);
    let s2 = spec_end_betting(s, ids[0], t);
    lemma_wf_end_betting(s, ids[0], t);
    if ids[0] == game_id {
        let rec2 = GameRecord {
            game: Game {
                stage: GameStage::Revealing {
                    anticipated_players: rec.game.stage->participating_players,
                },
                ..rec.game
            },
            moves: rec.moves,
        };
        lemma_store(s.games, game_id, rec2, game_id);
        lemma_store(s.revealing_index, d, bucket_of(s.revealing_index, d).push(game_id), d);
        let b = bucket_of(s.revealing_index, d);
        assert(b.push(game_id)[b.len() as int] == game_id);
        assert(bucket_of(s2.revealing_index, d).contains(game_id));
        lemma_end_betting_all_keeps_revealing(s2, ids.drop_first(), t, game_id, d);
    } else {
        match lookup(s.games, ids[0]) {
            None => {},
            Some(rec0) => {
                if rec0.game.stage is Betting {
                    let rec02 = GameRecord {
                        game: Game {
                            stage: GameStage::Revealing {
                                anticipated_players: rec0.game.stage->participating_players,
                            },
                            ..rec0.game
                        },
                        moves: rec0.moves,
                    };
                    lemma_store(s.games, ids[0], rec02, game_id);
                }
            },
        }
        assert(ids.drop_first().contains(game_id)) by {
            let j = choose|j: int| 0 <= j < ids.len() && ids[j] == game_id;
            assert(ids.drop_first()[j - 1] == game_id);
        }
        lemma_end_betting_all_flips(s2, ids.drop_first(), t, game_id);
    }
}

/// A tick at the deadline of a betting game advances it: afterwards its
/// stage is exactly `Revealing` with the same player count, everything else
/// about it is unchanged, and a revealing expiry for it stands one round
/// length past the deadline. (The game must not be staled into the
/// revealing bucket of the same time point, or it would be ended in the
/// same tick.)
pub proof fn lemma_tick_advances_betting(s: StateView, t: u64, game_id: Digest)
    requires
        well_formed(s),
        t < u64::MAX,
        lookup(s.games, game_id) is Some,
        (lookup(s.games, game_id)->Some_0).game.stage is Betting,
        bucket_of(s.betting_index, t).contains(game_id),
        !bucket_of(s.revealing_index, t).contains(game_id),
    ensures
        lookup(spec_tick(s, t).games, game_id) == Some(
            GameRecord {
                game: Game {
                    stage: GameStage::Revealing {
                        anticipated_players: (lookup(s.games, game_id)->Some_0).game.stage
                            ->participating_players,
                    },
                    ..(lookup(s.games, game_id)->Some_0).game
                },
                moves: (lookup(s.games, game_id)->Some_0).moves,
            },
        ),
        bucket_of(
            spec_tick(s, t).revealing_index,
            t.saturating_add((lookup(s.games, game_id)->Some_0).game.round_length),
        ).contains(game_id),
{
    let rec = lookup(s.games, game_id)->Some_0;
    let d = t.saturating_add(rec.game.round_length);
    lemma_wf_lookup(s, game_id);
    assert(d != t);
    let s0 = StateView { now: t, ..s };
    lemma_remove_key(s0.betting_index, t, t);
    let bids = bucket_of(s0.betting_index, t);
    let s1 = StateView { betting_index: remove_key(s0.betting_index, t), ..s0 };
    assert(well_formed(s1));
    lemma_end_betting_all_flips(s1, bids, t, game_id);
    lemma_end_betting_all_frame(s1, bids, t);
    let s2 = end_betting_all(s1, bids, t);
    let rids = bucket_of(s2.revealing_index, t);
    assert(rids == bucket_of(s.revealing_index, t));
    lemma_remove_key(s2.revealing_index, t, d);
    lemma_remove_key(s2.revealing_index, t, t);
    let s3 = StateView { revealing_index: remove_key(s2.revealing_index, t), ..s2 };
    assert(well_formed(s3));
    assert(bucket_of(s3.revealing_index, d).contains(game_id));
    lemma_end_game_all_preserves_absent(s3, rids, game_id);
    lemma_end_game_all_frame(s3, rids);
}

/// A tick is idempotent per time point: running it again for the same,
/// already drained time point changes nothing.
pub proof fn lemma_tick_idempotent(s: StateView, t: u64)
    requires
        well_formed(s),
        t < u64::MAX,
    ensures
        spec_tick(spec_tick(s, t), t) == spec_tick(s, t),
{
    let s0 = StateView { now: t, ..s };
    let bids = bucket_of(s0.betting_index, t);
    lemma_remove_key(s0.betting_index, t, t);
    let s1 = StateView { betting_index: remove_key(s0.betting_index, t), ..s0 };
    assert(well_formed(s1));
    lemma_end_betting_all_frame(s1, bids, t);
    let s2 = end_betting_all(s1, bids, t);
    let rids = bucket_of(s2.revealing_index, t);
    lemma_remove_key(s2.revealing_index, t, t);
    let s3 = StateView { revealing_index: remove_key(s2.revealing_index, t), ..s2 };
    assert(well_formed(s3));
    lemma_end_game_all_frame(s3, rids);
    let u = end_game_all(s3, rids);
    assert(u == spec_tick(s, t));
    assert(u.now == t);
    assert(lookup(u.betting_index, t) is None);
    assert(lookup(u.revealing_index, t) is None);
    let u0 = StateView { now: t, ..u };
    assert(u0 == u);
    assert(bucket_of(u.betting_index, t) =~= Seq::<Digest>::empty());
    let u1 = StateView { betting_index: remove_key(u0.betting_index, t), ..u0 };
    assert(u1 == u);
    assert(end_betting_all(u1, bucket_of(u.betting_index, t), t) == u);
    assert(bucket_of(u.revealing_index, t) =~= Seq::<Digest>::empty());
    let u3 = StateView { revealing_index: remove_key(u.revealing_index, t), ..u };
    assert(u3 == u);
    assert(end_game_all(u3, bucket_of(u.revealing_index, t)) == u);
}

/// Every one of the first `n` moves wins when all revealed hands are the
/// same: the winners list is then exactly the players list.
proof fn lemma_unanimous_winners_prefix(moves: Seq<(u64, Move)>, h: Hand, n: int)
    requires
        0 <= n <= moves.len(),
        forall|i: int| 0 <= i < moves.len() ==> (#[trigger] moves[i]).1.hand == Some(h),
    ensures
        winners_prefix(moves, n) =~= moves.take(n).map_values(|pm: (u64, Move)| pm.0),
    decreases n,
{
    assert(!hand_present(moves, spec_beaten_by(h))) by {
        lemma_hand_present_prefix(moves, moves.len() as int, spec_beaten_by(h));
    }
    if n > 0 {
        lemma_unanimous_winners_prefix(moves, h, n - 1);
        assert(winning_move(moves, moves[n - 1].1));
    }
}

/// When every participant reveals the same hand, everyone wins and the even
/// split hands each participant exactly their stake back: the draw outcome
/// is a plain refund.
pub proof fn lemma_settlement_unanimous_refund(moves: Seq<(u64, Move)>, bet: u64, h: Hand)
    requires
        moves.len() >= 1,
        forall|i: int| 0 <= i < moves.len() ==> (#[trigger] moves[i]).1.hand == Some(h),
        bet * moves.len() <= u64::MAX,
    ensures
        settlement_winners(moves) == players_of(moves),
        settlement_reward(moves, bet) == bet,
{
    lemma_unanimous_winners_prefix(moves, h, moves.len() as int);
    assert(moves.take(moves.len() as int) =~= moves);
    assert(winners_of(moves) =~= players_of(moves));
    assert(winners_of(moves).len() == moves.len());
    lemma_div_by_multiple(bet as int, moves.len() as int);
    assert(pool_of(moves, bet) == bet * moves.len());
    assert(pool_of(moves, bet) as int / winners_of(moves).len() as int == bet);
}

/// What settlement pays out in total never exceeds the pool: with winners,
/// the even shares sum to at most the pool (the integer remainder is
/// forfeited); with none, the refunds sum to exactly the pool.
pub proof fn lemma_payout_never_exceeds_pool(moves: Seq<(u64, Move)>, bet: u64)
    requires
        moves.len() >= 1,
        bet * moves.len() <= u64::MAX,
    ensures
        settlement_winners(moves).len() * settlement_reward(moves, bet) <= pool_of(moves, bet),
{
    let pool = pool_of(moves, bet) as int;
    let wc = winners_of(moves).len() as int;
    if wc == 0 {
        assert(settlement_winners(moves).len() == moves.len());
        assert(moves.len() * bet <= pool) by (nonlinear_arith)
            requires
                pool == bet * moves.len(),
        ;
    } else {
        lemma_fundamental_div_mod(pool, wc);
        lemma_mod_bound(pool, wc);
        assert(wc * (pool / wc) <= pool);
        assert(0 <= pool / wc <= pool) by (nonlinear_arith)
            requires
                wc >= 1,
                pool >= 0,
                wc * (pool / wc) <= pool,
                pool == wc * (pool / wc) + pool % wc,
                0 <= pool % wc,
        ;
        assert(settlement_reward(moves, bet) == pool / wc);
    }
}

/// A no-show is never a winner: when any move wins, a player who never
/// revealed is not among the settled winners.
pub proof fn lemma_no_show_never_wins(moves: Seq<(u64, Move)>, bet: u64, i: int)
    requires
        unique_keys(moves),
        0 <= i < moves.len(),
        moves[i].1.hand is None,
        winners_of(moves).len() > 0,
    ensures
        !settlement_winners(moves).contains(moves[i].0),
{
    let w = settlement_winners(moves);
    assert forall|j: int| 0 <= j < w.len() implies w[j] != moves[i].0 by {
        let k = lemma_winners_prefix_member(moves, moves.len() as int, j);
        assert(moves[k].1.hand is Some);
        assert(k != i);
        assert(moves[k].0 != moves[i].0);
    }
    assert(!w.contains(moves[i].0));
}

/// Starting a game keeps every betting game scheduled at its deadline.
pub proof fn lemma_scheduled_start(
    s: StateView,
    owner: u64,
    round_length: u64,
    bet: u64,
    move_hash: Digest,
)
    requires
        well_formed(s),
        scheduled(s),
    ensures
        scheduled(spec_start(s, owner, round_length, bet, move_hash).0),
{
    let (s2, r) = spec_start(s, owner, round_length, bet, move_hash);
    if r is Ok {
        let d = s.now.saturating_add(round_length);
        let b = bucket_of(s.betting_index, d);
        lemma_store(s.betting_index, d, b.push(move_hash), d);
        assert forall|i: int|
            0 <= i < s2.games.len() && (#[trigger] s2.games[i]).1.game.stage
                is Betting implies bucket_of(
            s2.betting_index,
            betting_deadline(s2.games[i].1.game),
        ).contains(s2.games[i].0) by {
            let di = betting_deadline(s2.games[i].1.game);
            lemma_store(s.betting_index, d, b.push(move_hash), di);
            if i < s.games.len() {
                assert(s2.games[i] == s.games[i]);
                let bi = bucket_of(s.betting_index, di);
                assert(bi.contains(s.games[i].0));
                if di == d {
                    let j = choose|j: int| 0 <= j < bi.len() && bi[j] == s.games[i].0;
                    assert(bi.push(move_hash)[j] == s.games[i].0);
                }
            } else {
                assert(s2.games[i].0 == move_hash);
                assert(di == d);
                assert(b.push(move_hash)[b.len() as int] == move_hash);
            }
        }
    }
}

/// Joining a game keeps every betting game scheduled at its deadline.
pub proof fn lemma_scheduled_join(s: StateView, joiner: u64, game_id: Digest, move_hash: Digest)
    requires
        well_formed(s),
        scheduled(s),
    ensures
        scheduled(spec_join(s, joiner, game_id, move_hash).0),
{
    let (s2, r) = spec_join(s, joiner, game_id, move_hash);
    if r is Ok {
        lemma_key_index(s.games, game_id);
        let k = key_index(s.games, game_id);
        assert forall|i: int|
            0 <= i < s2.games.len() && (#[trigger] s2.games[i]).1.game.stage
                is Betting implies bucket_of(
            s2.betting_index,
            betting_deadline(s2.games[i].1.game),
        ).contains(s2.games[i].0) by {
            if i != k {
                assert(s2.games[i] == s.games[i]);
            } else {
                assert(s2.games[i].0 == s.games[i].0);
                assert(betting_deadline(s2.games[i].1.game) == betting_deadline(s.games[i].1.game));
                assert(s.games[i].1.game.stage is Betting);
            }
        }
    }
}

/// Ending a game keeps every betting game scheduled at its deadline.
pub proof fn lemma_scheduled_end_game(s: StateView, game_id: Digest)
    requires
        well_formed(s),
        scheduled(s),
    ensures
        scheduled(spec_end_game(s, game_id).0),
{
    let (s2, r) = spec_end_game(s, game_id);
    if r is Some {
        lemma_key_index(s.games, game_id);
        let k = key_index(s.games, game_id);
        assert forall|i: int|
            0 <= i < s2.games.len() && (#[trigger] s2.games[i]).1.game.stage
                is Betting implies bucket_of(
            s2.betting_index,
            betting_deadline(s2.games[i].1.game),
        ).contains(s2.games[i].0) by {
            if i < k {
                assert(s2.games[i] == s.games[i]);
            } else {
                assert(s2.games[i] == s.games[i + 1]);
            }
        }
    }
}

/// Revealing a move keeps every betting game scheduled at its deadline.
pub proof fn lemma_scheduled_reveal(s: StateView, player: u64, game_id: Digest, payload: Seq<u8>)
    requires
        well_formed(s),
        scheduled(s),
    ensures
        scheduled(spec_reveal_move(s, player, game_id, payload).0),
{
    let (s2, r) = spec_reveal_move(s, player, game_id, payload);
    if r is Ok {
        let rec = lookup(s.games, game_id)->Some_0;
        let mv = lookup(rec.moves, player)->Some_0;
        let new_moves = store(
            rec.moves,
            player,
            Move { hash: mv.hash, hand: spec_hand_of_byte(payload[0]) },
        );
        lemma_key_index(s.games, game_id);
        let k = key_index(s.games, game_id);
        if rec.game.stage->anticipated_players == 1 {
            let rec1 = GameRecord { game: rec.game, moves: new_moves };
            let s1 = StateView { games: store(s.games, game_id, rec1), ..s };
            lemma_store(s.games, game_id, rec1, game_id);
            assert(well_formed(s1)) by {
                assert forall|i: int| 0 <= i < s1.games.len() implies crate::state::wf_game(
                    s1.min_round_length,
                    s1.max_round_length,
                    (#[trigger] s1.games[i]).1,
                ) by {
                    if i != k {
                        assert(s1.games[i] == s.games[i]);
                    } else {
                        lemma_wf_lookup(s, game_id);
                        lemma_store(
                            rec.moves,
                            player,
                            Move { hash: mv.hash, hand: spec_hand_of_byte(payload[0]) },
                            player,
                        );
                        lemma_key_index(rec.moves, player);
                    }
                }
            }
            assert(scheduled(s1)) by {
                assert forall|i: int|
                    0 <= i < s1.games.len() && (#[trigger] s1.games[i]).1.game.stage
                        is Betting implies bucket_of(
                    s1.betting_index,
                    betting_deadline(s1.games[i].1.game),
                ).contains(s1.games[i].0) by {
                    if i != k {
                        assert(s1.games[i] == s.games[i]);
                    }
                }
            }
            lemma_scheduled_end_game(s1, game_id);
        } else {
            assert forall|i: int|
                0 <= i < s2.games.len() && (#[trigger] s2.games[i]).1.game.stage
                    is Betting implies bucket_of(
                s2.betting_index,
                betting_deadline(s2.games[i].1.game),
            ).contains(s2.games[i].0) by {
                if i != k {
                    assert(s2.games[i] == s.games[i]);
                }
            }
        }
    }
}

/// Closing betting windows only ever turns a betting game into a revealing
/// one: a game still betting afterwards is untouched, and was not listed.
proof fn lemma_end_betting_all_only_flips(s: StateView, ids: Seq<Digest>, t: u64, game_id: Digest)
    requires
        well_formed(s),
        lookup(end_betting_all(s, ids, t).games, game_id) is Some,
        (lookup(end_betting_all(s, ids, t).games, game_id)->Some_0).game.stage is Betting,
    ensures
        lookup(s.games, game_id) == lookup(end_betting_all(s, ids, t).games, game_id),
        !ids.contains(game_id),
    decreases ids.len(),
{
    if ids.len() > 0 {
        let s1 = spec_end_betting(s, ids[0], t);
        lemma_wf_end_betting(s, ids[0], t);
        lemma_end_betting_all_only_flips(s1, ids.drop_first(), t, game_id);
        match lookup(s.games, ids[0]) {
            None => {},
            Some(rec0) => {
                if rec0.game.stage is Betting {
                    let rec02 = GameRecord {
                        game: Game {
                            stage: GameStage::Revealing {
                                anticipated_players: rec0.game.stage->participating_players,
                            },
                            ..rec0.game
                        },
                        moves: rec0.moves,
                    };
                    lemma_store(s.games, ids[0], rec02, game_id);
                }
            },
        }
        assert(game_id != ids[0]);
        assert(!ids.contains(game_id)) by {
            if ids.contains(game_id) {
                let j = choose|j: int| 0 <= j < ids.len() && ids[j] == game_id;
                assert(ids.drop_first()[j - 1] == game_id);
            }
        }
    }
}

/// Ending games only removes: a game still live afterwards is untouched.
proof fn lemma_end_game_all_only_removes(s: StateView, ids: Seq<Digest>, game_id: Digest)
    requires
        well_formed(s),
        lookup(end_game_all(s, ids).games, game_id) is Some,
    ensures
        lookup(s.games, game_id) == lookup(end_game_all(s, ids).games, game_id),
    decreases ids.len(),
{
    if ids.len() > 0 {
        let s1 = spec_end_game(s, ids[0]).0;
        lemma_wf_end_game(s, ids[0]);
        lemma_end_game_all_only_removes(s1, ids.drop_first(), game_id);
        lemma_remove_key(s.games, ids[0], game_id);
    }
}

/// A tick keeps every betting game scheduled at its deadline: the games it
/// drains from the betting index are exactly those whose deadline it is, and
/// it turns each of them to revealing.
pub proof fn lemma_scheduled_tick(s: StateView, t: u64)
    requires
        well_formed(s),
        scheduled(s),
        t < u64::MAX,
    ensures
        scheduled(spec_tick(s, t)),
{
    let s0 = StateView { now: t, ..s };
    let bids = bucket_of(s0.betting_index, t);
    lemma_remove_key(s0.betting_index, t, t);
    let s1 = StateView { betting_index: remove_key(s0.betting_index, t), ..s0 };
    assert(well_formed(s1));
    lemma_end_betting_all_frame(s1, bids, t);
    let s2 = end_betting_all(s1, bids, t);
    let rids = bucket_of(s2.revealing_index, t);
    lemma_remove_key(s2.revealing_index, t, t);
    let s3 = StateView { revealing_index: remove_key(s2.revealing_index, t), ..s2 };
    assert(well_formed(s3));
    lemma_end_game_all_frame(s3, rids);
    let u = end_game_all(s3, rids);
    lemma_wf_tick(s, t);
    assert forall|i: int|
        0 <= i < u.games.len() && (#[trigger] u.games[i]).1.game.stage is Betting implies bucket_of(
        u.betting_index,
        betting_deadline(u.games[i].1.game),
    ).contains(u.games[i].0) by {
        let id = u.games[i].0;
        let r = u.games[i].1;
        assert(lookup(u.games, id) == Some(r)) by {
            assert(forall|j: int| 0 <= j < i ==> u.games[j].0 != id);
            crate::assoc::lemma_lookup_at_index(u.games, id, i);
        }
        lemma_end_game_all_only_removes(s3, rids, id);
        lemma_end_betting_all_only_flips(s1, bids, t, id);
        assert(lookup(s.games, id) == Some(r));
        lemma_key_index(s.games, id);
        let k = key_index(s.games, id);
        let d = betting_deadline(r.game);
        assert(bucket_of(s.betting_index, d).contains(id));
        assert(d != t) by {
            if d == t {
                assert(bids.contains(id));
            }
        }
        lemma_remove_key(s0.betting_index, t, d);
        assert(bucket_of(u.betting_index, d) == bucket_of(s.betting_index, d));
    }
}

/// A tick at the deadline of a betting game, in a state where every betting
/// game is scheduled at its deadline, advances the game: afterwards its
/// stage is exactly `Revealing` with the same player count, everything else
/// about it is unchanged, and its revealing expiry stands one round length
/// past the deadline. (The game must not be staled into the revealing
/// bucket of the same time point, or it would be ended in the same tick.)
pub proof fn lemma_tick_advances_at_deadline(s: StateView, t: u64, game_id: Digest)
    requires
        well_formed(s),
        scheduled(s),
        t < u64::MAX,
        lookup(s.games, game_id) is Some,
        (lookup(s.games, game_id)->Some_0).game.stage is Betting,
        t == betting_deadline((lookup(s.games, game_id)->Some_0).game),
        !bucket_of(s.revealing_index, t).contains(game_id),
    ensures
        lookup(spec_tick(s, t).games, game_id) == Some(
            GameRecord {
                game: Game {
                    stage: GameStage::Revealing {
                        anticipated_players: (lookup(s.games, game_id)->Some_0).game.stage
                            ->participating_players,
                    },
                    ..(lookup(s.games, game_id)->Some_0).game
                },
                moves: (lookup(s.games, game_id)->Some_0).moves,
            },
        ),
        bucket_of(
            spec_tick(s, t).revealing_index,
            t.saturating_add((lookup(s.games, game_id)->Some_0).game.round_length),
        ).contains(game_id),
{
    lemma_key_index(s.games, game_id);
    assert(bucket_of(s.betting_index, t).contains(game_id));
    lemma_tick_advances_betting(s, t, game_id);
}

} // verus!
