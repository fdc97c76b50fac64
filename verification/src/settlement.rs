//! Winner determination and payout split for a finished game.
//!
//! A revealed hand wins when no revealed move played the hand that defeats
//! it. The pool, the stake times the number of participants, is split evenly
//! among the winners (integer division; the remainder is forfeited). When no
//! hand wins, every participant is refunded exactly their stake.

use vstd::prelude::*;

use crate::game::{spec_beaten_by, Hand, Move};

verus! {

/// Whether any of the first `n` moves revealed hand `h`.
pub open spec fn hand_present_prefix(moves: Seq<(u64, Move)>, n: int, h: Hand) -> bool
    decreases n,
{
    if n <= 0 {
        false
    } else {
        hand_present_prefix(moves, n - 1, h) || moves[n - 1].1.hand == Some(h)
    }
}

/// Whether any revealed move played hand `h`.
pub open spec fn hand_present(moves: Seq<(u64, Move)>, h: Hand) -> bool {
    hand_present_prefix(moves, moves.len() as int, h)
}

/// A move wins when it was revealed and nobody played the hand that defeats
/// it.
pub open spec fn winning_move(moves: Seq<(u64, Move)>, m: Move) -> bool {
    m.hand matches Some(h) && !hand_present(moves, spec_beaten_by(h))
}

/// The players among the first `n` moves whose move wins, in move order.
pub open spec fn winners_prefix(moves: Seq<(u64, Move)>, n: int) -> Seq<u64>
    decreases n,
{
    if n <= 0 {
        Seq::empty()
    } else {
        winners_prefix(moves, n - 1) + if winning_move(moves, moves[n - 1].1) {
            seq![moves[n - 1].0]
        } else {
            Seq::empty()
        }
    }
}

/// The players whose move wins, in move order.
pub open spec fn winners_of(moves: Seq<(u64, Move)>) -> Seq<u64> {
    winners_prefix(moves, moves.len() as int)
}

/// All participating players, in move order.
pub open spec fn players_of(moves: Seq<(u64, Move)>) -> Seq<u64> {
    moves.map_values(|pm: (u64, Move)| pm.0)
}

/// The stake times the number of participants, saturating at the largest
/// representable amount.
pub open spec fn pool_of(moves: Seq<(u64, Move)>, bet: u64) -> u64 {
    if bet * moves.len() > u64::MAX {
        u64::MAX
    } else {
        (bet * moves.len()) as u64
    }
}

/// Who is paid: the winners, or every participant when no move wins.
pub open spec fn settlement_winners(moves: Seq<(u64, Move)>) -> Seq<u64> {
    if winners_of(moves).len() == 0 {
        players_of(moves)
    } else {
        winners_of(moves)
    }
}

/// What each paid player receives: an even share of the pool, or a plain
/// refund of the stake when no move wins.
pub open spec fn settlement_reward(moves: Seq<(u64, Move)>, bet: u64) -> u64 {
    if winners_of(moves).len() == 0 {
        bet
    } else {
        (pool_of(moves, bet) as int / winners_of(moves).len() as int) as u64
    }
}

/// A hand is present among the first `n` moves exactly when some move among
/// them revealed it.
pub proof fn lemma_hand_present_prefix(moves: Seq<(u64, Move)>, n: int, h: Hand)
    requires
        n <= moves.len(),
    ensures
        hand_present_prefix(moves, n, h) <==> exists|i: int|
            0 <= i < n && moves[i].1.hand == Some(h),
    decreases n,
{
    if n > 0 {
        lemma_hand_present_prefix(moves, n - 1, h);
    }
}

/// Each player of `winners_prefix(moves, n)` stands in the first `n` moves
/// with a winning move.
pub proof fn lemma_winners_prefix_member(moves: Seq<(u64, Move)>, n: int, j: int) -> (i: int)
    requires
        n <= moves.len(),
        0 <= j < winners_prefix(moves, n).len(),
    ensures
        0 <= i < n,
        moves[i].0 == winners_prefix(moves, n)[j],
        winning_move(moves, moves[i].1),
    decreases n,
{
    if j < winners_prefix(moves, n - 1).len() {
        lemma_winners_prefix_member(moves, n - 1, j)
    } else {
        n - 1
    }
}

/// A player whose move wins stands among the winners.
pub proof fn lemma_winning_player_in_winners(moves: Seq<(u64, Move)>, n: int, i: int)
    requires
        0 <= i < n <= moves.len(),
        winning_move(moves, moves[i].1),
    ensures
        winners_prefix(moves, n).contains(moves[i].0),
    decreases n,
{
    if i < n - 1 {
        lemma_winning_player_in_winners(moves, n - 1, i);
        let j = choose|j: int|
            0 <= j < winners_prefix(moves, n - 1).len() && #[trigger] winners_prefix(
                moves,
                n - 1,
            )[j] == moves[i].0;
        assert(winners_prefix(moves, n)[j] == moves[i].0);
    } else {
        let w = winners_prefix(moves, n);
        assert(w[w.len() - 1] == moves[i].0);
    }
}

/// Find which hands are present among the revealed moves.
fn presence(moves: &Vec<(u64, Move)>) -> (r: (bool, bool, bool))
    ensures
        r.0 == hand_present(moves@, Hand::Rock),
        r.1 == hand_present(moves@, Hand::Paper),
        r.2 == hand_present(moves@, Hand::Scissors),
{
    let mut rock = false;
    let mut paper = false;
    let mut scissors = false;
    let mut i: usize = 0;
    while i < moves.len()
        invariant
            0 <= i <= moves@.len(),
            rock == hand_present_prefix(moves@, i as int, Hand::Rock),
            paper == hand_present_prefix(moves@, i as int, Hand::Paper),
            scissors == hand_present_prefix(moves@, i as int, Hand::Scissors),
        decreases moves@.len() - i,
    {
        match moves[i].1.hand {
            Some(Hand::Rock) => {
                rock = true;
            },
            Some(Hand::Paper) => {
                paper = true;
            },
            Some(Hand::Scissors) => {
                scissors = true;
            },
            None => {},
        }
        i = i + 1;
    }
    (rock, paper, scissors)
}

/// The players whose revealed hand nobody countered, in move order.
pub fn find_winners(moves: &Vec<(u64, Move)>) -> (r: Vec<u64>)
    ensures
        r@ == winners_of(moves@),
{
    let (rock, paper, scissors) = presence(moves);
    let mut winners: Vec<u64> = Vec::new();
    let mut i: usize = 0;
    while i < moves.len()
        invariant
            0 <= i <= moves@.len(),
            rock == hand_present(moves@, Hand::Rock),
            paper == hand_present(moves@, Hand::Paper),
            scissors == hand_present(moves@, Hand::Scissors),
            winners@ == winners_prefix(moves@, i as int),
        decreases moves@.len() - i,
    {
        let wins = match moves[i].1.hand {
            Some(h) => match h.beaten_by() {
                Hand::Rock => !rock,
                Hand::Paper => !paper,
                Hand::Scissors => !scissors,
            },
            None => false,
        };
        if wins {
            winners.push(moves[i].0);
            proof {
                assert(winners@ =~= winners_prefix(moves@, i + 1 as int));
            }
        }
        i = i + 1;
    }
    winners
}

/// Settle a finished game: who is paid, and how much each receives.
pub fn settle(moves: &Vec<(u64, Move)>, bet: u64) -> (r: (Vec<u64>, u64))
    ensures
        r.0@ == settlement_winners(moves@),
        r.1 == settlement_reward(moves@, bet),
{
    let winners = find_winners(moves);
    if winners.len() == 0 {
        let mut all: Vec<u64> = Vec::new();
        let mut i: usize = 0;
        while i < moves.len()
            invariant
                0 <= i <= moves@.len(),
                all@ == moves@.take(i as int).map_values(|pm: (u64, Move)| pm.0),
            decreases moves@.len() - i,
        {
            all.push(moves[i].0);
            proof {
                assert(all@ =~= moves@.take(i + 1 as int).map_values(|pm: (u64, Move)| pm.0));
            }
            i = i + 1;
        }
        proof {
            assert(moves@.take(moves@.len() as int) =~= moves@);
        }
        (all, bet)
    } else {
        let count = moves.len() as u64;
        let pool = match bet.checked_mul(count) {
            Some(p) => p,
            None => u64::MAX,
        };
        let reward = pool / (winners.len() as u64);
        (winners, reward)
    }
}

} // verus!
