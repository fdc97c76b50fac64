//! The leaf components on their own: hand codec and dominance, move
//! records, the game stage machine, settlement, and the commitment digest.

use ropasci::game::{Game, GameStage, Hand, Move};
use ropasci::hashing::{hash_move, Digest};
use ropasci::settlement::{find_winners, settle};

fn digest(tag: u64) -> Digest {
    Digest { w0: tag, w1: 0, w2: 0, w3: 0 }
}

#[test]
fn hand_codec() {
    assert_eq!(Some(Hand::Rock), Hand::new(0));
    assert_eq!(Some(Hand::Paper), Hand::new(1));
    assert_eq!(Some(Hand::Scissors), Hand::new(2));
    assert_eq!(None, Hand::new(3));
    assert_eq!(None, Hand::new(100));
    assert_eq!(None, Hand::new(255));
}

#[test]
fn hand_dominance_cycle() {
    assert!(Hand::Rock.beats(&Hand::Scissors));
    assert!(Hand::Paper.beats(&Hand::Rock));
    assert!(Hand::Scissors.beats(&Hand::Paper));
    assert!(!Hand::Rock.beats(&Hand::Rock));
    assert!(!Hand::Rock.beats(&Hand::Paper));
    assert!(!Hand::Paper.beats(&Hand::Scissors));
    assert!(!Hand::Scissors.beats(&Hand::Rock));

    assert_eq!(Hand::Paper, Hand::Rock.beaten_by());
    assert_eq!(Hand::Scissors, Hand::Paper.beaten_by());
    assert_eq!(Hand::Rock, Hand::Scissors.beaten_by());
}

#[test]
fn move_records_reveal() {
    let mut m = Move::new(digest(7));
    assert_eq!(digest(7), m.hash);
    assert_eq!(None, m.hand);

    assert!(m.record_reveal(&vec![]).is_err());
    assert_eq!(None, m.hand);

    assert!(m.record_reveal(&vec![3, 1, 2]).is_err());
    assert_eq!(None, m.hand);

    assert!(m.record_reveal(&vec![2, 1, 2]).is_ok());
    assert_eq!(Some(Hand::Scissors), m.hand);
}

#[test]
fn game_stage_machine() {
    let mut g = Game::start(5, 20, 10);
    assert_eq!(5, g.start);
    assert_eq!(20, g.round_length);
    assert_eq!(10, g.bet);
    assert_eq!(GameStage::Betting { participating_players: 1 }, g.stage);

    g.join();
    g.join();
    assert_eq!(GameStage::Betting { participating_players: 3 }, g.stage);

    g.start_revealing();
    assert_eq!(GameStage::Revealing { anticipated_players: 3 }, g.stage);
    assert!(!g.last_revealing());

    g.record_reveal();
    assert_eq!(GameStage::Revealing { anticipated_players: 2 }, g.stage);
    assert!(!g.last_revealing());

    g.record_reveal();
    assert!(g.last_revealing());
}

#[test]
fn settlement_single_winner_takes_pool() {
    let moves = vec![
        (1u64, Move { hash: digest(1), hand: Some(Hand::Rock) }),
        (2u64, Move { hash: digest(2), hand: Some(Hand::Paper) }),
        (3u64, Move { hash: digest(3), hand: Some(Hand::Paper) }),
    ];
    assert_eq!(vec![2u64, 3u64], find_winners(&moves));
    // pool 30, 2 winners, reward 15 each: the even split of the pool
    let (winners, reward) = settle(&moves, 10);
    assert_eq!(vec![2u64, 3u64], winners);
    assert_eq!(15, reward);
    assert!(winners.len() as u64 * reward <= 30);
}

#[test]
fn settlement_rounding_remainder_is_forfeited() {
    let moves = vec![
        (1u64, Move { hash: digest(1), hand: Some(Hand::Scissors) }),
        (2u64, Move { hash: digest(2), hand: Some(Hand::Rock) }),
        (3u64, Move { hash: digest(3), hand: Some(Hand::Rock) }),
    ];
    // pool 21, 2 winners: each gets 10, 1 is forfeited
    let (winners, reward) = settle(&moves, 7);
    assert_eq!(vec![2u64, 3u64], winners);
    assert_eq!(10, reward);
    assert!(winners.len() as u64 * reward <= 21);
}

#[test]
fn settlement_cycle_refunds_everyone() {
    let moves = vec![
        (1u64, Move { hash: digest(1), hand: Some(Hand::Rock) }),
        (2u64, Move { hash: digest(2), hand: Some(Hand::Paper) }),
        (3u64, Move { hash: digest(3), hand: Some(Hand::Scissors) }),
    ];
    assert_eq!(Vec::<u64>::new(), find_winners(&moves));
    let (winners, reward) = settle(&moves, 10);
    assert_eq!(vec![1u64, 2u64, 3u64], winners);
    assert_eq!(10, reward);
}

#[test]
fn settlement_unanimous_refunds_everyone() {
    let moves = vec![
        (1u64, Move { hash: digest(1), hand: Some(Hand::Rock) }),
        (2u64, Move { hash: digest(2), hand: Some(Hand::Rock) }),
        (3u64, Move { hash: digest(3), hand: Some(Hand::Rock) }),
    ];
    // everyone wins: pool 30 split three ways is each stake back
    let (winners, reward) = settle(&moves, 10);
    assert_eq!(vec![1u64, 2u64, 3u64], winners);
    assert_eq!(10, reward);
}

#[test]
fn settlement_no_show_never_wins() {
    let moves = vec![
        (1u64, Move { hash: digest(1), hand: Some(Hand::Scissors) }),
        (2u64, Move { hash: digest(2), hand: None }),
        (3u64, Move { hash: digest(3), hand: Some(Hand::Scissors) }),
    ];
    let (winners, _) = settle(&moves, 10);
    assert!(!winners.contains(&2));
    assert_eq!(vec![1u64, 3u64], winners);
}

#[test]
fn settlement_nobody_revealed_refunds_everyone() {
    let moves = vec![
        (1u64, Move { hash: digest(1), hand: None }),
        (2u64, Move { hash: digest(2), hand: None }),
    ];
    assert_eq!(Vec::<u64>::new(), find_winners(&moves));
    let (winners, reward) = settle(&moves, 25);
    assert_eq!(vec![1u64, 2u64], winners);
    assert_eq!(25, reward);
}

#[test]
fn settlement_of_no_moves() {
    let moves: Vec<(u64, Move)> = vec![];
    let (winners, reward) = settle(&moves, 10);
    assert_eq!(Vec::<u64>::new(), winners);
    assert_eq!(10, reward);
}

#[test]
fn digest_is_deterministic_and_input_sensitive() {
    let a1 = hash_move(&b"move".to_vec());
    let a2 = hash_move(&b"move".to_vec());
    assert_eq!(a1, a2);

    // payloads sharing a leading byte still hash apart
    let b1 = hash_move(&vec![0, 1, 2, 3]);
    let b2 = hash_move(&vec![0, 1, 2, 4]);
    assert_ne!(b1, b2);
    assert_ne!(a1, b1);

    let empty = hash_move(&vec![]);
    assert_ne!(empty, a1);
}
