//! The engine driven through whole rounds: creating, joining, advancing
//! past deadlines, revealing, and settling.

use ropasci::game::{Game, GameStage, Hand, Move};
use ropasci::hashing::hash_move;
use ropasci::pallet::{Config, Error, Pallet};

fn new_test_ext() -> Pallet {
    let mut p = Pallet::new(Config { min_round_length: 10, max_round_length: 50 });
    for who in 1..=5u64 {
        p.set_balance(who, 100);
    }
    p
}

fn run_to_block(p: &mut Pallet, n: u64) {
    while p.now() < n {
        let next = p.now() + 1;
        p.on_initialize(next);
    }
}

#[test]
fn can_create_game() {
    let mut p = new_test_ext();
    let round_length = 20;
    let bet = 10;
    let move_hash = hash_move(&b"move".to_vec());
    let balance = p.balance_of(1);

    assert!(p.start(1, round_length, bet, move_hash).is_ok());
    assert_eq!(balance - bet, p.balance_of(1));

    assert!(matches!(
        p.game_of(&move_hash),
        Some(Game {
            round_length: game_round_length,
            bet: game_bet,
            stage: GameStage::Betting { participating_players: 1 },
            ..
        }) if round_length == game_round_length && bet == game_bet
    ));

    assert_eq!(1, p.betting_expiry_count(20));
    assert!(p.betting_expiry_lists(20, &move_hash));

    assert!(!p.has_revealing_expiry(20));

    assert!(matches!(
        p.move_of(&move_hash, 1),
        Some(Move { hash, hand: None }) if hash == move_hash
    ));
}

#[test]
fn fail_duplicate_game() {
    let mut p = new_test_ext();
    let round_length = 20;
    let bet = 10;
    let move_hash = hash_move(&b"move".to_vec());

    assert!(p.start(1, round_length, bet, move_hash).is_ok());
    let balance = p.balance_of(1);
    assert!(matches!(
        p.start(1, round_length, bet, move_hash),
        Err(Error::GameExists)
    ));
    assert_eq!(balance, p.balance_of(1));
}

#[test]
fn fail_wrong_round_length() {
    let mut p = new_test_ext();
    let round_length = 0;
    let bet = 10;
    let move_hash = hash_move(&b"move".to_vec());

    assert!(matches!(
        p.start(1, round_length, bet, move_hash),
        Err(Error::RoundLengthInvalid)
    ));
}

#[test]
fn fail_not_enough_money() {
    let mut p = new_test_ext();
    let round_length = 20;
    let bet = p.balance_of(1) + 1;
    let move_hash = hash_move(&b"move".to_vec());

    assert!(matches!(
        p.start(1, round_length, bet, move_hash),
        Err(Error::MoneyNotEnough)
    ));
}

#[test]
fn can_join_game() {
    let mut p = new_test_ext();
    let round_length = 20;
    let bet = 10;
    let move_hash = hash_move(&b"move".to_vec());
    let balance = p.balance_of(2);

    assert!(p.start(1, round_length, bet, move_hash).is_ok());
    assert!(p.join(2, move_hash, move_hash).is_ok());
    assert!(p.join(3, move_hash, move_hash).is_ok());

    assert_eq!(balance - bet, p.balance_of(2));
    assert_eq!(3, p.moves_count(&move_hash));
    assert!(p.move_of(&move_hash, 2).is_some());
    assert!(p.move_of(&move_hash, 3).is_some());
    assert!(matches!(
        p.game_of(&move_hash),
        Some(Game { stage: GameStage::Betting { participating_players: 3 }, .. })
    ));
}

#[test]
fn fail_join_twice() {
    let mut p = new_test_ext();
    let round_length = 20;
    let bet = 10;
    let move_hash = hash_move(&b"move".to_vec());

    assert!(p.start(1, round_length, bet, move_hash).is_ok());
    assert!(p.join(2, move_hash, move_hash).is_ok());
    assert!(matches!(
        p.join(2, move_hash, move_hash),
        Err(Error::PlayerMoveMade)
    ));
}

#[test]
fn moves_to_reveal() {
    let mut p = new_test_ext();
    let round_length = 20;
    let bet = 10;
    let move_hash = hash_move(&b"move".to_vec());

    assert!(p.start(1, round_length, bet, move_hash).is_ok());
    assert!(p.join(2, move_hash, move_hash).is_ok());

    // end betting
    run_to_block(&mut p, 20);

    assert!(matches!(
        p.game_of(&move_hash),
        Some(Game { stage: GameStage::Revealing { anticipated_players: 2 }, .. })
    ));

    assert!(!p.has_betting_expiry(20));

    assert_eq!(1, p.revealing_expiry_count(40));
    assert!(p.revealing_expiry_lists(40, &move_hash));
}

#[test]
fn fail_join_at_revealing() {
    let mut p = new_test_ext();
    let round_length = 20;
    let bet = 10;
    let move_hash = hash_move(&b"move".to_vec());

    assert!(p.start(1, round_length, bet, move_hash).is_ok());
    assert!(p.join(2, move_hash, move_hash).is_ok());

    // end betting
    run_to_block(&mut p, 20);

    assert!(matches!(
        p.join(3, move_hash, move_hash),
        Err(Error::GameWrongStage)
    ));
}

#[test]
fn can_reveal() {
    let mut p = new_test_ext();
    let round_length = 20;
    let bet = 10;
    let move_1 = vec![Hand::Rock as u8, 1, 2, 3];
    let move_1_hash = hash_move(&move_1);
    let move_2 = vec![Hand::Paper as u8, 1, 2, 3, 4];
    let move_2_hash = hash_move(&move_2);

    assert!(p.start(1, round_length, bet, move_1_hash).is_ok());
    assert!(p.join(2, move_1_hash, move_2_hash).is_ok());

    // end betting
    run_to_block(&mut p, 20);

    assert!(p.reveal_move(2, move_1_hash, &move_2).is_ok());

    assert!(matches!(
        p.game_of(&move_1_hash),
        Some(Game { stage: GameStage::Revealing { anticipated_players: 1 }, .. })
    ));

    assert!(matches!(
        p.move_of(&move_1_hash, 2),
        Some(Move { hash, hand: Some(Hand::Paper) }) if hash == move_2_hash
    ));
}

#[test]
fn fail_reveal() {
    let mut p = new_test_ext();
    let round_length = 20;
    let bet = 10;
    let move_1 = vec![100, 1, 2, 3]; // invalid hand
    let move_1_hash = hash_move(&move_1);
    let move_2 = vec![Hand::Paper as u8, 1, 2, 3, 4];
    let move_2_hash = hash_move(&move_2);

    assert!(p.start(1, round_length, bet, move_1_hash).is_ok());
    assert!(p.join(2, move_1_hash, move_2_hash).is_ok());

    // end betting
    run_to_block(&mut p, 20);

    assert!(matches!(
        p.reveal_move(1, move_1_hash, &move_1),
        Err(Error::PlayerMoveInvalid)
    ));

    assert!(matches!(
        p.reveal_move(2, move_1_hash, &vec![1, 2, 3]),
        Err(Error::PlayerRevealMismatch)
    ));

    assert!(matches!(
        p.reveal_move(3, move_1_hash, &vec![1, 2, 3]),
        Err(Error::PlayerMoveMissing)
    ));
}

#[test]
fn can_end_game() {
    let mut p = new_test_ext();
    let round_length = 20;
    let bet = 10;
    let move_hash = hash_move(&b"move".to_vec());

    assert!(p.start(1, round_length, bet, move_hash).is_ok());
    run_to_block(&mut p, 40);

    assert!(!p.contains_game(&move_hash));
    assert_eq!(0, p.moves_count(&move_hash));
    assert!(!p.has_revealing_expiry(40));
}

#[test]
fn can_end_game_none_revealed() {
    let mut p = new_test_ext();
    let round_length = 20;
    let bet = 10;
    let move_hash = hash_move(&b"move".to_vec());
    let (balance_1, balance_2, balance_3) = (p.balance_of(1), p.balance_of(2), p.balance_of(3));

    assert!(p.start(1, round_length, bet, move_hash).is_ok());
    assert!(p.join(2, move_hash, move_hash).is_ok());
    assert!(p.join(3, move_hash, move_hash).is_ok());

    assert!(matches!(
        (p.balance_of(1), p.balance_of(2), p.balance_of(3)),
        (b1, b2, b3) if b1 == balance_1 - bet && b2 == balance_2 - bet && b3 == balance_3 - bet
    ));

    // end game
    run_to_block(&mut p, 40);

    // no one revealed, so no one wins. all bets are returned
    assert!(matches!(
        (p.balance_of(1), p.balance_of(2), p.balance_of(3)),
        (b1, b2, b3) if b1 == balance_1 && b2 == balance_2 && b3 == balance_3
    ));
}

#[test]
fn can_end_game_draw() {
    let mut p = new_test_ext();
    let round_length = 20;
    let bet = 10;
    let same_move = vec![Hand::Rock as u8, 1, 2, 3];
    let move_hash = hash_move(&same_move);
    let (balance_1, balance_2, balance_3) = (p.balance_of(1), p.balance_of(2), p.balance_of(3));

    assert!(p.start(1, round_length, bet, move_hash).is_ok());
    assert!(p.join(2, move_hash, move_hash).is_ok());
    assert!(p.join(3, move_hash, move_hash).is_ok());

    // end betting
    run_to_block(&mut p, 20);

    assert!(p.reveal_move(1, move_hash, &same_move).is_ok());
    assert!(p.reveal_move(2, move_hash, &same_move).is_ok());
    assert!(p.reveal_move(3, move_hash, &same_move).is_ok());

    // game ends with last move revealed. all bets are returned
    assert!(matches!(
        (p.balance_of(1), p.balance_of(2), p.balance_of(3)),
        (b1, b2, b3) if b1 == balance_1 && b2 == balance_2 && b3 == balance_3
    ));
}

#[test]
fn can_end_game_no_win() {
    let mut p = new_test_ext();
    let round_length = 20;
    let bet = 10;
    let (move_1, move_2, move_3) = (
        vec![Hand::Rock as u8],
        vec![Hand::Paper as u8],
        vec![Hand::Scissors as u8],
    );
    let move_1_hash = hash_move(&move_1);
    let move_2_hash = hash_move(&move_2);
    let move_3_hash = hash_move(&move_3);
    let (balance_1, balance_2, balance_3) = (p.balance_of(1), p.balance_of(2), p.balance_of(3));

    assert!(p.start(1, round_length, bet, move_1_hash).is_ok());
    assert!(p.join(2, move_1_hash, move_2_hash).is_ok());
    assert!(p.join(3, move_1_hash, move_3_hash).is_ok());

    // end betting
    run_to_block(&mut p, 20);

    assert!(p.reveal_move(1, move_1_hash, &move_1).is_ok());
    assert!(p.reveal_move(2, move_1_hash, &move_2).is_ok());
    assert!(p.reveal_move(3, move_1_hash, &move_3).is_ok());

    // game ends with last move revealed and no one wins. all bets are returned
    assert!(matches!(
        (p.balance_of(1), p.balance_of(2), p.balance_of(3)),
        (b1, b2, b3) if b1 == balance_1 && b2 == balance_2 && b3 == balance_3
    ));
}

#[test]
fn can_end_game_win() {
    let mut p = new_test_ext();
    let round_length = 20;
    let bet = 10;
    let (move_1, move_2, move_3) = (
        vec![Hand::Rock as u8],
        vec![Hand::Paper as u8],
        vec![Hand::Paper as u8],
    );
    let move_1_hash = hash_move(&move_1);
    let move_2_hash = hash_move(&move_2);
    let move_3_hash = hash_move(&move_3);
    let move_4_hash = hash_move(&b"misses reveal".to_vec());
    let (balance_1, balance_2, balance_3, balance_4) = (
        p.balance_of(1),
        p.balance_of(2),
        p.balance_of(3),
        p.balance_of(4),
    );

    assert!(p.start(1, round_length, bet, move_1_hash).is_ok());
    assert!(p.join(2, move_1_hash, move_2_hash).is_ok());
    assert!(p.join(3, move_1_hash, move_3_hash).is_ok());
    assert!(p.join(4, move_1_hash, move_4_hash).is_ok());

    // end betting
    run_to_block(&mut p, 20);

    assert!(p.reveal_move(1, move_1_hash, &move_1).is_ok());
    assert!(p.reveal_move(2, move_1_hash, &move_2).is_ok());
    assert!(p.reveal_move(3, move_1_hash, &move_3).is_ok());

    // end game
    run_to_block(&mut p, 40);

    println!("{:?}", p.balance_of(1));
    println!("{:?}", p.balance_of(2));
    println!("{:?}", p.balance_of(3));
    println!("{:?}", p.balance_of(4));

    // players 2 and 3 win. player 1 loses. player 4 misses reveal and loses
    assert!(matches!(
        (p.balance_of(1), p.balance_of(2), p.balance_of(3), p.balance_of(4)),
        (b1, b2, b3, b4) if b1 == balance_1 - bet && b2 == balance_2 + bet
            && b3 == balance_3 + bet && b4 == balance_4 - bet
    ));
}
