//! Edge cases and observable behaviour beyond the happy paths: bound
//! checks, every rejection kind, tick idempotence, events, and payout
//! arithmetic through whole rounds.

use ropasci::game::{Game, GameStage, Hand};
use ropasci::hashing::hash_move;
use ropasci::pallet::{Config, Error, Event, Pallet};

fn new_test_ext() -> Pallet {
    let mut p = Pallet::new(Config { min_round_length: 10, max_round_length: 50 });
    for who in 1..=5u64 {
        p.set_balance(who, 100);
    }
    p
}

fn run_to_block(p: &mut Pallet, n: u64) {
    while p.now() < n {
        let next = p.now() + 1;
        p.on_initialize(next);
    }
}

#[test]
fn round_length_bounds_are_inclusive() {
    let mut p = new_test_ext();
    assert!(p.start(1, 10, 5, hash_move(&b"at min".to_vec())).is_ok());
    assert!(p.start(2, 50, 5, hash_move(&b"at max".to_vec())).is_ok());
    assert!(matches!(
        p.start(3, 9, 5, hash_move(&b"below".to_vec())),
        Err(Error::RoundLengthInvalid)
    ));
    assert!(matches!(
        p.start(3, 51, 5, hash_move(&b"above".to_vec())),
        Err(Error::RoundLengthInvalid)
    ));
}

#[test]
fn fail_actions_against_missing_game() {
    let mut p = new_test_ext();
    let ghost_id = hash_move(&b"never started".to_vec());
    assert!(matches!(p.join(2, ghost_id, ghost_id), Err(Error::GameMissing)));
    assert!(matches!(
        p.reveal_move(2, ghost_id, &vec![0, 1]),
        Err(Error::GameMissing)
    ));
    assert!(p.end_game(&ghost_id).is_none());
}

#[test]
fn fail_reveal_at_betting() {
    let mut p = new_test_ext();
    let payload = vec![Hand::Rock as u8, 9];
    let move_hash = hash_move(&payload);
    assert!(p.start(1, 20, 10, move_hash).is_ok());
    assert!(matches!(
        p.reveal_move(1, move_hash, &payload),
        Err(Error::GameWrongStage)
    ));
}

#[test]
fn fail_join_without_money() {
    let mut p = new_test_ext();
    let move_hash = hash_move(&b"big stake".to_vec());
    assert!(p.start(1, 20, 100, move_hash).is_ok());
    p.set_balance(2, 99);
    assert!(matches!(
        p.join(2, move_hash, move_hash),
        Err(Error::MoneyNotEnough)
    ));
}

#[test]
fn rejected_reveal_changes_nothing() {
    let mut p = new_test_ext();
    let payload = vec![Hand::Rock as u8, 7, 7];
    let move_hash = hash_move(&payload);
    assert!(p.start(1, 20, 10, move_hash).is_ok());
    run_to_block(&mut p, 20);

    let balance = p.balance_of(1);
    let game_before = p.game_of(&move_hash);
    let move_before = p.move_of(&move_hash, 1);

    assert!(matches!(
        p.reveal_move(1, move_hash, &vec![0, 7, 8]),
        Err(Error::PlayerRevealMismatch)
    ));

    assert_eq!(balance, p.balance_of(1));
    assert_eq!(game_before, p.game_of(&move_hash));
    assert_eq!(move_before, p.move_of(&move_hash, 1));
}

#[test]
fn tick_twice_is_a_no_op() {
    let mut p = new_test_ext();
    let move_hash = hash_move(&b"move".to_vec());
    assert!(p.start(1, 20, 10, move_hash).is_ok());
    assert!(p.join(2, move_hash, move_hash).is_ok());
    run_to_block(&mut p, 20);

    let stage_after_first = p.game_of(&move_hash);
    assert!(matches!(
        stage_after_first,
        Some(Game { stage: GameStage::Revealing { anticipated_players: 2 }, .. })
    ));

    // the same time point again: already drained, nothing changes
    let events = p.on_initialize(20);
    assert!(events.is_empty());
    assert_eq!(stage_after_first, p.game_of(&move_hash));
    assert_eq!(2, p.moves_count(&move_hash));
    assert!(!p.has_betting_expiry(20));
    assert_eq!(1, p.revealing_expiry_count(40));
    assert!(p.revealing_expiry_lists(40, &move_hash));
    assert_eq!(80, p.balance_of(1) + p.balance_of(2) - 100);
}

#[test]
fn start_emits_game_started() {
    let mut p = new_test_ext();
    let move_hash = hash_move(&b"move".to_vec());
    assert!(matches!(
        p.start(1, 20, 10, move_hash),
        Ok(Event::GameStarted { game_id, owner: 1, round_length: 20, bet: 10 })
            if game_id == move_hash
    ));
    assert!(matches!(
        p.join(2, move_hash, move_hash),
        Ok(Event::BetPlaced { game_id, player: 2 }) if game_id == move_hash
    ));
}

#[test]
fn last_reveal_ends_game_with_settlement_event() {
    let mut p = new_test_ext();
    let (move_1, move_2, move_3) = (
        vec![Hand::Rock as u8],
        vec![Hand::Paper as u8],
        vec![Hand::Paper as u8],
    );
    let move_1_hash = hash_move(&move_1);
    let move_2_hash = hash_move(&move_2);
    let move_3_hash = hash_move(&move_3);

    assert!(p.start(1, 20, 10, move_1_hash).is_ok());
    assert!(p.join(2, move_1_hash, move_2_hash).is_ok());
    assert!(p.join(3, move_1_hash, move_3_hash).is_ok());
    run_to_block(&mut p, 20);

    assert!(matches!(p.reveal_move(1, move_1_hash, &move_1), Ok(None)));
    assert!(matches!(p.reveal_move(2, move_1_hash, &move_2), Ok(None)));
    // pool 30, winners 2 and 3, reward 15 each: net +5 over the stake
    assert!(matches!(
        p.reveal_move(3, move_1_hash, &move_3),
        Ok(Some(Event::GameEnded { game_id, winners, reward: 15 }))
            if game_id == move_1_hash && winners == vec![2u64, 3u64]
    ));

    assert!(!p.contains_game(&move_1_hash));
    assert_eq!(90, p.balance_of(1));
    assert_eq!(105, p.balance_of(2));
    assert_eq!(105, p.balance_of(3));
}

#[test]
fn expiry_tick_reports_settlement_events() {
    let mut p = new_test_ext();
    let move_hash = hash_move(&b"move".to_vec());
    assert!(p.start(1, 20, 10, move_hash).is_ok());
    assert!(p.join(2, move_hash, move_hash).is_ok());
    run_to_block(&mut p, 39);

    let events = p.on_initialize(40);
    assert_eq!(1, events.len());
    // nobody revealed: both players are refunded their stake
    assert!(matches!(
        &events[0],
        Event::GameEnded { game_id, winners, reward: 10 }
            if *game_id == move_hash && *winners == vec![1u64, 2u64]
    ));
    assert_eq!(100, p.balance_of(1));
    assert_eq!(100, p.balance_of(2));
}

#[test]
fn ended_game_rejects_further_actions() {
    let mut p = new_test_ext();
    let move_hash = hash_move(&b"move".to_vec());
    assert!(p.start(1, 20, 10, move_hash).is_ok());
    run_to_block(&mut p, 20);

    assert!(p.end_game(&move_hash).is_some());
    assert!(!p.contains_game(&move_hash));
    assert_eq!(0, p.moves_count(&move_hash));
    assert!(p.end_game(&move_hash).is_none());
    assert!(matches!(
        p.join(2, move_hash, move_hash),
        Err(Error::GameMissing)
    ));
    assert!(matches!(
        p.reveal_move(1, move_hash, &b"move".to_vec()),
        Err(Error::GameMissing)
    ));
}

#[test]
fn stale_expiry_entry_is_skipped() {
    let mut p = new_test_ext();
    let (move_1, move_2) = (vec![Hand::Rock as u8], vec![Hand::Rock as u8, 9]);
    let move_1_hash = hash_move(&move_1);
    let move_2_hash = hash_move(&move_2);
    assert!(p.start(1, 20, 10, move_1_hash).is_ok());
    assert!(p.join(2, move_1_hash, move_2_hash).is_ok());
    run_to_block(&mut p, 20);

    // both reveal: the game ends early, but its id stays listed at 40
    assert!(p.reveal_move(1, move_1_hash, &move_1).is_ok());
    assert!(p.reveal_move(2, move_1_hash, &move_2).is_ok());
    assert!(!p.contains_game(&move_1_hash));
    assert!(p.revealing_expiry_lists(40, &move_1_hash));

    // the stale entry fires into nothing
    let events = p.on_initialize(40);
    assert!(events.is_empty());
    assert!(!p.has_revealing_expiry(40));
    assert_eq!(100, p.balance_of(1));
    assert_eq!(100, p.balance_of(2));
}
