use payment_engine::amount::Amount;
use payment_engine::engine::standard::StandardEngine;
use payment_engine::errors::PaymentsError;
use payment_engine::transaction::{Transaction, TransactionType};

fn deposit(client: u16, tx: u32, units: u64) -> Transaction {
    Transaction {
        tx_type: TransactionType::Deposit,
        client,
        tx,
        amount: Some(Amount::from_units(units)),
    }
}

fn withdrawal(client: u16, tx: u32, units: u64) -> Transaction {
    Transaction {
        tx_type: TransactionType::Withdrawal,
        client,
        tx,
        amount: Some(Amount::from_units(units)),
    }
}

fn refer(tx_type: TransactionType, client: u16, tx: u32) -> Transaction {
    Transaction { tx_type, client, tx, amount: None }
}

/// Every account always balances: total equals available plus held.
fn assert_balanced(engine: &StandardEngine) {
    for account in engine.get_accounts() {
        assert_eq!(
            account.total.units(),
            account.available.units() + account.held.units()
        );
    }
}

#[test]
fn test_duplicate_deposit_applied_once() {
    let mut engine = StandardEngine::new();
    let tx = deposit(1, 7, 100_000); // 10.0000
    engine.process_transaction(&tx).unwrap();
    let second = engine.process_transaction(&tx);
    assert!(matches!(second, Err(PaymentsError::InvalidTransaction)));
    let account = engine.get_or_create_account(1);
    assert_eq!(account.available, Amount::from_units(100_000));
    assert_eq!(account.total, Amount::from_units(100_000));
    assert_balanced(&engine);
}

#[test]
fn test_dispute_resolve_round_trip_exact() {
    let mut engine = StandardEngine::new();
    engine.process_transaction(&deposit(1, 1, 123_456)).unwrap();
    engine.process_transaction(&deposit(1, 2, 700_000)).unwrap();
    let before = engine.get_or_create_account(1);
    engine
        .process_transaction(&refer(TransactionType::Dispute, 1, 1))
        .unwrap();
    assert_balanced(&engine);
    engine
        .process_transaction(&refer(TransactionType::Resolve, 1, 1))
        .unwrap();
    let after = engine.get_or_create_account(1);
    assert_eq!(before.available, after.available);
    assert_eq!(before.held, after.held);
    assert_eq!(before.total, after.total);
    assert_eq!(before.locked, after.locked);
    // The transaction can be disputed again, symmetrically.
    engine
        .process_transaction(&refer(TransactionType::Dispute, 1, 1))
        .unwrap();
    assert_balanced(&engine);
}

#[test]
fn test_dispute_chargeback_locks_account() {
    let mut engine = StandardEngine::new();
    engine.process_transaction(&deposit(1, 1, 500_000)).unwrap();
    engine.process_transaction(&deposit(1, 2, 300_000)).unwrap();
    engine
        .process_transaction(&refer(TransactionType::Dispute, 1, 1))
        .unwrap();
    let held = engine.get_or_create_account(1);
    assert_eq!(held.available, Amount::from_units(300_000));
    assert_eq!(held.held, Amount::from_units(500_000));
    engine
        .process_transaction(&refer(TransactionType::Chargeback, 1, 1))
        .unwrap();
    let account = engine.get_or_create_account(1);
    assert_eq!(account.available, Amount::from_units(300_000));
    assert_eq!(account.held, Amount::from_units(0));
    assert_eq!(account.total, Amount::from_units(300_000));
    assert!(account.locked);
    // The account is frozen for deposits and withdrawals alike.
    let d = engine.process_transaction(&deposit(1, 3, 10_000));
    assert!(matches!(d, Err(PaymentsError::AccountFrozen)));
    let w = engine.process_transaction(&withdrawal(1, 4, 10_000));
    assert!(matches!(w, Err(PaymentsError::AccountFrozen)));
    // The record is gone: it cannot be charged back twice.
    let again = engine.process_transaction(&refer(TransactionType::Chargeback, 1, 1));
    assert!(matches!(again, Err(PaymentsError::TransactionNotFound)));
    assert_balanced(&engine);
}

#[test]
fn test_dispute_unknown_tx_not_found() {
    let mut engine = StandardEngine::new();
    engine.process_transaction(&deposit(1, 1, 10_000)).unwrap();
    let r = engine.process_transaction(&refer(TransactionType::Dispute, 1, 99));
    assert!(matches!(r, Err(PaymentsError::TransactionNotFound)));
}

#[test]
fn test_dispute_client_mismatch() {
    let mut engine = StandardEngine::new();
    engine.process_transaction(&deposit(1, 5, 250_000)).unwrap();
    engine.process_transaction(&deposit(2, 6, 80_000)).unwrap();
    let r = engine.process_transaction(&refer(TransactionType::Dispute, 2, 5));
    assert!(matches!(r, Err(PaymentsError::ClientIdMismatch)));
    let one = engine.get_or_create_account(1);
    assert_eq!(one.available, Amount::from_units(250_000));
    assert_eq!(one.held, Amount::from_units(0));
    let two = engine.get_or_create_account(2);
    assert_eq!(two.available, Amount::from_units(80_000));
    assert_eq!(two.held, Amount::from_units(0));
}

#[test]
fn test_dispute_twice_already_disputed() {
    let mut engine = StandardEngine::new();
    engine.process_transaction(&deposit(1, 1, 10_000)).unwrap();
    engine
        .process_transaction(&refer(TransactionType::Dispute, 1, 1))
        .unwrap();
    let r = engine.process_transaction(&refer(TransactionType::Dispute, 1, 1));
    assert!(matches!(r, Err(PaymentsError::TransactionAlreadyDisputed(1))));
}

#[test]
fn test_resolve_undisputed_not_disputed() {
    let mut engine = StandardEngine::new();
    engine.process_transaction(&deposit(1, 1, 10_000)).unwrap();
    let r = engine.process_transaction(&refer(TransactionType::Resolve, 1, 1));
    assert!(matches!(r, Err(PaymentsError::TransactionNotDisputed)));
    let c = engine.process_transaction(&refer(TransactionType::Chargeback, 1, 1));
    assert!(matches!(c, Err(PaymentsError::TransactionNotDisputed)));
}

#[test]
fn test_amount_where_forbidden_is_invalid() {
    let mut engine = StandardEngine::new();
    engine.process_transaction(&deposit(1, 1, 10_000)).unwrap();
    let bad = Transaction {
        tx_type: TransactionType::Dispute,
        client: 1,
        tx: 1,
        amount: Some(Amount::from_units(1)),
    };
    let r = engine.process_transaction(&bad);
    assert!(matches!(r, Err(PaymentsError::InvalidTransaction)));
}

#[test]
fn test_missing_or_zero_amount_is_invalid() {
    let mut engine = StandardEngine::new();
    let missing = Transaction {
        tx_type: TransactionType::Deposit,
        client: 1,
        tx: 1,
        amount: None,
    };
    assert!(matches!(
        engine.process_transaction(&missing),
        Err(PaymentsError::InvalidTransaction)
    ));
    let zero = deposit(1, 1, 0);
    assert!(matches!(
        engine.process_transaction(&zero),
        Err(PaymentsError::InvalidTransaction)
    ));
    assert_eq!(engine.account_count(), 0);
}

#[test]
fn test_reference_scenario() {
    let mut engine = StandardEngine::new();
    engine.process_transaction(&deposit(1, 1, 1_000_000)).unwrap(); // 100.0000
    engine.process_transaction(&deposit(2, 2, 500_000)).unwrap(); // 50.0000
    engine
        .process_transaction(&refer(TransactionType::Dispute, 1, 1))
        .unwrap();
    let w = engine.process_transaction(&withdrawal(1, 3, 200_000)); // 20.0000
    assert!(matches!(w, Err(PaymentsError::InsufficientFunds)));
    engine
        .process_transaction(&refer(TransactionType::Resolve, 1, 1))
        .unwrap();
    let one = engine.get_or_create_account(1);
    assert_eq!(one.available, Amount::from_units(1_000_000));
    assert_eq!(one.held, Amount::from_units(0));
    assert_eq!(one.total, Amount::from_units(1_000_000));
    assert!(!one.locked);
    let two = engine.get_or_create_account(2);
    assert_eq!(two.available, Amount::from_units(500_000));
    assert_eq!(two.total, Amount::from_units(500_000));
    assert_balanced(&engine);
}
