use payment_engine::amount::Amount;
use payment_engine::engine::standard::StandardEngine;
use payment_engine::errors::PaymentsError;
use payment_engine::transaction::{Transaction, TransactionType};

#[test]
fn payment_engine_test_deposit() {
    let mut engine = StandardEngine::new();
    let tx = Transaction {
        tx_type: TransactionType::Deposit,
        client: 1,
        tx: 1,
        amount: Some(Amount::new(1000, 2)), // 10.00
    };
    engine.process_transaction(&tx).unwrap();
    let account = engine.get_or_create_account(1);
    assert_eq!(account.available, Amount::new(1000, 2));
    assert_eq!(account.total, Amount::new(1000, 2));
    assert!(!account.locked);
}

#[test]
fn test_withdrawal() {
    let mut engine = StandardEngine::new();
    let deposit_tx = Transaction {
        tx_type: TransactionType::Deposit,
        client: 1,
        tx: 1,
        amount: Some(Amount::new(1000, 2)),
    };
    engine.process_transaction(&deposit_tx).unwrap();
    let withdrawal_tx = Transaction {
        tx_type: TransactionType::Withdrawal,
        client: 1,
        tx: 2,
        amount: Some(Amount::new(500, 2)),
    };
    engine.process_transaction(&withdrawal_tx).unwrap();
    let account = engine.get_or_create_account(1);
    assert_eq!(account.available, Amount::new(500, 2));
    assert_eq!(account.total, Amount::new(500, 2));
    assert!(!account.locked);
}

#[test]
fn test_dispute_resolve() {
    let mut engine = StandardEngine::new();
    let deposit_tx = Transaction {
        tx_type: TransactionType::Deposit,
        client: 1,
        tx: 1,
        amount: Some(Amount::new(1000, 2)),
    };
    engine.process_transaction(&deposit_tx).unwrap();
    let dispute_tx = Transaction {
        tx_type: TransactionType::Dispute,
        client: 1,
        tx: 1,
        amount: None,
    };
    engine.process_transaction(&dispute_tx).unwrap();
    let account = engine.get_or_create_account(1);
    assert_eq!(account.available, Amount::new(0, 2));
    assert_eq!(account.held, Amount::new(1000, 2));
    assert_eq!(account.total, Amount::new(1000, 2));
    assert!(!account.locked);
    let resolve_tx = Transaction {
        tx_type: TransactionType::Resolve,
        client: 1,
        tx: 1,
        amount: None,
    };
    engine.process_transaction(&resolve_tx).unwrap();
    let account = engine.get_or_create_account(1);
    assert_eq!(account.available, Amount::new(1000, 2));
    assert_eq!(account.held, Amount::new(0, 2));
    assert_eq!(account.total, Amount::new(1000, 2));
    assert!(!account.locked);
}

#[test]
fn payment_engine_test_chargeback() {
    let mut engine = StandardEngine::new();
    let deposit_tx = Transaction {
        tx_type: TransactionType::Deposit,
        client: 1,
        tx: 1,
        amount: Some(Amount::new(1000, 2)),
    };
    engine.process_transaction(&deposit_tx).unwrap();
    let dispute_tx = Transaction {
        tx_type: TransactionType::Dispute,
        client: 1,
        tx: 1,
        amount: None,
    };
    engine.process_transaction(&dispute_tx).unwrap();
    let chargeback_tx = Transaction {
        tx_type: TransactionType::Chargeback,
        client: 1,
        tx: 1,
        amount: None,
    };
    engine.process_transaction(&chargeback_tx).unwrap();
    let account = engine.get_or_create_account(1);
    assert_eq!(account.available, Amount::new(0, 2));
    assert_eq!(account.held, Amount::new(0, 2));
    assert_eq!(account.total, Amount::new(0, 2));
    assert!(account.locked);
}

#[test]
fn test_insufficient_funds() {
    let mut engine = StandardEngine::new();

    let withdrawal_tx = Transaction {
        tx_type: TransactionType::Withdrawal,
        client: 1,
        tx: 1,
        amount: Some(Amount::new(500, 2)),
    };
    let result = engine.process_transaction(&withdrawal_tx);
    assert!(result.is_err());
    assert!(matches!(result, Err(PaymentsError::InsufficientFunds)));
}
