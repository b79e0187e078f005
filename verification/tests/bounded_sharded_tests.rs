use payment_engine::amount::Amount;
use payment_engine::engine::bounded::BoundedEngine;
use payment_engine::engine::concurrent_multi_engine::ConcurrentEngineV2;
use payment_engine::engine::standard::StandardEngine;
use payment_engine::errors::PaymentsError;
use payment_engine::transaction::{Transaction, TransactionType};

fn deposit(client: u16, tx: u32, units: u64) -> Transaction {
    Transaction {
        tx_type: TransactionType::Deposit,
        client,
        tx,
        amount: Some(Amount::from_units(units)),
    }
}

fn withdrawal(client: u16, tx: u32, units: u64) -> Transaction {
    Transaction {
        tx_type: TransactionType::Withdrawal,
        client,
        tx,
        amount: Some(Amount::from_units(units)),
    }
}

fn refer(tx_type: TransactionType, client: u16, tx: u32) -> Transaction {
    Transaction { tx_type, client, tx, amount: None }
}

#[test]
fn test_bounded_eviction_drops_least_recent() {
    let mut engine = BoundedEngine::new(2, 10, 10);
    engine.process_transaction(&deposit(1, 1, 10_000)).unwrap();
    engine.process_transaction(&deposit(2, 2, 20_000)).unwrap();
    engine.process_transaction(&deposit(3, 3, 30_000)).unwrap();
    assert_eq!(engine.account_count(), 2);
    let accounts = engine.get_accounts();
    // Most recently used first; client 1 was evicted.
    assert_eq!(accounts.len(), 2);
    assert_eq!(accounts[0].client, 3);
    assert_eq!(accounts[1].client, 2);
}

#[test]
fn test_bounded_evicted_account_reappears_fresh() {
    let mut engine = BoundedEngine::new(1, 10, 10);
    engine.process_transaction(&deposit(1, 1, 50_000)).unwrap();
    engine.process_transaction(&deposit(2, 2, 70_000)).unwrap();
    // Client 1 was evicted; on next reference it starts from zero.
    let r = engine.process_transaction(&withdrawal(1, 3, 10_000));
    assert!(matches!(r, Err(PaymentsError::InsufficientFunds)));
}

#[test]
fn test_bounded_evicted_transaction_cannot_be_disputed() {
    let mut engine = BoundedEngine::new(10, 1, 10);
    engine.process_transaction(&deposit(1, 1, 50_000)).unwrap();
    engine.process_transaction(&deposit(1, 2, 70_000)).unwrap();
    // The record of transaction 1 was evicted from the disputable index.
    let r = engine.process_transaction(&refer(TransactionType::Dispute, 1, 1));
    assert!(matches!(r, Err(PaymentsError::TransactionNotFound)));
    // Transaction 2 is still resident and disputable.
    engine
        .process_transaction(&refer(TransactionType::Dispute, 1, 2))
        .unwrap();
}

#[test]
fn test_bounded_evicted_id_readmits_duplicate() {
    let mut engine = BoundedEngine::new(10, 10, 1);
    engine.process_transaction(&deposit(1, 1, 10_000)).unwrap();
    engine.process_transaction(&deposit(1, 2, 10_000)).unwrap();
    // Id 1 left the processed-id cache, so the duplicate slips in again.
    engine.process_transaction(&deposit(1, 1, 10_000)).unwrap();
    let accounts = engine.get_accounts();
    assert_eq!(accounts[0].available, Amount::from_units(30_000));
}

#[test]
fn test_bounded_dispute_lifecycle() {
    let mut engine = BoundedEngine::new(10, 10, 10);
    engine.process_transaction(&deposit(1, 1, 100_000)).unwrap();
    engine
        .process_transaction(&refer(TransactionType::Dispute, 1, 1))
        .unwrap();
    let accounts = engine.get_accounts();
    assert_eq!(accounts[0].held, Amount::from_units(100_000));
    engine
        .process_transaction(&refer(TransactionType::Chargeback, 1, 1))
        .unwrap();
    let accounts = engine.get_accounts();
    assert_eq!(accounts[0].total, Amount::from_units(0));
    assert!(accounts[0].locked);
    // The record is gone after the terminal chargeback.
    let again = engine.process_transaction(&refer(TransactionType::Chargeback, 1, 1));
    assert!(matches!(again, Err(PaymentsError::TransactionNotFound)));
}

#[test]
fn test_bounded_engine_info_counts() {
    let mut engine = BoundedEngine::new(5, 6, 7);
    engine.process_transaction(&deposit(1, 1, 10_000)).unwrap();
    engine.process_transaction(&deposit(2, 2, 20_000)).unwrap();
    let info = engine.get_engine_info();
    assert_eq!(info.engine_type, "Bounded");
    assert_eq!(info.account_count, 2);
    assert_eq!(info.transaction_count, Some(2));
    let limits = info.memory_limits.unwrap();
    assert_eq!(limits.max_accounts, 5);
    assert_eq!(limits.max_disputable_transactions, 6);
    assert_eq!(limits.max_processed_tx_ids, 7);
}

#[test]
fn test_bounded_duplicate_rejected_while_resident() {
    let mut engine = BoundedEngine::new(10, 10, 10);
    engine.process_transaction(&deposit(1, 1, 10_000)).unwrap();
    let r = engine.process_transaction(&deposit(2, 1, 10_000));
    assert!(matches!(r, Err(PaymentsError::InvalidTransaction)));
}

#[test]
fn test_sharded_duplicate_rejected_across_workers() {
    let mut engine = ConcurrentEngineV2::new(4);
    engine.process_transaction(&deposit(1, 1, 10_000)).unwrap();
    // Same transaction id from a client owned by a different worker.
    let r = engine.process_transaction(&deposit(2, 1, 10_000));
    assert!(matches!(r, Err(PaymentsError::InvalidTransaction)));
}

#[test]
fn test_sharded_per_client_order_preserved() {
    // A causally dependent chain per client — deposit then withdraw the
    // full amount — interleaved over many clients. Any reordering within a
    // client would make a withdrawal fail with InsufficientFunds.
    for workers in [1usize, 2, 3, 8] {
        let mut engine = ConcurrentEngineV2::new(workers);
        let mut tx: u32 = 1;
        for round in 0..20u32 {
            for client in 1..=50u16 {
                let units = 10_000 + (round as u64) * 100;
                engine.process_transaction(&deposit(client, tx, units)).unwrap();
                tx += 1;
                engine
                    .process_transaction(&withdrawal(client, tx, units))
                    .unwrap();
                tx += 1;
            }
        }
        for account in engine.get_accounts() {
            assert_eq!(account.total, Amount::from_units(0));
            assert!(!account.locked);
        }
    }
}

#[test]
fn test_sharded_matches_standard_per_client() {
    // The same interleaved stream through the sharded engine and the
    // sequential reference engine leaves every client identical.
    let mut txs: Vec<Transaction> = Vec::new();
    let mut id: u32 = 1;
    for round in 0..10u32 {
        for client in 1..=13u16 {
            txs.push(deposit(client, id, 5_000 + (round as u64) * 7));
            id += 1;
        }
    }
    for client in 1..=13u16 {
        txs.push(refer(TransactionType::Dispute, client, client as u32));
    }
    txs.push(refer(TransactionType::Resolve, 1, 1));
    txs.push(refer(TransactionType::Chargeback, 2, 2));
    txs.push(deposit(2, id, 999)); // frozen: rejected
    let mut sharded = ConcurrentEngineV2::new(5);
    let mut standard = StandardEngine::new();
    for t in &txs {
        let a = sharded.process_transaction(t);
        let b = standard.process_transaction(t);
        assert_eq!(a, b);
    }
    let mut expected = standard.get_accounts();
    let mut got = sharded.get_accounts();
    expected.sort_by_key(|a| a.client);
    got.sort_by_key(|a| a.client);
    assert_eq!(expected.len(), got.len());
    for (e, g) in expected.iter().zip(got.iter()) {
        assert_eq!(e, g);
    }
}
