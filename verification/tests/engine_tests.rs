use payment_engine::amount::Amount;
use payment_engine::engine::config::EngineConfig;
use payment_engine::engine::PaymentsEngine;
use payment_engine::transaction::{Transaction, TransactionType};

#[test]
fn test_standard_engine() {
    let mut engine = PaymentsEngine::new(EngineConfig::standard());
    let tx = Transaction {
        tx_type: TransactionType::Deposit,
        client: 1,
        tx: 1,
        amount: Some(Amount::new(1000, 2)), // 10.00
    };
    engine.process_transaction(&tx).unwrap();
    let accounts = engine.get_engine_info().account_count;
    assert_eq!(accounts, 1);
}

#[test]
fn test_bounded_engine() {
    let mut engine = PaymentsEngine::new(EngineConfig::bounded(100, 100, 1000));
    let tx = Transaction {
        tx_type: TransactionType::Deposit,
        client: 1,
        tx: 1,
        amount: Some(Amount::new(1000, 2)),
    };
    engine.process_transaction(&tx).unwrap();
    let info = engine.get_engine_info();
    assert_eq!(info.engine_type, "Bounded");
    assert!(info.memory_bounded);
    assert!(!info.concurrent);
}

#[test]
fn test_concurrent_engine() {
    let engine = PaymentsEngine::new(EngineConfig::concurrent());
    let info = engine.get_engine_info();
    assert_eq!(info.engine_type, "Concurrent");
    assert!(info.memory_bounded);
    assert!(info.concurrent);
}

#[test]
fn test_memory_config() {
    let config = EngineConfig::for_memory_mb(100); // 100MB
    let engine = PaymentsEngine::new(config);
    let info = engine.get_engine_info();
    assert!(info.memory_limits.is_some());
}

#[test]
fn test_multi_engine_info() {
    let mut engine = PaymentsEngine::new(EngineConfig::concurrent_multi_engine(4));
    let tx = Transaction {
        tx_type: TransactionType::Deposit,
        client: 7,
        tx: 1,
        amount: Some(Amount::new(5, 0)),
    };
    engine.process_transaction(&tx).unwrap();
    let info = engine.get_engine_info();
    assert_eq!(info.engine_type, "ConcurrentMultiEngine");
    assert!(!info.memory_bounded);
    assert!(info.concurrent);
    assert_eq!(info.account_count, 1);
}

#[test]
fn test_multi_engine_merged_snapshot() {
    let mut engine = PaymentsEngine::new(EngineConfig::concurrent_multi_engine(3));
    for client in 1..=9u16 {
        let tx = Transaction {
            tx_type: TransactionType::Deposit,
            client,
            tx: client as u32,
            amount: Some(Amount::new(client as i64, 0)),
        };
        engine.process_transaction(&tx).unwrap();
    }
    let mut accounts = engine.get_accounts();
    assert_eq!(accounts.len(), 9);
    accounts.sort_by_key(|a| a.client);
    for (i, account) in accounts.iter().enumerate() {
        assert_eq!(account.client, (i + 1) as u16);
        assert_eq!(account.total, Amount::new((i + 1) as i64, 0));
    }
}

#[test]
fn test_from_cli_params_defaults() {
    let config = EngineConfig::from_cli_params(None, None, None, None, None);
    assert_eq!(config, EngineConfig::Standard);
}

#[test]
fn test_from_cli_params_bounded_defaults() {
    let config = EngineConfig::from_cli_params(Some("bounded"), None, None, None, None);
    assert_eq!(
        config,
        EngineConfig::Bounded {
            max_accounts: 10_000,
            max_disputable_transactions: 50_000,
            max_processed_tx_ids: 1_000_000,
        }
    );
}

#[test]
fn test_from_cli_params_case_insensitive() {
    let config = EngineConfig::from_cli_params(Some("BoUnDeD"), Some(5), Some(6), Some(7), None);
    assert_eq!(
        config,
        EngineConfig::Bounded {
            max_accounts: 5,
            max_disputable_transactions: 6,
            max_processed_tx_ids: 7,
        }
    );
    let config = EngineConfig::from_cli_params(Some("CONCURRENT"), None, None, None, None);
    assert_eq!(config, EngineConfig::Concurrent);
}

#[test]
fn test_from_cli_params_multi_engine() {
    let a = EngineConfig::from_cli_params(Some("concurrentmultiengine"), None, None, None, None);
    let b = EngineConfig::from_cli_params(Some("concurrent_multi_engine"), None, None, None, None);
    assert_eq!(a, EngineConfig::ConcurrentMultiEngine { num_workers: 4 });
    assert_eq!(b, EngineConfig::ConcurrentMultiEngine { num_workers: 4 });
}

#[test]
fn test_from_cli_params_unknown_falls_back() {
    let config = EngineConfig::from_cli_params(Some("fancy"), None, None, None, None);
    assert_eq!(config, EngineConfig::Standard);
}

#[test]
fn test_from_cli_params_memory_limit_wins() {
    let config =
        EngineConfig::from_cli_params(Some("concurrent"), Some(1), Some(2), Some(3), Some(100));
    assert_eq!(
        config,
        EngineConfig::Bounded {
            max_accounts: 25 * 1024 * 1024 / 200,
            max_disputable_transactions: 50 * 1024 * 1024 / 100,
            max_processed_tx_ids: 25 * 1024 * 1024 / 4,
        }
    );
}
