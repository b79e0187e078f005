use payment_engine::account::Account;
use payment_engine::amount::Amount;
use payment_engine::benchmark::{tx_type_str, PaymentEngineBenchmark};
use payment_engine::transaction::{Transaction, TransactionType};
use payment_engine::wire::{
    parse_amount, parse_client, parse_record, parse_tx_id, parse_tx_type, render_account_row,
    render_amount, u64_to_string,
};

#[test]
fn test_parse_tx_type_keywords() {
    assert_eq!(parse_tx_type("deposit"), Some(TransactionType::Deposit));
    assert_eq!(parse_tx_type("WITHDRAWAL"), Some(TransactionType::Withdrawal));
    assert_eq!(parse_tx_type("DiSpUtE"), Some(TransactionType::Dispute));
    assert_eq!(parse_tx_type("resolve"), Some(TransactionType::Resolve));
    assert_eq!(parse_tx_type("chargeback"), Some(TransactionType::Chargeback));
    assert_eq!(parse_tx_type("refund"), None);
    assert_eq!(parse_tx_type(""), None);
}

#[test]
fn test_parse_amount_values() {
    assert_eq!(parse_amount("100.0"), Some(Amount::from_units(1_000_000)));
    assert_eq!(parse_amount("1.5"), Some(Amount::from_units(15_000)));
    assert_eq!(parse_amount("0.0001"), Some(Amount::from_units(1)));
    assert_eq!(parse_amount("42"), Some(Amount::from_units(420_000)));
    assert_eq!(parse_amount("3."), Some(Amount::from_units(30_000)));
    assert_eq!(parse_amount("0"), Some(Amount::from_units(0)));
}

#[test]
fn test_parse_amount_rejects_malformed() {
    assert_eq!(parse_amount(""), None);
    assert_eq!(parse_amount("."), None);
    assert_eq!(parse_amount(".5"), None);
    assert_eq!(parse_amount("1.23456"), None); // five fractional digits
    assert_eq!(parse_amount("abc"), None);
    assert_eq!(parse_amount("-1"), None);
    assert_eq!(parse_amount("1.2.3"), None);
    assert_eq!(parse_amount("99999999999999999999999"), None); // overflow
}

#[test]
fn test_parse_ids() {
    assert_eq!(parse_client("7"), Some(7));
    assert_eq!(parse_client("65535"), Some(65535));
    assert_eq!(parse_client("65536"), None);
    assert_eq!(parse_client(""), None);
    assert_eq!(parse_client("x"), None);
    assert_eq!(parse_tx_id("4294967295"), Some(4294967295));
    assert_eq!(parse_tx_id("4294967296"), None);
}

#[test]
fn test_parse_record_fields() {
    let t = parse_record("deposit", "1", "3", "2.5").unwrap();
    assert_eq!(
        t,
        Transaction {
            tx_type: TransactionType::Deposit,
            client: 1,
            tx: 3,
            amount: Some(Amount::from_units(25_000)),
        }
    );
    let d = parse_record("dispute", "1", "3", "").unwrap();
    assert_eq!(d.amount, None);
    assert_eq!(parse_record("deposit", "1", "3", "oops"), None);
    assert_eq!(parse_record("deposit", "", "3", "1.0"), None);
    assert_eq!(parse_record("hold", "1", "3", "1.0"), None);
}

#[test]
fn test_render_amount_four_digits() {
    assert_eq!(render_amount(Amount::from_units(1_000_000)), "100.0000");
    assert_eq!(render_amount(Amount::from_units(15_000)), "1.5000");
    assert_eq!(render_amount(Amount::from_units(1)), "0.0001");
    assert_eq!(render_amount(Amount::from_units(0)), "0.0000");
    assert_eq!(render_amount(Amount::from_units(123)), "0.0123");
    assert_eq!(render_amount(Amount::from_units(10_203)), "1.0203");
}

#[test]
fn test_u64_to_string_digits() {
    assert_eq!(u64_to_string(0), "0");
    assert_eq!(u64_to_string(5), "5");
    assert_eq!(u64_to_string(105), "105");
    assert_eq!(u64_to_string(u64::MAX), "18446744073709551615");
}

#[test]
fn test_render_account_row_shape() {
    let mut account = Account::new(9);
    account.deposit(Amount::from_units(1_234_567)).unwrap();
    assert_eq!(render_account_row(&account), "9,123.4567,0.0000,123.4567,false");
    account.hold(Amount::from_units(1_000_000)).unwrap();
    account.chargeback(Amount::from_units(1_000_000)).unwrap();
    assert_eq!(render_account_row(&account), "9,23.4567,0.0000,23.4567,true");
}

#[test]
fn test_generate_transactions_shape() {
    let txs = PaymentEngineBenchmark::generate_transactions(6, 2, 3);
    assert_eq!(txs.len(), 8);
    // Every third record withdraws, starting with the first.
    assert_eq!(txs[0].tx_type, TransactionType::Withdrawal);
    assert_eq!(txs[1].tx_type, TransactionType::Deposit);
    assert_eq!(txs[3].tx_type, TransactionType::Withdrawal);
    // Clients cycle and transaction ids count up from one.
    assert_eq!(txs[0].client, 1);
    assert_eq!(txs[1].client, 2);
    assert_eq!(txs[2].client, 3);
    assert_eq!(txs[3].client, 1);
    assert_eq!(txs[4].tx, 5);
    // Amounts follow (i % 10000 + 100) hundredths.
    assert_eq!(txs[0].amount, Some(Amount::from_units(10_000)));
    assert_eq!(txs[1].amount, Some(Amount::from_units(10_100)));
    // Disputes reference the first ids and carry no amount.
    assert_eq!(txs[6].tx_type, TransactionType::Dispute);
    assert_eq!(txs[6].tx, 1);
    assert_eq!(txs[6].amount, None);
    assert_eq!(txs[7].tx, 2);
}

#[test]
fn test_render_parse_round_trip() {
    let records = [
        Transaction {
            tx_type: TransactionType::Deposit,
            client: 42,
            tx: 7,
            amount: Some(Amount::from_units(1_234_567)),
        },
        Transaction {
            tx_type: TransactionType::Withdrawal,
            client: 65535,
            tx: 4294967295,
            amount: Some(Amount::from_units(1)),
        },
        Transaction {
            tx_type: TransactionType::Chargeback,
            client: 1,
            tx: 9,
            amount: None,
        },
    ];
    for t in records {
        let amount_field = match t.amount {
            Some(a) => render_amount(a),
            None => String::new(),
        };
        let parsed = parse_record(
            tx_type_str(t.tx_type),
            &u64_to_string(t.client as u64),
            &u64_to_string(t.tx as u64),
            &amount_field,
        );
        assert_eq!(parsed, Some(t));
    }
}

#[test]
fn test_transactions_to_csv_text() {
    let txs = vec![
        Transaction {
            tx_type: TransactionType::Deposit,
            client: 1,
            tx: 1,
            amount: Some(Amount::from_units(10_000)),
        },
        Transaction {
            tx_type: TransactionType::Dispute,
            client: 1,
            tx: 1,
            amount: None,
        },
    ];
    let csv_text = PaymentEngineBenchmark::transactions_to_csv(&txs);
    assert_eq!(
        csv_text,
        "type,client,tx,amount\ndeposit,1,1,1.0000\ndispute,1,1,\n"
    );
}
