//! Synthetic workloads for exercising the engines: a generator for
//! deposit/withdrawal streams with a configurable number of disputes, and a
//! renderer that turns a batch of records into input-format text.
//!
//! Timing and memory measurement live with the callers; what is verified
//! here is the exact shape of the generated data.

use vstd::prelude::*;
use crate::amount::Amount;
use crate::transaction::{Transaction, TransactionType};
use crate::wire::{lemma_render_amount_parses_back, lemma_u64_digits_props, matches_keyword,
    render_amount, spec_parse_record, spec_parse_tx_type, spec_render_amount, spec_u64_digits,
    u64_to_string};

verus! {

broadcast use vstd::string::group_string_axioms;

/// Workload generation for the engines.
pub struct PaymentEngineBenchmark;

/// The `i`th generated deposit or withdrawal: every third record withdraws,
/// the rest deposit; clients cycle through `1..=unique_accounts`;
/// transaction ids count up from one; amounts cycle from 1.00 to 100.99 in
/// hundredths.
pub open spec fn spec_generated_tx(i: int, unique_accounts: int) -> Transaction {
    Transaction {
        tx_type: if i % 3 == 0 {
            TransactionType::Withdrawal
        } else {
            TransactionType::Deposit
        },
        client: ((i % unique_accounts) + 1) as u16,
        tx: (i + 1) as u32,
        amount: Some(Amount { units: (((i % 10000) + 100) * 100) as u64 }),
    }
}

/// The `i`th generated dispute, against the `i+1`th transaction id.
pub open spec fn spec_generated_dispute(i: int, unique_accounts: int) -> Transaction {
    Transaction {
        tx_type: TransactionType::Dispute,
        client: ((i % unique_accounts) + 1) as u16,
        tx: (i + 1) as u32,
        amount: None,
    }
}

impl PaymentEngineBenchmark {
    /// Generates `count` deposits and withdrawals followed by
    /// `dispute_count` disputes against the first transaction ids.
    pub fn generate_transactions(count: usize, dispute_count: usize, unique_accounts: usize) -> (r:
        Vec<Transaction>)
        requires
            1 <= unique_accounts <= u16::MAX - 1,
            count + dispute_count <= usize::MAX,
            count <= u32::MAX - 1,
            dispute_count <= u32::MAX - 1,
        ensures
            r@.len() == count + dispute_count,
            forall|i: int|
                0 <= i < count as int ==> #[trigger] r@[i] == spec_generated_tx(
                    i,
                    unique_accounts as int,
                ),
            forall|i: int|
                0 <= i < dispute_count as int ==> #[trigger] r@[count + i] == spec_generated_dispute(
                    i,
                    unique_accounts as int,
                ),
    {
        let mut transactions: Vec<Transaction> = Vec::new();
        let mut i: usize = 0;
        while i < count
            invariant
                i <= count,
                count <= u32::MAX - 1,
                1 <= unique_accounts <= u16::MAX - 1,
                transactions@.len() == i,
                forall|j: int|
                    0 <= j < i as int ==> #[trigger] transactions@[j] == spec_generated_tx(
                        j,
                        unique_accounts as int,
                    ),
            decreases count - i,
        {
            let tx_id: u32 = (i as u32) + 1;
            let client_id: u16 = ((i % unique_accounts) as u16) + 1;
            let amount = Amount::from_units((((i % 10000) as u64) + 100) * 100);
            let tx_type = if i % 3 == 0 {
                TransactionType::Withdrawal
            } else {
                TransactionType::Deposit
            };
            transactions.push(
                Transaction { tx_type, client: client_id, tx: tx_id, amount: Some(amount) },
            );
            i += 1;
        }
        let mut k: usize = 0;
        while k < dispute_count
            invariant
                k <= dispute_count,
                dispute_count <= u32::MAX - 1,
                1 <= unique_accounts <= u16::MAX - 1,
                transactions@.len() == count + k,
                forall|j: int|
                    0 <= j < count as int ==> #[trigger] transactions@[j] == spec_generated_tx(
                        j,
                        unique_accounts as int,
                    ),
                forall|j: int|
                    0 <= j < k as int ==> #[trigger] transactions@[count + j]
                        == spec_generated_dispute(j, unique_accounts as int),
            decreases dispute_count - k,
        {
            let disputed_tx_id: u32 = (k as u32) + 1;
            let client_id: u16 = ((k % unique_accounts) as u16) + 1;
            transactions.push(
                Transaction {
                    tx_type: TransactionType::Dispute,
                    client: client_id,
                    tx: disputed_tx_id,
                    amount: None,
                },
            );
            k += 1;
        }
        transactions
    }

    /// Renders a batch of records as input-format text: the header line,
    /// then one line per record.
    pub fn transactions_to_csv(transactions: &Vec<Transaction>) -> (r: String)
        ensures
            r@ == "type,client,tx,amount\n"@ + spec_csv_lines(transactions@),
    {
        proof {
            reveal_strlit("type,client,tx,amount\n");
        }
        let mut out = "type,client,tx,amount\n".to_string();
        let n = transactions.len();
        let mut i: usize = 0;
        while i < n
            invariant
                i <= n,
                n == transactions@.len(),
                out@ == "type,client,tx,amount\n"@ + spec_csv_lines(transactions@.take(i as int)),
            decreases n - i,
        {
            let line = render_transaction_line(&transactions[i]);
            out.append(line.as_str());
            proof {
                assert(transactions@.take(i as int + 1).drop_last() =~= transactions@.take(
                    i as int,
                ));
                assert(transactions@.take(i as int + 1).last() == transactions@[i as int]);
            }
            i += 1;
        }
        proof {
            assert(transactions@.take(n as int) =~= transactions@);
        }
        out
    }
}

/// The lines of the rendered batch, in order.
pub open spec fn spec_csv_lines(txs: Seq<Transaction>) -> Seq<char>
    decreases txs.len(),
{
    if txs.len() == 0 {
        Seq::empty()
    } else {
        spec_csv_lines(txs.drop_last()) + spec_render_transaction_line(txs.last())
    }
}

/// The keyword a transaction type is written as.
pub open spec fn spec_tx_type_str(t: TransactionType) -> Seq<char> {
    match t {
        TransactionType::Deposit => "deposit"@,
        TransactionType::Withdrawal => "withdrawal"@,
        TransactionType::Dispute => "dispute"@,
        TransactionType::Resolve => "resolve"@,
        TransactionType::Chargeback => "chargeback"@,
    }
}

/// One record line: type, client, tx and the amount — empty where the
/// record carries none — comma-separated, newline-terminated.
pub open spec fn spec_render_transaction_line(t: Transaction) -> Seq<char> {
    spec_tx_type_str(t.tx_type) + seq![','] + spec_u64_digits(t.client as int) + seq![',']
        + spec_u64_digits(t.tx as int) + seq![','] + (match t.amount {
        Some(a) => spec_render_amount(a.spec_units()),
        None => Seq::empty(),
    }) + seq!['\n']
}

/// Law: the five type keywords parse back to the types that render them —
/// each keyword matches itself case-insensitively and none of the others.
pub proof fn lemma_tx_type_round_trip(t: TransactionType)
    ensures
        spec_parse_tx_type(spec_tx_type_str(t)) == Some(t),
{
    reveal_strlit("deposit");
    reveal_strlit("withdrawal");
    reveal_strlit("dispute");
    reveal_strlit("resolve");
    reveal_strlit("chargeback");
    // Same-length keywords differ at an index the matcher must check.
    assert(!matches_keyword("dispute"@, "deposit"@)) by {
        assert("dispute"@[1] == 'i' && "deposit"@[1] == 'e');
    }
    assert(!matches_keyword("resolve"@, "deposit"@)) by {
        assert("resolve"@[0] == 'r' && "deposit"@[0] == 'd');
    }
    assert(!matches_keyword("resolve"@, "dispute"@)) by {
        assert("resolve"@[0] == 'r' && "dispute"@[0] == 'd');
    }
    assert(!matches_keyword("chargeback"@, "withdrawal"@)) by {
        assert("chargeback"@[0] == 'c' && "withdrawal"@[0] == 'w');
    }
}

/// Law: rendering and parsing are inverse on whole records. A rendered
/// line is, by definition, the four fields joined by commas and ended by a
/// newline; handing those four fields to the record parser yields the
/// record back, amount included.
pub proof fn lemma_render_parse_round_trip(t: Transaction)
    ensures
        spec_parse_record(
            spec_tx_type_str(t.tx_type),
            spec_u64_digits(t.client as int),
            spec_u64_digits(t.tx as int),
            match t.amount {
                Some(a) => spec_render_amount(a.spec_units()),
                None => Seq::<char>::empty(),
            },
        ) == Some(t),
{
    lemma_tx_type_round_trip(t.tx_type);
    lemma_u64_digits_props(t.client as int);
    lemma_u64_digits_props(t.tx as int);
    match t.amount {
        Some(a) => {
            lemma_render_amount_parses_back(a.spec_units());
            assert(spec_render_amount(a.spec_units()).len() >= 1) by {
                assert(spec_render_amount(a.spec_units())[spec_u64_digits(
                    a.spec_units() / 10000,
                ).len() as int] == '.');
            }
        },
        None => {},
    }
}

/// The keyword a transaction type is written as.
pub fn tx_type_str(t: TransactionType) -> (r: &'static str)
    ensures
        r@ == spec_tx_type_str(t),
{
    match t {
        TransactionType::Deposit => "deposit",
        TransactionType::Withdrawal => "withdrawal",
        TransactionType::Dispute => "dispute",
        TransactionType::Resolve => "resolve",
        TransactionType::Chargeback => "chargeback",
    }
}

/// Renders one record as an input-format line.
pub fn render_transaction_line(t: &Transaction) -> (r: String)
    ensures
        r@ == spec_render_transaction_line(*t),
{
    proof {
        reveal_strlit(",");
        assert(","@ == seq![',']);
        reveal_strlit("\n");
        assert("\n"@ == seq!['\n']);
    }
    let mut out = tx_type_str(t.tx_type).to_string();
    out.append(",");
    let client = u64_to_string(t.client as u64);
    out.append(client.as_str());
    out.append(",");
    let tx = u64_to_string(t.tx as u64);
    out.append(tx.as_str());
    out.append(",");
    match t.amount {
        Some(a) => {
            let amount = render_amount(a);
            out.append(amount.as_str());
        },
        None => {},
    }
    out.append("\n");
    proof {
        assert(out@ =~= spec_render_transaction_line(*t));
    }
    out
}

} // verus!
