//! Error taxonomy for transaction processing.
//!
//! All of these are per-transaction errors: a caller logs the failure and
//! continues with the next record.

use vstd::prelude::*;
use crate::transaction::TxId;

verus! {

/// Why a transaction was rejected. Each variant names the exact condition
/// under which the engines return it.
#[derive(Clone, Copy, Debug, PartialEq, Eq, Structural)]
pub enum PaymentsError {
    /// A deposit, withdrawal or hold was attempted on a locked account.
    AccountFrozen,
    /// A withdrawal, hold, release or chargeback amount exceeds the
    /// relevant balance.
    InsufficientFunds,
    /// A dispute, resolve or chargeback referenced an unknown transaction id.
    TransactionNotFound,
    /// A dispute was raised against a transaction already under dispute.
    TransactionAlreadyDisputed(TxId),
    /// A resolve or chargeback referenced a transaction not under dispute.
    TransactionNotDisputed,
    /// A dispute, resolve or chargeback carried a client id different from
    /// the one stored with the referenced transaction.
    ClientIdMismatch,
    /// Malformed transaction semantics: a missing or non-positive amount on
    /// a deposit or withdrawal, an amount present on a dispute, resolve or
    /// chargeback, or a duplicate transaction id.
    InvalidTransaction,
}

impl PaymentsError {
    /// A short human-readable description of the error.
    pub fn describe(&self) -> (r: &'static str)
        ensures
            r@ == self.spec_describe(),
    {
        match self {
            PaymentsError::AccountFrozen => "account is frozen due to chargeback",
            PaymentsError::InsufficientFunds => "insufficient funds",
            PaymentsError::TransactionNotFound => "transaction not found",
            PaymentsError::TransactionAlreadyDisputed(_) => "transaction already disputed",
            PaymentsError::TransactionNotDisputed => "transaction is not under dispute",
            PaymentsError::ClientIdMismatch => "client id mismatch",
            PaymentsError::InvalidTransaction => "invalid transaction",
        }
    }

    /// The description each variant carries.
    pub open spec fn spec_describe(self) -> Seq<char> {
        match self {
            PaymentsError::AccountFrozen => "account is frozen due to chargeback"@,
            PaymentsError::InsufficientFunds => "insufficient funds"@,
            PaymentsError::TransactionNotFound => "transaction not found"@,
            PaymentsError::TransactionAlreadyDisputed(_) => "transaction already disputed"@,
            PaymentsError::TransactionNotDisputed => "transaction is not under dispute"@,
            PaymentsError::ClientIdMismatch => "client id mismatch"@,
            PaymentsError::InvalidTransaction => "invalid transaction"@,
        }
    }
}

} // verus!
