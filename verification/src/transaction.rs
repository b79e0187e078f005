//! Transaction records: the five transaction types, the input record shape,
//! and the stored form kept for later disputes.

use vstd::prelude::*;
use crate::amount::Amount;

verus! {

/// Unique identifier for a client.
pub type ClientId = u16;

/// Unique identifier for a disputable transaction.
pub type TxId = u32;

/// The five transaction types the engines accept.
#[derive(Clone, Copy, Debug, PartialEq, Eq, Structural)]
pub enum TransactionType {
    /// A deposit of funds into an account.
    Deposit,
    /// A withdrawal of funds from an account.
    Withdrawal,
    /// The start of a dispute against an earlier deposit or withdrawal.
    Dispute,
    /// The resolution of an open dispute, releasing the held funds.
    Resolve,
    /// The terminal reversal of a disputed transaction; locks the account.
    Chargeback,
}

/// One input record. Deposits and withdrawals carry an amount; dispute,
/// resolve and chargeback reference an earlier transaction id and must not.
#[derive(Clone, Copy, Debug, PartialEq, Eq, Structural)]
pub struct Transaction {
    /// The type of transaction.
    pub tx_type: TransactionType,
    /// The client the transaction applies to.
    pub client: ClientId,
    /// The transaction id: fresh for deposits and withdrawals, a reference
    /// for dispute, resolve and chargeback.
    pub tx: TxId,
    /// The amount moved, where the type calls for one.
    pub amount: Option<Amount>,
}

/// What an engine remembers about an accepted deposit or withdrawal so the
/// transaction can later be disputed.
#[derive(Clone, Copy, Debug, PartialEq, Eq, Structural)]
pub struct StoredTransaction {
    /// The client that submitted the transaction.
    pub client: ClientId,
    /// The amount the transaction moved.
    pub amount: Amount,
    /// Whether the transaction is currently under dispute.
    pub disputed: bool,
}

} // verus!
