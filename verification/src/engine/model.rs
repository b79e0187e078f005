//! The mathematical model of the ledger state machine.
//!
//! An [`EngineView`] is the abstract state of a sequential engine: the
//! account table, the index of disputable transactions, and the set of
//! transaction ids already accepted. [`step`] says exactly how one
//! transaction record changes that state and which result it produces.
//! The engines' executable code is proved to follow these functions, and
//! the ledger laws at the bottom are proved about the functions alone.

use vstd::prelude::*;
use crate::account::{AccountView, spec_deposit, spec_withdraw, spec_hold, spec_release,
    spec_chargeback};
use crate::errors::PaymentsError;
use crate::transaction::{ClientId, StoredTransaction, Transaction, TransactionType, TxId};

verus! {

/// The abstract state of a sequential engine.
#[verifier::ext_equal]
pub struct EngineView {
    /// Every account the engine has created, by client id.
    pub accounts: Map<ClientId, AccountView>,
    /// Accepted deposits and withdrawals that can still be disputed.
    pub disputable: Map<TxId, StoredTransaction>,
    /// Every transaction id accepted as a deposit or withdrawal.
    pub processed: Set<TxId>,
}

impl EngineView {
    /// The state of a freshly created engine: no accounts, nothing stored.
    pub open spec fn init() -> EngineView {
        EngineView {
            accounts: Map::empty(),
            disputable: Map::empty(),
            processed: Set::empty(),
        }
    }

    /// Engine well-formedness: every account satisfies the account
    /// invariant and sits under its own client id, and every stored
    /// transaction has a strictly positive amount.
    pub open spec fn wf(self) -> bool {
        &&& forall|c: ClientId| self.accounts.dom().contains(c)
            ==> (#[trigger] self.accounts[c]).wf() && self.accounts[c].client == c
        &&& forall|t: TxId| self.disputable.dom().contains(t)
            ==> (#[trigger] self.disputable[t]).amount.spec_units() > 0
    }
}

/// The account a transaction acts on: the stored one, or a fresh
/// zero-balance account created on first reference.
pub open spec fn account_or_new(s: EngineView, c: ClientId) -> AccountView {
    if s.accounts.dom().contains(c) {
        s.accounts[c]
    } else {
        AccountView::new_spec(c)
    }
}

/// How a deposit record changes the engine. The record must carry a
/// strictly positive amount and a fresh transaction id; the target account
/// (created if absent) must not be locked. On success the amount is added
/// to the account, the transaction is remembered as disputable, and its id
/// joins the processed set.
pub open spec fn step_deposit(s: EngineView, t: Transaction) -> (EngineView, Result<
    (),
    PaymentsError,
>) {
    match t.amount {
        None => (s, Err(PaymentsError::InvalidTransaction)),
        Some(amount) => {
            if amount.spec_units() <= 0 {
                (s, Err(PaymentsError::InvalidTransaction))
            } else if s.processed.contains(t.tx) {
                (s, Err(PaymentsError::InvalidTransaction))
            } else {
                let a = account_or_new(s, t.client);
                let (a2, r) = spec_deposit(a, amount.spec_units());
                match r {
                    Err(e) => (
                        EngineView { accounts: s.accounts.insert(t.client, a2), ..s },
                        Err(e),
                    ),
                    Ok(()) => (
                        EngineView {
                            accounts: s.accounts.insert(t.client, a2),
                            disputable: s.disputable.insert(
                                t.tx,
                                StoredTransaction { client: t.client, amount, disputed: false },
                            ),
                            processed: s.processed.insert(t.tx),
                        },
                        Ok(()),
                    ),
                }
            }
        },
    }
}

/// How a withdrawal record changes the engine. The same validity checks as
/// a deposit apply; on success the amount leaves the account and the
/// transaction is remembered as disputable.
pub open spec fn step_withdrawal(s: EngineView, t: Transaction) -> (EngineView, Result<
    (),
    PaymentsError,
>) {
    match t.amount {
        None => (s, Err(PaymentsError::InvalidTransaction)),
        Some(amount) => {
            if amount.spec_units() <= 0 {
                (s, Err(PaymentsError::InvalidTransaction))
            } else if s.processed.contains(t.tx) {
                (s, Err(PaymentsError::InvalidTransaction))
            } else {
                let a = account_or_new(s, t.client);
                let (a2, r) = spec_withdraw(a, amount.spec_units());
                match r {
                    Err(e) => (
                        EngineView { accounts: s.accounts.insert(t.client, a2), ..s },
                        Err(e),
                    ),
                    Ok(()) => (
                        EngineView {
                            accounts: s.accounts.insert(t.client, a2),
                            disputable: s.disputable.insert(
                                t.tx,
                                StoredTransaction { client: t.client, amount, disputed: false },
                            ),
                            processed: s.processed.insert(t.tx),
                        },
                        Ok(()),
                    ),
                }
            }
        },
    }
}

/// How a dispute record changes the engine. It must carry no amount, must
/// reference a stored transaction of the submitting client that is not yet
/// disputed; the stored transaction is then marked disputed and its amount
/// is held on the account (creating the account if absent). If the hold
/// itself fails, the disputed mark still stands, as does the account
/// creation: the error reports why no funds moved.
pub open spec fn step_dispute(s: EngineView, t: Transaction) -> (EngineView, Result<
    (),
    PaymentsError,
>) {
    if t.amount is Some {
        (s, Err(PaymentsError::InvalidTransaction))
    } else if !s.disputable.dom().contains(t.tx) {
        (s, Err(PaymentsError::TransactionNotFound))
    } else {
        let stored = s.disputable[t.tx];
        if stored.client != t.client {
            (s, Err(PaymentsError::ClientIdMismatch))
        } else if stored.disputed {
            (s, Err(PaymentsError::TransactionAlreadyDisputed(t.tx)))
        } else {
            let s1 = EngineView {
                disputable: s.disputable.insert(
                    t.tx,
                    StoredTransaction { disputed: true, ..stored },
                ),
                ..s
            };
            let a = account_or_new(s1, t.client);
            let (a2, r) = spec_hold(a, stored.amount.spec_units());
            (EngineView { accounts: s1.accounts.insert(t.client, a2), ..s1 }, r)
        }
    }
}

/// How a resolve record changes the engine. It must carry no amount and
/// must reference a stored transaction of the submitting client that is
/// currently disputed; the disputed mark is then cleared and the held
/// amount released back to available. If the release itself fails, the
/// cleared mark still stands.
pub open spec fn step_resolve(s: EngineView, t: Transaction) -> (EngineView, Result<
    (),
    PaymentsError,
>) {
    if t.amount is Some {
        (s, Err(PaymentsError::InvalidTransaction))
    } else if !s.disputable.dom().contains(t.tx) {
        (s, Err(PaymentsError::TransactionNotFound))
    } else {
        let stored = s.disputable[t.tx];
        if stored.client != t.client {
            (s, Err(PaymentsError::ClientIdMismatch))
        } else if !stored.disputed {
            (s, Err(PaymentsError::TransactionNotDisputed))
        } else {
            let s1 = EngineView {
                disputable: s.disputable.insert(
                    t.tx,
                    StoredTransaction { disputed: false, ..stored },
                ),
                ..s
            };
            let a = account_or_new(s1, t.client);
            let (a2, r) = spec_release(a, stored.amount.spec_units());
            (EngineView { accounts: s1.accounts.insert(t.client, a2), ..s1 }, r)
        }
    }
}

/// How a chargeback record changes the engine. The same preconditions as a
/// resolve apply; the held amount then leaves the account for good, the
/// account is locked, and the stored transaction is removed so it can
/// never be disputed again. If the chargeback on the account fails, the
/// stored transaction keeps its cleared mark but is not removed.
pub open spec fn step_chargeback(s: EngineView, t: Transaction) -> (EngineView, Result<
    (),
    PaymentsError,
>) {
    if t.amount is Some {
        (s, Err(PaymentsError::InvalidTransaction))
    } else if !s.disputable.dom().contains(t.tx) {
        (s, Err(PaymentsError::TransactionNotFound))
    } else {
        let stored = s.disputable[t.tx];
        if stored.client != t.client {
            (s, Err(PaymentsError::ClientIdMismatch))
        } else if !stored.disputed {
            (s, Err(PaymentsError::TransactionNotDisputed))
        } else {
            let s1 = EngineView {
                disputable: s.disputable.insert(
                    t.tx,
                    StoredTransaction { disputed: false, ..stored },
                ),
                ..s
            };
            let a = account_or_new(s1, t.client);
            let (a2, r) = spec_chargeback(a, stored.amount.spec_units());
            match r {
                Err(e) => (
                    EngineView { accounts: s1.accounts.insert(t.client, a2), ..s1 },
                    Err(e),
                ),
                Ok(()) => (
                    EngineView {
                        accounts: s1.accounts.insert(t.client, a2),
                        disputable: s1.disputable.remove(t.tx),
                        ..s1
                    },
                    Ok(()),
                ),
            }
        }
    }
}

/// One step of the ledger state machine: the state after processing `t`
/// from state `s`, together with the result the engine reports.
pub open spec fn step(s: EngineView, t: Transaction) -> (EngineView, Result<(), PaymentsError>) {
    match t.tx_type {
        TransactionType::Deposit => step_deposit(s, t),
        TransactionType::Withdrawal => step_withdrawal(s, t),
        TransactionType::Dispute => step_dispute(s, t),
        TransactionType::Resolve => step_resolve(s, t),
        TransactionType::Chargeback => step_chargeback(s, t),
    }
}

/// The state after processing `t` from `s`.
pub open spec fn step_state(s: EngineView, t: Transaction) -> EngineView {
    step(s, t).0
}

/// The result reported for processing `t` from `s`.
pub open spec fn step_result(s: EngineView, t: Transaction) -> Result<(), PaymentsError> {
    step(s, t).1
}

/// No overflow on deposit: whenever `t` is a deposit that the checks would
/// let through to an unlocked account, the new total still fits in the
/// unit type. This is the one machine limit the engines require of their
/// callers.
pub open spec fn step_fits(s: EngineView, t: Transaction) -> bool {
    t.tx_type == TransactionType::Deposit ==> match t.amount {
        Some(amount) => {
            (amount.spec_units() > 0 && !s.processed.contains(t.tx) && !account_or_new(
                s,
                t.client,
            ).locked) ==> account_or_new(s, t.client).total + amount.spec_units() <= u64::MAX
        },
        None => true,
    }
}

/// The state after processing a whole sequence of records in order.
pub open spec fn run(s: EngineView, txs: Seq<Transaction>) -> EngineView
    decreases txs.len(),
{
    if txs.len() == 0 {
        s
    } else {
        run(step_state(s, txs[0]), txs.drop_first())
    }
}

/// Law: processing a sequence and then one more record is one more step
/// after the sequence — so a loop that feeds records one at a time, in
/// arrival order, ends in exactly `run` of that order.
pub proof fn lemma_run_snoc(s: EngineView, txs: Seq<Transaction>, t: Transaction)
    ensures
        run(s, txs.push(t)) == step_state(run(s, txs), t),
    decreases txs.len(),
{
    let whole = txs.push(t);
    assert(whole.len() == txs.len() + 1);
    assert(run(s, whole) == run(step_state(s, whole[0]), whole.drop_first()));
    if txs.len() == 0 {
        assert(whole.drop_first() =~= Seq::<Transaction>::empty());
        assert(whole[0] == t);
        assert(run(s, txs) == s);
    } else {
        assert(whole[0] == txs[0]);
        assert(whole.drop_first() =~= txs.drop_first().push(t));
        lemma_run_snoc(step_state(s, txs[0]), txs.drop_first(), t);
        assert(run(s, txs) == run(step_state(s, txs[0]), txs.drop_first()));
    }
}

/// Law: every step preserves engine well-formedness, so for every account
/// at every point in time the total is the sum of the available and held
/// parts and both are non-negative. The machine-limit premise guards only
/// the unit-type bound inside `wf`; the balance itself needs nothing, as
/// the next law shows.
pub proof fn lemma_step_preserves_wf(s: EngineView, t: Transaction)
    requires
        s.wf(),
        step_fits(s, t),
    ensures
        step_state(s, t).wf(),
{
}

/// Whether every account balances: the total is the sum of the available
/// and held parts and both are non-negative.
pub open spec fn balanced(s: EngineView) -> bool {
    forall|c: ClientId|
        s.accounts.dom().contains(c) ==> {
            let a = #[trigger] s.accounts[c];
            a.total == a.available + a.held && 0 <= a.available && 0 <= a.held
        }
}

/// Law: every step keeps every account balanced, unconditionally — no
/// premise about machine limits is needed for the balance itself.
pub proof fn lemma_step_preserves_balance(s: EngineView, t: Transaction)
    requires
        balanced(s),
    ensures
        balanced(step_state(s, t)),
{
}

/// Law: one step touches at most the submitting client's account — every
/// other client's account is exactly as it was, and no account appears
/// under any other client id.
pub proof fn lemma_step_touches_only_client(s: EngineView, t: Transaction)
    ensures
        forall|c: ClientId|
            c != t.client ==> (step_state(s, t).accounts.dom().contains(c)
                <==> s.accounts.dom().contains(c)),
        forall|c: ClientId|
            c != t.client && s.accounts.dom().contains(c) ==> step_state(s, t).accounts[c]
                == s.accounts[c],
        step_state(s, t).accounts.dom().subset_of(s.accounts.dom().insert(t.client)),
{
}

/// Law: a deposit or withdrawal accepted once is rejected as invalid when
/// the identical record is submitted again, and the second submission
/// leaves the engine state exactly as it was: replaying an accepted
/// stream applies it only once.
pub proof fn lemma_duplicate_submission_rejected(s: EngineView, t: Transaction)
    requires
        t.tx_type == TransactionType::Deposit || t.tx_type == TransactionType::Withdrawal,
        step_result(s, t) == Result::<(), PaymentsError>::Ok(()),
    ensures
        step_result(step_state(s, t), t) == Result::<(), PaymentsError>::Err(
            PaymentsError::InvalidTransaction,
        ),
        step_state(step_state(s, t), t) == step_state(s, t),
{
}

/// Law: a dispute, resolve or chargeback that references a transaction id
/// no deposit or withdrawal ever occupied — or one already removed — fails
/// with `TransactionNotFound` and changes nothing.
pub proof fn lemma_unknown_reference_not_found(s: EngineView, t: Transaction)
    requires
        t.tx_type == TransactionType::Dispute || t.tx_type == TransactionType::Resolve
            || t.tx_type == TransactionType::Chargeback,
        t.amount is None,
        !s.disputable.dom().contains(t.tx),
    ensures
        step_result(s, t) == Result::<(), PaymentsError>::Err(PaymentsError::TransactionNotFound),
        step_state(s, t) == s,
{
}

/// Law: a dispute, resolve or chargeback whose client differs from the one
/// stored with the referenced transaction fails with `ClientIdMismatch`
/// and changes nothing — no account's balances move.
pub proof fn lemma_client_mismatch_rejected(s: EngineView, t: Transaction)
    requires
        t.tx_type == TransactionType::Dispute || t.tx_type == TransactionType::Resolve
            || t.tx_type == TransactionType::Chargeback,
        t.amount is None,
        s.disputable.dom().contains(t.tx),
        s.disputable[t.tx].client != t.client,
    ensures
        step_result(s, t) == Result::<(), PaymentsError>::Err(PaymentsError::ClientIdMismatch),
        step_state(s, t) == s,
{
}

/// Law: a dispute that succeeds followed by a resolve of the same
/// transaction restores the engine state exactly: the account's available,
/// held and total balances and the stored transaction all return to their
/// pre-dispute values.
pub proof fn lemma_dispute_resolve_round_trip(s: EngineView, t: Transaction)
    requires
        s.wf(),
        t.tx_type == TransactionType::Dispute,
        step_result(s, t) == Result::<(), PaymentsError>::Ok(()),
    ensures
        (step_result(step_state(s, t), Transaction { tx_type: TransactionType::Resolve, ..t })
            == Result::<(), PaymentsError>::Ok(())),
        (step_state(step_state(s, t), Transaction { tx_type: TransactionType::Resolve, ..t })
            == EngineView { accounts: s.accounts.insert(t.client, account_or_new(s, t.client)), ..s }),
{
    let s1 = step_state(s, t);
    let rt = Transaction { tx_type: TransactionType::Resolve, ..t };
    let s2 = step_state(s1, rt);
    let goal = EngineView { accounts: s.accounts.insert(t.client, account_or_new(s, t.client)), ..s };
    assert(s2.accounts =~= goal.accounts);
    assert(s2.disputable =~= goal.disputable);
    assert(s2 =~= goal);
}

/// Law: a dispute that succeeds followed by a chargeback of the same
/// transaction removes the held amount from the held and total balances,
/// leaves the available balance as the dispute left it, locks the account,
/// and removes the stored transaction; every later deposit or withdrawal
/// on that account then fails with `AccountFrozen`.
pub proof fn lemma_dispute_chargeback(s: EngineView, t: Transaction, u: Transaction)
    requires
        s.wf(),
        t.tx_type == TransactionType::Dispute,
        step_result(s, t) == Result::<(), PaymentsError>::Ok(()),
        u.client == t.client,
        u.tx_type == TransactionType::Deposit || u.tx_type == TransactionType::Withdrawal,
        (u.amount matches Some(ua) && ua.spec_units() > 0),
    ensures
        step_result(step_state(s, t), Transaction { tx_type: TransactionType::Chargeback, ..t })
            == Result::<(), PaymentsError>::Ok(()),
        ({
            let s1 = step_state(s, t);
            let s2 = step_state(s1, Transaction { tx_type: TransactionType::Chargeback, ..t });
            let amt = s.disputable[t.tx].amount.spec_units();
            &&& s2.accounts[t.client].available == s1.accounts[t.client].available
            &&& s2.accounts[t.client].held == s1.accounts[t.client].held - amt
            &&& s2.accounts[t.client].total == s1.accounts[t.client].total - amt
            &&& s2.accounts[t.client].locked
            &&& !s2.disputable.dom().contains(t.tx)
            &&& !s2.processed.contains(u.tx) ==> step_result(s2, u) == Result::<
                (),
                PaymentsError,
            >::Err(PaymentsError::AccountFrozen)
        }),
{
}

} // verus!
