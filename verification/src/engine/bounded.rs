//! The memory-bounded engine: the account table, the disputable-transaction
//! index and the processed-id set live in fixed-capacity caches that evict
//! their least recently used entry when full.
//!
//! Eviction silently loses history, by design: an evicted account comes back
//! with zero balances, a dispute against an evicted transaction fails with
//! `TransactionNotFound`, and an evicted processed id lets a duplicate in.
//! In exchange, resident memory is bounded by the three capacities. The
//! model functions here say exactly what each record does to the caches, and
//! the executable engine is proved to follow them.

use vstd::prelude::*;
use crate::account::{acct_chargeback, acct_deposit, acct_hold, acct_new, acct_release,
    acct_withdraw, Account};
use crate::engine::config::{EngineInfo, MemoryLimits};
use crate::errors::PaymentsError;
use crate::lru_cache::{account_cache_cap, account_cache_entries,
    account_cache_get, account_cache_items, account_cache_len, account_cache_new,
    account_cache_put, id_cache_cap, id_cache_contains, id_cache_entries, id_cache_new,
    id_cache_put, lemma_lru_promote_unique, lemma_lru_promote_values, lemma_lru_put_unique,
    lemma_lru_put_values, lemma_sk_remove_unique, lemma_sk_remove_values, lru_promote, lru_put,
    sk_get, sk_has, sk_index, sk_remove, sk_unique, tx_cache_cap, tx_cache_entries, tx_cache_get,
    tx_cache_len, tx_cache_new, tx_cache_pop, tx_cache_put};
use crate::transaction::{ClientId, StoredTransaction, Transaction, TransactionType, TxId};

verus! {

/// The abstract state of a bounded engine: three recency sequences, most
/// recently used first, and the capacity each cache was created with.
#[verifier::ext_equal]
pub struct BoundedView {
    /// Resident accounts in recency order.
    pub accounts: Seq<(ClientId, Account)>,
    /// Resident disputable transactions in recency order.
    pub disputable: Seq<(TxId, StoredTransaction)>,
    /// Resident processed transaction ids in recency order.
    pub processed: Seq<(TxId, ())>,
    /// Most accounts resident at once.
    pub max_accounts: nat,
    /// Most disputable transactions resident at once.
    pub max_disputable_transactions: nat,
    /// Most processed ids resident at once.
    pub max_processed_tx_ids: nat,
}

/// Accounts-cache well-formedness: every resident account satisfies the
/// account invariant and sits under its own client id.
pub open spec fn accounts_entry_ok(p: (ClientId, Account)) -> bool {
    p.1@.wf() && p.1.client == p.0
}

/// Transaction-cache well-formedness: every resident transaction has a
/// strictly positive amount.
pub open spec fn disputable_entry_ok(p: (TxId, StoredTransaction)) -> bool {
    p.1.amount.spec_units() > 0
}

impl BoundedView {
    /// The state of a freshly created bounded engine.
    pub open spec fn init(ma: nat, md: nat, mp: nat) -> BoundedView {
        BoundedView {
            accounts: Seq::empty(),
            disputable: Seq::empty(),
            processed: Seq::empty(),
            max_accounts: ma,
            max_disputable_transactions: md,
            max_processed_tx_ids: mp,
        }
    }

    /// Well-formedness: each cache has unique keys and respects its
    /// capacity, every account satisfies the account invariant under its
    /// own client id, and every stored amount is strictly positive.
    pub open spec fn wf(self) -> bool {
        &&& 1 <= self.max_accounts && sk_unique(self.accounts) && self.accounts.len()
            <= self.max_accounts
        &&& 1 <= self.max_disputable_transactions && sk_unique(self.disputable)
            && self.disputable.len() <= self.max_disputable_transactions
        &&& 1 <= self.max_processed_tx_ids && sk_unique(self.processed) && self.processed.len()
            <= self.max_processed_tx_ids
        &&& forall|i: int|
            0 <= i < self.accounts.len() ==> accounts_entry_ok(#[trigger] self.accounts[i])
        &&& forall|i: int|
            0 <= i < self.disputable.len() ==> disputable_entry_ok(#[trigger] self.disputable[i])
    }
}

/// What a lookup-or-create leaves in the accounts cache, and the account it
/// finds: a resident account is promoted to the front; an absent one is
/// created fresh and inserted, evicting the least recently used account
/// when the cache is full.
pub open spec fn bounded_lookup(s: Seq<(ClientId, Account)>, cap: nat, c: ClientId) -> (Seq<
    (ClientId, Account),
>, Account) {
    if sk_has(s, c) {
        (lru_promote(s, c), sk_get(s, c))
    } else {
        (lru_put(s, cap, c, acct_new(c)), acct_new(c))
    }
}

/// How a deposit record changes the bounded engine. As in the sequential
/// model, but every touched entry is promoted and insertions may evict.
pub open spec fn bounded_step_deposit(s: BoundedView, t: Transaction) -> (BoundedView, Result<
    (),
    PaymentsError,
>) {
    match t.amount {
        None => (s, Err(PaymentsError::InvalidTransaction)),
        Some(amount) => {
            if amount.spec_units() <= 0 {
                (s, Err(PaymentsError::InvalidTransaction))
            } else if sk_has(s.processed, t.tx) {
                (s, Err(PaymentsError::InvalidTransaction))
            } else {
                let (entries, a) = bounded_lookup(s.accounts, s.max_accounts, t.client);
                let (a2, r) = acct_deposit(a, amount);
                let s1 = BoundedView {
                    accounts: lru_put(entries, s.max_accounts, t.client, a2),
                    ..s
                };
                match r {
                    Err(e) => (s1, Err(e)),
                    Ok(()) => (
                        BoundedView {
                            disputable: lru_put(
                                s1.disputable,
                                s.max_disputable_transactions,
                                t.tx,
                                StoredTransaction { client: t.client, amount, disputed: false },
                            ),
                            processed: lru_put(s1.processed, s.max_processed_tx_ids, t.tx, ()),
                            ..s1
                        },
                        Ok(()),
                    ),
                }
            }
        },
    }
}

/// How a withdrawal record changes the bounded engine.
pub open spec fn bounded_step_withdrawal(s: BoundedView, t: Transaction) -> (BoundedView, Result<
    (),
    PaymentsError,
>) {
    match t.amount {
        None => (s, Err(PaymentsError::InvalidTransaction)),
        Some(amount) => {
            if amount.spec_units() <= 0 {
                (s, Err(PaymentsError::InvalidTransaction))
            } else if sk_has(s.processed, t.tx) {
                (s, Err(PaymentsError::InvalidTransaction))
            } else {
                let (entries, a) = bounded_lookup(s.accounts, s.max_accounts, t.client);
                let (a2, r) = acct_withdraw(a, amount);
                let s1 = BoundedView {
                    accounts: lru_put(entries, s.max_accounts, t.client, a2),
                    ..s
                };
                match r {
                    Err(e) => (s1, Err(e)),
                    Ok(()) => (
                        BoundedView {
                            disputable: lru_put(
                                s1.disputable,
                                s.max_disputable_transactions,
                                t.tx,
                                StoredTransaction { client: t.client, amount, disputed: false },
                            ),
                            processed: lru_put(s1.processed, s.max_processed_tx_ids, t.tx, ()),
                            ..s1
                        },
                        Ok(()),
                    ),
                }
            }
        },
    }
}

/// How a dispute record changes the bounded engine. The lookup itself
/// promotes the stored transaction, even when a check then fails.
pub open spec fn bounded_step_dispute(s: BoundedView, t: Transaction) -> (BoundedView, Result<
    (),
    PaymentsError,
>) {
    if t.amount is Some {
        (s, Err(PaymentsError::InvalidTransaction))
    } else if !sk_has(s.disputable, t.tx) {
        (s, Err(PaymentsError::TransactionNotFound))
    } else {
        let stored = sk_get(s.disputable, t.tx);
        let s1 = BoundedView { disputable: lru_promote(s.disputable, t.tx), ..s };
        if stored.client != t.client {
            (s1, Err(PaymentsError::ClientIdMismatch))
        } else if stored.disputed {
            (s1, Err(PaymentsError::TransactionAlreadyDisputed(t.tx)))
        } else {
            let s2 = BoundedView {
                disputable: lru_put(
                    s1.disputable,
                    s.max_disputable_transactions,
                    t.tx,
                    StoredTransaction { disputed: true, ..stored },
                ),
                ..s1
            };
            let (entries, a) = bounded_lookup(s2.accounts, s.max_accounts, t.client);
            let (a2, r) = acct_hold(a, stored.amount);
            (BoundedView { accounts: lru_put(entries, s.max_accounts, t.client, a2), ..s2 }, r)
        }
    }
}

/// How a resolve record changes the bounded engine.
pub open spec fn bounded_step_resolve(s: BoundedView, t: Transaction) -> (BoundedView, Result<
    (),
    PaymentsError,
>) {
    if t.amount is Some {
        (s, Err(PaymentsError::InvalidTransaction))
    } else if !sk_has(s.disputable, t.tx) {
        (s, Err(PaymentsError::TransactionNotFound))
    } else {
        let stored = sk_get(s.disputable, t.tx);
        let s1 = BoundedView { disputable: lru_promote(s.disputable, t.tx), ..s };
        if stored.client != t.client {
            (s1, Err(PaymentsError::ClientIdMismatch))
        } else if !stored.disputed {
            (s1, Err(PaymentsError::TransactionNotDisputed))
        } else {
            let s2 = BoundedView {
                disputable: lru_put(
                    s1.disputable,
                    s.max_disputable_transactions,
                    t.tx,
                    StoredTransaction { disputed: false, ..stored },
                ),
                ..s1
            };
            let (entries, a) = bounded_lookup(s2.accounts, s.max_accounts, t.client);
            let (a2, r) = acct_release(a, stored.amount);
            (BoundedView { accounts: lru_put(entries, s.max_accounts, t.client, a2), ..s2 }, r)
        }
    }
}

/// How a chargeback record changes the bounded engine. On success the
/// stored transaction is removed for good.
pub open spec fn bounded_step_chargeback(s: BoundedView, t: Transaction) -> (BoundedView, Result<
    (),
    PaymentsError,
>) {
    if t.amount is Some {
        (s, Err(PaymentsError::InvalidTransaction))
    } else if !sk_has(s.disputable, t.tx) {
        (s, Err(PaymentsError::TransactionNotFound))
    } else {
        let stored = sk_get(s.disputable, t.tx);
        let s1 = BoundedView { disputable: lru_promote(s.disputable, t.tx), ..s };
        if stored.client != t.client {
            (s1, Err(PaymentsError::ClientIdMismatch))
        } else if !stored.disputed {
            (s1, Err(PaymentsError::TransactionNotDisputed))
        } else {
            let s2 = BoundedView {
                disputable: lru_put(
                    s1.disputable,
                    s.max_disputable_transactions,
                    t.tx,
                    StoredTransaction { disputed: false, ..stored },
                ),
                ..s1
            };
            let (entries, a) = bounded_lookup(s2.accounts, s.max_accounts, t.client);
            let (a2, r) = acct_chargeback(a, stored.amount);
            let s3 = BoundedView {
                accounts: lru_put(entries, s.max_accounts, t.client, a2),
                ..s2
            };
            match r {
                Err(e) => (s3, Err(e)),
                Ok(()) => (
                    BoundedView { disputable: sk_remove(s3.disputable, t.tx), ..s3 },
                    Ok(()),
                ),
            }
        }
    }
}

/// One step of the bounded engine's state machine.
pub open spec fn bounded_step(s: BoundedView, t: Transaction) -> (BoundedView, Result<
    (),
    PaymentsError,
>) {
    match t.tx_type {
        TransactionType::Deposit => bounded_step_deposit(s, t),
        TransactionType::Withdrawal => bounded_step_withdrawal(s, t),
        TransactionType::Dispute => bounded_step_dispute(s, t),
        TransactionType::Resolve => bounded_step_resolve(s, t),
        TransactionType::Chargeback => bounded_step_chargeback(s, t),
    }
}

/// The state after processing `t` from `s`.
pub open spec fn bounded_step_state(s: BoundedView, t: Transaction) -> BoundedView {
    bounded_step(s, t).0
}

/// The result reported for processing `t` from `s`.
pub open spec fn bounded_step_result(s: BoundedView, t: Transaction) -> Result<
    (),
    PaymentsError,
> {
    bounded_step(s, t).1
}

/// No overflow on deposit: whenever `t` is a deposit that the checks would
/// let through to an unlocked account, the new total still fits.
pub open spec fn bounded_fits(s: BoundedView, t: Transaction) -> bool {
    t.tx_type == TransactionType::Deposit ==> match t.amount {
        Some(amount) => {
            let a = bounded_lookup(s.accounts, s.max_accounts, t.client).1;
            (amount.spec_units() > 0 && !sk_has(s.processed, t.tx) && !a.locked)
                ==> a.total.spec_units() + amount.spec_units() <= u64::MAX
        },
        None => true,
    }
}

/// The state after the bounded engine processes a whole sequence of
/// records in order.
pub open spec fn bounded_run(s: BoundedView, txs: Seq<Transaction>) -> BoundedView
    decreases txs.len(),
{
    if txs.len() == 0 {
        s
    } else {
        bounded_run(bounded_step_state(s, txs[0]), txs.drop_first())
    }
}

/// Processing a sequence and then one more record is one more step after
/// the sequence.
pub proof fn lemma_bounded_run_snoc(s: BoundedView, txs: Seq<Transaction>, t: Transaction)
    ensures
        bounded_run(s, txs.push(t)) == bounded_step_state(bounded_run(s, txs), t),
    decreases txs.len(),
{
    let whole = txs.push(t);
    assert(whole.len() == txs.len() + 1);
    assert(bounded_run(s, whole) == bounded_run(bounded_step_state(s, whole[0]), whole.drop_first()));
    if txs.len() == 0 {
        assert(whole.drop_first() =~= Seq::<Transaction>::empty());
        assert(whole[0] == t);
        assert(bounded_run(s, txs) == s);
    } else {
        assert(whole[0] == txs[0]);
        assert(whole.drop_first() =~= txs.drop_first().push(t));
        lemma_bounded_run_snoc(bounded_step_state(s, txs[0]), txs.drop_first(), t);
        assert(bounded_run(s, txs) == bounded_run(bounded_step_state(s, txs[0]), txs.drop_first()));
    }
}

/// A deposit record with a strictly positive amount.
pub open spec fn deposit_shaped(t: Transaction) -> bool {
    t.tx_type == TransactionType::Deposit && match t.amount {
        Some(a) => a.spec_units() > 0,
        None => false,
    }
}

/// Whether some record in the sequence carries the transaction id.
pub open spec fn id_among(ds: Seq<Transaction>, x: TxId) -> bool {
    exists|j: int| 0 <= j < ds.len() && ds[j].tx == x
}

/// The exact shape of the account cache after a run of deposits for
/// pairwise distinct clients with pairwise distinct transaction ids from a
/// fresh engine: the cache holds the most recent clients, newest first,
/// and never more than its capacity.
proof fn lemma_bounded_fill_rec(ma: nat, md: nat, mp: nat, ds: Seq<Transaction>)
    requires
        1 <= ma,
        1 <= md,
        1 <= mp,
        forall|i: int| 0 <= i < ds.len() ==> deposit_shaped(#[trigger] ds[i]),
        forall|i: int, j: int|
            0 <= i < j < ds.len() ==> ds[i].client != ds[j].client && ds[i].tx != ds[j].tx,
    ensures
        ({
            let sv = bounded_run(BoundedView::init(ma, md, mp), ds);
            &&& sv.max_accounts == ma
            &&& sv.max_disputable_transactions == md
            &&& sv.max_processed_tx_ids == mp
            &&& sv.accounts.len() == if ds.len() < ma {
                ds.len() as int
            } else {
                ma as int
            }
            &&& forall|i: int|
                0 <= i < sv.accounts.len() ==> (#[trigger] sv.accounts[i]).0 == ds[
                    ds.len() - 1 - i
                ].client
            &&& sk_unique(sv.processed)
            &&& sv.processed.len() <= mp
            &&& forall|i: int|
                0 <= i < sv.processed.len() ==> id_among(ds, (#[trigger] sv.processed[i]).0)
        }),
    decreases ds.len(),
{
    let s0 = BoundedView::init(ma, md, mp);
    if ds.len() == 0 {
    } else {
        let n = ds.len() as int;
        let prefix = ds.drop_last();
        let t = ds.last();
        assert(forall|i: int| 0 <= i < prefix.len() ==> prefix[i] == ds[i]);
        lemma_bounded_fill_rec(ma, md, mp, prefix);
        lemma_bounded_run_snoc(s0, prefix, t);
        assert(ds =~= prefix.push(t));
        let sp = bounded_run(s0, prefix);
        let sv = bounded_step_state(sp, t);
        // The key distinctness facts for the new record.
        assert(deposit_shaped(t));
        let amount = t.amount->Some_0;
        // The id is fresh: every resident processed id comes from the
        // prefix, whose ids all differ from this one.
        assert(!sk_has(sp.processed, t.tx)) by {
            if sk_has(sp.processed, t.tx) {
                let i = choose|i: int|
                    0 <= i < sp.processed.len() && sp.processed[i].0 == t.tx;
                assert(id_among(prefix, sp.processed[i].0));
                let j = choose|j: int| 0 <= j < prefix.len() && prefix[j].tx == t.tx;
                assert(ds[j].tx == ds[n - 1].tx);
            }
        }
        // The client is fresh: every resident account belongs to an
        // earlier, distinct client.
        assert(!sk_has(sp.accounts, t.client)) by {
            if sk_has(sp.accounts, t.client) {
                let i = choose|i: int|
                    0 <= i < sp.accounts.len() && sp.accounts[i].0 == t.client;
                assert(sp.accounts[i].0 == prefix[prefix.len() - 1 - i].client);
                assert(ds[prefix.len() - 1 - i].client == ds[n - 1].client);
            }
        }
        // The accounts cache is keyed by distinct clients, so it has
        // unique keys.
        assert(sk_unique(sp.accounts)) by {
            assert forall|i: int, j: int| 0 <= i < j < sp.accounts.len() implies (
            #[trigger] sp.accounts[i]).0 != (#[trigger] sp.accounts[j]).0 by {
                assert(sp.accounts[i].0 == prefix[prefix.len() - 1 - i].client);
                assert(sp.accounts[j].0 == prefix[prefix.len() - 1 - j].client);
            }
        }
        // The deposit is accepted: the account is created fresh and
        // unlocked.
        let fresh = acct_new(t.client);
        let (entries, a) = bounded_lookup(sp.accounts, ma, t.client);
        assert(a == fresh);
        assert(entries == lru_put(sp.accounts, ma, t.client, fresh));
        let (a2, r) = acct_deposit(fresh, amount);
        assert(r is Ok);
        lemma_lru_put_unique(sp.accounts, ma, t.client, fresh);
        // Writing the deposited account back updates the front entry in
        // place.
        let put_back = lru_put(entries, ma, t.client, a2);
        assert(sk_has(entries, t.client));
        assert(put_back == seq![(t.client, a2)] + sk_remove(entries, t.client));
        assert(sk_index(entries, t.client) == 0) by {
            let idx = sk_index(entries, t.client);
            assert(0 <= idx < entries.len() && entries[idx].0 == t.client);
            assert(entries[0] == (t.client, fresh));
            if idx != 0 {
                assert(entries[0].0 == entries[idx].0);
            }
        }
        assert(sk_remove(entries, t.client) =~= entries.drop_first());
        assert(sv.accounts == put_back);
        // The cache now reads: newest client first, then what survived.
        assert forall|i: int| 0 <= i < sv.accounts.len() implies (#[trigger] sv.accounts[i]).0
            == ds[n - 1 - i].client by {
            if i == 0 {
                assert(sv.accounts[0] == (t.client, a2));
            } else {
                assert(sv.accounts[i] == entries.drop_first()[i - 1]);
                assert(entries.drop_first()[i - 1] == entries[i]);
                if sp.accounts.len() < ma {
                    assert(entries[i] == sp.accounts[i - 1]);
                } else {
                    assert(entries[i] == sp.accounts.take(ma as int - 1)[i - 1]);
                    assert(sp.accounts.take(ma as int - 1)[i - 1] == sp.accounts[i - 1]);
                }
                assert(sp.accounts[i - 1].0 == prefix[prefix.len() - 1 - (i - 1)].client);
            }
        }
        // The processed-id cache keeps only ids from the sequence.
        lemma_lru_put_unique(sp.processed, mp, t.tx, ());
        lemma_lru_put_values(
            sp.processed,
            mp,
            t.tx,
            (),
            |e: (TxId, ())| id_among(ds, e.0),
        );
        assert(id_among(ds, t.tx)) by {
            assert(ds[n - 1].tx == t.tx);
        }
        assert forall|i: int| 0 <= i < sp.processed.len() implies id_among(
            ds,
            (#[trigger] sp.processed[i]).0,
        ) by {
            assert(id_among(prefix, sp.processed[i].0));
            let j = choose|j: int| 0 <= j < prefix.len() && prefix[j].tx == sp.processed[i].0;
            assert(ds[j].tx == sp.processed[i].0);
        }
        assert forall|i: int| 0 <= i < sv.processed.len() implies id_among(
            ds,
            (#[trigger] sv.processed[i]).0,
        ) by {
            let p = |e: (TxId, ())| id_among(ds, e.0);
            assert(p(sv.processed[i]));
        }
    }
}

/// Law: filling a fresh bounded engine with one more distinct client than
/// the account capacity leaves exactly the capacity's worth of accounts
/// resident, and the client touched least recently — the first — is the
/// one evicted; every later client is still resident.
pub proof fn lemma_bounded_account_eviction(ma: nat, md: nat, mp: nat, ds: Seq<Transaction>)
    requires
        1 <= ma,
        1 <= md,
        1 <= mp,
        ds.len() == ma + 1,
        forall|i: int| 0 <= i < ds.len() ==> deposit_shaped(#[trigger] ds[i]),
        forall|i: int, j: int|
            0 <= i < j < ds.len() ==> ds[i].client != ds[j].client && ds[i].tx != ds[j].tx,
    ensures
        ({
            let sv = bounded_run(BoundedView::init(ma, md, mp), ds);
            &&& sv.accounts.len() == ma
            &&& !sk_has(sv.accounts, ds[0].client)
            &&& forall|j: int| 1 <= j < ds.len() ==> sk_has(sv.accounts, ds[j].client)
        }),
{
    lemma_bounded_fill_rec(ma, md, mp, ds);
    let sv = bounded_run(BoundedView::init(ma, md, mp), ds);
    let n = ds.len() as int;
    assert(!sk_has(sv.accounts, ds[0].client)) by {
        if sk_has(sv.accounts, ds[0].client) {
            let i = choose|i: int|
                0 <= i < sv.accounts.len() && sv.accounts[i].0 == ds[0].client;
            assert(sv.accounts[i].0 == ds[n - 1 - i].client);
            assert(0 < n - 1 - i < n);
        }
    }
    assert forall|j: int| 1 <= j < ds.len() implies sk_has(sv.accounts, ds[j].client) by {
        let i = n - 1 - j;
        assert(sv.accounts[i].0 == ds[j].client);
    }
}

/// What a lookup-or-create guarantees: the account found is well-formed and
/// belongs to the client, and the cache stays well-formed within its
/// capacity.
proof fn lemma_bounded_lookup(s: Seq<(ClientId, Account)>, cap: nat, c: ClientId)
    requires
        sk_unique(s),
        s.len() <= cap,
        1 <= cap,
        forall|i: int| 0 <= i < s.len() ==> accounts_entry_ok(#[trigger] s[i]),
    ensures
        ({
            let (entries, a) = bounded_lookup(s, cap, c);
            &&& sk_unique(entries)
            &&& entries.len() <= cap
            &&& a@.wf()
            &&& a.client == c
            &&& forall|i: int| 0 <= i < entries.len() ==> accounts_entry_ok(#[trigger] entries[i])
        }),
{
    let (entries, a) = bounded_lookup(s, cap, c);
    if sk_has(s, c) {
        lemma_lru_promote_unique(s, c);
        lemma_lru_promote_values(s, c, |p: (ClientId, Account)| accounts_entry_ok(p));
        let pos = sk_index(s, c);
        assert(accounts_entry_ok(s[pos]));
        assert(a == s[pos].1);
        assert forall|i: int| 0 <= i < entries.len() implies accounts_entry_ok(
            #[trigger] entries[i],
        ) by {
            let p = |p: (ClientId, Account)| accounts_entry_ok(p);
            assert(p(entries[i]));
        }
    } else {
        lemma_lru_put_unique(s, cap, c, acct_new(c));
        lemma_lru_put_values(s, cap, c, acct_new(c), |p: (ClientId, Account)| accounts_entry_ok(p));
        assert forall|i: int| 0 <= i < entries.len() implies accounts_entry_ok(
            #[trigger] entries[i],
        ) by {
            let p = |p: (ClientId, Account)| accounts_entry_ok(p);
            assert(p(entries[i]));
        }
    }
}

/// Writing a well-formed account back keeps the cache well-formed.
proof fn lemma_account_put_back(s: Seq<(ClientId, Account)>, cap: nat, c: ClientId, a: Account)
    requires
        sk_unique(s),
        s.len() <= cap,
        1 <= cap,
        forall|i: int| 0 <= i < s.len() ==> accounts_entry_ok(#[trigger] s[i]),
        a@.wf(),
        a.client == c,
    ensures
        sk_unique(lru_put(s, cap, c, a)),
        lru_put(s, cap, c, a).len() <= cap,
        forall|i: int|
            0 <= i < lru_put(s, cap, c, a).len() ==> accounts_entry_ok(
                #[trigger] lru_put(s, cap, c, a)[i],
            ),
{
    lemma_lru_put_unique(s, cap, c, a);
    lemma_lru_put_values(s, cap, c, a, |p: (ClientId, Account)| accounts_entry_ok(p));
    assert forall|i: int| 0 <= i < lru_put(s, cap, c, a).len() implies accounts_entry_ok(
        #[trigger] lru_put(s, cap, c, a)[i],
    ) by {
        let p = |p: (ClientId, Account)| accounts_entry_ok(p);
        assert(p(lru_put(s, cap, c, a)[i]));
    }
}

/// Storing a positive-amount transaction keeps the transaction cache
/// well-formed.
proof fn lemma_tx_put(s: Seq<(TxId, StoredTransaction)>, cap: nat, k: TxId, v: StoredTransaction)
    requires
        sk_unique(s),
        s.len() <= cap,
        1 <= cap,
        forall|i: int| 0 <= i < s.len() ==> disputable_entry_ok(#[trigger] s[i]),
        v.amount.spec_units() > 0,
    ensures
        sk_unique(lru_put(s, cap, k, v)),
        lru_put(s, cap, k, v).len() <= cap,
        forall|i: int|
            0 <= i < lru_put(s, cap, k, v).len() ==> disputable_entry_ok(
                #[trigger] lru_put(s, cap, k, v)[i],
            ),
{
    lemma_lru_put_unique(s, cap, k, v);
    lemma_lru_put_values(s, cap, k, v, |p: (TxId, StoredTransaction)| disputable_entry_ok(p));
    assert forall|i: int| 0 <= i < lru_put(s, cap, k, v).len() implies disputable_entry_ok(
        #[trigger] lru_put(s, cap, k, v)[i],
    ) by {
        let p = |p: (TxId, StoredTransaction)| disputable_entry_ok(p);
        assert(p(lru_put(s, cap, k, v)[i]));
    }
}

/// Promoting a stored transaction keeps the transaction cache well-formed.
proof fn lemma_tx_promote(s: Seq<(TxId, StoredTransaction)>, k: TxId)
    requires
        sk_unique(s),
        sk_has(s, k),
        forall|i: int| 0 <= i < s.len() ==> disputable_entry_ok(#[trigger] s[i]),
    ensures
        sk_unique(lru_promote(s, k)),
        lru_promote(s, k).len() == s.len(),
        sk_get(s, k).amount.spec_units() > 0,
        forall|i: int|
            0 <= i < lru_promote(s, k).len() ==> disputable_entry_ok(
                #[trigger] lru_promote(s, k)[i],
            ),
{
    lemma_lru_promote_unique(s, k);
    lemma_lru_promote_values(s, k, |p: (TxId, StoredTransaction)| disputable_entry_ok(p));
    let pos = sk_index(s, k);
    assert(disputable_entry_ok(s[pos]));
    assert forall|i: int| 0 <= i < lru_promote(s, k).len() implies disputable_entry_ok(
        #[trigger] lru_promote(s, k)[i],
    ) by {
        let p = |p: (TxId, StoredTransaction)| disputable_entry_ok(p);
        assert(p(lru_promote(s, k)[i]));
    }
}

/// Removing a stored transaction keeps the transaction cache well-formed.
proof fn lemma_tx_remove(s: Seq<(TxId, StoredTransaction)>, k: TxId)
    requires
        sk_unique(s),
        forall|i: int| 0 <= i < s.len() ==> disputable_entry_ok(#[trigger] s[i]),
    ensures
        sk_unique(sk_remove(s, k)),
        sk_remove(s, k).len() <= s.len(),
        forall|i: int|
            0 <= i < sk_remove(s, k).len() ==> disputable_entry_ok(#[trigger] sk_remove(s, k)[i]),
{
    lemma_sk_remove_unique(s, k);
    lemma_sk_remove_values(s, k, |p: (TxId, StoredTransaction)| disputable_entry_ok(p));
    assert forall|i: int| 0 <= i < sk_remove(s, k).len() implies disputable_entry_ok(
        #[trigger] sk_remove(s, k)[i],
    ) by {
        let p = |p: (TxId, StoredTransaction)| disputable_entry_ok(p);
        assert(p(sk_remove(s, k)[i]));
    }
}

/// The memory-bounded engine.
#[derive(Debug)]
pub struct BoundedEngine {
    /// Resident accounts, least recently used evicted first.
    accounts: lru::LruCache<ClientId, Account>,
    /// Resident disputable transactions.
    disputable: lru::LruCache<TxId, StoredTransaction>,
    /// Resident processed transaction ids.
    processed: lru::LruCache<TxId, ()>,
    /// The configured capacities, kept for reporting.
    memory_limits: MemoryLimits,
}

impl View for BoundedEngine {
    type V = BoundedView;

    closed spec fn view(&self) -> BoundedView {
        BoundedView {
            accounts: account_cache_entries(self.accounts),
            disputable: tx_cache_entries(self.disputable),
            processed: id_cache_entries(self.processed),
            max_accounts: account_cache_cap(self.accounts),
            max_disputable_transactions: tx_cache_cap(self.disputable),
            max_processed_tx_ids: id_cache_cap(self.processed),
        }
    }
}

impl BoundedEngine {
    /// Internal consistency: the abstract state is well-formed and the
    /// reported limits are the real capacities.
    pub closed spec fn inv(self) -> bool {
        &&& self@.wf()
        &&& self.memory_limits.max_accounts == self@.max_accounts
        &&& self.memory_limits.max_disputable_transactions
            == self@.max_disputable_transactions
        &&& self.memory_limits.max_processed_tx_ids == self@.max_processed_tx_ids
    }

    /// Creates a bounded engine with the given capacities, each at least
    /// one.
    pub fn new(
        max_accounts: usize,
        max_disputable_transactions: usize,
        max_processed_tx_ids: usize,
    ) -> (r: BoundedEngine)
        requires
            1 <= max_accounts,
            1 <= max_disputable_transactions,
            1 <= max_processed_tx_ids,
        ensures
            r.inv(),
            r@.wf(),
            r@ == BoundedView::init(
                max_accounts as nat,
                max_disputable_transactions as nat,
                max_processed_tx_ids as nat,
            ),
    {
        let r = BoundedEngine {
            accounts: account_cache_new(max_accounts),
            disputable: tx_cache_new(max_disputable_transactions),
            processed: id_cache_new(max_processed_tx_ids),
            memory_limits: MemoryLimits {
                max_accounts,
                max_disputable_transactions,
                max_processed_tx_ids,
            },
        };
        proof {
            assert(r@ =~= BoundedView::init(
                max_accounts as nat,
                max_disputable_transactions as nat,
                max_processed_tx_ids as nat,
            ));
        }
        r
    }

    /// Returns the resident account for `client`, creating a fresh one —
    /// and possibly evicting the least recently used account — if none is
    /// resident. The lookup promotes the account.
    fn get_or_create_account(&mut self, client: ClientId) -> (r: Account)
        requires
            old(self).inv(),
        ensures
            final(self).inv(),
            ({
                let (entries, a) = bounded_lookup(
                    old(self)@.accounts,
                    old(self)@.max_accounts,
                    client,
                );
                r == a && final(self)@ == BoundedView { accounts: entries, ..old(self)@ }
            }),
            r@.wf(),
            r.client == client,
    {
        proof {
            lemma_bounded_lookup(self@.accounts, self@.max_accounts, client);
        }
        match account_cache_get(&mut self.accounts, client) {
            Some(a) => a,
            None => {
                let a = Account::new(client);
                account_cache_put(&mut self.accounts, client, a);
                a
            },
        }
    }

    /// Processes one transaction record, dispatching on its type. The
    /// resulting state and result are exactly those of `bounded_step`.
    pub fn process_transaction(&mut self, transaction: &Transaction) -> (r: Result<
        (),
        PaymentsError,
    >)
        requires
            old(self).inv(),
            bounded_fits(old(self)@, *transaction),
        ensures
            final(self).inv(),
            final(self)@.wf(),
            final(self)@ == bounded_step_state(old(self)@, *transaction),
            r == bounded_step_result(old(self)@, *transaction),
    {
        match transaction.tx_type {
            TransactionType::Deposit => self.process_deposit(transaction),
            TransactionType::Withdrawal => self.process_withdrawal(transaction),
            TransactionType::Dispute => self.process_dispute(transaction),
            TransactionType::Resolve => self.process_resolve(transaction),
            TransactionType::Chargeback => self.process_chargeback(transaction),
        }
    }

    /// Handles a deposit record.
    fn process_deposit(&mut self, t: &Transaction) -> (r: Result<(), PaymentsError>)
        requires
            old(self).inv(),
            t.tx_type == TransactionType::Deposit,
            bounded_fits(old(self)@, *t),
        ensures
            final(self).inv(),
            ((final(self)@, r) == bounded_step_deposit(old(self)@, *t)),
    {
        let ghost s0 = self@;
        let amount = match t.amount {
            None => {
                return Err(PaymentsError::InvalidTransaction);
            },
            Some(a) => a,
        };
        if amount.is_zero() {
            return Err(PaymentsError::InvalidTransaction);
        }
        if id_cache_contains(&self.processed, t.tx) {
            return Err(PaymentsError::InvalidTransaction);
        }
        let mut account = self.get_or_create_account(t.client);
        let r = account.deposit(amount);
        proof {
            lemma_account_put_back(self@.accounts, s0.max_accounts, t.client, account);
        }
        account_cache_put(&mut self.accounts, t.client, account);
        match r {
            Err(e) => Err(e),
            Ok(()) => {
                let stored = StoredTransaction { client: t.client, amount, disputed: false };
                proof {
                    lemma_tx_put(
                        self@.disputable,
                        s0.max_disputable_transactions,
                        t.tx,
                        stored,
                    );
                    lemma_lru_put_unique(self@.processed, s0.max_processed_tx_ids, t.tx, ());
                }
                tx_cache_put(&mut self.disputable, t.tx, stored);
                id_cache_put(&mut self.processed, t.tx);
                Ok(())
            },
        }
    }

    /// Handles a withdrawal record.
    fn process_withdrawal(&mut self, t: &Transaction) -> (r: Result<(), PaymentsError>)
        requires
            old(self).inv(),
            t.tx_type == TransactionType::Withdrawal,
        ensures
            final(self).inv(),
            ((final(self)@, r) == bounded_step_withdrawal(old(self)@, *t)),
    {
        let ghost s0 = self@;
        let amount = match t.amount {
            None => {
                return Err(PaymentsError::InvalidTransaction);
            },
            Some(a) => a,
        };
        if amount.is_zero() {
            return Err(PaymentsError::InvalidTransaction);
        }
        if id_cache_contains(&self.processed, t.tx) {
            return Err(PaymentsError::InvalidTransaction);
        }
        let mut account = self.get_or_create_account(t.client);
        let r = account.withdraw(amount);
        proof {
            lemma_account_put_back(self@.accounts, s0.max_accounts, t.client, account);
        }
        account_cache_put(&mut self.accounts, t.client, account);
        match r {
            Err(e) => Err(e),
            Ok(()) => {
                let stored = StoredTransaction { client: t.client, amount, disputed: false };
                proof {
                    lemma_tx_put(
                        self@.disputable,
                        s0.max_disputable_transactions,
                        t.tx,
                        stored,
                    );
                    lemma_lru_put_unique(self@.processed, s0.max_processed_tx_ids, t.tx, ());
                }
                tx_cache_put(&mut self.disputable, t.tx, stored);
                id_cache_put(&mut self.processed, t.tx);
                Ok(())
            },
        }
    }

    /// Handles a dispute record.
    fn process_dispute(&mut self, t: &Transaction) -> (r: Result<(), PaymentsError>)
        requires
            old(self).inv(),
            t.tx_type == TransactionType::Dispute,
        ensures
            final(self).inv(),
            ((final(self)@, r) == bounded_step_dispute(old(self)@, *t)),
    {
        let ghost s0 = self@;
        if t.amount.is_some() {
            return Err(PaymentsError::InvalidTransaction);
        }
        proof {
            if sk_has(s0.disputable, t.tx) {
                lemma_tx_promote(s0.disputable, t.tx);
            }
        }
        let stored = match tx_cache_get(&mut self.disputable, t.tx) {
            None => {
                return Err(PaymentsError::TransactionNotFound);
            },
            Some(s) => s,
        };
        if stored.client != t.client {
            return Err(PaymentsError::ClientIdMismatch);
        }
        if stored.disputed {
            return Err(PaymentsError::TransactionAlreadyDisputed(t.tx));
        }
        let updated = StoredTransaction { disputed: true, ..stored };
        proof {
            lemma_tx_put(self@.disputable, s0.max_disputable_transactions, t.tx, updated);
        }
        tx_cache_put(&mut self.disputable, t.tx, updated);
        let mut account = self.get_or_create_account(t.client);
        let r = account.hold(stored.amount);
        proof {
            lemma_account_put_back(self@.accounts, s0.max_accounts, t.client, account);
        }
        account_cache_put(&mut self.accounts, t.client, account);
        proof {
            assert(self@ =~= bounded_step_dispute(s0, *t).0);
        }
        r
    }

    /// Handles a resolve record.
    fn process_resolve(&mut self, t: &Transaction) -> (r: Result<(), PaymentsError>)
        requires
            old(self).inv(),
            t.tx_type == TransactionType::Resolve,
        ensures
            final(self).inv(),
            ((final(self)@, r) == bounded_step_resolve(old(self)@, *t)),
    {
        let ghost s0 = self@;
        if t.amount.is_some() {
            return Err(PaymentsError::InvalidTransaction);
        }
        proof {
            if sk_has(s0.disputable, t.tx) {
                lemma_tx_promote(s0.disputable, t.tx);
            }
        }
        let stored = match tx_cache_get(&mut self.disputable, t.tx) {
            None => {
                return Err(PaymentsError::TransactionNotFound);
            },
            Some(s) => s,
        };
        if stored.client != t.client {
            return Err(PaymentsError::ClientIdMismatch);
        }
        if !stored.disputed {
            return Err(PaymentsError::TransactionNotDisputed);
        }
        let updated = StoredTransaction { disputed: false, ..stored };
        proof {
            lemma_tx_put(self@.disputable, s0.max_disputable_transactions, t.tx, updated);
        }
        tx_cache_put(&mut self.disputable, t.tx, updated);
        let mut account = self.get_or_create_account(t.client);
        let r = account.release(stored.amount);
        proof {
            lemma_account_put_back(self@.accounts, s0.max_accounts, t.client, account);
        }
        account_cache_put(&mut self.accounts, t.client, account);
        proof {
            assert(self@ =~= bounded_step_resolve(s0, *t).0);
        }
        r
    }

    /// Handles a chargeback record.
    fn process_chargeback(&mut self, t: &Transaction) -> (r: Result<(), PaymentsError>)
        requires
            old(self).inv(),
            t.tx_type == TransactionType::Chargeback,
        ensures
            final(self).inv(),
            ((final(self)@, r) == bounded_step_chargeback(old(self)@, *t)),
    {
        let ghost s0 = self@;
        if t.amount.is_some() {
            return Err(PaymentsError::InvalidTransaction);
        }
        proof {
            if sk_has(s0.disputable, t.tx) {
                lemma_tx_promote(s0.disputable, t.tx);
            }
        }
        let stored = match tx_cache_get(&mut self.disputable, t.tx) {
            None => {
                return Err(PaymentsError::TransactionNotFound);
            },
            Some(s) => s,
        };
        if stored.client != t.client {
            return Err(PaymentsError::ClientIdMismatch);
        }
        if !stored.disputed {
            return Err(PaymentsError::TransactionNotDisputed);
        }
        let updated = StoredTransaction { disputed: false, ..stored };
        proof {
            lemma_tx_put(self@.disputable, s0.max_disputable_transactions, t.tx, updated);
        }
        tx_cache_put(&mut self.disputable, t.tx, updated);
        let mut account = self.get_or_create_account(t.client);
        let r = account.chargeback(stored.amount);
        proof {
            lemma_account_put_back(self@.accounts, s0.max_accounts, t.client, account);
        }
        account_cache_put(&mut self.accounts, t.client, account);
        match r {
            Err(e) => {
                proof {
                    assert(self@ =~= bounded_step_chargeback(s0, *t).0);
                }
                Err(e)
            },
            Ok(()) => {
                proof {
                    lemma_tx_remove(self@.disputable, t.tx);
                }
                tx_cache_pop(&mut self.disputable, t.tx);
                proof {
                    assert(self@ =~= bounded_step_chargeback(s0, *t).0);
                }
                Ok(())
            },
        }
    }

    /// Hands out a copy of every resident account, most recently used
    /// first.
    pub fn get_accounts(&self) -> (r: Vec<Account>)
        ensures
            r@.len() == self@.accounts.len(),
            forall|i: int|
                0 <= i < r@.len() ==> #[trigger] r@[i] == self@.accounts[i].1,
    {
        let items = account_cache_items(&self.accounts);
        let mut out: Vec<Account> = Vec::new();
        let n = items.len();
        let mut i: usize = 0;
        while i < n
            invariant
                n == items@.len(),
                items@ == self@.accounts,
                i <= n,
                out@.len() == i,
                forall|j: int| 0 <= j < i as int ==> #[trigger] out@[j] == items@[j].1,
            decreases n - i,
        {
            let pair = items[i];
            out.push(pair.1);
            i += 1;
        }
        out
    }

    /// The number of accounts currently resident.
    pub fn account_count(&self) -> (r: usize)
        ensures
            r == self@.accounts.len(),
    {
        account_cache_len(&self.accounts)
    }

    /// What this engine reports about itself.
    pub fn get_engine_info(&self) -> (r: EngineInfo)
        requires
            self.inv(),
        ensures
            r.engine_type@ == "Bounded"@,
            r.memory_bounded,
            !r.concurrent,
            r.account_count == self@.accounts.len(),
            r.transaction_count == Some(self@.disputable.len() as usize),
            (r.memory_limits matches Some(l) && l.max_accounts == self@.max_accounts
                && l.max_disputable_transactions == self@.max_disputable_transactions
                && l.max_processed_tx_ids == self@.max_processed_tx_ids),
    {
        EngineInfo {
            engine_type: "Bounded".to_string(),
            memory_bounded: true,
            concurrent: false,
            account_count: account_cache_len(&self.accounts),
            transaction_count: Some(tx_cache_len(&self.disputable)),
            memory_limits: Some(self.memory_limits),
        }
    }
}

} // verus!
