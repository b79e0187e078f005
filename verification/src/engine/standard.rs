//! The sequential reference engine: one account table, one index of
//! disputable transactions, one set of processed transaction ids.
//!
//! Every public operation is proved to follow the state machine in
//! [`crate::engine::model`] exactly.

use vstd::prelude::*;
use std::collections::HashMap;
use crate::engine::config::EngineInfo;
use std::collections::HashSet;
use crate::account::{Account, AccountView};
use crate::engine::model::{account_or_new, step_chargeback, step_deposit, step_dispute,
    step_resolve, step_state, step_result, step_withdrawal, step_fits, EngineView};
use crate::errors::PaymentsError;
use crate::transaction::{ClientId, StoredTransaction, Transaction, TransactionType, TxId};

verus! {

broadcast use vstd::std_specs::hash::group_hash_axioms, vstd::string::group_string_axioms;

/// The sequential engine with unbounded tables. Suitable whenever the
/// whole working set fits in memory.
#[derive(Debug)]
pub struct StandardEngine {
    /// Accounts by client id.
    accounts: HashMap<ClientId, Account>,
    /// The clients in the order their accounts were created; drives the
    /// order in which accounts are handed out.
    client_order: Vec<ClientId>,
    /// Accepted deposits and withdrawals, by transaction id.
    disputable: HashMap<TxId, StoredTransaction>,
    /// Every transaction id accepted so far, to reject duplicates.
    processed: HashSet<TxId>,
}

/// The abstract account table of an executable table: each account replaced
/// by its mathematical view.
pub open spec fn account_views(m: Map<ClientId, Account>) -> Map<ClientId, AccountView> {
    m.map_values(|a: Account| a@)
}

/// Inserting into the executable table inserts the view into the abstract
/// table.
proof fn lemma_account_views_insert(m: Map<ClientId, Account>, k: ClientId, v: Account)
    ensures
        account_views(m.insert(k, v)) == account_views(m).insert(k, v@),
{
    assert(account_views(m.insert(k, v)) =~= account_views(m).insert(k, v@));
}

impl View for StandardEngine {
    type V = EngineView;

    closed spec fn view(&self) -> EngineView {
        EngineView {
            accounts: account_views(self.accounts@),
            disputable: self.disputable@,
            processed: self.processed@,
        }
    }
}

impl StandardEngine {
    /// Internal consistency: the abstract state is well-formed and the
    /// client order lists exactly the accounts that exist, each once.
    pub closed spec fn inv(self) -> bool {
        &&& self@.wf()
        &&& self.client_order@.no_duplicates()
        &&& forall|i: int|
            0 <= i < self.client_order@.len() ==> self.accounts@.dom().contains(
                #[trigger] self.client_order@[i],
            )
        &&& forall|c: ClientId|
            self.accounts@.dom().contains(c) ==> self.client_order@.contains(c)
    }

    /// The clients with accounts, in creation order.
    pub closed spec fn spec_client_order(self) -> Seq<ClientId> {
        self.client_order@
    }

    /// Creates an empty engine.
    pub fn new() -> (r: StandardEngine)
        ensures
            r.inv(),
            r@ == EngineView::init(),
            r@.wf(),
            r.spec_client_order() == Seq::<ClientId>::empty(),
    {
        let r = StandardEngine {
            accounts: HashMap::new(),
            client_order: Vec::new(),
            disputable: HashMap::new(),
            processed: HashSet::new(),
        };
        proof {
            assert(r@.accounts =~= Map::<ClientId, AccountView>::empty());
            assert(r@ =~= EngineView::init());
        }
        r
    }

    /// Returns the account for `client`, creating a fresh zero-balance
    /// account first if none exists yet. The returned value is a copy of
    /// what the table now holds.
    pub fn get_or_create_account(&mut self, client: ClientId) -> (r: Account)
        requires
            old(self).inv(),
        ensures
            final(self).inv(),
            r@ == account_or_new(old(self)@, client),
            (final(self)@ == EngineView {
                accounts: old(self)@.accounts.insert(client, r@),
                ..old(self)@
            }),
            final(self)@.accounts.dom().contains(client),
            final(self).spec_client_order() == if old(self)@.accounts.dom().contains(client) {
                old(self).spec_client_order()
            } else {
                old(self).spec_client_order().push(client)
            },
    {
        let ghost s0 = self@;
        let ghost m0 = self.accounts@;
        match self.accounts.get(&client) {
            Some(a) => {
                let acc = *a;
                proof {
                    assert(acc@ == account_or_new(s0, client));
                    assert(self@.accounts =~= s0.accounts.insert(client, acc@));
                    assert(self@ =~= EngineView { accounts: s0.accounts.insert(client, acc@), ..s0 });
                }
                acc
            },
            None => {
                let acc = Account::new(client);
                proof {
                    // The client has no account yet, so it is not listed.
                    assert(!s0.accounts.dom().contains(client));
                    assert(!self.client_order@.contains(client));
                }
                self.accounts.insert(client, acc);
                let ghost prev = self.client_order@;
                self.client_order.push(client);
                proof {
                    lemma_account_views_insert(m0, client, acc);
                    assert(self@ =~= EngineView { accounts: s0.accounts.insert(client, acc@), ..s0 });
                    assert forall|c: ClientId|
                        self.accounts@.dom().contains(c) implies self.client_order@.contains(c) by {
                        if c != client {
                            assert(m0.dom().contains(c));
                            assert(prev.contains(c));
                            let i = choose|i: int| 0 <= i < prev.len() && prev[i] == c;
                            assert(self.client_order@[i] == c);
                        } else {
                            assert(self.client_order@.last() == client);
                        }
                    }
                }
                acc
            },
        }
    }

    /// Processes one transaction record, dispatching on its type. The
    /// resulting state and result are exactly those of the model's `step`.
    pub fn process_transaction(&mut self, transaction: &Transaction) -> (r: Result<
        (),
        PaymentsError,
    >)
        requires
            old(self).inv(),
            step_fits(old(self)@, *transaction),
        ensures
            final(self).inv(),
            final(self)@.wf(),
            final(self)@ == step_state(old(self)@, *transaction),
            r == step_result(old(self)@, *transaction),
    {
        let r = match transaction.tx_type {
            TransactionType::Deposit => self.process_deposit(transaction),
            TransactionType::Withdrawal => self.process_withdrawal(transaction),
            TransactionType::Dispute => self.process_dispute(transaction),
            TransactionType::Resolve => self.process_resolve(transaction),
            TransactionType::Chargeback => self.process_chargeback(transaction),
        };
        r
    }

    /// Handles a deposit record.
    fn process_deposit(&mut self, t: &Transaction) -> (r: Result<(), PaymentsError>)
        requires
            old(self).inv(),
            t.tx_type == TransactionType::Deposit,
            step_fits(old(self)@, *t),
        ensures
            final(self).inv(),
            ((final(self)@, r) == step_deposit(old(self)@, *t)),
    {
        let ghost s0 = self@;
        let amount = match t.amount {
            None => {
                return Err(PaymentsError::InvalidTransaction);
            },
            Some(a) => a,
        };
        if amount.is_zero() {
            return Err(PaymentsError::InvalidTransaction);
        }
        if self.processed.contains(&t.tx) {
            return Err(PaymentsError::InvalidTransaction);
        }
        let mut account = self.get_or_create_account(t.client);
        let r = account.deposit(amount);
        let ghost m1 = self.accounts@;
        self.accounts.insert(t.client, account);
        proof {
            lemma_account_views_insert(m1, t.client, account);
            assert(self@.accounts =~= s0.accounts.insert(t.client, account@));
        }
        match r {
            Err(e) => {
                proof {
                    assert(self@ =~= step_deposit(s0, *t).0);
                }
                Err(e)
            },
            Ok(()) => {
                self.disputable.insert(
                    t.tx,
                    StoredTransaction { client: t.client, amount, disputed: false },
                );
                self.processed.insert(t.tx);
                proof {
                    assert(self@ =~= step_deposit(s0, *t).0);
                }
                Ok(())
            },
        }
    }

    /// Handles a withdrawal record.
    fn process_withdrawal(&mut self, t: &Transaction) -> (r: Result<(), PaymentsError>)
        requires
            old(self).inv(),
            t.tx_type == TransactionType::Withdrawal,
        ensures
            final(self).inv(),
            ((final(self)@, r) == step_withdrawal(old(self)@, *t)),
    {
        let ghost s0 = self@;
        let amount = match t.amount {
            None => {
                return Err(PaymentsError::InvalidTransaction);
            },
            Some(a) => a,
        };
        if amount.is_zero() {
            return Err(PaymentsError::InvalidTransaction);
        }
        if self.processed.contains(&t.tx) {
            return Err(PaymentsError::InvalidTransaction);
        }
        let mut account = self.get_or_create_account(t.client);
        let r = account.withdraw(amount);
        let ghost m1 = self.accounts@;
        self.accounts.insert(t.client, account);
        proof {
            lemma_account_views_insert(m1, t.client, account);
            assert(self@.accounts =~= s0.accounts.insert(t.client, account@));
        }
        match r {
            Err(e) => {
                proof {
                    assert(self@ =~= step_withdrawal(s0, *t).0);
                }
                Err(e)
            },
            Ok(()) => {
                self.disputable.insert(
                    t.tx,
                    StoredTransaction { client: t.client, amount, disputed: false },
                );
                self.processed.insert(t.tx);
                proof {
                    assert(self@ =~= step_withdrawal(s0, *t).0);
                }
                Ok(())
            },
        }
    }

    /// Handles a dispute record.
    fn process_dispute(&mut self, t: &Transaction) -> (r: Result<(), PaymentsError>)
        requires
            old(self).inv(),
            t.tx_type == TransactionType::Dispute,
        ensures
            final(self).inv(),
            ((final(self)@, r) == step_dispute(old(self)@, *t)),
    {
        let ghost s0 = self@;
        if t.amount.is_some() {
            return Err(PaymentsError::InvalidTransaction);
        }
        let stored = match self.disputable.get(&t.tx) {
            None => {
                return Err(PaymentsError::TransactionNotFound);
            },
            Some(s) => *s,
        };
        if stored.client != t.client {
            return Err(PaymentsError::ClientIdMismatch);
        }
        if stored.disputed {
            return Err(PaymentsError::TransactionAlreadyDisputed(t.tx));
        }
        self.disputable.insert(t.tx, StoredTransaction { disputed: true, ..stored });
        proof {
            let s1 = self@;
            assert forall|x: TxId| s1.disputable.dom().contains(x)
                implies (#[trigger] s1.disputable[x]).amount.spec_units() > 0 by {
                if x != t.tx {
                    assert(s0.disputable.dom().contains(x));
                    assert(s1.disputable[x] == s0.disputable[x]);
                } else {
                    assert(s0.disputable.dom().contains(x));
                    assert(stored == s0.disputable[x]);
                    assert(s0.disputable[x].amount.spec_units() > 0);
                    assert(s1.disputable[x].amount == stored.amount);
                }
            }
            assert(s1.accounts == s0.accounts);
        }
        let mut account = self.get_or_create_account(t.client);
        let r = account.hold(stored.amount);
        let ghost m1 = self.accounts@;
        self.accounts.insert(t.client, account);
        proof {
            lemma_account_views_insert(m1, t.client, account);
            assert(self@.accounts =~= step_dispute(s0, *t).0.accounts);
            assert(self@ =~= step_dispute(s0, *t).0);
        }
        r
    }

    /// Handles a resolve record.
    fn process_resolve(&mut self, t: &Transaction) -> (r: Result<(), PaymentsError>)
        requires
            old(self).inv(),
            t.tx_type == TransactionType::Resolve,
        ensures
            final(self).inv(),
            ((final(self)@, r) == step_resolve(old(self)@, *t)),
    {
        let ghost s0 = self@;
        if t.amount.is_some() {
            return Err(PaymentsError::InvalidTransaction);
        }
        let stored = match self.disputable.get(&t.tx) {
            None => {
                return Err(PaymentsError::TransactionNotFound);
            },
            Some(s) => *s,
        };
        if stored.client != t.client {
            return Err(PaymentsError::ClientIdMismatch);
        }
        if !stored.disputed {
            return Err(PaymentsError::TransactionNotDisputed);
        }
        self.disputable.insert(t.tx, StoredTransaction { disputed: false, ..stored });
        proof {
            let s1 = self@;
            assert forall|x: TxId| s1.disputable.dom().contains(x)
                implies (#[trigger] s1.disputable[x]).amount.spec_units() > 0 by {
                if x != t.tx {
                    assert(s0.disputable.dom().contains(x));
                    assert(s1.disputable[x] == s0.disputable[x]);
                } else {
                    assert(s0.disputable.dom().contains(x));
                    assert(stored == s0.disputable[x]);
                    assert(s0.disputable[x].amount.spec_units() > 0);
                    assert(s1.disputable[x].amount == stored.amount);
                }
            }
            assert(s1.accounts == s0.accounts);
        }
        let mut account = self.get_or_create_account(t.client);
        let r = account.release(stored.amount);
        let ghost m1 = self.accounts@;
        self.accounts.insert(t.client, account);
        proof {
            lemma_account_views_insert(m1, t.client, account);
            assert(self@.accounts =~= step_resolve(s0, *t).0.accounts);
            assert(self@ =~= step_resolve(s0, *t).0);
        }
        r
    }

    /// Handles a chargeback record.
    fn process_chargeback(&mut self, t: &Transaction) -> (r: Result<(), PaymentsError>)
        requires
            old(self).inv(),
            t.tx_type == TransactionType::Chargeback,
        ensures
            final(self).inv(),
            ((final(self)@, r) == step_chargeback(old(self)@, *t)),
    {
        let ghost s0 = self@;
        if t.amount.is_some() {
            return Err(PaymentsError::InvalidTransaction);
        }
        let stored = match self.disputable.get(&t.tx) {
            None => {
                return Err(PaymentsError::TransactionNotFound);
            },
            Some(s) => *s,
        };
        if stored.client != t.client {
            return Err(PaymentsError::ClientIdMismatch);
        }
        if !stored.disputed {
            return Err(PaymentsError::TransactionNotDisputed);
        }
        self.disputable.insert(t.tx, StoredTransaction { disputed: false, ..stored });
        proof {
            let s1 = self@;
            assert forall|x: TxId| s1.disputable.dom().contains(x)
                implies (#[trigger] s1.disputable[x]).amount.spec_units() > 0 by {
                if x != t.tx {
                    assert(s0.disputable.dom().contains(x));
                    assert(s1.disputable[x] == s0.disputable[x]);
                } else {
                    assert(s0.disputable.dom().contains(x));
                    assert(stored == s0.disputable[x]);
                    assert(s0.disputable[x].amount.spec_units() > 0);
                    assert(s1.disputable[x].amount == stored.amount);
                }
            }
            assert(s1.accounts == s0.accounts);
        }
        let mut account = self.get_or_create_account(t.client);
        let r = account.chargeback(stored.amount);
        let ghost m1 = self.accounts@;
        self.accounts.insert(t.client, account);
        proof {
            lemma_account_views_insert(m1, t.client, account);
        }
        match r {
            Err(e) => {
                proof {
                    assert(self@.accounts =~= step_chargeback(s0, *t).0.accounts);
                    assert(self@ =~= step_chargeback(s0, *t).0);
                }
                Err(e)
            },
            Ok(()) => {
                self.disputable.remove(&t.tx);
                proof {
                    assert(self@.accounts =~= step_chargeback(s0, *t).0.accounts);
                    assert(self@.disputable =~= step_chargeback(s0, *t).0.disputable);
                    assert(self@ =~= step_chargeback(s0, *t).0);
                }
                Ok(())
            },
        }
    }

    /// Hands out a copy of every account, in creation order: one row per
    /// account the engine holds, under its own client id, no client twice,
    /// none missing.
    pub fn get_accounts(&self) -> (r: Vec<Account>)
        requires
            self.inv(),
        ensures
            r@.len() == self.spec_client_order().len(),
            r@.len() == self@.accounts.dom().len(),
            forall|i: int|
                0 <= i < r@.len() ==> (#[trigger] r@[i])@ == self@.accounts[
                    self.spec_client_order()[i]
                ] && r@[i].client == self.spec_client_order()[i],
            forall|i: int|
                0 <= i < r@.len() ==> self@.accounts.dom().contains((#[trigger] r@[i]).client),
            forall|i: int, j: int|
                0 <= i < j < r@.len() ==> (#[trigger] r@[i]).client != (#[trigger] r@[j]).client,
            forall|c: ClientId|
                self@.accounts.dom().contains(c) ==> exists|i: int|
                    0 <= i < r@.len() && (#[trigger] r@[i]).client == c,
    {
        proof {
            self.client_order@.unique_seq_to_set();
            assert(self.client_order@.to_set() =~= self@.accounts.dom());
            assert forall|c: ClientId| self@.accounts.dom().contains(c) implies
                self.client_order@.contains(c) by {}
        }
        let mut out: Vec<Account> = Vec::new();
        let n = self.client_order.len();
        let mut i: usize = 0;
        while i < n
            invariant
                self.inv(),
                n == self.client_order@.len(),
                i <= n,
                out@.len() == i,
                forall|j: int|
                    0 <= j < i as int ==> (#[trigger] out@[j])@ == self@.accounts[
                        self.spec_client_order()[j]
                    ] && out@[j].client == self.spec_client_order()[j],
            decreases n - i,
        {
            let client = self.client_order[i];
            match self.accounts.get(&client) {
                Some(a) => {
                    proof {
                        assert(self@.accounts[self.client_order@[i as int]] == (
                        self.accounts@[self.client_order@[i as int]])@);
                        assert((self.accounts@[self.client_order@[i as int]])@.client
                            == self.client_order@[i as int]);
                    }
                    out.push(*a);
                },
                None => {
                    // The invariant rules this out: every listed client has
                    // an account.
                    proof {
                        assert(self.accounts@.dom().contains(self.client_order@[i as int]));
                        assert(false);
                    }
                },
            }
            i += 1;
        }
        proof {
            assert forall|c: ClientId| self@.accounts.dom().contains(c) implies exists|j: int|
                0 <= j < out@.len() && (#[trigger] out@[j]).client == c by {
                assert(self.client_order@.contains(c));
                let j = choose|j: int|
                    0 <= j < self.client_order@.len() && self.client_order@[j] == c;
                assert(out@[j].client == c);
            }
        }
        out
    }

    /// The number of accounts the engine holds.
    pub fn account_count(&self) -> (r: usize)
        requires
            self.inv(),
        ensures
            r == self.spec_client_order().len(),
            r == self@.accounts.dom().len(),
    {
        proof {
            self.client_order@.unique_seq_to_set();
            assert(self.client_order@.to_set() =~= self@.accounts.dom());
        }
        self.client_order.len()
    }

    /// The number of disputable transactions currently stored.
    pub fn disputable_count(&self) -> (r: usize)
        ensures
            r == self@.disputable.len(),
    {
        self.disputable.len()
    }

    /// What this engine reports about itself.
    pub fn get_engine_info(&self) -> (r: EngineInfo)
        requires
            self.inv(),
        ensures
            r.engine_type@ == "Standard"@,
            !r.memory_bounded,
            !r.concurrent,
            r.account_count == self@.accounts.dom().len(),
            r.transaction_count == Some(self@.disputable.len() as usize),
            r.memory_limits is None,
    {
        EngineInfo {
            engine_type: "Standard".to_string(),
            memory_bounded: false,
            concurrent: false,
            account_count: self.account_count(),
            transaction_count: Some(self.disputable.len()),
            memory_limits: None,
        }
    }
}

} // verus!
