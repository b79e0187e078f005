//! Per-client account state and its five balance transitions.
//!
//! Every operation keeps the account invariant: `total == available + held`,
//! with both parts non-negative.

use vstd::prelude::*;
use crate::amount::{amt_add, amt_sub, Amount};
use crate::errors::PaymentsError;
use crate::transaction::ClientId;

verus! {

/// The mathematical state of an account: exact unit counts as unbounded
/// integers, plus the lock flag.
pub struct AccountView {
    /// The client the account belongs to.
    pub client: ClientId,
    /// Units available for deposits and withdrawals.
    pub available: int,
    /// Units held pending dispute resolution.
    pub held: int,
    /// Total units: available plus held.
    pub total: int,
    /// Whether the account is locked after a chargeback.
    pub locked: bool,
}

impl AccountView {
    /// The account invariant: the total is the sum of the available and held
    /// parts, nothing is negative, and the total fits in the unit type.
    pub open spec fn wf(self) -> bool {
        &&& self.total == self.available + self.held
        &&& 0 <= self.available
        &&& 0 <= self.held
        &&& self.total <= u64::MAX
    }

    /// A fresh zero-balance unlocked account for `client`.
    pub open spec fn new_spec(client: ClientId) -> AccountView {
        AccountView { client, available: 0, held: 0, total: 0, locked: false }
    }
}

/// How a deposit changes an account: rejected when locked, otherwise the
/// amount is added to the available and total balances.
pub open spec fn spec_deposit(a: AccountView, amt: int) -> (AccountView, Result<(), PaymentsError>) {
    if a.locked {
        (a, Err(PaymentsError::AccountFrozen))
    } else {
        (AccountView { available: a.available + amt, total: a.total + amt, ..a }, Ok(()))
    }
}

/// How a withdrawal changes an account: rejected when locked or when the
/// available balance is short, otherwise the amount leaves both the
/// available and total balances.
pub open spec fn spec_withdraw(a: AccountView, amt: int) -> (AccountView, Result<(), PaymentsError>) {
    if a.locked {
        (a, Err(PaymentsError::AccountFrozen))
    } else if a.available < amt {
        (a, Err(PaymentsError::InsufficientFunds))
    } else {
        (AccountView { available: a.available - amt, total: a.total - amt, ..a }, Ok(()))
    }
}

/// How a hold changes an account: rejected when locked or when the available
/// balance is short, otherwise the amount moves from available to held.
pub open spec fn spec_hold(a: AccountView, amt: int) -> (AccountView, Result<(), PaymentsError>) {
    if a.locked {
        (a, Err(PaymentsError::AccountFrozen))
    } else if a.available < amt {
        (a, Err(PaymentsError::InsufficientFunds))
    } else {
        (AccountView { available: a.available - amt, held: a.held + amt, ..a }, Ok(()))
    }
}

/// How a release changes an account: rejected when the held balance is
/// short, otherwise the amount moves from held back to available.
pub open spec fn spec_release(a: AccountView, amt: int) -> (AccountView, Result<(), PaymentsError>) {
    if a.held < amt {
        (a, Err(PaymentsError::InsufficientFunds))
    } else {
        (AccountView { held: a.held - amt, available: a.available + amt, ..a }, Ok(()))
    }
}

/// How a chargeback changes an account: rejected when the held balance is
/// short, otherwise the amount leaves both the held and total balances and
/// the account is locked for good.
pub open spec fn spec_chargeback(a: AccountView, amt: int) -> (AccountView, Result<(), PaymentsError>) {
    if a.held < amt {
        (a, Err(PaymentsError::InsufficientFunds))
    } else {
        (AccountView { held: a.held - amt, total: a.total - amt, locked: true, ..a }, Ok(()))
    }
}

/// How a deposit changes an account, as a transform of the executable
/// value; faithful when the new total fits.
pub open spec fn acct_deposit(a: Account, amt: Amount) -> (Account, Result<(), PaymentsError>) {
    if a.locked {
        (a, Err(PaymentsError::AccountFrozen))
    } else {
        (Account { available: amt_add(a.available, amt), total: amt_add(a.total, amt), ..a }, Ok(()))
    }
}

/// How a withdrawal changes an account, as a transform of the executable
/// value.
pub open spec fn acct_withdraw(a: Account, amt: Amount) -> (Account, Result<(), PaymentsError>) {
    if a.locked {
        (a, Err(PaymentsError::AccountFrozen))
    } else if a.available.spec_units() < amt.spec_units() {
        (a, Err(PaymentsError::InsufficientFunds))
    } else {
        (Account { available: amt_sub(a.available, amt), total: amt_sub(a.total, amt), ..a }, Ok(()))
    }
}

/// How a hold changes an account, as a transform of the executable value.
pub open spec fn acct_hold(a: Account, amt: Amount) -> (Account, Result<(), PaymentsError>) {
    if a.locked {
        (a, Err(PaymentsError::AccountFrozen))
    } else if a.available.spec_units() < amt.spec_units() {
        (a, Err(PaymentsError::InsufficientFunds))
    } else {
        (Account { available: amt_sub(a.available, amt), held: amt_add(a.held, amt), ..a }, Ok(()))
    }
}

/// How a release changes an account, as a transform of the executable
/// value.
pub open spec fn acct_release(a: Account, amt: Amount) -> (Account, Result<(), PaymentsError>) {
    if a.held.spec_units() < amt.spec_units() {
        (a, Err(PaymentsError::InsufficientFunds))
    } else {
        (Account { held: amt_sub(a.held, amt), available: amt_add(a.available, amt), ..a }, Ok(()))
    }
}

/// How a chargeback changes an account, as a transform of the executable
/// value.
pub open spec fn acct_chargeback(a: Account, amt: Amount) -> (Account, Result<(), PaymentsError>) {
    if a.held.spec_units() < amt.spec_units() {
        (a, Err(PaymentsError::InsufficientFunds))
    } else {
        (Account { held: amt_sub(a.held, amt), total: amt_sub(a.total, amt), locked: true, ..a }, Ok(()))
    }
}

/// A fresh zero-balance unlocked account for `client`, as an executable
/// value.
pub open spec fn acct_new(client: ClientId) -> Account {
    Account {
        client,
        available: Amount { units: 0 },
        held: Amount { units: 0 },
        total: Amount { units: 0 },
        locked: false,
    }
}

/// A client's account: available, held and total funds plus a lock flag.
#[derive(Clone, Copy, Debug, PartialEq, Eq, Structural)]
pub struct Account {
    /// The client the account belongs to.
    pub client: ClientId,
    /// Funds available for transactions.
    pub available: Amount,
    /// Funds held due to disputes.
    pub held: Amount,
    /// Total funds: available plus held.
    pub total: Amount,
    /// Whether the account is locked after a chargeback.
    pub locked: bool,
}

impl View for Account {
    type V = AccountView;

    open spec fn view(&self) -> AccountView {
        AccountView {
            client: self.client,
            available: self.available.spec_units(),
            held: self.held.spec_units(),
            total: self.total.spec_units(),
            locked: self.locked,
        }
    }
}

impl Account {
    /// Creates an account for `client` with zero balances, unlocked.
    pub fn new(client: ClientId) -> (r: Account)
        ensures
            r@ == AccountView::new_spec(client),
            r@.wf(),
            r == acct_new(client),
    {
        Account {
            client,
            available: Amount::zero(),
            held: Amount::zero(),
            total: Amount::zero(),
            locked: false,
        }
    }

    /// Deposits the amount, adding it to the available and total balances.
    /// Fails with `AccountFrozen` on a locked account.
    pub fn deposit(&mut self, amount: Amount) -> (r: Result<(), PaymentsError>)
        requires
            old(self)@.wf(),
            !old(self)@.locked ==> old(self)@.total + amount.spec_units() <= u64::MAX,
        ensures
            (final(self)@, r) == spec_deposit(old(self)@, amount.spec_units()),
            final(self)@.wf(),
            ((*final(self), r) == acct_deposit(*old(self), amount)),
    {
        if self.locked {
            return Err(PaymentsError::AccountFrozen);
        }
        self.available = self.available.add(amount);
        self.total = self.total.add(amount);
        Ok(())
    }

    /// Withdraws the amount from the available and total balances. Fails
    /// with `AccountFrozen` on a locked account and with
    /// `InsufficientFunds` when the available balance is short.
    pub fn withdraw(&mut self, amount: Amount) -> (r: Result<(), PaymentsError>)
        requires
            old(self)@.wf(),
        ensures
            (final(self)@, r) == spec_withdraw(old(self)@, amount.spec_units()),
            final(self)@.wf(),
            ((*final(self), r) == acct_withdraw(*old(self), amount)),
    {
        if self.locked {
            return Err(PaymentsError::AccountFrozen);
        }
        if self.available.lt(amount) {
            return Err(PaymentsError::InsufficientFunds);
        }
        self.available = self.available.sub(amount);
        self.total = self.total.sub(amount);
        Ok(())
    }

    /// Places a hold, moving the amount from available to held. Fails with
    /// `AccountFrozen` on a locked account and with `InsufficientFunds`
    /// when the available balance is short.
    pub fn hold(&mut self, amount: Amount) -> (r: Result<(), PaymentsError>)
        requires
            old(self)@.wf(),
        ensures
            (final(self)@, r) == spec_hold(old(self)@, amount.spec_units()),
            final(self)@.wf(),
            ((*final(self), r) == acct_hold(*old(self), amount)),
    {
        if self.locked {
            return Err(PaymentsError::AccountFrozen);
        }
        if self.available.lt(amount) {
            return Err(PaymentsError::InsufficientFunds);
        }
        self.available = self.available.sub(amount);
        self.held = self.held.add(amount);
        Ok(())
    }

    /// Releases a hold, moving the amount from held back to available.
    /// Fails with `InsufficientFunds` when the held balance is short.
    pub fn release(&mut self, amount: Amount) -> (r: Result<(), PaymentsError>)
        requires
            old(self)@.wf(),
        ensures
            (final(self)@, r) == spec_release(old(self)@, amount.spec_units()),
            final(self)@.wf(),
            ((*final(self), r) == acct_release(*old(self), amount)),
    {
        if self.held.lt(amount) {
            return Err(PaymentsError::InsufficientFunds);
        }
        self.held = self.held.sub(amount);
        self.available = self.available.add(amount);
        Ok(())
    }

    /// Charges back a disputed amount: the amount leaves the held and total
    /// balances and the account is locked. Fails with `InsufficientFunds`
    /// when the held balance is short.
    pub fn chargeback(&mut self, amount: Amount) -> (r: Result<(), PaymentsError>)
        requires
            old(self)@.wf(),
        ensures
            (final(self)@, r) == spec_chargeback(old(self)@, amount.spec_units()),
            final(self)@.wf(),
            ((*final(self), r) == acct_chargeback(*old(self), amount)),
    {
        if self.held.lt(amount) {
            return Err(PaymentsError::InsufficientFunds);
        }
        self.held = self.held.sub(amount);
        self.total = self.total.sub(amount);
        self.locked = true;
        Ok(())
    }
}

} // verus!
