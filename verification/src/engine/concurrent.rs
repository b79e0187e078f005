//! The shared-engine concurrent variant: one sequential engine meant to sit
//! behind a lock and serve several input streams.
//!
//! The lock, the threads and the streams live outside the library; what is
//! verified here is that each processed record changes the shared engine
//! exactly as the sequential state machine says.

use vstd::prelude::*;
use crate::account::Account;
use crate::engine::config::EngineInfo;
use crate::engine::model::{step_fits, step_result, step_state, EngineView};
use crate::engine::standard::StandardEngine;
use crate::errors::PaymentsError;
use crate::transaction::Transaction;

verus! {

broadcast use vstd::string::group_string_axioms;

/// A sequential engine packaged for shared use by several input streams.
#[derive(Debug)]
pub struct ConcurrentEngine {
    /// The one engine every stream's records end up in.
    engine: StandardEngine,
}

impl View for ConcurrentEngine {
    type V = EngineView;

    closed spec fn view(&self) -> EngineView {
        self.engine@
    }
}

impl ConcurrentEngine {
    /// Internal consistency of the shared engine.
    pub closed spec fn inv(self) -> bool {
        self.engine.inv()
    }

    /// The clients with accounts, in creation order.
    pub closed spec fn spec_client_order(self) -> Seq<crate::transaction::ClientId> {
        self.engine.spec_client_order()
    }

    /// Creates an empty shared engine.
    pub fn new() -> (r: ConcurrentEngine)
        ensures
            r.inv(),
            r@.wf(),
            r@ == EngineView::init(),
    {
        ConcurrentEngine { engine: StandardEngine::new() }
    }

    /// Processes one record, exactly as the sequential engine would.
    pub fn process_transaction(&mut self, transaction: &Transaction) -> (r: Result<
        (),
        PaymentsError,
    >)
        requires
            old(self).inv(),
            step_fits(old(self)@, *transaction),
        ensures
            final(self).inv(),
            final(self)@.wf(),
            final(self)@ == step_state(old(self)@, *transaction),
            r == step_result(old(self)@, *transaction),
    {
        self.engine.process_transaction(transaction)
    }

    /// Hands out a copy of every account, in creation order.
    pub fn get_accounts(&self) -> (r: Vec<Account>)
        requires
            self.inv(),
        ensures
            r@.len() == self.spec_client_order().len(),
            forall|i: int|
                0 <= i < r@.len() ==> (#[trigger] r@[i])@ == self@.accounts[
                    self.spec_client_order()[i]
                ],
    {
        self.engine.get_accounts()
    }

    /// What this engine reports about itself.
    pub fn get_engine_info(&self) -> (r: EngineInfo)
        requires
            self.inv(),
        ensures
            r.engine_type@ == "Concurrent"@,
            r.memory_bounded,
            r.concurrent,
            r.account_count == self@.accounts.dom().len(),
            r.transaction_count is None,
            r.memory_limits is None,
    {
        EngineInfo {
            engine_type: "Concurrent".to_string(),
            memory_bounded: true,
            concurrent: true,
            account_count: self.engine.account_count(),
            transaction_count: None,
            memory_limits: None,
        }
    }
}

} // verus!
