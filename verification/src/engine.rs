//! The payment engines: a single dispatch surface over the sequential
//! reference engine, the memory-bounded variant, the shared concurrent
//! variant and the client-sharded variant, together with the configuration
//! that selects among them.

use vstd::prelude::*;

pub mod bounded;
pub mod concurrent;
pub mod concurrent_multi_engine;
pub mod config;
pub mod model;
pub mod standard;

use crate::engine::bounded::{bounded_fits, bounded_step_result, bounded_step_state, BoundedEngine,
    BoundedView};
use crate::engine::concurrent::ConcurrentEngine;
use crate::engine::concurrent_multi_engine::{sharded_fits, sharded_step_result,
    sharded_step_state, ConcurrentEngineV2, ShardedView};
use crate::engine::config::{EngineConfig, EngineInfo};
use crate::engine::model::{step_fits, step_result, step_state, EngineView};
use crate::engine::standard::StandardEngine;
use crate::errors::PaymentsError;
use crate::transaction::Transaction;

verus! {

/// A payment engine of whichever variant the configuration selected.
#[derive(Debug)]
pub enum PaymentsEngine {
    /// The sequential engine with unbounded tables.
    Standard(StandardEngine),
    /// The memory-bounded engine with least-recently-used eviction.
    Bounded(BoundedEngine),
    /// The shared engine meant for several concurrent input streams.
    Concurrent(ConcurrentEngine),
    /// The sharded engine with one worker engine per shard.
    ConcurrentMultiEngine(ConcurrentEngineV2),
}

impl PaymentsEngine {
    /// Internal consistency of whichever engine is inside.
    pub open spec fn inv(self) -> bool {
        match self {
            PaymentsEngine::Standard(e) => e.inv(),
            PaymentsEngine::Bounded(e) => e.inv(),
            PaymentsEngine::Concurrent(e) => e.inv(),
            PaymentsEngine::ConcurrentMultiEngine(e) => e.inv(),
        }
    }

    /// No overflow on deposit, for whichever engine is inside.
    pub open spec fn fits(self, t: Transaction) -> bool {
        match self {
            PaymentsEngine::Standard(e) => step_fits(e@, t),
            PaymentsEngine::Bounded(e) => bounded_fits(e@, t),
            PaymentsEngine::Concurrent(e) => step_fits(e@, t),
            PaymentsEngine::ConcurrentMultiEngine(e) => sharded_fits(e@, t),
        }
    }

    /// A configuration is usable when its capacities and worker count are
    /// at least one.
    pub open spec fn config_ok(config: EngineConfig) -> bool {
        &&& (config matches EngineConfig::Bounded {
            max_accounts,
            max_disputable_transactions,
            max_processed_tx_ids,
        } ==> 1 <= max_accounts && 1 <= max_disputable_transactions && 1 <= max_processed_tx_ids)
        &&& (config matches EngineConfig::ConcurrentMultiEngine { num_workers } ==> 1
            <= num_workers)
    }

    /// Creates the engine the configuration asks for, in its fresh state.
    pub fn new(config: EngineConfig) -> (r: PaymentsEngine)
        requires
            PaymentsEngine::config_ok(config),
        ensures
            r.inv(),
            (config == EngineConfig::Standard ==> (r matches PaymentsEngine::Standard(e)
                && e@ == EngineView::init())),
            (config matches EngineConfig::Bounded {
                max_accounts,
                max_disputable_transactions,
                max_processed_tx_ids,
            } ==> (r matches PaymentsEngine::Bounded(e) && e@ == BoundedView::init(
                max_accounts as nat,
                max_disputable_transactions as nat,
                max_processed_tx_ids as nat,
            ))),
            (config == EngineConfig::Concurrent ==> (r matches PaymentsEngine::Concurrent(e)
                && e@ == EngineView::init())),
            (config matches EngineConfig::ConcurrentMultiEngine { num_workers } ==> (
            r matches PaymentsEngine::ConcurrentMultiEngine(e) && e@ == ShardedView::init(
                num_workers as nat,
            ))),
    {
        match config {
            EngineConfig::Standard => PaymentsEngine::Standard(StandardEngine::new()),
            EngineConfig::Bounded {
                max_accounts,
                max_disputable_transactions,
                max_processed_tx_ids,
            } => PaymentsEngine::Bounded(
                BoundedEngine::new(max_accounts, max_disputable_transactions, max_processed_tx_ids),
            ),
            EngineConfig::Concurrent => PaymentsEngine::Concurrent(ConcurrentEngine::new()),
            EngineConfig::ConcurrentMultiEngine { num_workers } => {
                PaymentsEngine::ConcurrentMultiEngine(ConcurrentEngineV2::new(num_workers))
            },
        }
    }

    /// Processes one record with whichever engine is inside; the state and
    /// result are exactly those of that variant's step function.
    pub fn process_transaction(&mut self, transaction: &Transaction) -> (r: Result<
        (),
        PaymentsError,
    >)
        requires
            old(self).inv(),
            old(self).fits(*transaction),
        ensures
            final(self).inv(),
            ((*old(self)) matches PaymentsEngine::Standard(e) ==> (
            (*final(self)) matches PaymentsEngine::Standard(e2) && e2@ == step_state(
                e@,
                *transaction,
            ) && r == step_result(e@, *transaction))),
            ((*old(self)) matches PaymentsEngine::Bounded(e) ==> (
            (*final(self)) matches PaymentsEngine::Bounded(e2) && e2@ == bounded_step_state(
                e@,
                *transaction,
            ) && r == bounded_step_result(e@, *transaction))),
            ((*old(self)) matches PaymentsEngine::Concurrent(e) ==> (
            (*final(self)) matches PaymentsEngine::Concurrent(e2) && e2@ == step_state(
                e@,
                *transaction,
            ) && r == step_result(e@, *transaction))),
            ((*old(self)) matches PaymentsEngine::ConcurrentMultiEngine(e) ==> (
            (*final(self)) matches PaymentsEngine::ConcurrentMultiEngine(e2) && e2@
                == sharded_step_state(e@, *transaction) && r == sharded_step_result(
                e@,
                *transaction,
            ))),
    {
        match self {
            PaymentsEngine::Standard(engine) => engine.process_transaction(transaction),
            PaymentsEngine::Bounded(engine) => engine.process_transaction(transaction),
            PaymentsEngine::Concurrent(engine) => engine.process_transaction(transaction),
            PaymentsEngine::ConcurrentMultiEngine(engine) => engine.process_transaction(
                transaction,
            ),
        }
    }

    /// Hands out a copy of every account the engine holds: one row per
    /// resident account, under its own client id, no client twice, none
    /// missing; the sharded engine's rows are the union of its workers'
    /// disjoint tables.
    pub fn get_accounts(&self) -> (r: Vec<crate::account::Account>)
        requires
            self.inv(),
        ensures
            (*self matches PaymentsEngine::Standard(e) ==> {
                &&& r@.len() == e.spec_client_order().len()
                &&& r@.len() == e@.accounts.dom().len()
                &&& forall|i: int|
                    0 <= i < r@.len() ==> (#[trigger] r@[i])@ == e@.accounts[
                        e.spec_client_order()[i]
                    ] && r@[i].client == e.spec_client_order()[i]
                &&& forall|i: int, j: int|
                    0 <= i < j < r@.len() ==> (#[trigger] r@[i]).client != (
                    #[trigger] r@[j]).client
                &&& forall|c: crate::transaction::ClientId|
                    e@.accounts.dom().contains(c) ==> exists|i: int|
                        0 <= i < r@.len() && (#[trigger] r@[i]).client == c
            }),
            (*self matches PaymentsEngine::Bounded(e) ==> r@.len() == e@.accounts.len()
                && forall|i: int| 0 <= i < r@.len() ==> #[trigger] r@[i] == e@.accounts[i].1),
            (*self matches PaymentsEngine::Concurrent(e) ==> {
                &&& r@.len() == e.spec_client_order().len()
                &&& forall|i: int|
                    0 <= i < r@.len() ==> (#[trigger] r@[i])@ == e@.accounts[
                        e.spec_client_order()[i]
                    ]
            }),
            (*self matches PaymentsEngine::ConcurrentMultiEngine(e) ==> {
                &&& r@.len() == crate::engine::concurrent_multi_engine::total_account_count(
                    e@.workers,
                )
                &&& forall|i: int, j: int|
                    0 <= i < j < r@.len() ==> (#[trigger] r@[i]).client != (
                    #[trigger] r@[j]).client
                &&& forall|i: int|
                    0 <= i < r@.len() ==> {
                        let wi = crate::engine::concurrent_multi_engine::route(
                            (#[trigger] r@[i]).client,
                            e@.workers.len(),
                        );
                        &&& e@.workers[wi].accounts.dom().contains(r@[i].client)
                        &&& r@[i]@ == e@.workers[wi].accounts[r@[i].client]
                    }
                &&& forall|wi: int, c: crate::transaction::ClientId|
                    0 <= wi < e@.workers.len() && (#[trigger] e@.workers[wi].accounts.dom()
                        .contains(c)) ==> exists|i: int|
                        0 <= i < r@.len() && (#[trigger] r@[i]).client == c
            }),
    {
        match self {
            PaymentsEngine::Standard(engine) => engine.get_accounts(),
            PaymentsEngine::Bounded(engine) => engine.get_accounts(),
            PaymentsEngine::Concurrent(engine) => engine.get_accounts(),
            PaymentsEngine::ConcurrentMultiEngine(engine) => engine.get_accounts(),
        }
    }

    /// What the engine inside reports about itself.
    pub fn get_engine_info(&self) -> (r: EngineInfo)
        requires
            self.inv(),
        ensures
            (*self matches PaymentsEngine::Standard(e) ==> r.engine_type@ == "Standard"@
                && !r.memory_bounded && !r.concurrent && r.account_count == e@.accounts.dom().len()
                && r.transaction_count == Some(e@.disputable.len() as usize)
                && r.memory_limits is None),
            (*self matches PaymentsEngine::Bounded(e) ==> r.engine_type@ == "Bounded"@
                && r.memory_bounded && !r.concurrent && r.account_count == e@.accounts.len()
                && r.transaction_count == Some(e@.disputable.len() as usize) && (
            r.memory_limits matches Some(l) && l.max_accounts == e@.max_accounts
                && l.max_disputable_transactions == e@.max_disputable_transactions
                && l.max_processed_tx_ids == e@.max_processed_tx_ids)),
            (*self matches PaymentsEngine::Concurrent(e) ==> r.engine_type@ == "Concurrent"@
                && r.memory_bounded && r.concurrent && r.account_count == e@.accounts.dom().len()
                && r.transaction_count is None && r.memory_limits is None),
            (*self matches PaymentsEngine::ConcurrentMultiEngine(e) ==> r.engine_type@
                == "ConcurrentMultiEngine"@ && !r.memory_bounded && r.concurrent
                && r.account_count == crate::engine::concurrent_multi_engine::total_account_count(
                e@.workers,
            ) && r.transaction_count is None && r.memory_limits is None),
    {
        match self {
            PaymentsEngine::Standard(engine) => engine.get_engine_info(),
            PaymentsEngine::Bounded(engine) => engine.get_engine_info(),
            PaymentsEngine::Concurrent(engine) => engine.get_engine_info(),
            PaymentsEngine::ConcurrentMultiEngine(engine) => engine.get_engine_info(),
        }
    }
}

} // verus!
