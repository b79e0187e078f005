//! The sharded engine: a fixed pool of worker engines, each owning the
//! shard of clients whose id is congruent to its index, plus one shared
//! index of accepted transaction ids for global duplicate rejection.
//!
//! Routing by `client mod workers` sends every transaction of a client to
//! the same worker, so per-client order is preserved and no account is ever
//! shared between two workers. The threads and channels that drive the
//! workers in parallel live outside the library; the decision logic here is
//! sequentially verified against `sharded_step`, and the equivalence laws
//! below relate it to the sequential reference engine.

use vstd::prelude::*;
use crate::engine::config::EngineInfo;
use crate::engine::model::{account_or_new, run, step, step_fits, step_result, step_state, EngineView};
use crate::engine::standard::StandardEngine;
use crate::errors::PaymentsError;
use crate::transaction::{ClientId, Transaction, TransactionType, TxId};
use crate::tx_index::{tx_index_contains, tx_index_entries, tx_index_insert, tx_index_new};

verus! {

broadcast use vstd::string::group_string_axioms;

/// The abstract state of the sharded engine: each worker's engine state,
/// and the global map from accepted transaction id to owning client.
#[verifier::ext_equal]
pub struct ShardedView {
    /// One engine state per worker, indexed by shard.
    pub workers: Seq<EngineView>,
    /// Every transaction id accepted by any worker, with its client.
    pub global: Map<TxId, ClientId>,
}

impl ShardedView {
    /// The state of a freshly created sharded engine with `w` workers.
    pub open spec fn init(w: nat) -> ShardedView {
        ShardedView {
            workers: Seq::new(w, |i: int| EngineView::init()),
            global: Map::empty(),
        }
    }
}

/// Whether a record is of a type that occupies the transaction-id space.
pub open spec fn is_disputable_type(t: Transaction) -> bool {
    t.tx_type == TransactionType::Deposit || t.tx_type == TransactionType::Withdrawal
}

/// Whether a record occupies the transaction-id space, so the global
/// duplicate check and registration apply to it. Worker loops outside the
/// library make the same decision through this function.
pub fn is_disputable_record(t: &Transaction) -> (r: bool)
    ensures
        r == is_disputable_type(*t),
{
    matches!(t.tx_type, TransactionType::Deposit | TransactionType::Withdrawal)
}

/// The worker that owns a client's shard.
pub open spec fn route(c: ClientId, workers: nat) -> int {
    c as int % workers as int
}

/// How the sharded engine processes one record: a deposit or withdrawal
/// whose id is already registered globally is rejected; otherwise the
/// record goes to the owning worker, which processes it exactly as the
/// sequential engine would, and an accepted deposit or withdrawal is then
/// registered globally.
pub open spec fn sharded_step(s: ShardedView, t: Transaction) -> (ShardedView, Result<
    (),
    PaymentsError,
>) {
    if is_disputable_type(t) && s.global.contains_key(t.tx) {
        (s, Err(PaymentsError::InvalidTransaction))
    } else {
        let w = route(t.client, s.workers.len());
        let (w2, r) = step(s.workers[w], t);
        let global2 = if is_disputable_type(t) && r is Ok {
            s.global.insert(t.tx, t.client)
        } else {
            s.global
        };
        (ShardedView { workers: s.workers.update(w, w2), global: global2 }, r)
    }
}

/// The state after the sharded engine processes `t` from `s`.
pub open spec fn sharded_step_state(s: ShardedView, t: Transaction) -> ShardedView {
    sharded_step(s, t).0
}

/// The result the sharded engine reports for `t` from `s`.
pub open spec fn sharded_step_result(s: ShardedView, t: Transaction) -> Result<
    (),
    PaymentsError,
> {
    sharded_step(s, t).1
}

/// No overflow on deposit in the owning worker.
pub open spec fn sharded_fits(s: ShardedView, t: Transaction) -> bool {
    s.workers.len() >= 1 ==> step_fits(s.workers[route(t.client, s.workers.len())], t)
}

/// The total number of accounts over all workers, saturating at the
/// machine's limit as the executable sum does.
pub open spec fn total_account_count(ws: Seq<EngineView>) -> nat
    decreases ws.len(),
{
    if ws.len() == 0 {
        0
    } else {
        let rest = total_account_count(ws.drop_last());
        let c = ws.last().accounts.dom().len();
        if rest + c > usize::MAX {
            usize::MAX as nat
        } else {
            rest + c
        }
    }
}

/// The state after the sharded engine processes a whole sequence of
/// records in order.
pub open spec fn sharded_run(s: ShardedView, txs: Seq<Transaction>) -> ShardedView
    decreases txs.len(),
{
    if txs.len() == 0 {
        s
    } else {
        sharded_run(sharded_step_state(s, txs[0]), txs.drop_first())
    }
}

/// The coupling between a sharded state and a sequential state: every
/// account lives exactly in its owning worker with the same balances as in
/// the sequential engine, every stored transaction lives exactly in the
/// worker that owns its client, and the global id index mirrors the
/// sequential engine's processed set, with each worker's own processed set
/// inside it.
pub open spec fn corresponds(s: ShardedView, g: EngineView) -> bool {
    let w = s.workers.len();
    &&& 1 <= w
    &&& forall|c: ClientId| #[trigger]
        g.accounts.dom().contains(c) ==> s.workers[route(c, w)].accounts.dom().contains(c)
            && s.workers[route(c, w)].accounts[c] == g.accounts[c]
    &&& forall|i: int, c: ClientId|
        0 <= i < w && (#[trigger] s.workers[i].accounts.dom().contains(c)) ==> i == route(c, w)
            && g.accounts.dom().contains(c)
    &&& forall|x: TxId| #[trigger]
        g.disputable.dom().contains(x) ==> {
            let wi = route(g.disputable[x].client, w);
            s.workers[wi].disputable.dom().contains(x) && s.workers[wi].disputable[x]
                == g.disputable[x]
        }
    &&& forall|i: int, x: TxId|
        0 <= i < w && (#[trigger] s.workers[i].disputable.dom().contains(x)) ==> (
        g.disputable.dom().contains(x) && g.disputable[x] == s.workers[i].disputable[x] && i
            == route(g.disputable[x].client, w))
    &&& forall|x: TxId| #[trigger] g.processed.contains(x) <==> #[trigger] s.global.dom().contains(x)
    &&& forall|i: int, x: TxId|
        0 <= i < w && (#[trigger] s.workers[i].processed.contains(x)) ==> s.global.dom().contains(
            x,
        )
    &&& forall|x: TxId| #[trigger] g.disputable.dom().contains(x) ==> g.processed.contains(x)
    &&& forall|i: int, x: TxId|
        0 <= i < w && (#[trigger] s.workers[i].disputable.dom().contains(x))
            ==> s.workers[i].processed.contains(x)
}

/// Law: one step preserves the coupling — routing by client keeps the
/// sharded engine in lock-step with the sequential engine, so every
/// client's transactions take effect in submission order whatever the
/// worker count.
pub proof fn lemma_sharded_step_refines(s: ShardedView, g: EngineView, t: Transaction)
    requires
        corresponds(s, g),
    ensures
        corresponds(sharded_step_state(s, t), step_state(g, t)),
{
    let w = s.workers.len();
    let wi = route(t.client, w);
    let s2 = sharded_step_state(s, t);
    let g2 = step_state(g, t);
    if is_disputable_type(t) && s.global.dom().contains(t.tx) {
        // Rejected globally; the sequential engine rejects it as a
        // duplicate too, and neither state changes.
        assert(g.processed.contains(t.tx));
        assert(s2 == s);
        assert(g2 == g);
    } else {
        let gw = s.workers[wi];
        let (gw2, r) = step(gw, t);
        assert(s2.workers =~= s.workers.update(wi, gw2));
        assert(s2.workers[wi] == gw2);
        assert(forall|i: int| 0 <= i < w && i != wi ==> s2.workers[i] == s.workers[i]);
        if is_disputable_type(t) {
            // Deposits and withdrawals: the owning worker sees the same
            // account and the same duplicate verdict as the sequential
            // engine, so both apply the identical change.
            assert(!g.processed.contains(t.tx));
            assert(!gw.processed.contains(t.tx));
            if g.accounts.dom().contains(t.client) {
                assert(gw.accounts.dom().contains(t.client));
                assert(gw.accounts[t.client] == g.accounts[t.client]);
            } else {
                assert(!gw.accounts.dom().contains(t.client));
            }
            assert(account_or_new(gw, t.client) == account_or_new(g, t.client));
            lemma_matching_disputable_step(s, g, t, gw, gw2, r);
        } else {
            // Dispute, resolve, chargeback: the global index is not
            // consulted and the processed sets do not change.
            if !g.disputable.dom().contains(t.tx) {
                // Unknown transaction: the worker cannot hold it either, so
                // neither state changes.
                assert(!gw.disputable.dom().contains(t.tx));
                assert(gw2 == gw);
                assert(g2 == g);
                assert(s2.workers =~= s.workers);
                assert(corresponds(s2, g2));
            } else {
                let st = g.disputable[t.tx];
                let owner = route(st.client, w);
                if owner == wi {
                    // The referenced transaction lives in the addressed
                    // worker; both sides see the same record and account
                    // and make the same transition.
                    assert(gw.disputable.dom().contains(t.tx));
                    assert(gw.disputable[t.tx] == st);
                    if st.client == t.client {
                        if g.accounts.dom().contains(t.client) {
                            assert(gw.accounts.dom().contains(t.client));
                            assert(gw.accounts[t.client] == g.accounts[t.client]);
                        } else {
                            assert(!gw.accounts.dom().contains(t.client));
                        }
                        assert(account_or_new(gw, t.client) == account_or_new(g, t.client));
                        lemma_matching_disputable_step(s, g, t, gw, gw2, r);
                    } else {
                        // Client mismatch on both sides: no state change.
                        assert(gw2 == gw);
                        assert(g2 == g);
                        assert(s2.workers =~= s.workers);
                        assert(corresponds(s2, g2));
                    }
                } else {
                    // The record addresses a worker that does not hold the
                    // referenced transaction: the worker reports it as
                    // unknown, the sequential engine as a client mismatch,
                    // and neither state changes.
                    assert(st.client != t.client);
                    assert(!gw.disputable.dom().contains(t.tx)) by {
                        if gw.disputable.dom().contains(t.tx) {
                            assert(wi == route(g.disputable[t.tx].client, w));
                        }
                    }
                    assert(gw2 == gw);
                    assert(g2 == g);
                    assert(s2.workers =~= s.workers);
                    assert(corresponds(s2, g2));
                }
            }
        }
    }
}

/// The heart of the refinement: when the addressed worker and the
/// sequential engine agree on everything the record reads — the account it
/// acts on, the duplicate verdict, and the stored transaction — they make
/// matching transitions, and the coupling carries over to the new states.
proof fn lemma_matching_disputable_step(
    s: ShardedView,
    g: EngineView,
    t: Transaction,
    gw: EngineView,
    gw2: EngineView,
    r: Result<(), PaymentsError>,
)
    requires
        corresponds(s, g),
        !(is_disputable_type(t) && s.global.dom().contains(t.tx)),
        gw == s.workers[route(t.client, s.workers.len())],
        (gw2, r) == step(gw, t),
        account_or_new(gw, t.client) == account_or_new(g, t.client),
        is_disputable_type(t) ==> !g.processed.contains(t.tx) && !gw.processed.contains(t.tx),
        !is_disputable_type(t) ==> g.disputable.dom().contains(t.tx)
            && gw.disputable.dom().contains(t.tx) && gw.disputable[t.tx] == g.disputable[t.tx]
            && g.disputable[t.tx].client == t.client,
        g.accounts.dom().contains(t.client) <==> gw.accounts.dom().contains(t.client),
    ensures
        corresponds(sharded_step_state(s, t), step_state(g, t)),
        sharded_step_result(s, t) == step_result(g, t),
{
    let w = s.workers.len();
    let wi = route(t.client, w);
    let s2 = sharded_step_state(s, t);
    let g2 = step_state(g, t);
    assert(s2.workers =~= s.workers.update(wi, gw2));
    assert(s2.workers[wi] == gw2);
    assert(forall|i: int| 0 <= i < w && i != wi ==> s2.workers[i] == s.workers[i]);
    // The two transitions write the same account, the same stored
    // transaction and the same processed id, so each coupling clause
    // carries over pointwise.
    assert forall|c: ClientId| #[trigger]
        g2.accounts.dom().contains(c) implies s2.workers[route(c, w)].accounts.dom().contains(c)
        && s2.workers[route(c, w)].accounts[c] == g2.accounts[c] by {
        if c != t.client {
            assert(g.accounts.dom().contains(c) == g2.accounts.dom().contains(c));
        }
    }
    assert forall|i: int, c: ClientId|
        0 <= i < w && (#[trigger] s2.workers[i].accounts.dom().contains(c)) implies i == route(
        c,
        w,
    ) && g2.accounts.dom().contains(c) by {
        if i == wi && c == t.client {
        } else if i == wi {
            assert(gw.accounts.dom().contains(c) == gw2.accounts.dom().contains(c));
        } else {
            assert(s.workers[i].accounts.dom().contains(c));
        }
    }
    assert forall|x: TxId| #[trigger]
        g2.disputable.dom().contains(x) implies {
        let oi = route(g2.disputable[x].client, w);
        s2.workers[oi].disputable.dom().contains(x) && s2.workers[oi].disputable[x]
            == g2.disputable[x]
    } by {
        if x != t.tx {
            assert(g.disputable.dom().contains(x));
            assert(g2.disputable[x] == g.disputable[x]);
            let oi = route(g.disputable[x].client, w);
            assert(s.workers[oi].disputable.dom().contains(x));
            if oi == wi {
                assert(gw2.disputable.dom().contains(x) && gw2.disputable[x] == gw.disputable[x]);
            }
        } else {
            assert(route(g2.disputable[x].client, w) == wi);
        }
    }
    assert forall|i: int, x: TxId|
        0 <= i < w && (#[trigger] s2.workers[i].disputable.dom().contains(x)) implies (
    g2.disputable.dom().contains(x) && g2.disputable[x] == s2.workers[i].disputable[x] && i
        == route(g2.disputable[x].client, w)) by {
        if i == wi {
            if x != t.tx {
                assert(gw.disputable.dom().contains(x) == gw2.disputable.dom().contains(x));
                if gw.disputable.dom().contains(x) {
                    assert(gw2.disputable[x] == gw.disputable[x]);
                    assert(s.workers[i].disputable.dom().contains(x));
                }
            }
        } else {
            assert(s.workers[i].disputable.dom().contains(x));
            if x == t.tx {
                assert(i == route(g.disputable[x].client, w));
            } else {
                assert(g.disputable.dom().contains(x));
                assert(g2.disputable[x] == g.disputable[x]);
            }
        }
    }
    assert forall|x: TxId| #[trigger]
        g2.processed.contains(x) <==> #[trigger] s2.global.dom().contains(x) by {
        if x != t.tx {
            assert(g.processed.contains(x) == g2.processed.contains(x));
            assert(s.global.dom().contains(x) == s2.global.dom().contains(x));
        }
    }
    assert forall|i: int, x: TxId|
        0 <= i < w && (#[trigger] s2.workers[i].processed.contains(x)) implies s2.global.dom()
        .contains(x) by {
        if i == wi {
            if x != t.tx {
                assert(gw.processed.contains(x) == gw2.processed.contains(x));
                assert(s.workers[i].processed.contains(x));
            }
        } else {
            assert(s.workers[i].processed.contains(x));
            assert(s.global.dom().contains(x));
        }
    }
    assert forall|x: TxId| #[trigger] g2.disputable.dom().contains(x) implies g2.processed.contains(
        x,
    ) by {
        if x != t.tx {
            assert(g.disputable.dom().contains(x));
            assert(g.processed.contains(x));
            assert(g2.processed.contains(x));
        }
    }
    assert forall|i: int, x: TxId|
        0 <= i < w && (#[trigger] s2.workers[i].disputable.dom().contains(x)) implies
        s2.workers[i].processed.contains(x) by {
        if i == wi {
            if x != t.tx {
                assert(gw.disputable.dom().contains(x) == gw2.disputable.dom().contains(x));
                assert(gw.processed.contains(x));
            }
        } else {
            assert(s.workers[i].disputable.dom().contains(x));
            assert(s.workers[i].processed.contains(x));
        }
    }
}

/// Law: the coupling carries over whole record sequences, by induction on
/// the step law.
pub proof fn lemma_sharded_run_refines(s: ShardedView, g: EngineView, txs: Seq<Transaction>)
    requires
        corresponds(s, g),
    ensures
        corresponds(sharded_run(s, txs), run(g, txs)),
        sharded_run(s, txs).workers.len() == s.workers.len(),
    decreases txs.len(),
{
    if txs.len() > 0 {
        lemma_sharded_step_refines(s, g, txs[0]);
        assert(sharded_step_state(s, txs[0]).workers.len() == s.workers.len());
        lemma_sharded_run_refines(
            sharded_step_state(s, txs[0]),
            step_state(g, txs[0]),
            txs.drop_first(),
        );
    }
}

/// Law: per-client agreement between sharded and sequential processing.
/// For any record sequence and any worker count, every transaction of a
/// client reaches the one worker that owns the client's shard in
/// submission order, so after the whole sequence that worker holds the
/// client's account — balances and lock flag — exactly as the sequential
/// reference engine does, and no other worker holds it at all.
pub proof fn lemma_sharded_matches_sequential(txs: Seq<Transaction>, w: nat, c: ClientId)
    requires
        1 <= w,
    ensures
        ({
            let sv = sharded_run(ShardedView::init(w), txs);
            let gv = run(EngineView::init(), txs);
            &&& sv.workers.len() == w
            &&& (gv.accounts.dom().contains(c) <==> sv.workers[route(c, w)].accounts.dom()
                .contains(c))
            &&& (gv.accounts.dom().contains(c) ==> sv.workers[route(c, w)].accounts[c]
                == gv.accounts[c])
            &&& forall|i: int|
                0 <= i < w && i != route(c, w) ==> !(#[trigger] sv.workers[i]).accounts.dom()
                    .contains(c)
        }),
{
    let s0 = ShardedView::init(w);
    let g0 = EngineView::init();
    assert(corresponds(s0, g0)) by {
        assert(forall|i: int| 0 <= i < w ==> #[trigger] s0.workers[i] == EngineView::init());
    }
    lemma_sharded_run_refines(s0, g0, txs);
    let sv = sharded_run(s0, txs);
    let gv = run(g0, txs);
    assert forall|i: int|
        0 <= i < w && i != route(c, w) implies !(#[trigger] sv.workers[i]).accounts.dom().contains(
        c,
    ) by {
        if sv.workers[i].accounts.dom().contains(c) {
            assert(i == route(c, w));
        }
    }
    if sv.workers[route(c, w)].accounts.dom().contains(c) {
        assert(gv.accounts.dom().contains(c));
    }
}

/// The abstract worker states of an executable worker pool.
pub open spec fn worker_views(ws: Seq<StandardEngine>) -> Seq<EngineView> {
    ws.map_values(|e: StandardEngine| e@)
}

/// The sharded engine: one private sequential engine per worker and a
/// shared duplicate-id index.
#[derive(Debug)]
pub struct ConcurrentEngineV2 {
    /// One engine per worker, indexed by shard.
    worker_engines: Vec<StandardEngine>,
    /// Accepted transaction ids, shared across workers.
    global_tx_ids: dashmap::DashMap<TxId, ClientId>,
    /// The size of the pool; fixed at creation.
    num_workers: usize,
}

impl View for ConcurrentEngineV2 {
    type V = ShardedView;

    closed spec fn view(&self) -> ShardedView {
        ShardedView {
            workers: worker_views(self.worker_engines@),
            global: tx_index_entries(self.global_tx_ids),
        }
    }
}

impl ConcurrentEngineV2 {
    /// Internal consistency: at least one worker, the recorded pool size is
    /// the real one, every worker engine is internally consistent, and each
    /// worker holds only the accounts of the clients it owns.
    pub closed spec fn inv(self) -> bool {
        &&& 1 <= self.num_workers
        &&& self.num_workers == self.worker_engines@.len()
        &&& forall|i: int|
            0 <= i < self.worker_engines@.len() ==> (#[trigger] self.worker_engines@[i]).inv()
        &&& forall|i: int, c: ClientId|
            0 <= i < self.worker_engines@.len() && #[trigger] self.worker_engines@[i]@.accounts.dom().contains(c)
                ==> i == route(c, self.num_workers as nat)
    }

    /// Creates a sharded engine with `num_workers` fresh workers.
    pub fn new(num_workers: usize) -> (r: ConcurrentEngineV2)
        requires
            1 <= num_workers,
        ensures
            r.inv(),
            r@ == ShardedView::init(num_workers as nat),
    {
        let mut worker_engines: Vec<StandardEngine> = Vec::new();
        let mut i: usize = 0;
        while i < num_workers
            invariant
                i <= num_workers,
                worker_engines@.len() == i,
                forall|j: int|
                    0 <= j < i as int ==> (#[trigger] worker_engines@[j]).inv()
                        && worker_engines@[j]@ == EngineView::init(),
            decreases num_workers - i,
        {
            worker_engines.push(StandardEngine::new());
            i += 1;
        }
        let r = ConcurrentEngineV2 {
            worker_engines,
            global_tx_ids: tx_index_new(),
            num_workers,
        };
        proof {
            assert(worker_views(r.worker_engines@) =~= ShardedView::init(
                num_workers as nat,
            ).workers);
            assert(r@.global =~= Map::<TxId, ClientId>::empty());
            assert(r@ =~= ShardedView::init(num_workers as nat));
        }
        r
    }

    /// Processes one record: global duplicate check for deposits and
    /// withdrawals, then the owning worker applies it, then an accepted
    /// deposit or withdrawal is registered globally.
    pub fn process_transaction(&mut self, transaction: &Transaction) -> (r: Result<
        (),
        PaymentsError,
    >)
        requires
            old(self).inv(),
            sharded_fits(old(self)@, *transaction),
        ensures
            final(self).inv(),
            final(self)@ == sharded_step_state(old(self)@, *transaction),
            r == sharded_step_result(old(self)@, *transaction),
    {
        let ghost s0 = self@;
        let disputable_type = matches!(
            transaction.tx_type,
            TransactionType::Deposit | TransactionType::Withdrawal
        );
        if disputable_type && tx_index_contains(&self.global_tx_ids, transaction.tx) {
            return Err(PaymentsError::InvalidTransaction);
        }
        let widx = (transaction.client as usize) % self.num_workers;
        let ghost m0 = self.worker_engines@;
        let worker = &mut self.worker_engines[widx];
        let r = worker.process_transaction(transaction);
        proof {
            assert(worker_views(self.worker_engines@) =~= worker_views(m0).update(
                widx as int,
                step_state(s0.workers[widx as int], *transaction),
            ));
            // The step touches only the submitting client's account, and
            // that client routes to this worker, so ownership is kept.
            crate::engine::model::lemma_step_touches_only_client(
                s0.workers[widx as int],
                *transaction,
            );
            assert forall|i: int, c: ClientId|
                0 <= i < self.worker_engines@.len()
                    && #[trigger] self.worker_engines@[i]@.accounts.dom().contains(c) implies i
                == route(c, self.num_workers as nat) by {
                if i == widx as int {
                    if c != transaction.client {
                        assert(m0[i]@.accounts.dom().contains(c));
                    }
                } else {
                    assert(m0[i]@.accounts.dom().contains(c));
                }
            }
        }
        if disputable_type && r.is_ok() {
            tx_index_insert(&mut self.global_tx_ids, transaction.tx, transaction.client);
        }
        proof {
            assert(self@ =~= sharded_step_state(s0, *transaction));
        }
        r
    }

    /// What this engine reports about itself: the account count is the sum
    /// over all workers, saturating at the machine's limit.
    pub fn get_engine_info(&self) -> (r: EngineInfo)
        requires
            self.inv(),
        ensures
            r.engine_type@ == "ConcurrentMultiEngine"@,
            !r.memory_bounded,
            r.concurrent,
            r.account_count == total_account_count(self@.workers),
            r.transaction_count is None,
            r.memory_limits is None,
    {
        let mut total: usize = 0;
        let n = self.worker_engines.len();
        let mut i: usize = 0;
        while i < n
            invariant
                self.inv(),
                n == self.worker_engines@.len(),
                i <= n,
                total == total_account_count(self@.workers.take(i as int)),
            decreases n - i,
        {
            let c = self.worker_engines[i].account_count();
            total = total.saturating_add(c);
            proof {
                let taken = self@.workers.take(i as int + 1);
                assert(taken.drop_last() =~= self@.workers.take(i as int));
                assert(taken.last() == self@.workers[i as int]);
            }
            i += 1;
        }
        proof {
            assert(self@.workers.take(n as int) =~= self@.workers);
        }
        EngineInfo {
            engine_type: "ConcurrentMultiEngine".to_string(),
            memory_bounded: false,
            concurrent: true,
            account_count: total,
            transaction_count: None,
            memory_limits: None,
        }
    }

    /// The size of the worker pool.
    pub fn worker_count(&self) -> (r: usize)
        requires
            self.inv(),
        ensures
            r == self@.workers.len(),
    {
        self.num_workers
    }

    /// The final snapshot: hands out every worker's accounts merged into
    /// one result set, in worker order and within one worker in
    /// account-creation order. The merge is a plain union — the workers'
    /// client sets are disjoint by routing — so the result holds exactly
    /// one row per resident account: each row equals the account its
    /// owning worker stores, no client appears twice, and no resident
    /// account is missing.
    pub fn get_accounts(&self) -> (r: Vec<crate::account::Account>)
        requires
            self.inv(),
        ensures
            r@.len() == total_account_count(self@.workers),
            forall|i: int, j: int|
                0 <= i < j < r@.len() ==> (#[trigger] r@[i]).client != (#[trigger] r@[j]).client,
            forall|i: int|
                0 <= i < r@.len() ==> {
                    let wi = route((#[trigger] r@[i]).client, self@.workers.len());
                    &&& self@.workers[wi].accounts.dom().contains(r@[i].client)
                    &&& r@[i]@ == self@.workers[wi].accounts[r@[i].client]
                },
            forall|wi: int, c: ClientId|
                0 <= wi < self@.workers.len() && (#[trigger] self@.workers[wi].accounts.dom()
                    .contains(c)) ==> exists|i: int|
                    0 <= i < r@.len() && (#[trigger] r@[i]).client == c,
    {
        let ghost w = self@.workers.len();
        let mut out: Vec<crate::account::Account> = Vec::new();
        let n = self.worker_engines.len();
        let mut i: usize = 0;
        while i < n
            invariant
                self.inv(),
                n == self.worker_engines@.len(),
                w == self@.workers.len(),
                i <= n,
                out@.len() == total_account_count(self@.workers.take(i as int)),
                forall|k: int|
                    0 <= k < out@.len() ==> 0 <= route((#[trigger] out@[k]).client, w) < i as int,
                forall|k: int|
                    0 <= k < out@.len() ==> {
                        let wi = route((#[trigger] out@[k]).client, w);
                        &&& self@.workers[wi].accounts.dom().contains(out@[k].client)
                        &&& out@[k]@ == self@.workers[wi].accounts[out@[k].client]
                    },
                forall|k: int, l: int|
                    0 <= k < l < out@.len() ==> (#[trigger] out@[k]).client != (
                    #[trigger] out@[l]).client,
                forall|wi: int, c: ClientId|
                    0 <= wi < i as int && (#[trigger] self@.workers[wi].accounts.dom().contains(
                        c,
                    )) ==> exists|k: int| 0 <= k < out@.len() && (#[trigger] out@[k]).client == c,
            decreases n - i,
        {
            let ghost out0 = out@;
            let mut accounts = self.worker_engines[i].get_accounts();
            let ghost block = accounts@;
            proof {
                assert(self@.workers[i as int] == self.worker_engines@[i as int]@);
            }
            out.append(&mut accounts);
            // The vector's length carries the machine bound the saturating
            // total respects.
            let grown = out.len();
            proof {
                assert(out@ == out0 + block);
                assert(grown == out@.len());
                let taken = self@.workers.take(i as int + 1);
                assert(taken.drop_last() =~= self@.workers.take(i as int));
                assert(taken.last() == self@.workers[i as int]);
                // Every new row is the owning worker's stored account.
                assert forall|k: int|
                    0 <= k < out@.len() implies {
                    let wi = route((#[trigger] out@[k]).client, w);
                    &&& 0 <= wi < i as int + 1
                    &&& self@.workers[wi].accounts.dom().contains(out@[k].client)
                    &&& out@[k]@ == self@.workers[wi].accounts[out@[k].client]
                } by {
                    if k < out0.len() {
                        assert(out@[k] == out0[k]);
                    } else {
                        assert(out@[k] == block[k - out0.len()]);
                        let c = block[k - out0.len()].client;
                        assert(self.worker_engines@[i as int]@.accounts.dom().contains(c));
                        assert(route(c, self.num_workers as nat) == i as int);
                    }
                }
                // Distinct clients: old rows route below this worker, new
                // rows route to it and are distinct among themselves.
                assert forall|k: int, l: int|
                    0 <= k < l < out@.len() implies (#[trigger] out@[k]).client != (
                    #[trigger] out@[l]).client by {
                    if k < out0.len() && l >= out0.len() {
                        assert(out@[k] == out0[k]);
                        assert(out@[l] == block[l - out0.len()]);
                        if out@[k].client == out@[l].client {
                            let c = block[l - out0.len()].client;
                            assert(self.worker_engines@[i as int]@.accounts.dom().contains(c));
                            assert(route(c, self.num_workers as nat) == i as int);
                            assert(route(out0[k].client, w) < i as int);
                        }
                    } else if k >= out0.len() {
                        assert(out@[k] == block[k - out0.len()]);
                        assert(out@[l] == block[l - out0.len()]);
                    } else {
                        assert(out@[k] == out0[k]);
                        assert(out@[l] == out0[l]);
                    }
                }
                // Nothing resident in workers up to here is missing.
                assert forall|wi: int, c: ClientId|
                    0 <= wi < i as int + 1 && (#[trigger] self@.workers[wi].accounts.dom()
                        .contains(c)) implies exists|k: int|
                    0 <= k < out@.len() && (#[trigger] out@[k]).client == c by {
                    if wi == i as int {
                        let j = choose|j: int|
                            0 <= j < block.len() && (#[trigger] block[j]).client == c;
                        assert(out@[out0.len() + j].client == c);
                    } else {
                        let k = choose|k: int|
                            0 <= k < out0.len() && (#[trigger] out0[k]).client == c;
                        assert(out@[k].client == c);
                    }
                }
            }
            i += 1;
        }
        proof {
            assert(self@.workers.take(n as int) =~= self@.workers);
        }
        out
    }
}

} // verus!
