//! The global duplicate-transaction-id index of the sharded engine, backed
//! by `dashmap`.
//!
//! The map is the one structure shared by all workers; `dashmap` makes each
//! insert and lookup atomic. Its contents are modelled as a map from
//! transaction id to the owning client.

use vstd::prelude::*;
use crate::transaction::{ClientId, TxId};

verus! {

/// A concurrent map of the `dashmap` crate, treated as opaque; its contents
/// are named by `tx_index_entries`.
#[verifier::external_type_specification]
#[verifier::external_body]
#[verifier::reject_recursive_types(K)]
#[verifier::reject_recursive_types(V)]
#[verifier::reject_recursive_types(S)]
pub struct ExDashMap<K, V, S>(dashmap::DashMap<K, V, S>);

/// What the transaction-id index holds: each registered transaction id,
/// with the client that owns it.
pub uninterp spec fn tx_index_entries(m: dashmap::DashMap<TxId, ClientId>) -> Map<TxId, ClientId>;

/// Relies on dashmap::DashMap::new: a fresh map is empty.
#[verifier::external_body]
pub(crate) fn tx_index_new() -> (r: dashmap::DashMap<TxId, ClientId>)
    ensures
        forall|k: TxId| !tx_index_entries(r).contains_key(k),
{
    dashmap::DashMap::new()
}

/// Relies on dashmap::DashMap::contains_key.
#[verifier::external_body]
pub(crate) fn tx_index_contains(m: &dashmap::DashMap<TxId, ClientId>, k: TxId) -> (r: bool)
    ensures
        r == tx_index_entries(*m).contains_key(k),
{
    m.contains_key(&k)
}

/// Relies on dashmap::DashMap::insert, which maps the key to the new value.
#[verifier::external_body]
pub(crate) fn tx_index_insert(m: &mut dashmap::DashMap<TxId, ClientId>, k: TxId, v: ClientId)
    ensures
        tx_index_entries(*final(m)) == tx_index_entries(*old(m)).insert(k, v),
{
    m.insert(k, v);
}

} // verus!
