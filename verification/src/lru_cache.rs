//! Bounded least-recently-used containers, backed by the `lru` crate.
//!
//! The contents of a cache are modelled as a sequence of key-value pairs in
//! recency order, most recently used first. The spec functions here say how
//! each cache operation transforms that sequence; the wrapper functions at
//! the bottom relay the `lru` crate's operations and are trusted to follow
//! those spec functions.

use vstd::prelude::*;
use crate::account::Account;
use crate::transaction::{ClientId, StoredTransaction, TxId};

verus! {

/// Whether an association sequence holds the key.
pub open spec fn sk_has<K, V>(s: Seq<(K, V)>, k: K) -> bool {
    exists|i: int| 0 <= i < s.len() && s[i].0 == k
}

/// The position of the key in the sequence.
pub open spec fn sk_index<K, V>(s: Seq<(K, V)>, k: K) -> int {
    choose|i: int| 0 <= i < s.len() && s[i].0 == k
}

/// The value stored under the key.
pub open spec fn sk_get<K, V>(s: Seq<(K, V)>, k: K) -> V {
    s[sk_index(s, k)].1
}

/// The sequence with the key's entry removed (unchanged when absent).
pub open spec fn sk_remove<K, V>(s: Seq<(K, V)>, k: K) -> Seq<(K, V)> {
    if sk_has(s, k) {
        s.remove(sk_index(s, k))
    } else {
        s
    }
}

/// No key occurs twice.
pub open spec fn sk_unique<K, V>(s: Seq<(K, V)>) -> bool {
    forall|i: int, j: int| 0 <= i < j < s.len() ==> (#[trigger] s[i]).0 != (#[trigger] s[j]).0
}

/// How a promoting lookup reorders the cache: the key's entry moves to the
/// front, everything else keeps its relative order.
pub open spec fn lru_promote<K, V>(s: Seq<(K, V)>, k: K) -> Seq<(K, V)> {
    seq![(k, sk_get(s, k))] + sk_remove(s, k)
}

/// How an insertion changes the cache: an existing key is updated and moved
/// to the front; a fresh key enters at the front, and when the cache is
/// full the last entry — the least recently used — is dropped to make room.
pub open spec fn lru_put<K, V>(s: Seq<(K, V)>, cap: nat, k: K, v: V) -> Seq<(K, V)> {
    if sk_has(s, k) {
        seq![(k, v)] + sk_remove(s, k)
    } else if s.len() < cap {
        seq![(k, v)] + s
    } else {
        seq![(k, v)] + s.take(cap as int - 1)
    }
}

/// Removing a key removes it entirely and keeps everything else, with
/// uniqueness preserved.
pub proof fn lemma_sk_remove_unique<K, V>(s: Seq<(K, V)>, k: K)
    requires
        sk_unique(s),
    ensures
        sk_unique(sk_remove(s, k)),
        !sk_has(sk_remove(s, k), k),
        forall|x: K| x != k ==> (sk_has(sk_remove(s, k), x) <==> sk_has(s, x)),
        forall|x: K| x != k && sk_has(s, x) ==> sk_get(sk_remove(s, k), x) == sk_get(s, x),
        sk_remove(s, k).len() == if sk_has(s, k) {
            s.len() - 1
        } else {
            s.len() as int
        },
{
    if sk_has(s, k) {
        let pos = sk_index(s, k);
        let r = s.remove(pos);
        assert forall|x: K| x != k && sk_has(s, x) implies sk_has(r, x) && sk_get(r, x) == sk_get(
            s,
            x,
        ) by {
            let j = sk_index(s, x);
            if j < pos {
                assert(r[j] == s[j]);
                assert(sk_has(r, x));
                let j2 = sk_index(r, x);
                assert(r[j2] == if j2 < pos { s[j2] } else { s[j2 + 1] });
            } else {
                assert(r[j - 1] == s[j]);
                assert(sk_has(r, x));
                let j2 = sk_index(r, x);
                assert(r[j2] == if j2 < pos { s[j2] } else { s[j2 + 1] });
            }
        }
        assert forall|i: int| 0 <= i < r.len() implies (#[trigger] r[i]).0 != k by {
            if i < pos {
                assert(r[i] == s[i]);
            } else {
                assert(r[i] == s[i + 1]);
            }
        }
    }
}

/// An insertion keeps keys unique, keeps the length within the capacity,
/// puts the new entry at the front, and keeps only entries that were
/// already present or the one inserted.
pub proof fn lemma_lru_put_unique<K, V>(s: Seq<(K, V)>, cap: nat, k: K, v: V)
    requires
        sk_unique(s),
        s.len() <= cap,
        1 <= cap,
    ensures
        sk_unique(lru_put(s, cap, k, v)),
        lru_put(s, cap, k, v).len() <= cap,
        1 <= lru_put(s, cap, k, v).len(),
        lru_put(s, cap, k, v)[0] == (k, v),
        sk_has(lru_put(s, cap, k, v), k),
        sk_get(lru_put(s, cap, k, v), k) == v,
{
    let r = lru_put(s, cap, k, v);
    lemma_sk_remove_unique(s, k);
    assert(r[0] == (k, v));
    assert(sk_has(r, k));
    // Uniqueness: the tail has no `k` and is itself unique in each case.
    assert forall|i: int, j: int| 0 <= i < j < r.len() implies (#[trigger] r[i]).0 != (
    #[trigger] r[j]).0 by {
        if i == 0 {
            if sk_has(s, k) {
                assert(r[j] == sk_remove(s, k)[j - 1]);
                assert(!sk_has(sk_remove(s, k), k));
                assert(sk_remove(s, k)[j - 1].0 != k) by {
                    if sk_remove(s, k)[j - 1].0 == k {
                        assert(sk_has(sk_remove(s, k), k));
                    }
                }
            } else if s.len() < cap {
                assert(r[j] == s[j - 1]);
                if s[j - 1].0 == k {
                    assert(sk_has(s, k));
                }
            } else {
                assert(r[j] == s.take(cap as int - 1)[j - 1]);
                assert(s.take(cap as int - 1)[j - 1] == s[j - 1]);
                if s[j - 1].0 == k {
                    assert(sk_has(s, k));
                }
            }
        } else {
            if sk_has(s, k) {
                assert(r[i] == sk_remove(s, k)[i - 1]);
                assert(r[j] == sk_remove(s, k)[j - 1]);
            } else if s.len() < cap {
                assert(r[i] == s[i - 1]);
                assert(r[j] == s[j - 1]);
            } else {
                assert(r[i] == s.take(cap as int - 1)[i - 1]);
                assert(r[j] == s.take(cap as int - 1)[j - 1]);
                assert(s.take(cap as int - 1)[i - 1] == s[i - 1]);
                assert(s.take(cap as int - 1)[j - 1] == s[j - 1]);
            }
        }
    }
}

/// A promoting lookup keeps keys unique, keeps the length, keeps exactly
/// the keys that were present with their values, and moves the looked-up
/// entry to the front.
pub proof fn lemma_lru_promote_unique<K, V>(s: Seq<(K, V)>, k: K)
    requires
        sk_unique(s),
        sk_has(s, k),
    ensures
        sk_unique(lru_promote(s, k)),
        lru_promote(s, k).len() == s.len(),
        lru_promote(s, k)[0] == (k, sk_get(s, k)),
        forall|x: K| sk_has(lru_promote(s, k), x) <==> sk_has(s, x),
        forall|x: K| sk_has(s, x) ==> sk_get(lru_promote(s, k), x) == sk_get(s, x),
{
    let r = lru_promote(s, k);
    lemma_sk_remove_unique(s, k);
    let rest = sk_remove(s, k);
    let pos = sk_index(s, k);
    assert(r[0] == (k, sk_get(s, k)));
    assert(s[pos] == (k, sk_get(s, k)));
    assert forall|i: int, j: int| 0 <= i < j < r.len() implies (#[trigger] r[i]).0 != (
    #[trigger] r[j]).0 by {
        if i == 0 {
            assert(r[j] == rest[j - 1]);
            if rest[j - 1].0 == k {
                assert(sk_has(rest, k));
            }
        } else {
            assert(r[i] == rest[i - 1]);
            assert(r[j] == rest[j - 1]);
        }
    }
    assert forall|x: K| sk_has(s, x) implies sk_has(r, x) && sk_get(r, x) == sk_get(s, x) by {
        if x == k {
            assert(r[0] == (k, sk_get(s, k)));
            let i0 = sk_index(r, k);
            assert(0 <= i0 < r.len() && r[i0].0 == k);
            if i0 != 0 {
                assert(r[i0] == rest[i0 - 1]);
                assert(sk_has(rest, k));
            }
        } else {
            assert(sk_has(rest, x) && sk_get(rest, x) == sk_get(s, x));
            let i1 = sk_index(rest, x);
            assert(rest[i1].0 == x);
            assert(r[i1 + 1] == rest[i1]);
            assert(sk_has(r, x));
            let i2 = sk_index(r, x);
            assert(i2 != 0);
            assert(r[i2] == rest[i2 - 1]);
            assert(sk_get(r, x) == sk_get(rest, x));
        }
    }
    assert forall|x: K| sk_has(r, x) implies sk_has(s, x) by {
        let i0 = sk_index(r, x);
        if i0 == 0 {
            assert(sk_has(s, k));
        } else {
            assert(r[i0] == rest[i0 - 1]);
            assert(sk_has(rest, x));
            assert(sk_has(s, x));
        }
    }
}

/// Every entry left by a removal was already present.
pub proof fn lemma_sk_remove_values<K, V>(s: Seq<(K, V)>, k: K, p: spec_fn((K, V)) -> bool)
    requires
        forall|i: int| 0 <= i < s.len() ==> p(#[trigger] s[i]),
    ensures
        forall|i: int| 0 <= i < sk_remove(s, k).len() ==> p(#[trigger] sk_remove(s, k)[i]),
{
    if sk_has(s, k) {
        let pos = sk_index(s, k);
        let r = s.remove(pos);
        assert forall|i: int| 0 <= i < r.len() implies p(#[trigger] r[i]) by {
            if i < pos {
                assert(r[i] == s[i]);
            } else {
                assert(r[i] == s[i + 1]);
            }
        }
    }
}

/// Every entry after an insertion is the inserted pair or was already
/// present.
pub proof fn lemma_lru_put_values<K, V>(s: Seq<(K, V)>, cap: nat, k: K, v: V, p: spec_fn((K, V)) -> bool)
    requires
        1 <= cap,
        forall|i: int| 0 <= i < s.len() ==> p(#[trigger] s[i]),
        p((k, v)),
    ensures
        forall|i: int|
            0 <= i < lru_put(s, cap, k, v).len() ==> p(#[trigger] lru_put(s, cap, k, v)[i]),
{
    let r = lru_put(s, cap, k, v);
    lemma_sk_remove_values(s, k, p);
    assert forall|i: int| 0 <= i < r.len() implies p(#[trigger] r[i]) by {
        if i > 0 {
            if sk_has(s, k) {
                assert(r[i] == sk_remove(s, k)[i - 1]);
            } else if s.len() < cap {
                assert(r[i] == s[i - 1]);
            } else {
                assert(r[i] == s.take(cap as int - 1)[i - 1]);
                assert(s.take(cap as int - 1)[i - 1] == s[i - 1]);
            }
        }
    }
}

/// Every entry after a promoting lookup was already present.
pub proof fn lemma_lru_promote_values<K, V>(s: Seq<(K, V)>, k: K, p: spec_fn((K, V)) -> bool)
    requires
        sk_has(s, k),
        forall|i: int| 0 <= i < s.len() ==> p(#[trigger] s[i]),
    ensures
        forall|i: int|
            0 <= i < lru_promote(s, k).len() ==> p(#[trigger] lru_promote(s, k)[i]),
{
    let r = lru_promote(s, k);
    lemma_sk_remove_values(s, k, p);
    let pos = sk_index(s, k);
    assert(s[pos] == (k, sk_get(s, k)));
    assert forall|i: int| 0 <= i < r.len() implies p(#[trigger] r[i]) by {
        if i > 0 {
            assert(r[i] == sk_remove(s, k)[i - 1]);
        } else {
            assert(r[0] == s[pos]);
        }
    }
}

/// Law: when a cache is full and a fresh key arrives, the least recently
/// used entry — the last in recency order — is the one evicted: the new
/// key is present, the last entry's key is gone, every other entry
/// survives, and the cache still holds exactly its capacity.
pub proof fn lemma_eviction_drops_lru<K, V>(s: Seq<(K, V)>, cap: nat, k: K, v: V)
    requires
        sk_unique(s),
        s.len() == cap,
        1 <= cap,
        !sk_has(s, k),
    ensures
        lru_put(s, cap, k, v).len() == cap,
        sk_has(lru_put(s, cap, k, v), k),
        !sk_has(lru_put(s, cap, k, v), s.last().0),
        forall|i: int| 0 <= i < cap - 1 ==> lru_put(s, cap, k, v)[i + 1] == s[i],
{
    let r = lru_put(s, cap, k, v);
    lemma_lru_put_unique(s, cap, k, v);
    assert forall|i: int| 0 <= i < cap - 1 implies r[i + 1] == s[i] by {
        assert(r[i + 1] == s.take(cap as int - 1)[i]);
    }
    if sk_has(r, s.last().0) {
        let i0 = sk_index(r, s.last().0);
        if i0 == 0 {
            assert(sk_has(s, k));
        } else {
            assert(r[i0] == s.take(cap as int - 1)[i0 - 1]);
            assert(s[i0 - 1].0 == s.last().0);
            assert(i0 - 1 < cap - 1);
            assert(s[i0 - 1].0 != s[cap as int - 1].0);
        }
    }
}

/// An LRU cache of the `lru` crate, treated as opaque; its contents are
/// the recency sequences named below.
#[verifier::external_type_specification]
#[verifier::external_body]
#[verifier::reject_recursive_types(K)]
#[verifier::reject_recursive_types(V)]
#[verifier::reject_recursive_types(S)]
pub struct ExLruCache<K, V, S>(lru::LruCache<K, V, S>);

/// What the account cache holds, in recency order, most recent first.
pub uninterp spec fn account_cache_entries(c: lru::LruCache<ClientId, Account>) -> Seq<
    (ClientId, Account),
>;

/// The capacity the account cache was created with.
pub uninterp spec fn account_cache_cap(c: lru::LruCache<ClientId, Account>) -> nat;

/// What the transaction cache holds, in recency order, most recent first.
pub uninterp spec fn tx_cache_entries(c: lru::LruCache<TxId, StoredTransaction>) -> Seq<
    (TxId, StoredTransaction),
>;

/// The capacity the transaction cache was created with.
pub uninterp spec fn tx_cache_cap(c: lru::LruCache<TxId, StoredTransaction>) -> nat;

/// What the processed-id cache holds, in recency order, most recent first.
pub uninterp spec fn id_cache_entries(c: lru::LruCache<TxId, ()>) -> Seq<(TxId, ())>;

/// The capacity the processed-id cache was created with.
pub uninterp spec fn id_cache_cap(c: lru::LruCache<TxId, ()>) -> nat;

/// Relies on lru::LruCache::new: a fresh cache with the given capacity is
/// empty.
#[verifier::external_body]
pub(crate) fn account_cache_new(cap: usize) -> (r: lru::LruCache<ClientId, Account>)
    requires
        1 <= cap,
    ensures
        account_cache_entries(r) == Seq::<(ClientId, Account)>::empty(),
        account_cache_cap(r) == cap,
{
    lru::LruCache::new(std::num::NonZeroUsize::new(cap).unwrap())
}

/// Relies on lru::LruCache::get, which moves the entry it finds to the
/// front of the recency order.
#[verifier::external_body]
pub(crate) fn account_cache_get(c: &mut lru::LruCache<ClientId, Account>, k: ClientId) -> (r:
    Option<Account>)
    ensures
        account_cache_cap(*final(c)) == account_cache_cap(*old(c)),
        sk_has(account_cache_entries(*old(c)), k) ==> r == Some(
            sk_get(account_cache_entries(*old(c)), k),
        ) && account_cache_entries(*final(c)) == lru_promote(
            account_cache_entries(*old(c)),
            k,
        ),
        !sk_has(account_cache_entries(*old(c)), k) ==> r == Option::<Account>::None
            && account_cache_entries(*final(c)) == account_cache_entries(*old(c)),
{
    c.get(&k).copied()
}

/// Relies on lru::LruCache::put: an existing key is updated and moved to
/// the front; a fresh key enters at the front, evicting the least recently
/// used entry when the cache is full.
#[verifier::external_body]
pub(crate) fn account_cache_put(c: &mut lru::LruCache<ClientId, Account>, k: ClientId, v: Account)
    ensures
        account_cache_cap(*final(c)) == account_cache_cap(*old(c)),
        account_cache_entries(*final(c)) == lru_put(
            account_cache_entries(*old(c)),
            account_cache_cap(*old(c)),
            k,
            v,
        ),
{
    c.put(k, v);
}

/// Relies on lru::LruCache::len.
#[verifier::external_body]
pub(crate) fn account_cache_len(c: &lru::LruCache<ClientId, Account>) -> (r: usize)
    ensures
        r == account_cache_entries(*c).len(),
{
    c.len()
}

/// Relies on lru::LruCache::iter, which walks the entries from most to
/// least recently used.
#[verifier::external_body]
pub(crate) fn account_cache_items(c: &lru::LruCache<ClientId, Account>) -> (r: Vec<
    (ClientId, Account),
>)
    ensures
        r@ == account_cache_entries(*c),
{
    c.iter().map(|(k, v)| (*k, *v)).collect()
}

/// Relies on lru::LruCache::new: a fresh cache with the given capacity is
/// empty.
#[verifier::external_body]
pub(crate) fn tx_cache_new(cap: usize) -> (r: lru::LruCache<TxId, StoredTransaction>)
    requires
        1 <= cap,
    ensures
        tx_cache_entries(r) == Seq::<(TxId, StoredTransaction)>::empty(),
        tx_cache_cap(r) == cap,
{
    lru::LruCache::new(std::num::NonZeroUsize::new(cap).unwrap())
}

/// Relies on lru::LruCache::get, which moves the entry it finds to the
/// front of the recency order.
#[verifier::external_body]
pub(crate) fn tx_cache_get(c: &mut lru::LruCache<TxId, StoredTransaction>, k: TxId) -> (r: Option<
    StoredTransaction,
>)
    ensures
        tx_cache_cap(*final(c)) == tx_cache_cap(*old(c)),
        sk_has(tx_cache_entries(*old(c)), k) ==> r == Some(sk_get(tx_cache_entries(*old(c)), k))
            && tx_cache_entries(*final(c)) == lru_promote(tx_cache_entries(*old(c)), k),
        !sk_has(tx_cache_entries(*old(c)), k) ==> r == Option::<StoredTransaction>::None
            && tx_cache_entries(*final(c)) == tx_cache_entries(*old(c)),
{
    c.get(&k).copied()
}

/// Relies on lru::LruCache::put: an existing key is updated and moved to
/// the front; a fresh key enters at the front, evicting the least recently
/// used entry when the cache is full.
#[verifier::external_body]
pub(crate) fn tx_cache_put(c: &mut lru::LruCache<TxId, StoredTransaction>, k: TxId, v: StoredTransaction)
    ensures
        tx_cache_cap(*final(c)) == tx_cache_cap(*old(c)),
        tx_cache_entries(*final(c)) == lru_put(
            tx_cache_entries(*old(c)),
            tx_cache_cap(*old(c)),
            k,
            v,
        ),
{
    c.put(k, v);
}

/// Relies on lru::LruCache::pop, which removes the key's entry and hands
/// back its value.
#[verifier::external_body]
pub(crate) fn tx_cache_pop(c: &mut lru::LruCache<TxId, StoredTransaction>, k: TxId) -> (r: Option<
    StoredTransaction,
>)
    ensures
        tx_cache_cap(*final(c)) == tx_cache_cap(*old(c)),
        tx_cache_entries(*final(c)) == sk_remove(tx_cache_entries(*old(c)), k),
        sk_has(tx_cache_entries(*old(c)), k) ==> r == Some(sk_get(tx_cache_entries(*old(c)), k)),
        !sk_has(tx_cache_entries(*old(c)), k) ==> r == Option::<StoredTransaction>::None,
{
    c.pop(&k)
}

/// Relies on lru::LruCache::len.
#[verifier::external_body]
pub(crate) fn tx_cache_len(c: &lru::LruCache<TxId, StoredTransaction>) -> (r: usize)
    ensures
        r == tx_cache_entries(*c).len(),
{
    c.len()
}

/// Relies on lru::LruCache::new: a fresh cache with the given capacity is
/// empty.
#[verifier::external_body]
pub(crate) fn id_cache_new(cap: usize) -> (r: lru::LruCache<TxId, ()>)
    requires
        1 <= cap,
    ensures
        id_cache_entries(r) == Seq::<(TxId, ())>::empty(),
        id_cache_cap(r) == cap,
{
    lru::LruCache::new(std::num::NonZeroUsize::new(cap).unwrap())
}

/// Relies on lru::LruCache::contains, which looks the key up without
/// touching recency.
#[verifier::external_body]
pub(crate) fn id_cache_contains(c: &lru::LruCache<TxId, ()>, k: TxId) -> (r: bool)
    ensures
        r == sk_has(id_cache_entries(*c), k),
{
    c.contains(&k)
}

/// Relies on lru::LruCache::put: an existing key is updated and moved to
/// the front; a fresh key enters at the front, evicting the least recently
/// used entry when the cache is full.
#[verifier::external_body]
pub(crate) fn id_cache_put(c: &mut lru::LruCache<TxId, ()>, k: TxId)
    ensures
        id_cache_cap(*final(c)) == id_cache_cap(*old(c)),
        id_cache_entries(*final(c)) == lru_put(
            id_cache_entries(*old(c)),
            id_cache_cap(*old(c)),
            k,
            (),
        ),
{
    c.put(k, ());
}

} // verus!
