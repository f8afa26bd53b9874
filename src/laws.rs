//! Properties of the pool that relate several operations, proved over the
//! model that the operations' contracts are stated in.

use crate::pool::{expired_pred, expiry, lemma_clear_wf, lemma_create_wf, lemma_index_of, lemma_release_wf, PoolView, SessionView};
use vstd::prelude::*;

verus! {

/// The pool after leasing one session per identifier of `ids`, in order, all
/// with expiry `expires_at`; `None` as soon as a lease finds no free binding.
pub open spec fn creates(v: PoolView, ids: Seq<Seq<char>>, expires_at: Option<i64>) -> Option<
    PoolView,
>
    decreases ids.len(),
{
    if ids.len() == 0 {
        Some(v)
    } else {
        match creates(v, ids.drop_last(), expires_at) {
            Some(w) => if w.can_create() {
                Some(w.create(ids.last(), expires_at))
            } else {
                None
            },
            None => None,
        }
    }
}

/// Every configured endpoint is counted exactly once: free, leased or given
/// up. While none was given up, the free list and the active sessions
/// together hold as many bindings as there are configured endpoints.
pub proof fn lemma_endpoints_accounted(v: PoolView)
    requires
        v.wf(),
    ensures
        v.free.len() + v.sessions.len() + v.retired.len() == v.webdrivers.len(),
        v.retired.len() == 0 ==> v.free.len() + v.sessions.len() == v.webdrivers.len(),
{
    broadcast use vstd::seq_lib::group_to_multiset_ensures;
    broadcast use vstd::multiset::group_multiset_axioms;

    assert(v.leased().len() == v.sessions.len());
    let m1 = v.free.to_multiset();
    let m2 = v.leased().to_multiset();
    let m3 = v.retired.to_multiset();
    assert(m1.len() == v.free.len() && m2.len() == v.leased().len() && m3.len()
        == v.retired.len());
    assert(m1.add(m2).len() == m1.len() + m2.len());
    assert(m1.add(m2).add(m3).len() == m1.add(m2).len() + m3.len());
    assert(v.webdrivers.to_multiset().len() == v.webdrivers.len());
}

/// No endpoint is both free and leased, and no endpoint is leased to two
/// sessions.
pub proof fn lemma_endpoint_bound_once(v: PoolView)
    requires
        v.wf(),
    ensures
        forall|i: int, j: int|
            0 <= i < v.free.len() && 0 <= j < v.sessions.len() ==> v.free[i]
                != v.sessions[j].webdriver,
        forall|i: int, j: int|
            0 <= i < v.sessions.len() && 0 <= j < v.sessions.len() && i != j
                ==> v.sessions[i].webdriver != v.sessions[j].webdriver,
{
    broadcast use vstd::seq_lib::group_to_multiset_ensures;
    broadcast use vstd::multiset::group_multiset_axioms;

    v.webdrivers.lemma_multiset_has_no_duplicates();
    let total = v.free.to_multiset().add(v.leased().to_multiset()).add(v.retired.to_multiset());
    assert forall|i: int, j: int|
        0 <= i < v.free.len() && 0 <= j < v.sessions.len() implies v.free[i]
        != v.sessions[j].webdriver by {
        if v.free[i] == v.sessions[j].webdriver {
            let a = v.free[i];
            assert(v.free.contains(a));
            assert(v.leased()[j] == a);
            assert(v.leased().contains(a));
            assert(total.count(a) >= 2);
        }
    }
    assert forall|i: int, j: int|
        0 <= i < v.sessions.len() && 0 <= j < v.sessions.len() && i != j implies v.sessions[i].webdriver
        != v.sessions[j].webdriver by {
        if v.sessions[i].webdriver == v.sessions[j].webdriver {
            let a = v.sessions[i].webdriver;
            assert(v.leased()[i] == a);
            assert(v.leased()[j] == a);
            let rest = v.leased().remove(i);
            let j2 = if j < i { j } else { j - 1 };
            assert(rest[j2] == a);
            assert(rest.contains(a));
            assert(rest.to_multiset() == v.leased().to_multiset().remove(a));
            assert(rest.to_multiset().count(a) > 0);
            assert(v.leased().to_multiset().count(a) >= 2);
            assert(total.count(a) >= 2);
        }
    }
}

/// On a fresh pool, leasing once per configured endpoint (with distinct
/// identifiers) succeeds every time, and leaves no binding for one more lease.
pub proof fn lemma_lease_every_endpoint(v: PoolView, ids: Seq<Seq<char>>, expires_at: Option<i64>)
    requires
        v.wf(),
        v.sessions.len() == 0,
        v.retired.len() == 0,
        ids.len() == v.webdrivers.len(),
        ids.no_duplicates(),
    ensures
        creates(v, ids, expires_at) is Some,
        creates(v, ids, expires_at).unwrap().sessions.len() == v.webdrivers.len(),
        !creates(v, ids, expires_at).unwrap().can_create(),
{
    lemma_endpoints_accounted(v);
    lemma_creates_prefix(v, ids, expires_at);
}

proof fn lemma_creates_prefix(v: PoolView, ids: Seq<Seq<char>>, expires_at: Option<i64>)
    requires
        v.wf(),
        v.sessions.len() == 0,
        ids.len() <= v.free.len(),
        ids.no_duplicates(),
    ensures
        creates(v, ids, expires_at) is Some,
        creates(v, ids, expires_at).unwrap().wf(),
        creates(v, ids, expires_at).unwrap().ids() == ids,
        creates(v, ids, expires_at).unwrap().sessions.len() == ids.len(),
        creates(v, ids, expires_at).unwrap().free.len() == v.free.len() - ids.len(),
    decreases ids.len(),
{
    if ids.len() == 0 {
        assert(v.ids() =~= ids);
    } else {
        let pre = ids.drop_last();
        assert(pre.no_duplicates()) by {
            assert forall|a: int, b: int|
                0 <= a < pre.len() && 0 <= b < pre.len() && a != b implies pre[a] != pre[b] by {
                assert(pre[a] == ids[a] && pre[b] == ids[b]);
            }
        }
        lemma_creates_prefix(v, pre, expires_at);
        let w = creates(v, pre, expires_at).unwrap();
        assert(!w.has_session(ids.last())) by {
            if w.ids().contains(ids.last()) {
                let k = choose|k: int| 0 <= k < pre.len() && pre[k] == ids.last();
                assert(ids[k] == ids[ids.len() - 1]);
            }
        }
        lemma_create_wf(w, ids.last(), expires_at);
        let u = w.create(ids.last(), expires_at);
        assert(u.ids() =~= w.ids().push(ids.last()));
        assert(ids =~= pre.push(ids.last()));
    }
}

/// A session whose time-to-live has run out is among the expired sessions
/// the reclaimer collects; releasing it with a fresh connection removes it,
/// returns its endpoint to the free list, and a later lease succeeds.
pub proof fn lemma_expired_session_reclaimed(
    v: PoolView,
    id: Seq<char>,
    now: i64,
    ttl: u64,
    later: i64,
)
    requires
        v.wf(),
        v.can_create(),
        !v.has_session(id),
        later > now + ttl,
    ensures
        v.create(id, expiry(now, Some(ttl))).expired_ids(later).contains(id),
        v.create(id, expiry(now, Some(ttl))).release(id, true).wf(),
        !v.create(id, expiry(now, Some(ttl))).release(id, true).has_session(id),
        v.create(id, expiry(now, Some(ttl))).release(id, true).can_create(),
        v.create(id, expiry(now, Some(ttl))).release(id, true).free.last() == v.free.last(),
{
    let e = expiry(now, Some(ttl));
    let w = v.create(id, e);
    let s = SessionView { id, expires_at: e, webdriver: v.free.last() };
    lemma_create_wf(v, id, e);
    assert(w.sessions == v.sessions.push(s));
    assert(expired_pred(later)(s));
    v.sessions.lemma_filter_push(s, expired_pred(later));
    let f = v.sessions.filter(expired_pred(later));
    assert(w.expired_ids(later) =~= f.map_values(|x: SessionView| x.id).push(id));
    assert(w.expired_ids(later).last() == id);
    lemma_index_of(w, v.sessions.len() as int);
    lemma_release_wf(w, id, true);
    let u = w.release(id, true);
    assert(u.sessions =~= v.sessions);
    assert(u.ids() =~= v.ids());
}

/// After teardown nothing is leased or free, the pool stays well formed,
/// and any further lease finds no binding.
pub proof fn lemma_clear_exhausts(v: PoolView)
    requires
        v.wf(),
    ensures
        v.clear().wf(),
        v.clear().sessions.len() == 0,
        v.clear().free.len() == 0,
        !v.clear().can_create(),
{
    lemma_clear_wf(v);
}

/// With one free binding left, of two leases (which the lock serialises, in
/// whichever order) exactly one succeeds: the first one takes the binding,
/// and after it no binding is left for the second.
pub proof fn lemma_last_binding_leased_once(
    v: PoolView,
    first: Seq<char>,
    expires_at: Option<i64>,
)
    requires
        v.wf(),
        v.free.len() == 1,
        !v.has_session(first),
    ensures
        v.can_create(),
        v.create(first, expires_at).wf(),
        !v.create(first, expires_at).can_create(),
        v.create(first, expires_at).has_session(first),
{
    lemma_create_wf(v, first, expires_at);
    let w = v.create(first, expires_at);
    assert(w.ids() =~= v.ids().push(first));
    assert(w.ids()[v.ids().len() as int] == first);
}

} // verus!
