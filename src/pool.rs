//! The mathematical model of the pool: where each endpoint is bound, and what
//! each operation does to that placement.

use vstd::prelude::*;

verus! {

/// What the pool knows of one leased session.
pub struct SessionView {
    pub id: Seq<char>,
    /// Expiry instant in milliseconds since the Unix epoch; `None` never expires.
    pub expires_at: Option<i64>,
    /// The endpoint address the session's connection is bound to.
    pub webdriver: Seq<char>,
}

/// The pool's state as addresses: the configured endpoints, the free list,
/// the active sessions, and the endpoints whose connection was given up.
pub struct PoolView {
    pub webdrivers: Seq<Seq<char>>,
    pub free: Seq<Seq<char>>,
    pub sessions: Seq<SessionView>,
    pub retired: Seq<Seq<char>>,
}

/// Whether a session has expired at instant `now` (strictly after its expiry).
pub open spec fn expired_at(s: SessionView, now: i64) -> bool {
    match s.expires_at {
        Some(t) => now > t,
        None => false,
    }
}

/// The test the reclaimer applies to each session at instant `now`.
pub open spec fn expired_pred(now: i64) -> spec_fn(SessionView) -> bool {
    |s: SessionView| expired_at(s, now)
}

/// The expiry of a session created at `now` with time-to-live `ttl`
/// milliseconds; an instant past the representable range is clamped to the last one.
pub open spec fn expiry(now: i64, ttl: Option<u64>) -> Option<i64> {
    match ttl {
        Some(d) => Some(
            if now + d > i64::MAX {
                i64::MAX
            } else {
                (now + d) as i64
            },
        ),
        None => None,
    }
}

impl PoolView {
    /// The endpoint addresses bound into active sessions, in session order.
    pub open spec fn leased(self) -> Seq<Seq<char>> {
        self.sessions.map_values(|s: SessionView| s.webdriver)
    }

    /// The identifiers of the active sessions, in session order.
    pub open spec fn ids(self) -> Seq<Seq<char>> {
        self.sessions.map_values(|s: SessionView| s.id)
    }

    pub open spec fn has_session(self, id: Seq<char>) -> bool {
        self.ids().contains(id)
    }

    /// The position of the session named `id`.
    pub open spec fn index_of(self, id: Seq<char>) -> int {
        choose|i: int| 0 <= i < self.sessions.len() && self.sessions[i].id == id
    }

    /// Well-formedness: the configured addresses form a set, identifiers are
    /// unique, and every configured endpoint is bound in exactly one place:
    /// the free list, one active session, or the list of endpoints given up.
    pub open spec fn wf(self) -> bool {
        &&& self.webdrivers.no_duplicates()
        &&& self.ids().no_duplicates()
        &&& self.free.to_multiset().add(self.leased().to_multiset()).add(
            self.retired.to_multiset(),
        ) == self.webdrivers.to_multiset()
    }

    pub open spec fn can_create(self) -> bool {
        self.free.len() > 0
    }

    /// Leasing: the last free endpoint is bound into a new session `id`.
    pub open spec fn create(self, id: Seq<char>, expires_at: Option<i64>) -> PoolView {
        PoolView {
            free: self.free.drop_last(),
            sessions: self.sessions.push(
                SessionView { id, expires_at, webdriver: self.free.last() },
            ),
            ..self
        }
    }

    /// Releasing session `id`: its endpoint goes back to the free list when
    /// `returned` (a fresh connection was made), and is given up otherwise.
    pub open spec fn release(self, id: Seq<char>, returned: bool) -> PoolView {
        let i = self.index_of(id);
        let a = self.sessions[i].webdriver;
        PoolView {
            sessions: self.sessions.remove(i),
            free: if returned {
                self.free.push(a)
            } else {
                self.free
            },
            retired: if returned {
                self.retired
            } else {
                self.retired.push(a)
            },
            ..self
        }
    }

    /// Teardown: every session and then every free connection is given up.
    pub open spec fn clear(self) -> PoolView {
        PoolView {
            free: Seq::empty(),
            sessions: Seq::empty(),
            retired: self.retired + self.leased() + self.free,
            ..self
        }
    }

    /// The identifiers of the sessions expired at `now`, in session order.
    pub open spec fn expired_ids(self, now: i64) -> Seq<Seq<char>> {
        self.sessions.filter(expired_pred(now)).map_values(
            |s: SessionView| s.id,
        )
    }
}

/// With unique identifiers, the session found at `i` is the one `index_of` names.
pub proof fn lemma_index_of(v: PoolView, i: int)
    requires
        v.ids().no_duplicates(),
        0 <= i < v.sessions.len(),
    ensures
        v.index_of(v.sessions[i].id) == i,
        v.has_session(v.sessions[i].id),
{
    let id = v.sessions[i].id;
    assert(v.ids()[i] == id);
    let j = v.index_of(id);
    assert(v.ids()[j] == id);
}

/// Leasing keeps the pool well formed.
pub proof fn lemma_create_wf(v: PoolView, id: Seq<char>, expires_at: Option<i64>)
    requires
        v.wf(),
        v.can_create(),
        !v.has_session(id),
    ensures
        v.create(id, expires_at).wf(),
{
    broadcast use vstd::seq_lib::group_to_multiset_ensures;

    let w = v.create(id, expires_at);
    let s = SessionView { id, expires_at, webdriver: v.free.last() };
    assert(w.ids() =~= v.ids().push(id));
    assert(w.leased() =~= v.leased().push(v.free.last()));
    assert(v.free =~= w.free.push(v.free.last()));
    assert(w.ids().no_duplicates()) by {
        assert forall|a: int, b: int|
            0 <= a < w.ids().len() && 0 <= b < w.ids().len() && a != b implies w.ids()[a]
            != w.ids()[b] by {
            if a == v.ids().len() as int {
                assert(v.ids().contains(w.ids()[b]));
            } else if b == v.ids().len() as int {
                assert(v.ids().contains(w.ids()[a]));
            }
        }
    }
    assert(w.free.to_multiset().add(w.leased().to_multiset()) =~= v.free.to_multiset().add(
        v.leased().to_multiset(),
    ));
}

/// Releasing an active session keeps the pool well formed.
pub proof fn lemma_release_wf(v: PoolView, id: Seq<char>, returned: bool)
    requires
        v.wf(),
        v.has_session(id),
    ensures
        v.release(id, returned).wf(),
{
    broadcast use vstd::seq_lib::group_to_multiset_ensures;

    let k = v.ids().index_of(id);
    lemma_index_of(v, k);
    let i = v.index_of(id);
    let a = v.sessions[i].webdriver;
    let w = v.release(id, returned);
    assert(w.ids() =~= v.ids().remove(i));
    assert(w.leased() =~= v.leased().remove(i));
    assert(v.leased()[i] == a);
    assert(w.ids().no_duplicates()) by {
        assert forall|x: int, y: int|
            0 <= x < w.ids().len() && 0 <= y < w.ids().len() && x != y implies w.ids()[x]
            != w.ids()[y] by {
            let x2 = if x < i { x } else { x + 1 };
            let y2 = if y < i { y } else { y + 1 };
            assert(w.ids()[x] == v.ids()[x2]);
            assert(w.ids()[y] == v.ids()[y2]);
        }
    }
    assert(w.free.to_multiset().add(w.leased().to_multiset()).add(w.retired.to_multiset())
        =~= v.free.to_multiset().add(v.leased().to_multiset()).add(v.retired.to_multiset()));
}

/// Teardown keeps the pool well formed.
pub proof fn lemma_clear_wf(v: PoolView)
    requires
        v.wf(),
    ensures
        v.clear().wf(),
{
    broadcast use vstd::seq_lib::group_to_multiset_ensures;
    broadcast use vstd::seq_lib::lemma_multiset_commutative;

    let w = v.clear();
    assert(w.ids() =~= Seq::<Seq<char>>::empty());
    assert(w.leased() =~= Seq::<Seq<char>>::empty());
    assert(w.free.to_multiset().add(w.leased().to_multiset()).add(w.retired.to_multiset())
        =~= v.free.to_multiset().add(v.leased().to_multiset()).add(v.retired.to_multiset()));
}

} // verus!
