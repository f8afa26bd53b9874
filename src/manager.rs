//! The lease pool manager: the free list and the active sessions, and the
//! operations that move connections between them.

use crate::pool::{
    expired_at, expired_pred, expiry, lemma_clear_wf, lemma_create_wf, lemma_index_of,
    lemma_release_wf, PoolView, SessionView,
};
use crate::session::{now_millis, Binding, Session};
use crate::Error;
use vstd::prelude::*;

verus! {

/// The pool of endpoint connections and the sessions leased from it.
///
/// The caller makes the connections (one per configured endpoint, up front),
/// holds the manager behind a reader/writer lock, and performs the remote
/// steps that each operation calls for; the manager keeps the bookkeeping.
pub struct FantocciniConnectionManager<C> {
    /// The configured endpoint addresses, fixed at construction.
    webdrivers: Vec<String>,
    /// Unbound connections; leasing takes the last one.
    free: Vec<Binding<C>>,
    /// Active sessions, identifiers unique.
    sessions: Vec<Session<C>>,
    /// Endpoints whose connection was closed for good (teardown, or a failed
    /// reconnect), so that every configured endpoint is accounted for.
    retired: Ghost<Seq<Seq<char>>>,
}

pub open spec fn binding_addr<C>(b: Binding<C>) -> Seq<char> {
    b.webdriver@
}

pub open spec fn session_view<C>(s: Session<C>) -> SessionView {
    s@
}

/// The connection binding a session record owns.
pub open spec fn session_binding<C>(s: Session<C>) -> Binding<C> {
    Binding { webdriver: s.webdriver, client: s.client }
}

pub open spec fn string_view(s: String) -> Seq<char> {
    s@
}

/// The addresses a list of strings holds.
pub open spec fn addresses(ws: Seq<String>) -> Seq<Seq<char>> {
    ws.map_values(|s: String| string_view(s))
}

/// Whether `w` is one of `ws`.
fn contains_webdriver(ws: &Vec<String>, w: &String) -> (r: bool)
    ensures
        r == addresses(ws@).contains(w@),
{
    let ghost v = addresses(ws@);
    let mut i: usize = 0;
    while i < ws.len()
        invariant
            i <= ws@.len(),
            v == addresses(ws@),
            forall|j: int| 0 <= j < i ==> v[j] != w@,
        decreases ws.len() - i,
    {
        if ws[i] == *w {
            assert(v[i as int] == w@);
            return true;
        }
        i = i + 1;
    }
    false
}

/// The configured addresses with repeats dropped (the first of each kept, in
/// order): a list that `FantocciniConnectionManager::new` accepts, naming
/// the same endpoints.
pub fn distinct_webdrivers(webdrivers: &Vec<String>) -> (r: Vec<String>)
    ensures
        addresses(r@).no_duplicates(),
        forall|a: Seq<char>|
            #![trigger addresses(r@).contains(a)]
            #![trigger addresses(webdrivers@).contains(a)]
            addresses(r@).contains(a) <==> addresses(webdrivers@).contains(a),
{
    let ghost input = addresses(webdrivers@);
    let mut out: Vec<String> = Vec::new();
    let mut i: usize = 0;
    while i < webdrivers.len()
        invariant
            i <= webdrivers@.len(),
            input == addresses(webdrivers@),
            addresses(out@).no_duplicates(),
            forall|a: Seq<char>|
                #![trigger addresses(out@).contains(a)]
                #![trigger input.take(i as int).contains(a)]
                addresses(out@).contains(a) <==> input.take(
                    i as int,
                ).contains(a),
        decreases webdrivers.len() - i,
    {
        let ghost o0 = addresses(out@);
        proof {
            assert(input.take(i as int + 1) =~= input.take(i as int).push(input[i as int]));
        }
        let present = contains_webdriver(&out, &webdrivers[i]);
        if !present {
            out.push(webdrivers[i].clone());
            proof {
                let x = input[i as int];
                assert(addresses(out@) =~= o0.push(x));
                assert forall|p: int, q: int|
                    0 <= p < o0.len() + 1 && 0 <= q < o0.len() + 1 && p != q implies o0.push(
                        x,
                    )[p] != o0.push(x)[q] by {
                    if p == o0.len() as int {
                        assert(o0.contains(o0[q]));
                    } else if q == o0.len() as int {
                        assert(o0.contains(o0[p]));
                    }
                }
            }
        }
        proof {
            broadcast use vstd::seq_lib::lemma_seq_contains_after_push;

            let x = input[i as int];
            assert forall|a: Seq<char>|
                #![trigger addresses(out@).contains(a)]
                #![trigger input.take(i as int + 1).contains(a)]
                addresses(out@).contains(a) <==> input.take(i as int + 1).contains(a) by {
                assert(o0.contains(a) <==> input.take(i as int).contains(a));
                assert(o0.contains(x) <==> input.take(i as int).contains(x));
            }
        }
        i = i + 1;
    }
    proof {
        assert(input.take(i as int) =~= input);
    }
    out
}

impl<C> View for FantocciniConnectionManager<C> {
    type V = PoolView;

    closed spec fn view(&self) -> PoolView {
        PoolView {
            webdrivers: self.webdrivers@.map_values(|s: String| s@),
            free: self.free@.map_values(|b: Binding<C>| binding_addr(b)),
            sessions: self.sessions@.map_values(|s: Session<C>| session_view(s)),
            retired: self.retired@,
        }
    }
}

impl<C> FantocciniConnectionManager<C> {
    /// The free connection bindings, the last one leased first.
    pub closed spec fn free_bindings(&self) -> Seq<Binding<C>> {
        self.free@
    }

    /// The active session records, in the order of the view's sessions.
    pub closed spec fn session_records(&self) -> Seq<Session<C>> {
        self.sessions@
    }

    /// A pool over the given connections, one per configured endpoint: all of
    /// them free, no session active.
    pub fn new(connections: Vec<Binding<C>>) -> (r: Self)
        requires
            connections@.map_values(|b: Binding<C>| binding_addr(b)).no_duplicates(),
        ensures
            r@.wf(),
            r@.webdrivers == connections@.map_values(|b: Binding<C>| binding_addr(b)),
            r@.free == r@.webdrivers,
            r@.sessions.len() == 0,
            r@.retired.len() == 0,
            r.free_bindings() == connections@,
    {
        let mut webdrivers: Vec<String> = Vec::new();
        let mut i: usize = 0;
        while i < connections.len()
            invariant
                i <= connections.len(),
                webdrivers@.len() == i,
                forall|j: int|
                    0 <= j < i ==> #[trigger] webdrivers@[j]@ == connections@[j].webdriver@,
            decreases connections.len() - i,
        {
            webdrivers.push(connections[i].webdriver.clone());
            i = i + 1;
        }
        let r = FantocciniConnectionManager {
            webdrivers,
            free: connections,
            sessions: Vec::new(),
            retired: Ghost(Seq::empty()),
        };
        proof {
            broadcast use vstd::seq_lib::group_to_multiset_ensures;

            assert(r@.webdrivers =~= r@.free);
            assert(r@.leased() =~= Seq::<Seq<char>>::empty());
            assert(r@.ids() =~= Seq::<Seq<char>>::empty());
            assert(r@.free.to_multiset().add(r@.leased().to_multiset()).add(
                r@.retired.to_multiset(),
            ) =~= r@.webdrivers.to_multiset());
        }
        r
    }

    /// The position of the session named `id`, if it is active.
    fn find(&self, id: &String) -> (r: Option<usize>)
        requires
            self@.wf(),
        ensures
            match r {
                Some(i) => i < self@.sessions.len() && i == self@.index_of(id@)
                    && self@.has_session(id@),
                None => !self@.has_session(id@),
            },
    {
        let mut i: usize = 0;
        while i < self.sessions.len()
            invariant
                i <= self.sessions@.len(),
                self@.wf(),
                forall|j: int| 0 <= j < i ==> #[trigger] self@.sessions[j].id != id@,
            decreases self.sessions.len() - i,
        {
            if self.sessions[i].id == *id {
                proof {
                    lemma_index_of(self@, i as int);
                }
                return Some(i);
            }
            i = i + 1;
        }
        proof {
            if self@.has_session(id@) {
                let k = self@.ids().index_of(id@);
                assert(self@.sessions[k].id == id@);
            }
        }
        None
    }

    /// The number of active sessions.
    pub fn session_count(&self) -> (r: usize)
        ensures
            r == self@.sessions.len(),
    {
        self.sessions.len()
    }

    /// The number of free bindings.
    pub fn free_count(&self) -> (r: usize)
        ensures
            r == self@.free.len(),
    {
        self.free.len()
    }

    /// The configured endpoint addresses, in the order they were given.
    pub fn webdrivers(&self) -> (r: &Vec<String>)
        ensures
            addresses(r@) == self@.webdrivers,
    {
        &self.webdrivers
    }

    /// The binding that the next lease takes, if any is free. The caller asks
    /// the remote peer for the new session's identifier over its connection.
    pub fn next_free(&self) -> (r: Option<&Binding<C>>)
        ensures
            match r {
                Some(b) => {
                    &&& self@.can_create()
                    &&& *b == self.free_bindings().last()
                    &&& b.webdriver@ == self@.free.last()
                },
                None => !self@.can_create(),
            },
    {
        if self.free.len() == 0 {
            None
        } else {
            Some(&self.free[self.free.len() - 1])
        }
    }

    /// Leases the last free binding into a new session named `id`, created at
    /// instant `now` with time-to-live `ttl` milliseconds. Fails with
    /// `NoClientsAvailable`, changing nothing, when no binding is free.
    pub fn create_session_at(&mut self, id: String, now: i64, ttl: Option<u64>) -> (r: Result<
        &Session<C>,
        Error,
    >)
        requires
            old(self)@.wf(),
            !old(self)@.has_session(id@),
        ensures
            final(self)@.wf(),
            match r {
                Ok(s) => {
                    &&& old(self)@.can_create()
                    &&& final(self)@ == old(self)@.create(id@, expiry(now, ttl))
                    &&& s@ == final(self)@.sessions.last()
                    &&& s.client == old(self).free_bindings().last().client
                    &&& final(self).free_bindings() == old(self).free_bindings().drop_last()
                    &&& final(self).session_records().drop_last()
                        == old(self).session_records()
                },
                Err(e) => {
                    &&& !old(self)@.can_create()
                    &&& e == Error::NoClientsAvailable
                    &&& final(self)@ == old(self)@
                },
            },
    {
        match self.free.pop() {
            None => Err(Error::NoClientsAvailable),
            Some(b) => {
                let expires_at = match ttl {
                    Some(d) => {
                        let t: i128 = now as i128 + d as i128;
                        if t > i64::MAX as i128 {
                            Some(i64::MAX)
                        } else {
                            Some(t as i64)
                        }
                    },
                    None => None,
                };
                let ghost pre = old(self)@;
                let s = Session { id, expires_at, webdriver: b.webdriver, client: b.client };
                self.sessions.push(s);
                proof {
                    lemma_create_wf(pre, id@, expiry(now, ttl));
                    assert(self@.free =~= pre.free.drop_last());
                    assert(self@.sessions =~= pre.sessions.push(
                        SessionView { id: id@, expires_at: expiry(now, ttl), webdriver: pre.free.last() },
                    ));
                    assert(self@ == pre.create(id@, expiry(now, ttl)));
                }
                let n = self.sessions.len();
                Ok(&self.sessions[n - 1])
            },
        }
    }

    /// Leases the last free binding into a new session named `id`, expiring
    /// `ttl` milliseconds from now by the wall clock.
    pub fn create_session(&mut self, id: String, ttl: Option<u64>) -> (r: Result<
        &Session<C>,
        Error,
    >)
        requires
            old(self)@.wf(),
            !old(self)@.has_session(id@),
        ensures
            final(self)@.wf(),
            match r {
                Ok(s) => {
                    &&& old(self)@.can_create()
                    &&& exists|now: i64| final(self)@ == old(self)@.create(id@, expiry(now, ttl))
                    &&& s@ == final(self)@.sessions.last()
                    &&& s.client == old(self).free_bindings().last().client
                    &&& final(self).free_bindings() == old(self).free_bindings().drop_last()
                    &&& final(self).session_records().drop_last()
                        == old(self).session_records()
                },
                Err(e) => {
                    &&& !old(self)@.can_create()
                    &&& e == Error::NoClientsAvailable
                    &&& final(self)@ == old(self)@
                },
            },
    {
        let now = now_millis();
        self.create_session_at(id, now, ttl)
    }

    /// The active session named `id`; `NoSuchSession` when there is none.
    pub fn get_session(&self, id: String) -> (r: Result<&Session<C>, Error>)
        requires
            self@.wf(),
        ensures
            match r {
                Ok(s) => {
                    &&& self@.has_session(id@)
                    &&& *s == self.session_records()[self@.index_of(id@)]
                    &&& s@ == self@.sessions[self@.index_of(id@)]
                },
                Err(e) => !self@.has_session(id@) && e == Error::NoSuchSession,
            },
    {
        match self.find(&id) {
            Some(i) => Ok(&self.sessions[i]),
            None => Err(Error::NoSuchSession),
        }
    }

    /// Ends the session named `id` and returns its record, whose connection
    /// the caller closes. With `fresh` (a new connection the caller made to
    /// the same endpoint) the endpoint goes back to the free list; without it
    /// the endpoint is given up. `NoSuchSession`, changing nothing, when `id`
    /// is not active.
    pub fn release_session(&mut self, id: String, fresh: Option<C>) -> (r: Result<
        Session<C>,
        Error,
    >)
        requires
            old(self)@.wf(),
        ensures
            final(self)@.wf(),
            match r {
                Ok(s) => {
                    &&& old(self)@.has_session(id@)
                    &&& final(self)@ == old(self)@.release(id@, fresh.is_some())
                    &&& s == old(self).session_records()[old(self)@.index_of(id@)]
                    &&& s@ == old(self)@.sessions[old(self)@.index_of(id@)]
                    &&& match fresh {
                        Some(c) => final(self).free_bindings().last().client == c,
                        None => true,
                    }
                },
                Err(e) => {
                    &&& !old(self)@.has_session(id@)
                    &&& e == Error::NoSuchSession
                    &&& final(self)@ == old(self)@
                },
            },
    {
        match self.find(&id) {
            None => Err(Error::NoSuchSession),
            Some(i) => {
                let ghost pre = old(self)@;
                let s = self.sessions.remove(i);
                proof {
                    lemma_release_wf(pre, id@, fresh.is_some());
                    assert(self@.sessions =~= pre.sessions.remove(i as int));
                }
                match fresh {
                    Some(c) => {
                        self.free.push(Binding { webdriver: s.webdriver.clone(), client: c });
                        proof {
                            assert(self@.free =~= pre.free.push(s.webdriver@));
                        }
                    },
                    None => {
                        proof {
                            self.retired@ = self.retired@.push(s.webdriver@);
                        }
                    },
                }
                proof {
                    assert(self@ =~= pre.release(id@, fresh.is_some()));
                }
                Ok(s)
            },
        }
    }

    /// Tears the pool down: every active session, then every free binding,
    /// is given up. Returns their connections, in that order, for the caller
    /// to close. Afterwards nothing is free or active.
    pub fn clear(&mut self) -> (r: Vec<Binding<C>>)
        requires
            old(self)@.wf(),
        ensures
            final(self)@.wf(),
            final(self)@ == old(self)@.clear(),
            r@ == old(self).session_records().map_values(|s: Session<C>| session_binding(s))
                + old(self).free_bindings(),
            r@.map_values(|b: Binding<C>| binding_addr(b)) == old(self)@.leased()
                + old(self)@.free,
    {
        let ghost pre = self@;
        let ghost pre_s = self.sessions@;
        let ghost pre_f = self.free@;
        let mut out: Vec<Binding<C>> = Vec::new();
        while self.sessions.len() > 0
            invariant
                pre.sessions.len() == out@.len() + self@.sessions.len(),
                self@.sessions == pre.sessions.skip(out@.len() as int),
                out@.map_values(|b: Binding<C>| binding_addr(b)) == pre.leased().take(
                    out@.len() as int,
                ),
                self@.free == pre.free,
                self@.webdrivers == pre.webdrivers,
                self@.retired == pre.retired,
                self.sessions@ == pre_s.skip(out@.len() as int),
                out@ == pre_s.take(out@.len() as int).map_values(
                    |s: Session<C>| session_binding(s),
                ),
                self.free@ == pre_f,
                pre_s.len() == pre.sessions.len(),
            decreases self.sessions.len(),
        {
            let ghost k = out@.len() as int;
            let ghost before = self@.sessions;
            let ghost cbefore = self.sessions@;
            let ghost out0 = out@;
            let s = self.sessions.remove(0);
            proof {
                assert(s == cbefore[0] && cbefore[0] == pre_s[k]);
                assert(self.sessions@ == cbefore.remove(0));
                assert(before[0] == pre.sessions[k]);
                assert(s@ == before[0]);
                assert(self@.sessions =~= before.drop_first());
            }
            out.push(Binding { webdriver: s.webdriver, client: s.client });
            proof {
                assert(out@.map_values(|b: Binding<C>| binding_addr(b)) =~= out0.map_values(
                    |b: Binding<C>| binding_addr(b),
                ).push(pre.leased()[k]));
                assert(self@.sessions =~= pre.sessions.skip(k + 1));
                assert(out@.map_values(|b: Binding<C>| binding_addr(b)) =~= pre.leased().take(
                    k + 1,
                ));
                assert(out@ == out0.push(session_binding(s)));
                assert(self.sessions@ =~= pre_s.skip(k + 1));
                assert(out@ =~= pre_s.take(k + 1).map_values(|s: Session<C>| session_binding(s)));
            }
        }
        let ghost n = out@.len() as int;
        proof {
            assert(pre.leased().take(n) =~= pre.leased());
            assert(pre_s.take(n) =~= pre_s);
        }
        while self.free.len() > 0
            invariant
                pre.free.len() + n == out@.len() + self@.free.len(),
                n <= out@.len(),
                n == pre.sessions.len(),
                self@.free == pre.free.skip(out@.len() - n),
                out@.map_values(|b: Binding<C>| binding_addr(b)) == pre.leased() + pre.free.take(
                    out@.len() - n,
                ),
                self@.sessions.len() == 0,
                self@.webdrivers == pre.webdrivers,
                self@.retired == pre.retired,
                self.free@ == pre_f.skip(out@.len() - n),
                out@ == pre_s.map_values(|s: Session<C>| session_binding(s)) + pre_f.take(
                    out@.len() - n,
                ),
                pre_s.len() == n,
                pre_f.len() == pre.free.len(),
            decreases self.free.len(),
        {
            let ghost k = out@.len() - n;
            let ghost before = self@.free;
            let ghost cbefore = self.free@;
            let ghost out0 = out@;
            let b = self.free.remove(0);
            proof {
                assert(b == cbefore[0] && cbefore[0] == pre_f[k]);
                assert(self.free@ == cbefore.remove(0));
                assert(before[0] == pre.free[k]);
                assert(b.webdriver@ == before[0]);
                assert(self@.free =~= before.drop_first());
            }
            out.push(b);
            proof {
                assert(out@.map_values(|b: Binding<C>| binding_addr(b)) =~= out0.map_values(
                    |b: Binding<C>| binding_addr(b),
                ).push(pre.free[k]));
                assert(pre.free.take(k + 1) =~= pre.free.take(k).push(pre.free[k]));
                assert(self@.free =~= pre.free.skip(k + 1));
                assert(out@.map_values(|b: Binding<C>| binding_addr(b)) =~= pre.leased()
                    + pre.free.take(k + 1));
                assert(out@ == out0.push(b));
                assert(self.free@ =~= pre_f.skip(k + 1));
                assert(out@ =~= pre_s.map_values(|s: Session<C>| session_binding(s)) + pre_f.take(
                    k + 1,
                ));
            }
        }
        proof {
            self.retired@ = self.retired@ + pre.leased() + pre.free;
            assert(self@.sessions =~= Seq::<SessionView>::empty());
            assert(self@.free =~= Seq::<Seq<char>>::empty());
            lemma_clear_wf(pre);
            assert(pre.free.take(pre.free.len() as int) =~= pre.free);
            assert(pre_f.take(pre_f.len() as int) =~= pre_f);
            assert(self@ =~= pre.clear());
        }
        out
    }

    /// The identifiers of the sessions expired at instant `now`, in session
    /// order. They are all collected before any is released.
    pub fn expired_session_ids_at(&self, now: i64) -> (r: Vec<String>)
        ensures
            addresses(r@) == self@.expired_ids(now),
    {
        
        let mut out: Vec<String> = Vec::new();
        let mut i: usize = 0;
        while i < self.sessions.len()
            invariant
                i <= self@.sessions.len(),
                addresses(out@) == self@.sessions.take(
                    i as int,
                ).filter(expired_pred(now)).map_values(|s: SessionView| s.id),
            decreases self.sessions.len() - i,
        {
            proof {
                assert(self@.sessions.take(i as int + 1) =~= self@.sessions.take(i as int).push(
                    self@.sessions[i as int],
                ));
                self@.sessions.take(i as int).lemma_filter_push(self@.sessions[i as int], expired_pred(now));
            }
            let ghost out0 = out@;
            let ghost prefix = self@.sessions.take(i as int);
            let ghost cur = self@.sessions[i as int];
            assert(self.sessions@[i as int]@ == cur);
            let e = self.sessions[i].has_expired_at(now);
            assert(e == expired_at(cur, now));
            assert(expired_pred(now)(cur) == expired_at(cur, now));
            if e {
                out.push(self.sessions[i].id.clone());
                proof {
                    assert(expired_pred(now)(cur));
                    assert(prefix.push(cur).filter(expired_pred(now)) == prefix.filter(expired_pred(now)).push(cur));
                    assert(addresses(out@) =~= out0.map_values(
                        |s: String| string_view(s),
                    ).push(cur.id));
                    assert(prefix.filter(expired_pred(now)).push(cur).map_values(|s: SessionView| s.id)
                        =~= prefix.filter(expired_pred(now)).map_values(|s: SessionView| s.id).push(cur.id));
                }
            } else {
                proof {
                    assert(!expired_pred(now)(cur));
                    assert(prefix.push(cur).filter(expired_pred(now)) == prefix.filter(expired_pred(now)));
                }
            }
            i = i + 1;
        }
        proof {
            assert(self@.sessions.take(i as int) =~= self@.sessions);
        }
        out
    }

    /// The identifiers of the sessions expired now, by the wall clock.
    pub fn expired_session_ids(&self) -> (r: Vec<String>)
        ensures
            exists|now: i64| addresses(r@) == self@.expired_ids(now),
    {
        let now = now_millis();
        self.expired_session_ids_at(now)
    }
} // impl

} // verus!
