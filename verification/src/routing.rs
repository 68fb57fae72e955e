//! The routing table: which peers advertise which projects.
//!
//! Purely in memory; membership is what matters, order is irrelevant.

use vstd::prelude::*;

use crate::identity::{ProjId, PublicKey};

verus! {

/// The sequence left by `Vec::swap_remove`: the last element moved into
/// the removed slot.
pub open spec fn seq_swap_remove<T>(s: Seq<T>, i: int) -> Seq<T> {
    s.update(i, s.last()).drop_last()
}

/// No two keys in the sequence hold the same raw bytes.
pub open spec fn keys_unique(p: Seq<PublicKey>) -> bool {
    forall|a: int, b: int| 0 <= a < b < p.len() ==> p[a]@ != p[b]@
}

/// Whether a sequence of keys holds the given raw key.
pub open spec fn keys_contain(s: Seq<PublicKey>, x: Seq<u8>) -> bool {
    exists|j: int| 0 <= j < s.len() && s[j]@ == x
}

/// One routing entry: a project and the peers advertising it.
#[derive(Clone, Debug)]
pub struct Route {
    pub proj: ProjId,
    pub peers: Vec<PublicKey>,
}

/// Whether some entry routes project `q` to peer `x`.
pub open spec fn routes(s: Seq<Route>, q: Seq<u8>, x: Seq<u8>) -> bool {
    exists|i: int| 0 <= i < s.len() && s[i].proj@ == q && keys_contain(s[i].peers@, x)
}

/// Whether some entry exists for project `q`.
pub open spec fn routed(s: Seq<Route>, q: Seq<u8>) -> bool {
    exists|i: int| 0 <= i < s.len() && s[i].proj@ == q
}

/// Well-formed: projects are unique, and every entry holds at least one
/// peer, without duplicates.
pub open spec fn routes_wf(s: Seq<Route>) -> bool {
    &&& forall|i: int, j: int| 0 <= i < j < s.len() ==> s[i].proj@ != s[j].proj@
    &&& forall|i: int| 0 <= i < s.len() ==> (#[trigger] s[i].peers@).len() >= 1
    &&& forall|i: int| 0 <= i < s.len() ==> keys_unique(#[trigger] s[i].peers@)
}

/// Appending an entry routes exactly what it or the rest routes.
pub proof fn lemma_routes_push(s: Seq<Route>, r: Route, q: Seq<u8>, x: Seq<u8>)
    ensures
        routes(s.push(r), q, x) <==> (routes(s, q, x) || (r.proj@ == q && keys_contain(
            r.peers@,
            x,
        ))),
        routed(s.push(r), q) <==> (routed(s, q) || r.proj@ == q),
{
    let t = s.push(r);
    assert(t[s.len() as int] == r);
    if routes(t, q, x) {
        let i = choose|i: int| 0 <= i < t.len() && t[i].proj@ == q && keys_contain(t[i].peers@, x);
        if i < s.len() {
            assert(t[i] == s[i]);
            assert(routes(s, q, x));
        }
    }
    if routes(s, q, x) {
        let i = choose|i: int| 0 <= i < s.len() && s[i].proj@ == q && keys_contain(s[i].peers@, x);
        assert(t[i] == s[i]);
        assert(routes(t, q, x));
    }
    if routed(t, q) {
        let i = choose|i: int| 0 <= i < t.len() && t[i].proj@ == q;
        if i < s.len() {
            assert(t[i] == s[i]);
            assert(routed(s, q));
        }
    }
    if routed(s, q) {
        let i = choose|i: int| 0 <= i < s.len() && s[i].proj@ == q;
        assert(t[i] == s[i]);
        assert(routed(t, q));
    }
}

/// The in-memory index from projects to advertising peers.
#[derive(Clone, Debug)]
pub struct Routing {
    pub entries: Vec<Route>,
}

/// Find a key in a list of keys.
pub(crate) fn find_key(v: &Vec<PublicKey>, x: &PublicKey) -> (r: Option<usize>)
    ensures
        r matches Some(j) ==> j < v@.len() && v@[j as int]@ == x@,
        r is Some ==> keys_contain(v@, x@),
        r is None ==> !keys_contain(v@, x@),
{
    let mut j: usize = 0;
    while j < v.len()
        invariant
            0 <= j <= v@.len(),
            forall|k: int| 0 <= k < j ==> v@[k]@ != x@,
        decreases v@.len() - j,
    {
        if v[j].equals(x) {
            proof {
                assert(keys_contain(v@, x@)) by {
                    assert(v@[j as int]@ == x@);
                }
            }
            return Some(j);
        }
        j += 1;
    }
    None
}

impl Routing {
    /// Whether this table routes project `q` to peer `x`, by view.
    pub open spec fn spec_routes(&self, q: Seq<u8>, x: Seq<u8>) -> bool {
        routes(self.entries@, q, x)
    }

    /// Well-formedness of the table.
    pub open spec fn wf(&self) -> bool {
        routes_wf(self.entries@)
    }

    /// The empty table.
    pub fn new() -> (r: Routing)
        ensures
            r.wf(),
            forall|q: Seq<u8>, x: Seq<u8>| !r.spec_routes(q, x),
    {
        Routing { entries: Vec::new() }
    }

    /// Find the entry for a project.
    fn find_route(&self, proj: &ProjId) -> (r: Option<usize>)
        ensures
            r matches Some(i) ==> i < self.entries@.len() && self.entries@[i as int].proj@
                == proj@,
            r is None ==> !routed(self.entries@, proj@),
    {
        let mut i: usize = 0;
        while i < self.entries.len()
            invariant
                0 <= i <= self.entries@.len(),
                forall|j: int| 0 <= j < i ==> self.entries@[j].proj@ != proj@,
            decreases self.entries@.len() - i,
        {
            if self.entries[i].proj.equals(proj) {
                return Some(i);
            }
            i += 1;
        }
        None
    }

    /// Whether any peer advertises the project.
    pub fn contains_project(&self, proj: &ProjId) -> (r: bool)
        ensures
            r == routed(self.entries@, proj@),
    {
        match self.find_route(proj) {
            Some(i) => {
                proof {
                    assert(routed(self.entries@, proj@)) by {
                        assert(self.entries@[i as int].proj@ == proj@);
                    }
                }
                true
            },
            None => false,
        }
    }

    /// The peers advertising a project, or `None` if nobody does.
    pub fn get(&self, proj: &ProjId) -> (r: Option<&Vec<PublicKey>>)
        requires
            self.wf(),
        ensures
            r matches Some(v) ==> v@.len() >= 1 && (forall|x: Seq<u8>|
                keys_contain(v@, x) <==> self.spec_routes(proj@, x)),
            r is None ==> forall|x: Seq<u8>| !self.spec_routes(proj@, x),
    {
        match self.find_route(proj) {
            Some(i) => {
                let v = &self.entries[i].peers;
                proof {
                    assert forall|x: Seq<u8>| keys_contain(v@, x) implies self.spec_routes(
                        proj@,
                        x,
                    ) by {
                        assert(routes(self.entries@, proj@, x)) by {
                            assert(self.entries@[i as int].proj@ == proj@ && keys_contain(
                                self.entries@[i as int].peers@,
                                x,
                            ));
                        }
                    }
                    assert forall|x: Seq<u8>| self.spec_routes(proj@, x) implies keys_contain(
                        v@,
                        x,
                    ) by {
                        let k = choose|k: int|
                            0 <= k < self.entries@.len() && self.entries@[k].proj@ == proj@
                                && keys_contain(self.entries@[k].peers@, x);
                        assert(k == i);
                    }
                }
                Some(v)
            },
            None => {
                proof {
                    assert forall|x: Seq<u8>| !self.spec_routes(proj@, x) by {
                        if routes(self.entries@, proj@, x) {
                            let k = choose|k: int|
                                0 <= k < self.entries@.len() && self.entries@[k].proj@ == proj@
                                    && keys_contain(self.entries@[k].peers@, x);
                            assert(routed(self.entries@, proj@));
                        }
                    }
                }
                None
            },
        }
    }

    /// Record that `peer` advertises `proj`. True if that is new.
    pub fn insert(&mut self, proj: &ProjId, peer: &PublicKey) -> (r: bool)
        requires
            old(self).wf(),
        ensures
            final(self).wf(),
            r <==> !old(self).spec_routes(proj@, peer@),
            forall|q: Seq<u8>, x: Seq<u8>|
                final(self).spec_routes(q, x) <==> (old(self).spec_routes(q, x) || (q == proj@
                    && x == peer@)),
    {
        let ghost s0 = self.entries@;
        match self.find_route(proj) {
            Some(i) => {
                let mut route = self.entries.swap_remove(i);
                let ghost s1 = self.entries@;
                proof {
                    lemma_swap_remove_routes(s0, i as int);
                }
                match find_key(&route.peers, peer) {
                    Some(_) => {
                        proof {
                            assert(old(self).spec_routes(proj@, peer@)) by {
                                assert(s0[i as int].proj@ == proj@ && keys_contain(
                                    s0[i as int].peers@,
                                    peer@,
                                ));
                            }
                        }
                        self.entries.push(route);
                        proof {
                            lemma_push_back_routes(s0, s1, route, i as int);
                        }
                        false
                    },
                    None => {
                        let ghost p0 = route.peers@;
                        route.peers.push(*peer);
                        proof {
                            assert(forall|x: Seq<u8>|
                                keys_contain(route.peers@, x) <==> (keys_contain(p0, x) || x
                                    == peer@)) by {
                                lemma_keys_push(p0, *peer);
                            }
                        }
                        self.entries.push(route);
                        proof {
                            assert(!old(self).spec_routes(proj@, peer@)) by {
                                if routes(s0, proj@, peer@) {
                                    let k = choose|k: int|
                                        0 <= k < s0.len() && s0[k].proj@ == proj@ && keys_contain(
                                            s0[k].peers@,
                                            peer@,
                                        );
                                    assert(k == i);
                                }
                            }
                            lemma_insert_existing_routes(s0, s1, self.entries@, i as int, proj@, peer@);
                        }
                        true
                    },
                }
            },
            None => {
                let mut peers: Vec<PublicKey> = Vec::new();
                peers.push(*peer);
                let route = Route { proj: *proj, peers };
                self.entries.push(route);
                proof {
                    assert(!routes(s0, proj@, peer@)) by {
                        if routes(s0, proj@, peer@) {
                            let k = choose|k: int|
                                0 <= k < s0.len() && s0[k].proj@ == proj@ && keys_contain(
                                    s0[k].peers@,
                                    peer@,
                                );
                            assert(routed(s0, proj@));
                        }
                    }
                    assert forall|q: Seq<u8>, x: Seq<u8>|
                        final(self).spec_routes(q, x) <==> (routes(s0, q, x) || (q == proj@ && x
                            == peer@)) by {
                        lemma_routes_push(s0, route, q, x);
                        assert(keys_contain(route.peers@, x) <==> x == peer@) by {
                            if keys_contain(route.peers@, x) {
                                let j = choose|j: int|
                                    0 <= j < route.peers@.len() && route.peers@[j]@ == x;
                            }
                            if x == peer@ {
                                assert(route.peers@[0]@ == x);
                            }
                        }
                    }
                    assert(final(self).wf()) by {
                        assert forall|a: int, b: int|
                            0 <= a < b < self.entries@.len() implies self.entries@[a].proj@
                            != self.entries@[b].proj@ by {
                            if b == self.entries@.len() - 1 {
                                assert(self.entries@[a] == s0[a]);
                                if self.entries@[a].proj@ == proj@ {
                                    assert(routed(s0, proj@)) by {
                                        assert(s0[a].proj@ == proj@);
                                    }
                                    assert(false);
                                }
                            }
                        }
                    }
                }
                true
            },
        }
    }

    /// Forget that `peer` advertises `proj`. True if it was recorded.
    pub fn remove(&mut self, proj: &ProjId, peer: &PublicKey) -> (r: bool)
        requires
            old(self).wf(),
        ensures
            final(self).wf(),
            r <==> old(self).spec_routes(proj@, peer@),
            forall|q: Seq<u8>, x: Seq<u8>|
                final(self).spec_routes(q, x) <==> (old(self).spec_routes(q, x) && !(q == proj@
                    && x == peer@)),
    {
        let ghost s0 = self.entries@;
        match self.find_route(proj) {
            Some(i) => {
                let mut route = self.entries.swap_remove(i);
                let ghost s1 = self.entries@;
                proof {
                    lemma_swap_remove_routes(s0, i as int);
                }
                match find_key(&route.peers, peer) {
                    Some(j) => {
                        let ghost p0 = route.peers@;
                        route.peers.swap_remove(j);
                        proof {
                            lemma_keys_swap_remove(p0, j as int);
                        }
                        if route.peers.len() > 0 {
                            self.entries.push(route);
                            proof {
                                lemma_remove_present_routes(
                                    s0,
                                    s1,
                                    self.entries@,
                                    i as int,
                                    j as int,
                                    proj@,
                                    peer@,
                                );
                            }
                        } else {
                            proof {
                                lemma_remove_empty_routes(s0, s1, i as int, j as int, proj@, peer@);
                            }
                        }
                        true
                    },
                    None => {
                        self.entries.push(route);
                        proof {
                            assert(!old(self).spec_routes(proj@, peer@)) by {
                                if routes(s0, proj@, peer@) {
                                    let k = choose|k: int|
                                        0 <= k < s0.len() && s0[k].proj@ == proj@ && keys_contain(
                                            s0[k].peers@,
                                            peer@,
                                        );
                                    assert(k == i);
                                }
                            }
                            lemma_push_back_routes(s0, s1, route, i as int);
                        }
                        false
                    },
                }
            },
            None => {
                proof {
                    assert(!old(self).spec_routes(proj@, peer@)) by {
                        if routes(s0, proj@, peer@) {
                            let k = choose|k: int|
                                0 <= k < s0.len() && s0[k].proj@ == proj@ && keys_contain(
                                    s0[k].peers@,
                                    peer@,
                                );
                            assert(routed(s0, proj@));
                        }
                    }
                }
                false
            },
        }
    }

    /// Forget every advertisement by `peer`.
    pub fn prune_peer(&mut self, peer: &PublicKey)
        requires
            old(self).wf(),
        ensures
            final(self).wf(),
            forall|q: Seq<u8>, x: Seq<u8>|
                final(self).spec_routes(q, x) <==> (old(self).spec_routes(q, x) && x != peer@),
    {
        let ghost s0 = self.entries@;
        let mut kept: Vec<Route> = Vec::new();
        let mut i: usize = 0;
        while i < self.entries.len()
            invariant
                0 <= i <= self.entries@.len(),
                self.entries@ == s0,
                routes_wf(s0),
                routes_wf(kept@),
                forall|q: Seq<u8>, x: Seq<u8>|
                    routes(kept@, q, x) <==> (routes(s0.take(i as int), q, x) && x != peer@),
                forall|q: Seq<u8>| routed(kept@, q) ==> routed(s0.take(i as int), q),
            decreases self.entries@.len() - i,
        {
            let ghost kept0 = kept@;
            let ghost taken0 = s0.take(i as int);
            let mut route = self.entries[i].clone_route();
            let ghost p0 = route.peers@;
            match find_key(&route.peers, peer) {
                Some(j) => {
                    route.peers.swap_remove(j);
                    proof {
                        lemma_keys_swap_remove(p0, j as int);
                    }
                    if route.peers.len() > 0 {
                        kept.push(route);
                        proof {
                            lemma_prune_step(s0, kept0, kept@, p0, route, i as int, peer@, true);
                        }
                    } else {
                        proof {
                            lemma_prune_step_dropped(s0, kept0, p0, route, i as int, peer@);
                        }
                    }
                },
                None => {
                    kept.push(route);
                    proof {
                        lemma_prune_step(s0, kept0, kept@, p0, route, i as int, peer@, false);
                    }
                },
            }
            i += 1;
        }
        proof {
            assert(s0.take(s0.len() as int) =~= s0);
        }
        self.entries = kept;
    }
}

/// Swap-removing an index leaves exactly the other entries' routes.
proof fn lemma_swap_remove_routes(s: Seq<Route>, i: int)
    requires
        0 <= i < s.len(),
        routes_wf(s),
    ensures
        routes_wf(seq_swap_remove(s, i)),
        forall|q: Seq<u8>, x: Seq<u8>| #[trigger]
            routes(seq_swap_remove(s, i), q, x) ==> routes(s, q, x) && q != s[i].proj@,
        forall|q: Seq<u8>, x: Seq<u8>|
            routes(s, q, x) && q != s[i].proj@ ==> #[trigger] routes(seq_swap_remove(s, i), q, x),
        forall|q: Seq<u8>| #[trigger] routed(seq_swap_remove(s, i), q) ==> routed(s, q) && q != s[i].proj@,
    decreases 0int,
{
    let t = seq_swap_remove(s, i);
    assert(t.len() == s.len() - 1);
    assert(forall|k: int|
        0 <= k < t.len() ==> t[k] == (if k == i && k != s.len() - 1 {
            s[s.len() - 1]
        } else {
            s[k]
        }));
    assert forall|q: Seq<u8>, x: Seq<u8>| #[trigger] routes(t, q, x) implies routes(s, q, x) && q
        != s[i].proj@ by {
        let k = choose|k: int| 0 <= k < t.len() && t[k].proj@ == q && keys_contain(t[k].peers@, x);
        if k == i && k != s.len() - 1 {
            assert(t[k] == s[s.len() - 1]);
            assert(routes(s, q, x)) by {
                assert(s[s.len() - 1].proj@ == q && keys_contain(s[s.len() - 1].peers@, x));
            }
            assert(q != s[i].proj@);
        } else {
            assert(t[k] == s[k]);
            assert(routes(s, q, x)) by {
                assert(s[k].proj@ == q && keys_contain(s[k].peers@, x));
            }
        }
    }
    assert forall|q: Seq<u8>, x: Seq<u8>| routes(s, q, x) && q != s[i].proj@ implies #[trigger]
        routes(t, q, x) by {
        let k = choose|k: int| 0 <= k < s.len() && s[k].proj@ == q && keys_contain(s[k].peers@, x);
        assert(k != i);
        if k == s.len() - 1 {
            assert(i < s.len() - 1);
            assert(t[i] == s[k]);
            assert(routes(t, q, x)) by {
                assert(t[i].proj@ == q && keys_contain(t[i].peers@, x));
            }
        } else {
            assert(t[k] == s[k]);
            assert(routes(t, q, x)) by {
                assert(t[k].proj@ == q && keys_contain(t[k].peers@, x));
            }
        }
    }
    assert forall|q: Seq<u8>| #[trigger] routed(t, q) implies routed(s, q) && q != s[i].proj@ by {
        let k = choose|k: int| 0 <= k < t.len() && t[k].proj@ == q;
        if k == i && k != s.len() - 1 {
            assert(t[k] == s[s.len() - 1]);
            assert(s[s.len() - 1].proj@ == q);
        } else {
            assert(t[k] == s[k]);
        }
    }
}

/// Pushing an untouched entry back after a swap-remove restores its routes.
proof fn lemma_push_back_routes(s0: Seq<Route>, s1: Seq<Route>, route: Route, i: int)
    requires
        0 <= i < s0.len(),
        routes_wf(s0),
        s1 == seq_swap_remove(s0, i),
        route == s0[i],
    ensures
        routes_wf(s1.push(route)),
        forall|q: Seq<u8>, x: Seq<u8>| #[trigger]
            routes(s1.push(route), q, x) <==> routes(s0, q, x),
{
    lemma_swap_remove_routes(s0, i);
    assert forall|q: Seq<u8>, x: Seq<u8>| #[trigger] routes(s1.push(route), q, x) <==> routes(
        s0,
        q,
        x,
    ) by {
        lemma_routes_push(s1, route, q, x);
        if route.proj@ == q && keys_contain(route.peers@, x) {
            assert(routes(s0, q, x)) by {
                assert(s0[i].proj@ == q && keys_contain(s0[i].peers@, x));
            }
        }
        if routes(s0, q, x) && q == s0[i].proj@ {
            let k = choose|k: int|
                0 <= k < s0.len() && s0[k].proj@ == q && keys_contain(s0[k].peers@, x);
            assert(k == i);
        }
    }
    assert(routes_wf(s1.push(route))) by {
        assert forall|a: int, b: int|
            0 <= a < b < s1.push(route).len() implies s1.push(route)[a].proj@ != s1.push(
            route,
        )[b].proj@ by {
            if b == s1.len() {
                assert(s1.push(route)[a] == s1[a]);
                assert(routed(s1, s1[a].proj@)) by {
                    assert(s1[a].proj@ == s1[a].proj@);
                }
            }
        }
    }
}

/// Pushing one key extends membership by exactly that key.
proof fn lemma_keys_push(p: Seq<PublicKey>, k: PublicKey)
    ensures
        forall|x: Seq<u8>| keys_contain(p.push(k), x) <==> (keys_contain(p, x) || x == k@),
{
    assert forall|x: Seq<u8>| keys_contain(p.push(k), x) <==> (keys_contain(p, x) || x == k@) by {
        if keys_contain(p.push(k), x) {
            let j = choose|j: int| 0 <= j < p.push(k).len() && p.push(k)[j]@ == x;
            if j < p.len() {
                assert(p[j]@ == x);
            } else {
                assert(p.push(k)[j] == k);
            }
        }
        if keys_contain(p, x) {
            let j = choose|j: int| 0 <= j < p.len() && p[j]@ == x;
            assert(p.push(k)[j]@ == x);
        }
        if x == k@ {
            assert(p.push(k)[p.len() as int]@ == x);
        }
    }
}

/// Swap-removing one key removes exactly that key, given uniqueness.
proof fn lemma_keys_swap_remove(p: Seq<PublicKey>, j: int)
    requires
        0 <= j < p.len(),
        keys_unique(p),
    ensures
        forall|x: Seq<u8>|
            keys_contain(seq_swap_remove(p, j), x) <==> (keys_contain(p, x) && x != p[j]@),
        keys_unique(seq_swap_remove(p, j)),
{
    let t = seq_swap_remove(p, j);
    assert(forall|k: int|
        0 <= k < t.len() ==> t[k] == (if k == j && k != p.len() - 1 {
            p[p.len() - 1]
        } else {
            p[k]
        }));
    assert forall|x: Seq<u8>| keys_contain(t, x) <==> (keys_contain(p, x) && x != p[j]@) by {
        if keys_contain(t, x) {
            let k = choose|k: int| 0 <= k < t.len() && t[k]@ == x;
            if k == j && k != p.len() - 1 {
                assert(p[p.len() - 1]@ == x);
            } else {
                assert(p[k]@ == x);
            }
        }
        if keys_contain(p, x) && x != p[j]@ {
            let k = choose|k: int| 0 <= k < p.len() && p[k]@ == x;
            assert(k != j);
            if k == p.len() - 1 {
                assert(j < p.len() - 1);
                assert(t[j]@ == x);
            } else {
                assert(t[k]@ == x);
            }
        }
    }
}

/// Routes after inserting a new peer into an existing entry.
proof fn lemma_insert_existing_routes(
    s0: Seq<Route>,
    s1: Seq<Route>,
    s2: Seq<Route>,
    i: int,
    q0: Seq<u8>,
    x0: Seq<u8>,
)
    requires
        0 <= i < s0.len(),
        routes_wf(s0),
        s1 == seq_swap_remove(s0, i),
        s2.len() == s1.len() + 1,
        forall|k: int| 0 <= k < s1.len() ==> s2[k] == s1[k],
        s2[s2.len() - 1].proj@ == s0[i].proj@,
        s0[i].proj@ == q0,
        forall|x: Seq<u8>|
            keys_contain(s2[s2.len() - 1].peers@, x) <==> (keys_contain(s0[i].peers@, x) || x
                == x0),
        s2[s2.len() - 1].peers@.len() >= 1,
        keys_unique(s2[s2.len() - 1].peers@),
    ensures
        routes_wf(s2),
        forall|q: Seq<u8>, x: Seq<u8>| #[trigger]
            routes(s2, q, x) <==> (routes(s0, q, x) || (q == q0 && x == x0)),
{
    lemma_swap_remove_routes(s0, i);
    let last = s2[s2.len() - 1];
    assert(s2 =~= s1.push(last));
    assert forall|q: Seq<u8>, x: Seq<u8>| #[trigger] routes(s2, q, x) <==> (routes(s0, q, x) || (q
        == q0 && x == x0)) by {
        lemma_routes_push(s1, last, q, x);
        if routes(s0, q, x) && q == q0 {
            let k = choose|k: int|
                0 <= k < s0.len() && s0[k].proj@ == q && keys_contain(s0[k].peers@, x);
            assert(k == i);
        }
        if q == q0 && keys_contain(s0[i].peers@, x) {
            assert(routes(s0, q, x)) by {
                assert(s0[i].proj@ == q && keys_contain(s0[i].peers@, x));
            }
        }
    }
    assert(routes_wf(s2)) by {
        assert forall|a: int, b: int| 0 <= a < b < s2.len() implies s2[a].proj@ != s2[b].proj@ by {
            if b == s2.len() - 1 {
                assert(s2[a] == s1[a]);
                assert(routed(s1, s1[a].proj@)) by {
                    assert(s1[a].proj@ == s1[a].proj@);
                }
            }
        }
    }
}

/// Routes after removing a peer from an entry that keeps other peers.
proof fn lemma_remove_present_routes(
    s0: Seq<Route>,
    s1: Seq<Route>,
    s2: Seq<Route>,
    i: int,
    j: int,
    q0: Seq<u8>,
    x0: Seq<u8>,
)
    requires
        0 <= i < s0.len(),
        routes_wf(s0),
        s1 == seq_swap_remove(s0, i),
        0 <= j < s0[i].peers@.len(),
        s0[i].peers@[j]@ == x0,
        s0[i].proj@ == q0,
        s2.len() == s1.len() + 1,
        forall|k: int| 0 <= k < s1.len() ==> s2[k] == s1[k],
        s2[s2.len() - 1].proj@ == q0,
        forall|x: Seq<u8>|
            keys_contain(s2[s2.len() - 1].peers@, x) <==> (keys_contain(s0[i].peers@, x) && x
                != x0),
        s2[s2.len() - 1].peers@.len() >= 1,
        keys_unique(s2[s2.len() - 1].peers@),
    ensures
        routes_wf(s2),
        forall|q: Seq<u8>, x: Seq<u8>| #[trigger]
            routes(s2, q, x) <==> (routes(s0, q, x) && !(q == q0 && x == x0)),
{
    lemma_swap_remove_routes(s0, i);
    let last = s2[s2.len() - 1];
    assert(s2 =~= s1.push(last));
    assert forall|q: Seq<u8>, x: Seq<u8>| #[trigger] routes(s2, q, x) <==> (routes(s0, q, x) && !(q
        == q0 && x == x0)) by {
        lemma_routes_push(s1, last, q, x);
        if routes(s0, q, x) && q == q0 {
            let k = choose|k: int|
                0 <= k < s0.len() && s0[k].proj@ == q && keys_contain(s0[k].peers@, x);
            assert(k == i);
        }
        if q == q0 && keys_contain(s0[i].peers@, x) {
            assert(routes(s0, q, x)) by {
                assert(s0[i].proj@ == q && keys_contain(s0[i].peers@, x));
            }
        }
    }
    assert(routes_wf(s2)) by {
        assert forall|a: int, b: int| 0 <= a < b < s2.len() implies s2[a].proj@ != s2[b].proj@ by {
            if b == s2.len() - 1 {
                assert(s2[a] == s1[a]);
                assert(routed(s1, s1[a].proj@)) by {
                    assert(s1[a].proj@ == s1[a].proj@);
                }
            }
        }
    }
}

/// Routes after removing the last peer of an entry: the entry goes away.
proof fn lemma_remove_empty_routes(
    s0: Seq<Route>,
    s1: Seq<Route>,
    i: int,
    j: int,
    q0: Seq<u8>,
    x0: Seq<u8>,
)
    requires
        0 <= i < s0.len(),
        routes_wf(s0),
        s1 == seq_swap_remove(s0, i),
        0 <= j < s0[i].peers@.len(),
        s0[i].peers@[j]@ == x0,
        s0[i].proj@ == q0,
        s0[i].peers@.len() == 1,
    ensures
        routes_wf(s1),
        forall|q: Seq<u8>, x: Seq<u8>| #[trigger]
            routes(s1, q, x) <==> (routes(s0, q, x) && !(q == q0 && x == x0)),
{
    lemma_swap_remove_routes(s0, i);
    assert forall|q: Seq<u8>, x: Seq<u8>| #[trigger] routes(s1, q, x) <==> (routes(s0, q, x) && !(q
        == q0 && x == x0)) by {
        if routes(s0, q, x) && q != q0 {
            assert(routes(s1, q, x));
        }
        if routes(s0, q, x) && q == q0 && x != x0 {
            let k = choose|k: int|
                0 <= k < s0.len() && s0[k].proj@ == q && keys_contain(s0[k].peers@, x);
            assert(k == i);
            let m = choose|m: int| 0 <= m < s0[i].peers@.len() && s0[i].peers@[m]@ == x;
            assert(m == 0 && j == 0);
            assert(false);
        }
    }
}

/// One step of pruning: the kept prefix routes what the scanned prefix
/// routes, minus the pruned peer.
proof fn lemma_prune_step(
    s0: Seq<Route>,
    kept0: Seq<Route>,
    kept1: Seq<Route>,
    p0: Seq<PublicKey>,
    route: Route,
    i: int,
    x0: Seq<u8>,
    removed: bool,
)
    requires
        0 <= i < s0.len(),
        routes_wf(s0),
        routes_wf(kept0),
        s0[i].proj@ == route.proj@,
        s0[i].peers@ == p0,
        forall|q: Seq<u8>, x: Seq<u8>|
            routes(kept0, q, x) <==> (routes(s0.take(i), q, x) && x != x0),
        forall|q: Seq<u8>| routed(kept0, q) ==> routed(s0.take(i), q),
        kept1 == kept0.push(route),
        forall|x: Seq<u8>| keys_contain(route.peers@, x) <==> (keys_contain(p0, x) && x != x0),
        route.peers@.len() >= 1,
        keys_unique(route.peers@),
    ensures
        routes_wf(kept1),
        forall|q: Seq<u8>, x: Seq<u8>|
            routes(kept1, q, x) <==> (routes(s0.take(i + 1), q, x) && x != x0),
        forall|q: Seq<u8>| routed(kept1, q) ==> routed(s0.take(i + 1), q),
{
    assert(s0.take(i + 1) =~= s0.take(i).push(s0[i]));
    assert forall|q: Seq<u8>, x: Seq<u8>| routes(kept1, q, x) <==> (routes(s0.take(i + 1), q, x)
        && x != x0) by {
        lemma_routes_push(kept0, route, q, x);
        lemma_routes_push(s0.take(i), s0[i], q, x);
    }
    assert forall|q: Seq<u8>| routed(kept1, q) implies routed(s0.take(i + 1), q) by {
        let k = choose|k: int| 0 <= k < kept1.len() && kept1[k].proj@ == q;
        if k < kept0.len() {
            assert(routed(kept0, q)) by {
                assert(kept0[k].proj@ == q);
            }
            let m = choose|m: int| 0 <= m < s0.take(i).len() && s0.take(i)[m].proj@ == q;
            assert(s0.take(i + 1)[m].proj@ == q);
        } else {
            assert(kept1[k] == route);
            assert(s0.take(i + 1)[i].proj@ == q);
        }
    }
    assert(routes_wf(kept1)) by {
        assert forall|a: int, b: int|
            0 <= a < b < kept1.len() implies kept1[a].proj@ != kept1[b].proj@ by {
            if b == kept1.len() - 1 {
                assert(kept1[a] == kept0[a]);
                if kept1[a].proj@ == route.proj@ {
                    assert(routed(kept0, route.proj@)) by {
                        assert(kept0[a].proj@ == route.proj@);
                    }
                    let m = choose|m: int|
                        0 <= m < s0.take(i).len() && s0.take(i)[m].proj@ == route.proj@;
                    assert(s0[m].proj@ == s0[i].proj@);
                }
            }
        }
    }
}

/// One step of pruning where the entry lost its only peer and is dropped.
proof fn lemma_prune_step_dropped(
    s0: Seq<Route>,
    kept0: Seq<Route>,
    p0: Seq<PublicKey>,
    route: Route,
    i: int,
    x0: Seq<u8>,
)
    requires
        0 <= i < s0.len(),
        routes_wf(s0),
        routes_wf(kept0),
        s0[i].proj@ == route.proj@,
        s0[i].peers@ == p0,
        forall|q: Seq<u8>, x: Seq<u8>|
            routes(kept0, q, x) <==> (routes(s0.take(i), q, x) && x != x0),
        forall|q: Seq<u8>| routed(kept0, q) ==> routed(s0.take(i), q),
        forall|x: Seq<u8>| keys_contain(route.peers@, x) <==> (keys_contain(p0, x) && x != x0),
        route.peers@.len() == 0,
    ensures
        forall|q: Seq<u8>, x: Seq<u8>|
            routes(kept0, q, x) <==> (routes(s0.take(i + 1), q, x) && x != x0),
        forall|q: Seq<u8>| routed(kept0, q) ==> routed(s0.take(i + 1), q),
{
    assert(s0.take(i + 1) =~= s0.take(i).push(s0[i]));
    assert forall|q: Seq<u8>, x: Seq<u8>| routes(kept0, q, x) <==> (routes(s0.take(i + 1), q, x)
        && x != x0) by {
        lemma_routes_push(s0.take(i), s0[i], q, x);
        if s0[i].proj@ == q && keys_contain(s0[i].peers@, x) && x != x0 {
            assert(keys_contain(route.peers@, x));
            let m = choose|m: int| 0 <= m < route.peers@.len() && route.peers@[m]@ == x;
            assert(false);
        }
    }
    assert forall|q: Seq<u8>| routed(kept0, q) implies routed(s0.take(i + 1), q) by {
        let m = choose|m: int| 0 <= m < s0.take(i).len() && s0.take(i)[m].proj@ == q;
        assert(s0.take(i + 1)[m].proj@ == q);
    }
}

impl Route {
    /// Copy an entry; identifiers and keys are plain bytes.
    pub fn clone_route(&self) -> (r: Route)
        ensures
            r.proj == self.proj,
            r.peers@ == self.peers@,
    {
        let mut peers: Vec<PublicKey> = Vec::new();
        let mut k: usize = 0;
        while k < self.peers.len()
            invariant
                0 <= k <= self.peers@.len(),
                peers@ == self.peers@.take(k as int),
            decreases self.peers@.len() - k,
        {
            peers.push(self.peers[k]);
            proof {
                assert(peers@ =~= self.peers@.take(k as int + 1));
            }
            k += 1;
        }
        proof {
            assert(self.peers@.take(self.peers@.len() as int) =~= self.peers@);
        }
        Route { proj: self.proj, peers }
    }
}

} // verus!
