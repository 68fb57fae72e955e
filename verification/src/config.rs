//! Node configuration and the project tracking policy.

use vstd::prelude::*;
use vstd::string::StringExecFns;

use crate::identity::ProjId;
use crate::message::Addr;
use crate::{NETWORK_MAGIC, PROTOCOL_VERSION};

verus! {

/// Whether a sequence of identifiers holds the given digest.
pub open spec fn ids_contain(s: Seq<ProjId>, p: Seq<u8>) -> bool {
    exists|i: int| 0 <= i < s.len() && s[i]@ == p
}

/// Whether a project is tracked under the given policy.
pub open spec fn policy_tracks(t: &ProjectTracking, p: Seq<u8>) -> bool {
    match t {
        ProjectTracking::Allowed(v) => ids_contain(v@, p),
        ProjectTracking::Blocked(v) => !ids_contain(v@, p),
    }
}

/// The local rule governing which projects this peer mirrors.
#[derive(Clone, Debug)]
pub enum ProjectTracking {
    /// Track only the listed projects.
    Allowed(Vec<ProjId>),
    /// Track everything except the listed projects.
    Blocked(Vec<ProjId>),
}

/// Pushing an identifier extends membership by exactly its digest.
pub proof fn lemma_ids_push(s: Seq<ProjId>, p: ProjId)
    ensures
        forall|q: Seq<u8>| ids_contain(s.push(p), q) <==> (ids_contain(s, q) || q == p@),
{
    assert forall|q: Seq<u8>| ids_contain(s.push(p), q) <==> (ids_contain(s, q) || q == p@) by {
        if ids_contain(s.push(p), q) {
            let j = choose|j: int| 0 <= j < s.push(p).len() && s.push(p)[j]@ == q;
            if j < s.len() {
                assert(s[j]@ == q);
            } else {
                assert(s.push(p)[j] == p);
            }
        }
        if ids_contain(s, q) {
            let j = choose|j: int| 0 <= j < s.len() && s[j]@ == q;
            assert(s.push(p)[j]@ == q);
        }
        if q == p@ {
            assert(s.push(p)[s.len() as int]@ == q);
        }
    }
}

/// Swap-removing an identifier keeps every other digest's membership.
pub proof fn lemma_ids_swap_remove(s: Seq<ProjId>, j: int, p: Seq<u8>)
    requires
        0 <= j < s.len(),
        s[j]@ == p,
    ensures
        forall|q: Seq<u8>|
            q != p ==> ids_contain(crate::routing::seq_swap_remove(s, j), q) == ids_contain(s, q),
        forall|q: Seq<u8>|
            ids_contain(crate::routing::seq_swap_remove(s, j), q) ==> ids_contain(s, q),
{
    let t = crate::routing::seq_swap_remove(s, j);
    assert(forall|k: int|
        0 <= k < t.len() ==> t[k] == (if k == j && k != s.len() - 1 {
            s[s.len() - 1]
        } else {
            s[k]
        }));
    assert forall|q: Seq<u8>| ids_contain(t, q) implies ids_contain(s, q) by {
        let k = choose|k: int| 0 <= k < t.len() && t[k]@ == q;
        if k == j && k != s.len() - 1 {
            assert(s[s.len() - 1]@ == q);
        } else {
            assert(s[k]@ == q);
        }
    }
    assert forall|q: Seq<u8>| q != p && ids_contain(s, q) implies ids_contain(t, q) by {
        let k = choose|k: int| 0 <= k < s.len() && s[k]@ == q;
        assert(k != j);
        if k == s.len() - 1 {
            assert(j < s.len() - 1);
            assert(t[j]@ == q);
        } else {
            assert(t[k]@ == q);
        }
    }
}

/// Find a digest in a list of identifiers.
pub(crate) fn find_id(v: &Vec<ProjId>, p: &ProjId) -> (r: Option<usize>)
    ensures
        r matches Some(i) ==> i < v@.len() && v@[i as int]@ == p@,
        r is Some ==> ids_contain(v@, p@),
        r is None ==> !ids_contain(v@, p@),
{
    let mut i: usize = 0;
    while i < v.len()
        invariant
            0 <= i <= v@.len(),
            forall|j: int| 0 <= j < i ==> v@[j]@ != p@,
        decreases v@.len() - i,
    {
        if v[i].equals(p) {
            proof {
                assert(ids_contain(v@, p@)) by {
                    assert(v@[i as int]@ == p@);
                }
            }
            return Some(i);
        }
        i += 1;
    }
    None
}

/// Node configuration; immutable after construction.
#[derive(Clone, Debug)]
pub struct Config {
    /// Identifies the network; mismatched peers are dropped.
    pub network_magic: u32,
    /// Addresses this node listens on.
    pub listen: Vec<Addr>,
    /// Persistent peers, re-dialed after transient disconnections.
    pub connect: Vec<Addr>,
    /// Which projects this node mirrors.
    pub project_tracking: ProjectTracking,
    /// Free-form client identification.
    pub user_agent: String,
    /// Spoken protocol version; peers on another version are dropped.
    pub protocol_version: u32,
    /// Where this node serves git data, as told to peers.
    pub git_url: String,
}

/// Whether an address is among the persistent peers.
pub open spec fn addrs_contain(s: Seq<Addr>, a: Addr) -> bool {
    exists|i: int| 0 <= i < s.len() && s[i] == a
}

impl Config {
    /// Whether the given project is tracked.
    pub fn is_tracking(&self, proj: &ProjId) -> (r: bool)
        ensures
            r == policy_tracks(&self.project_tracking, proj@),
    {
        match &self.project_tracking {
            ProjectTracking::Allowed(v) => find_id(v, proj).is_some(),
            ProjectTracking::Blocked(v) => find_id(v, proj).is_none(),
        }
    }

    /// Whether the given address belongs to a persistent peer.
    pub fn is_persistent(&self, addr: &Addr) -> (r: bool)
        ensures
            r == addrs_contain(self.connect@, *addr),
    {
        let mut i: usize = 0;
        while i < self.connect.len()
            invariant
                0 <= i <= self.connect@.len(),
                forall|j: int| 0 <= j < i ==> self.connect@[j] != *addr,
            decreases self.connect@.len() - i,
        {
            if self.connect[i] == *addr {
                return true;
            }
            i += 1;
        }
        false
    }
}

/// Two configurations that agree on everything but the tracking policy.
pub open spec fn same_but_tracking(a: Config, b: Config) -> bool {
    &&& a.network_magic == b.network_magic
    &&& a.listen@ == b.listen@
    &&& a.connect@ == b.connect@
    &&& a.user_agent@ == b.user_agent@
    &&& a.protocol_version == b.protocol_version
    &&& a.git_url@ == b.git_url@
}

impl Default for Config {
    /// The default configuration: track everything, no persistent peers.
    fn default() -> (r: Config)
        ensures
            r.network_magic == NETWORK_MAGIC,
            r.listen@.len() == 0,
            r.connect@.len() == 0,
            r.project_tracking matches ProjectTracking::Blocked(v) && v@.len() == 0,
            r.protocol_version == PROTOCOL_VERSION,
    {
        Config {
            network_magic: NETWORK_MAGIC,
            listen: Vec::new(),
            connect: Vec::new(),
            project_tracking: ProjectTracking::Blocked(Vec::new()),
            user_agent: String::new(),
            protocol_version: PROTOCOL_VERSION,
            git_url: String::new(),
        }
    }
}

} // verus!
