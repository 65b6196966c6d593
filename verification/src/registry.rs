//! The connection registry: one entry per in-flight connection, keyed by a
//! monotonic connection id, carrying the fields the access log reports and
//! the per-connection byte counters that the two pumps update.

use vstd::prelude::*;
use crate::stats::spec_sat_add;

verus! {

/// What the access log reports about one connection.
pub struct ConnectionInfo {
    /// The client's endpoint text, e.g. `127.0.0.1:51234`.
    pub src_ip: Vec<u8>,
    pub dst_domain: Vec<u8>,
    pub method: Vec<u8>,
    /// Second-resolution wall-clock text, set when the entry is created.
    pub start_time: Vec<u8>,
    pub traffic_in: u64,
    pub traffic_out: u64,
}

/// Relies on `chrono::Local::now` and `DateTime::format` with
/// `%Y-%m-%d %H:%M:%S`: the rendered text has a year of at least four
/// digits, fixed-width fields and separators, so at least 19 bytes.
#[verifier::external_body]
fn now_timestamp() -> (r: Vec<u8>)
    ensures
        r@.len() >= 19,
{
    chrono::Local::now().format("%Y-%m-%d %H:%M:%S").to_string().into_bytes()
}

/// A fresh entry for a just-parsed connection: counters at zero, the start
/// time stamped from the wall clock.
pub fn new_connection_info(src_ip: Vec<u8>, dst_domain: Vec<u8>, method: Vec<u8>) -> (r:
    ConnectionInfo)
    ensures
        r.src_ip == src_ip,
        r.dst_domain == dst_domain,
        r.method == method,
        r.traffic_in == 0,
        r.traffic_out == 0,
        r.start_time@.len() >= 19,
{
    ConnectionInfo {
        src_ip,
        dst_domain,
        method,
        start_time: now_timestamp(),
        traffic_in: 0,
        traffic_out: 0,
    }
}

/// Keys are pairwise distinct and all below the next id to hand out.
pub open spec fn spec_registry_wf(s: Seq<(u64, ConnectionInfo)>, next: int) -> bool {
    &&& forall|i: int, j: int|
        0 <= i < j < s.len() ==> (#[trigger] s[i]).0 != (#[trigger] s[j]).0
    &&& forall|i: int| 0 <= i < s.len() ==> (#[trigger] s[i]).0 < next
}

/// The first position holding key `k`, if any.
pub open spec fn spec_index_of_key(s: Seq<(u64, ConnectionInfo)>, k: u64) -> Option<int>
    decreases s.len()
{
    if s.len() == 0 {
        None
    } else if s[0].0 == k {
        Some(0)
    } else {
        match spec_index_of_key(s.skip(1), k) {
            Some(i) => Some(i + 1),
            None => None,
        }
    }
}

/// A found position is in range, holds the key, and is the first to do so.
pub proof fn lemma_index_of_key_some(s: Seq<(u64, ConnectionInfo)>, k: u64, i: int)
    requires
        spec_index_of_key(s, k) == Some(i),
    ensures
        0 <= i < s.len(),
        s[i].0 == k,
        forall|j: int| 0 <= j < i ==> (#[trigger] s[j]).0 != k,
    decreases s.len(),
{
    if s.len() > 0 && s[0].0 != k {
        let rest = s.skip(1);
        match spec_index_of_key(rest, k) {
            Some(i2) => {
                lemma_index_of_key_some(rest, k, i2);
                assert(forall|j: int| 0 <= j < i ==> (#[trigger] s[j]).0 != k) by {
                    assert(forall|j: int| 1 <= j < i ==> s[j] == rest[j - 1]);
                }
            },
            None => {},
        }
    }
}

/// The table of in-flight connections.
pub struct ConnectionRegistry {
    pub entries: Vec<(u64, ConnectionInfo)>,
    pub next_id: u64,
}

impl ConnectionRegistry {
    /// An empty registry.
    pub fn new() -> (r: ConnectionRegistry)
        ensures
            r.entries@.len() == 0,
            r.next_id == 0,
            spec_registry_wf(r.entries@, r.next_id as int),
    {
        ConnectionRegistry { entries: Vec::new(), next_id: 0 }
    }

    /// Add an entry under a fresh id and hand the id back.
    pub fn register(&mut self, info: ConnectionInfo) -> (id: u64)
        requires
            spec_registry_wf(old(self).entries@, old(self).next_id as int),
            old(self).next_id < u64::MAX,
        ensures
            id == old(self).next_id,
            final (self).next_id == id + 1,
            final (self).entries@ == old(self).entries@.push((id, info)),
            spec_index_of_key(old(self).entries@, id) is None,
            spec_registry_wf(final (self).entries@, final (self).next_id as int),
    {
        let id = self.next_id;
        proof {
            if spec_index_of_key(self.entries@, id) is Some {
                let i = spec_index_of_key(self.entries@, id)->Some_0;
                lemma_index_of_key_some(self.entries@, id, i);
            }
        }
        self.entries.push((id, info));
        self.next_id = self.next_id + 1;
        id
    }

    /// Find the position of `key`, if present.
    fn position_of(&self, key: u64) -> (r: Option<usize>)
        ensures
            match r {
                Some(i) => spec_index_of_key(self.entries@, key) == Some(i as int),
                None => spec_index_of_key(self.entries@, key) is None,
            },
    {
        let mut i: usize = 0;
        proof {
            match spec_index_of_key(self.entries@, key) {
                Some(p) => lemma_index_of_key_some(self.entries@, key, p),
                None => {},
            }
        }
        while i < self.entries.len()
            invariant
                i <= self.entries@.len(),
                spec_index_of_key(self.entries@, key) matches Some(p) ==> p >= i,
                forall|j: int| 0 <= j < i ==> (#[trigger] self.entries@[j]).0 != key,
            decreases self.entries@.len() - i,
        {
            if self.entries[i].0 == key {
                proof {
                    lemma_index_first_key(self.entries@, key, i as int);
                }
                return Some(i);
            }
            proof {
                match spec_index_of_key(self.entries@, key) {
                    Some(p) => lemma_index_of_key_some(self.entries@, key, p),
                    None => {},
                }
            }
            i += 1;
        }
        proof {
            match spec_index_of_key(self.entries@, key) {
                Some(p) => lemma_index_of_key_some(self.entries@, key, p),
                None => {},
            }
        }
        None
    }

    /// Add `n` bytes to the entry's ingress counter, saturating; a missing
    /// key changes nothing.
    pub fn add_in(&mut self, key: u64, n: u64)
        requires
            spec_registry_wf(old(self).entries@, old(self).next_id as int),
        ensures
            final (self).next_id == old(self).next_id,
            spec_registry_wf(final (self).entries@, final (self).next_id as int),
            match spec_index_of_key(old(self).entries@, key) {
                None => final (self).entries@ == old(self).entries@,
                Some(i) => {
                    let oldinfo = old(self).entries@[i].1;
                    final (self).entries@ == old(self).entries@.update(
                        i,
                        (
                            key,
                            ConnectionInfo {
                                traffic_in: spec_sat_add(oldinfo.traffic_in as int, n as int) as u64,
                                ..oldinfo
                            },
                        ),
                    )
                },
            },
    {
        match self.position_of(key) {
            None => {},
            Some(i) => {
                proof {
                    lemma_index_of_key_some(self.entries@, key, i as int);
                }
                let ghost oldseq = self.entries@;
                let (k, info) = self.entries.remove(i);
                let updated = ConnectionInfo {
                    traffic_in: info.traffic_in.saturating_add(n),
                    ..info
                };
                self.entries.insert(i, (k, updated));
                proof {
                    assert(self.entries@ =~= oldseq.update(
                        i as int,
                        (
                            key,
                            ConnectionInfo {
                                traffic_in: spec_sat_add(
                                    oldseq[i as int].1.traffic_in as int,
                                    n as int,
                                ) as u64,
                                ..oldseq[i as int].1
                            },
                        ),
                    ));
                }
            },
        }
    }

    /// Add `n` bytes to the entry's egress counter, saturating; a missing
    /// key changes nothing.
    pub fn add_out(&mut self, key: u64, n: u64)
        requires
            spec_registry_wf(old(self).entries@, old(self).next_id as int),
        ensures
            final (self).next_id == old(self).next_id,
            spec_registry_wf(final (self).entries@, final (self).next_id as int),
            match spec_index_of_key(old(self).entries@, key) {
                None => final (self).entries@ == old(self).entries@,
                Some(i) => {
                    let oldinfo = old(self).entries@[i].1;
                    final (self).entries@ == old(self).entries@.update(
                        i,
                        (
                            key,
                            ConnectionInfo {
                                traffic_out: spec_sat_add(oldinfo.traffic_out as int, n as int) as u64,
                                ..oldinfo
                            },
                        ),
                    )
                },
            },
    {
        match self.position_of(key) {
            None => {},
            Some(i) => {
                proof {
                    lemma_index_of_key_some(self.entries@, key, i as int);
                }
                let ghost oldseq = self.entries@;
                let (k, info) = self.entries.remove(i);
                let updated = ConnectionInfo {
                    traffic_out: info.traffic_out.saturating_add(n),
                    ..info
                };
                self.entries.insert(i, (k, updated));
                proof {
                    assert(self.entries@ =~= oldseq.update(
                        i as int,
                        (
                            key,
                            ConnectionInfo {
                                traffic_out: spec_sat_add(
                                    oldseq[i as int].1.traffic_out as int,
                                    n as int,
                                ) as u64,
                                ..oldseq[i as int].1
                            },
                        ),
                    ));
                }
            },
        }
    }

    /// Take the entry for `key` out of the table, handing back its info so
    /// the caller can emit the one access-log line.
    pub fn remove(&mut self, key: u64) -> (r: Option<ConnectionInfo>)
        requires
            spec_registry_wf(old(self).entries@, old(self).next_id as int),
        ensures
            final (self).next_id == old(self).next_id,
            spec_registry_wf(final (self).entries@, final (self).next_id as int),
            match spec_index_of_key(old(self).entries@, key) {
                None => final (self).entries@ == old(self).entries@ && r is None,
                Some(i) => final (self).entries@ == old(self).entries@.remove(i) && r == Some(
                    old(self).entries@[i].1,
                ),
            },
    {
        match self.position_of(key) {
            None => None,
            Some(i) => {
                proof {
                    lemma_index_of_key_some(self.entries@, key, i as int);
                }
                let (_k, info) = self.entries.remove(i);
                Some(info)
            },
        }
    }
}

/// If position `i` holds the key and no earlier one does, the search finds
/// exactly `i`.
proof fn lemma_index_first_key(s: Seq<(u64, ConnectionInfo)>, k: u64, i: int)
    requires
        0 <= i < s.len(),
        s[i].0 == k,
        forall|j: int| 0 <= j < i ==> (#[trigger] s[j]).0 != k,
    ensures
        spec_index_of_key(s, k) == Some(i),
    decreases i,
{
    if i > 0 {
        assert(forall|j: int| 0 <= j < i - 1 ==> (#[trigger] s.skip(1)[j]).0 != k) by {
            assert(forall|j: int| 0 <= j < i - 1 ==> s.skip(1)[j] == s[j + 1]);
        }
        lemma_index_first_key(s.skip(1), k, i - 1);
    }
}

/// The sum of a sequence of chunk sizes.
pub open spec fn spec_sum(ns: Seq<u64>) -> int
    decreases ns.len()
{
    if ns.len() == 0 {
        0
    } else {
        ns[0] + spec_sum(ns.skip(1))
    }
}

/// A per-connection byte counter after a run of saturating additions.
pub open spec fn spec_fold_sat(t0: int, ns: Seq<u64>) -> int
    decreases ns.len()
{
    if ns.len() == 0 {
        t0
    } else {
        spec_fold_sat(spec_sat_add(t0, ns[0] as int), ns.skip(1))
    }
}

/// Per-connection accounting is exact: a counter that starts at `t0` and
/// takes one saturating addition per copied chunk ends at `t0` plus the
/// sum of the chunk sizes, whenever that sum stays in range. This is the
/// relation between an access-log field and the bytes the pumps observed.
pub proof fn lemma_traffic_accounting(t0: int, ns: Seq<u64>)
    requires
        0 <= t0,
        t0 + spec_sum(ns) <= u64::MAX,
    ensures
        spec_fold_sat(t0, ns) == t0 + spec_sum(ns),
    decreases ns.len(),
{
    if ns.len() > 0 {
        lemma_sum_nonneg(ns.skip(1));
        lemma_traffic_accounting(t0 + ns[0], ns.skip(1));
    }
}

proof fn lemma_sum_nonneg(ns: Seq<u64>)
    ensures
        spec_sum(ns) >= 0,
    decreases ns.len(),
{
    if ns.len() > 0 {
        lemma_sum_nonneg(ns.skip(1));
    }
}

} // verus!
