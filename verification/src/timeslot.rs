//! Per-timeslot aggregation of perf-counter deltas.
//!
//! A timeslot holds one entry per pid: the task identity as known at fold
//! time, and the saturating sums of the counter deltas. Entries keep their
//! insertion order, which is the row order handed to the writer.

use vstd::prelude::*;

use crate::sat_add;
use crate::sat_add_u64;
use crate::task_table::TaskMetadata;

verus! {

/// Summed counter deltas for one task in one timeslot.
#[derive(Clone, Copy, PartialEq, Eq, Structural, Debug)]
pub struct Metric {
    pub cycles: u64,
    pub instructions: u64,
    pub llc_misses: u64,
    pub cache_references: u64,
    pub time_ns: u64,
}

impl Metric {
    pub fn from_deltas(
        cycles: u64,
        instructions: u64,
        llc_misses: u64,
        cache_references: u64,
        time_ns: u64,
    ) -> (r: Metric)
        ensures
            r == (Metric { cycles, instructions, llc_misses, cache_references, time_ns }),
    {
        Metric { cycles, instructions, llc_misses, cache_references, time_ns }
    }

    pub open spec fn zero_spec() -> Metric {
        Metric { cycles: 0, instructions: 0, llc_misses: 0, cache_references: 0, time_ns: 0 }
    }
}

/// Field-wise saturating addition of two metrics.
pub open spec fn metric_add(a: Metric, b: Metric) -> Metric {
    Metric {
        cycles: sat_add(a.cycles as nat, b.cycles as nat) as u64,
        instructions: sat_add(a.instructions as nat, b.instructions as nat) as u64,
        llc_misses: sat_add(a.llc_misses as nat, b.llc_misses as nat) as u64,
        cache_references: sat_add(a.cache_references as nat, b.cache_references as nat) as u64,
        time_ns: sat_add(a.time_ns as nat, b.time_ns as nat) as u64,
    }
}

pub proof fn lemma_metric_add_assoc(a: Metric, b: Metric, c: Metric)
    ensures
        metric_add(metric_add(a, b), c) == metric_add(a, metric_add(b, c)),
{
}

/// One row of a timeslot: the task identity seen at fold time (if any) and
/// the accumulated metric.
#[derive(Clone, Debug)]
pub struct TimeslotEntry {
    pub metadata: Option<TaskMetadata>,
    pub metric: Metric,
}

/// The aggregate for one wall-clock timeslot, keyed by pid.
#[derive(Debug)]
pub struct TimeslotData {
    timestamp: u64,
    entries: Vec<(u32, TimeslotEntry)>,
}

/// The map described by an association list, later entries winning.
pub open spec fn assoc_map(s: Seq<(u32, TimeslotEntry)>) -> Map<u32, TimeslotEntry>
    decreases s.len(),
{
    if s.len() == 0 {
        Map::empty()
    } else {
        assoc_map(s.drop_last()).insert(s.last().0, s.last().1)
    }
}

/// Folding one record into the aggregate map: metrics add; the identity is
/// set on first insertion and replaced whenever a record carries one.
pub open spec fn fold_one(
    m: Map<u32, TimeslotEntry>,
    pid: u32,
    meta: Option<TaskMetadata>,
    metric: Metric,
) -> Map<u32, TimeslotEntry> {
    if m.contains_key(pid) {
        m.insert(
            pid,
            TimeslotEntry {
                metadata: if meta is Some {
                    meta
                } else {
                    m[pid].metadata
                },
                metric: metric_add(m[pid].metric, metric),
            },
        )
    } else {
        m.insert(pid, TimeslotEntry { metadata: meta, metric })
    }
}

/// One perf record as folded: pid, the metadata found for it, its deltas.
pub struct FoldRecord {
    pub pid: u32,
    pub meta: Option<TaskMetadata>,
    pub metric: Metric,
}

/// Folding a sequence of records in order.
pub open spec fn fold_records(
    m: Map<u32, TimeslotEntry>,
    recs: Seq<FoldRecord>,
) -> Map<u32, TimeslotEntry>
    decreases recs.len(),
{
    if recs.len() == 0 {
        m
    } else {
        let r = recs.last();
        fold_one(fold_records(m, recs.drop_last()), r.pid, r.meta, r.metric)
    }
}

/// Merging two independently folded aggregates: metrics add per pid; the
/// identity comes from the later aggregate when it saw one.
pub open spec fn merge_entry(x: TimeslotEntry, y: TimeslotEntry) -> TimeslotEntry {
    TimeslotEntry {
        metadata: if y.metadata is Some {
            y.metadata
        } else {
            x.metadata
        },
        metric: metric_add(x.metric, y.metric),
    }
}

pub open spec fn merge_maps(
    x: Map<u32, TimeslotEntry>,
    y: Map<u32, TimeslotEntry>,
) -> Map<u32, TimeslotEntry> {
    Map::new(
        |k: u32| x.contains_key(k) || y.contains_key(k),
        |k: u32|
            if x.contains_key(k) && y.contains_key(k) {
                merge_entry(x[k], y[k])
            } else if y.contains_key(k) {
                y[k]
            } else {
                x[k]
            },
    )
}

/// Timeslot fold splitting: folding a whole sequence equals folding the two
/// halves independently — the second from an empty aggregate — and merging
/// the results by per-pid summation. Splitting into more pieces follows by
/// applying the law to each further split.
pub proof fn lemma_fold_split(
    m: Map<u32, TimeslotEntry>,
    a: Seq<FoldRecord>,
    b: Seq<FoldRecord>,
)
    ensures
        fold_records(m, a + b) == merge_maps(fold_records(m, a), fold_records(Map::empty(), b)),
    decreases b.len(),
{
    let fa = fold_records(m, a);
    if b.len() == 0 {
        assert(a + b =~= a);
        assert(merge_maps(fa, fold_records(Map::empty(), b)) =~= fa);
    } else {
        let b0 = b.drop_last();
        let r = b.last();
        lemma_fold_split(m, a, b0);
        assert((a + b).drop_last() =~= a + b0);
        let fb0 = fold_records(Map::empty(), b0);
        assert(fold_records(m, a + b) == fold_one(merge_maps(fa, fb0), r.pid, r.meta, r.metric));
        assert(fold_one(merge_maps(fa, fb0), r.pid, r.meta, r.metric) =~= merge_maps(
            fa,
            fold_one(fb0, r.pid, r.meta, r.metric),
        )) by {
            lemma_metric_add_assoc(
                if fa.contains_key(r.pid) {
                    fa[r.pid].metric
                } else {
                    Metric::zero_spec()
                },
                if fb0.contains_key(r.pid) {
                    fb0[r.pid].metric
                } else {
                    Metric::zero_spec()
                },
                r.metric,
            );
        }
    }
}

/// Commutativity of metric summation.
pub proof fn lemma_metric_add_comm(a: Metric, b: Metric)
    ensures
        metric_add(a, b) == metric_add(b, a),
{
}

/// Timeslot fold multiset independence: two adjacent records swap whenever
/// they concern different pids, or the same pid under the same identity —
/// the one case the deferred-removal design guarantees within a timeslot.
/// Any reordering of such records is a chain of adjacent swaps, so the
/// aggregate depends only on the multiset of records.
pub proof fn lemma_fold_one_comm(
    m: Map<u32, TimeslotEntry>,
    p1: u32,
    meta1: Option<TaskMetadata>,
    x1: Metric,
    p2: u32,
    meta2: Option<TaskMetadata>,
    x2: Metric,
)
    requires
        p1 != p2 || meta1 == meta2,
    ensures
        fold_one(fold_one(m, p1, meta1, x1), p2, meta2, x2) == fold_one(
            fold_one(m, p2, meta2, x2),
            p1,
            meta1,
            x1,
        ),
{
    if p1 != p2 {
        assert(fold_one(fold_one(m, p1, meta1, x1), p2, meta2, x2) =~= fold_one(
            fold_one(m, p2, meta2, x2),
            p1,
            meta1,
            x1,
        ));
    } else {
        let e0 = if m.contains_key(p1) {
            m[p1].metric
        } else {
            Metric::zero_spec()
        };
        lemma_metric_add_assoc(e0, x1, x2);
        lemma_metric_add_assoc(e0, x2, x1);
        lemma_metric_add_comm(x1, x2);
        assert(fold_one(fold_one(m, p1, meta1, x1), p2, meta2, x2) =~= fold_one(
            fold_one(m, p2, meta2, x2),
            p1,
            meta1,
            x1,
        ));
    }
}

impl TimeslotData {
    /// The aggregate as a map keyed by pid.
    pub closed spec fn aggregate(&self) -> Map<u32, TimeslotEntry> {
        assoc_map(self.entries@)
    }

    /// The rows in insertion order.
    pub closed spec fn rows(&self) -> Seq<(u32, TimeslotEntry)> {
        self.entries@
    }

    pub closed spec fn timestamp_spec(&self) -> u64 {
        self.timestamp
    }

    /// Each pid occupies at most one row.
    pub closed spec fn wf(&self) -> bool {
        forall|i: int, j: int|
            0 <= i < j < self.entries@.len() ==> (#[trigger] self.entries@[i]).0 != (
            #[trigger] self.entries@[j]).0
    }

    pub fn new(timestamp: u64) -> (r: TimeslotData)
        ensures
            r.timestamp_spec() == timestamp,
            r.aggregate() == Map::<u32, TimeslotEntry>::empty(),
            r.rows() == Seq::<(u32, TimeslotEntry)>::empty(),
            r.wf(),
    {
        TimeslotData { timestamp, entries: Vec::new() }
    }

    pub fn timestamp(&self) -> (r: u64)
        ensures
            r == self.timestamp_spec(),
    {
        self.timestamp
    }

    /// The number of per-pid rows.
    pub fn len(&self) -> (r: usize)
        ensures
            r == self.rows().len(),
    {
        self.entries.len()
    }

    /// Borrow row `i` in insertion order.
    pub fn row(&self, i: usize) -> (r: &(u32, TimeslotEntry))
        requires
            i < self.rows().len(),
        ensures
            *r == self.rows()[i as int],
    {
        &self.entries[i]
    }

    /// Fold one perf record into the aggregate.
    pub fn update(&mut self, pid: u32, metadata: Option<TaskMetadata>, metric: Metric)
        requires
            old(self).wf(),
        ensures
            final(self).wf(),
            final(self).timestamp_spec() == old(self).timestamp_spec(),
            final(self).aggregate() == fold_one(old(self).aggregate(), pid, metadata, metric),
            old(self).aggregate().contains_key(pid) ==> final(self).rows().len() == old(
                self,
            ).rows().len(),
            !old(self).aggregate().contains_key(pid) ==> final(self).rows() == old(
                self,
            ).rows().push((pid, TimeslotEntry { metadata, metric })),
    {
        let n = self.entries.len();
        let mut i: usize = 0;
        while i < n
            invariant
                i <= n,
                n == self.entries@.len(),
                *self == *old(self),
                old(self).wf(),
                forall|j: int| 0 <= j < i ==> (#[trigger] self.entries@[j]).0 != pid,
            decreases n - i,
        {
            if self.entries[i].0 == pid {
                let (k, prior) = self.entries.remove(i);
                let summed = Metric {
                    cycles: sat_add_u64(prior.metric.cycles, metric.cycles),
                    instructions: sat_add_u64(prior.metric.instructions, metric.instructions),
                    llc_misses: sat_add_u64(prior.metric.llc_misses, metric.llc_misses),
                    cache_references: sat_add_u64(
                        prior.metric.cache_references,
                        metric.cache_references,
                    ),
                    time_ns: sat_add_u64(prior.metric.time_ns, metric.time_ns),
                };
                // identity set on first insertion stays until a record
                // carries a (possibly different) one: last writer wins
                let meta_new = if metadata.is_some() {
                    metadata
                } else {
                    prior.metadata
                };
                let entry = TimeslotEntry { metadata: meta_new, metric: summed };
                self.entries.insert(i, (k, entry));
                proof {
                    assert(self.entries@ =~= old(self).entries@.update(
                        i as int,
                        (pid, TimeslotEntry { metadata: meta_new, metric: summed }),
                    ));
                }
                proof {
                    lemma_assoc_map_update(old(self).entries@, self.entries@, i as int);
                    assert(old(self).aggregate().contains_key(pid)) by {
                        lemma_assoc_map_contains(old(self).entries@, i as int);
                    }
                    assert(final(self).aggregate() =~= fold_one(
                        old(self).aggregate(),
                        pid,
                        metadata,
                        metric,
                    )) by {
                        lemma_assoc_map_index(old(self).entries@, i as int);
                    }
                }
                return ;
            }
            i += 1;
        }
        self.entries.push((pid, TimeslotEntry { metadata, metric }));
        proof {
            assert(self.entries@.drop_last() =~= old(self).entries@);
            assert(!old(self).aggregate().contains_key(pid)) by {
                lemma_assoc_map_keys(old(self).entries@, pid);
            }
            assert(final(self).aggregate() =~= fold_one(
                old(self).aggregate(),
                pid,
                metadata,
                metric,
            ));
        }
    }
}

/// A key occurs in the association map exactly when some row holds it.
proof fn lemma_assoc_map_keys(s: Seq<(u32, TimeslotEntry)>, pid: u32)
    ensures
        assoc_map(s).contains_key(pid) <==> exists|i: int|
            0 <= i < s.len() && (#[trigger] s[i]).0 == pid,
    decreases s.len(),
{
    if s.len() > 0 {
        lemma_assoc_map_keys(s.drop_last(), pid);
        if s.last().0 == pid {
            assert((s[s.len() - 1]).0 == pid);
        } else if assoc_map(s).contains_key(pid) {
            let i = choose|i: int| 0 <= i < s.drop_last().len() && (#[trigger] s.drop_last()[i]).0
                == pid;
            assert((s[i]).0 == pid);
        } else {
            if exists|i: int| 0 <= i < s.len() && (#[trigger] s[i]).0 == pid {
                let i = choose|i: int| 0 <= i < s.len() && (#[trigger] s[i]).0 == pid;
                assert((s.drop_last()[i]).0 == pid);
            }
        }
    }
}

/// With unique keys, the association map holds row `i`'s entry at its key.
proof fn lemma_assoc_map_index(s: Seq<(u32, TimeslotEntry)>, i: int)
    requires
        0 <= i < s.len(),
        forall|p: int, q: int| 0 <= p < q < s.len() ==> (#[trigger] s[p]).0 != (#[trigger] s[q]).0,
    ensures
        assoc_map(s).contains_key(s[i].0),
        assoc_map(s)[s[i].0] == s[i].1,
    decreases s.len(),
{
    if i == s.len() - 1 {
        lemma_assoc_map_contains(s, i);
    } else {
        lemma_assoc_map_index(s.drop_last(), i);
        assert(s.drop_last()[i] == s[i]);
        assert(s.last().0 != s[i].0);
    }
}

proof fn lemma_assoc_map_contains(s: Seq<(u32, TimeslotEntry)>, i: int)
    requires
        0 <= i < s.len(),
    ensures
        assoc_map(s).contains_key(s[i].0),
    decreases s.len(),
{
    if i < s.len() - 1 {
        lemma_assoc_map_contains(s.drop_last(), i);
        assert(s.drop_last()[i] == s[i]);
    }
}

/// Updating row `i` in place updates the association map at that key alone,
/// provided keys are unique and the key is unchanged.
proof fn lemma_assoc_map_update(s0: Seq<(u32, TimeslotEntry)>, s1: Seq<(u32, TimeslotEntry)>, i: int)
    requires
        0 <= i < s0.len(),
        s1.len() == s0.len(),
        forall|j: int| 0 <= j < s0.len() && j != i ==> s1[j] == s0[j],
        s1[i].0 == s0[i].0,
        forall|p: int, q: int| 0 <= p < q < s0.len() ==> (#[trigger] s0[p]).0 != (
        #[trigger] s0[q]).0,
    ensures
        assoc_map(s1) == assoc_map(s0).insert(s1[i].0, s1[i].1),
    decreases s0.len(),
{
    if i == s0.len() - 1 {
        assert(s1.drop_last() =~= s0.drop_last());
        assert(assoc_map(s1) =~= assoc_map(s0).insert(s1[i].0, s1[i].1));
    } else {
        lemma_assoc_map_update(s0.drop_last(), s1.drop_last(), i);
        assert(s1.last() == s0.last());
        assert(s0.last().0 != s0[i].0);
        assert(assoc_map(s1) =~= assoc_map(s0).insert(s1[i].0, s1[i].1));
    }
}

} // verus!
