//! The single-threaded event processor: folds perf measurements into the
//! current timeslot and rolls the timeslot over on the sync-timer boundary.
//!
//! All handlers run on the one thread that drains the kernel rings, so the
//! processor needs no internal synchronization. The caller owns the channel
//! to the writer: `on_new_timeslot` hands the completed aggregate back, and
//! a failed (non-blocking) send is reported through `note_send_error`.

use vstd::prelude::*;

use crate::events::{le32, le64, parse_perf_measurement, perf_measurement_spec};
use crate::task_table::BpfTaskTracker;
use crate::timeslot::{fold_one, Metric, TimeslotData, TimeslotEntry};

verus! {

/// Folds perf measurements against the task table into per-timeslot
/// aggregates.
pub struct PerfEventProcessor {
    current_timeslot: TimeslotData,
    task_tracker: BpfTaskTracker,
    parse_errors: u64,
    send_errors: u64,
}

impl PerfEventProcessor {
    pub closed spec fn aggregate(&self) -> Map<u32, TimeslotEntry> {
        self.current_timeslot.aggregate()
    }

    pub closed spec fn rows(&self) -> Seq<(u32, TimeslotEntry)> {
        self.current_timeslot.rows()
    }

    pub closed spec fn timestamp(&self) -> u64 {
        self.current_timeslot.timestamp_spec()
    }

    pub closed spec fn tasks(&self) -> Map<u32, crate::task_table::TaskMetadata> {
        self.task_tracker.tasks()
    }

    pub closed spec fn pending(&self) -> Set<u32> {
        self.task_tracker.pending()
    }

    pub closed spec fn send_errors_spec(&self) -> u64 {
        self.send_errors
    }

    pub closed spec fn wf(&self) -> bool {
        self.current_timeslot.wf()
    }

    pub fn new() -> (r: PerfEventProcessor)
        ensures
            r.wf(),
            r.timestamp() == 0,
            r.aggregate() == Map::<u32, TimeslotEntry>::empty(),
            r.tasks() == Map::<u32, crate::task_table::TaskMetadata>::empty(),
            r.pending() == Set::<u32>::empty(),
            r.send_errors_spec() == 0,
    {
        PerfEventProcessor {
            current_timeslot: TimeslotData::new(0),
            task_tracker: BpfTaskTracker::new(),
            parse_errors: 0,
            send_errors: 0,
        }
    }

    /// Handle a task-metadata record.
    pub fn handle_task_metadata(&mut self, data: &[u8])
        requires
            old(self).wf(),
        ensures
            final(self).wf(),
            final(self).aggregate() == old(self).aggregate(),
            final(self).timestamp() == old(self).timestamp(),
            crate::events::task_metadata_wf(data@) ==> {
                let pid = le32(data@, 4) as u32;
                &&& final(self).tasks().contains_key(pid)
                &&& final(self).tasks()[pid].pid == pid
                &&& final(self).tasks()[pid].comm@ == data@.subrange(8, 24)
                &&& final(self).tasks()[pid].cgroup_id == le64(data@, 24) as u64
                &&& final(self).tasks().remove(pid) == old(self).tasks().remove(pid)
                &&& final(self).pending() == old(self).pending()
            },
            !crate::events::task_metadata_wf(data@) ==> final(self).tasks() == old(self).tasks()
                && final(self).pending() == old(self).pending(),
    {
        self.task_tracker.handle_task_metadata(data);
    }

    /// Handle a task-free record: the pid is queued, not yet removed.
    pub fn handle_task_free(&mut self, data: &[u8])
        requires
            old(self).wf(),
        ensures
            final(self).wf(),
            final(self).aggregate() == old(self).aggregate(),
            final(self).timestamp() == old(self).timestamp(),
            final(self).tasks() == old(self).tasks(),
            match crate::events::task_free_spec(data@) {
                Some(msg) => final(self).pending() == old(self).pending().insert(msg.pid),
                None => final(self).pending() == old(self).pending(),
            },
    {
        self.task_tracker.handle_task_free(data);
    }

    /// Handle a perf-measurement record: look the pid up in the task table —
    /// a pid queued for removal still resolves — and fold the deltas into
    /// the current timeslot. Malformed records are counted and skipped.
    pub fn handle_perf_measurement(&mut self, data: &[u8])
        requires
            old(self).wf(),
        ensures
            final(self).wf(),
            final(self).tasks() == old(self).tasks(),
            final(self).pending() == old(self).pending(),
            final(self).timestamp() == old(self).timestamp(),
            perf_step(old(self).tasks(), old(self).aggregate(), final(self).aggregate(), data@),
    {
        match parse_perf_measurement(data) {
            Some(m) => {
                let metric = Metric::from_deltas(
                    m.cycles_delta,
                    m.instructions_delta,
                    m.llc_misses_delta,
                    m.cache_references_delta,
                    m.time_delta_ns,
                );
                let metadata = match self.task_tracker.lookup(m.pid) {
                    Some(meta) => Some(meta.clone()),
                    None => None,
                };
                let pid = m.pid;
                let meta_ghost = Ghost(metadata);
                self.current_timeslot.update(pid, metadata, metric);
                proof {
                    assert(meta_like(meta_ghost@, lookup_meta(old(self).tasks(), pid)));
                    assert(self.aggregate() =~= fold_one(
                        old(self).aggregate(),
                        pid,
                        meta_ghost@,
                        metric,
                    ));
                    assert(perf_step(
                        old(self).tasks(),
                        old(self).aggregate(),
                        self.aggregate(),
                        data@,
                    ));
                }
            },
            None => {
                self.parse_errors = if self.parse_errors < u64::MAX {
                    self.parse_errors + 1
                } else {
                    self.parse_errors
                };
            },
        }
    }

    /// The timeslot boundary: swap in a fresh aggregate keyed by the new
    /// timeslot, hand the completed one back for the writer, and only then
    /// flush the queued task removals — so every record folded into the
    /// closed slot, however late, resolved against the full table.
    pub fn on_new_timeslot(&mut self, new_timeslot: u64) -> (completed: TimeslotData)
        requires
            old(self).wf(),
        ensures
            final(self).wf(),
            completed.wf(),
            completed.timestamp_spec() == old(self).timestamp(),
            completed.aggregate() == old(self).aggregate(),
            completed.rows() == old(self).rows(),
            final(self).timestamp() == new_timeslot,
            final(self).aggregate() == Map::<u32, TimeslotEntry>::empty(),
            final(self).tasks() == old(self).tasks().remove_keys(old(self).pending()),
            final(self).pending() == Set::<u32>::empty(),
    {
        let mut fresh = TimeslotData::new(new_timeslot);
        core::mem::swap(&mut self.current_timeslot, &mut fresh);
        self.task_tracker.flush_removals();
        fresh
    }

    /// Record that the writer channel was full and a timeslot was dropped.
    pub fn note_send_error(&mut self)
        ensures
            final(self).wf() == old(self).wf(),
            final(self).aggregate() == old(self).aggregate(),
            final(self).tasks() == old(self).tasks(),
            final(self).pending() == old(self).pending(),
            old(self).send_errors_spec() < u64::MAX ==> final(self).send_errors_spec() == old(
                self,
            ).send_errors_spec() + 1,
            old(self).send_errors_spec() == u64::MAX ==> final(self).send_errors_spec()
                == u64::MAX,
    {
        self.send_errors = if self.send_errors < u64::MAX {
            self.send_errors + 1
        } else {
            self.send_errors
        };
    }

    /// How many completed timeslots were dropped on a full channel.
    pub fn send_errors(&self) -> (r: u64)
        ensures
            r == self.send_errors_spec(),
    {
        self.send_errors
    }
}

/// The deltas a perf record carries, as a metric.
pub open spec fn metric_of(m: crate::events::PerfMeasurementMsg) -> Metric {
    Metric {
        cycles: m.cycles_delta,
        instructions: m.instructions_delta,
        llc_misses: m.llc_misses_delta,
        cache_references: m.cache_references_delta,
        time_ns: m.time_delta_ns,
    }
}

/// What the task table resolves for a pid.
pub open spec fn lookup_meta(
    tasks: Map<u32, crate::task_table::TaskMetadata>,
    pid: u32,
) -> Option<crate::task_table::TaskMetadata> {
    if tasks.contains_key(pid) {
        Some(tasks[pid])
    } else {
        None
    }
}

/// How one perf record takes the aggregate from `pre` to `post`: a
/// well-formed record folds its deltas under the identity the table
/// resolves; a malformed one changes nothing.
pub open spec fn perf_step(
    tasks: Map<u32, crate::task_table::TaskMetadata>,
    pre: Map<u32, TimeslotEntry>,
    post: Map<u32, TimeslotEntry>,
    data: Seq<u8>,
) -> bool {
    match perf_measurement_spec(data) {
        Some(m) => exists|meta2: Option<crate::task_table::TaskMetadata>|
            #[trigger] meta_like(meta2, lookup_meta(tasks, m.pid)) && post =~= fold_one(
                pre,
                m.pid,
                meta2,
                metric_of(m),
            ),
        None => post == pre,
    }
}

/// Same identity, compared by content: the folded metadata is a copy of the
/// table's entry.
pub open spec fn meta_like(
    a: Option<crate::task_table::TaskMetadata>,
    b: Option<crate::task_table::TaskMetadata>,
) -> bool {
    match (a, b) {
        (Some(x), Some(y)) => x.pid == y.pid && x.comm@ == y.comm@ && x.cgroup_id == y.cgroup_id,
        (None, None) => true,
        _ => false,
    }
}

} // verus!
