//! Task-metadata table with generation-safe deferred reclamation.
//!
//! The table maps `pid` to task metadata and keeps a pending-removal set.
//! A freed task stays readable until `flush_removals`, which the aggregator
//! drives strictly after all perf records of the closed timeslot were folded,
//! so a late record in that timeslot still resolves its metadata.

use vstd::prelude::*;

use std::collections::HashMap;

use crate::events::{parse_task_free, parse_task_metadata};

verus! {

broadcast use vstd::std_specs::hash::group_hash_axioms;

/// Identity of one task: pid, command name bytes, cgroup id.
#[derive(Debug)]
pub struct TaskMetadata {
    pub pid: u32,
    pub comm: Vec<u8>,
    pub cgroup_id: u64,
}

impl Clone for TaskMetadata {
    fn clone(&self) -> (r: Self)
        ensures
            r.pid == self.pid,
            r.comm@ == self.comm@,
            r.cgroup_id == self.cgroup_id,
    {
        TaskMetadata { pid: self.pid, comm: clone_bytes(&self.comm), cgroup_id: self.cgroup_id }
    }
}

/// A byte-for-byte copy of a vector.
pub fn clone_bytes(v: &Vec<u8>) -> (r: Vec<u8>)
    ensures
        r@ == v@,
{
    let mut r: Vec<u8> = Vec::new();
    let n = v.len();
    let mut i: usize = 0;
    while i < n
        invariant
            i <= n,
            n == v@.len(),
            r@ == v@.subrange(0, i as int),
        decreases n - i,
    {
        r.push(v[i]);
        proof {
            assert(r@ =~= v@.subrange(0, i + 1));
        }
        i += 1;
    }
    proof {
        assert(v@.subrange(0, n as int) =~= v@);
    }
    r
}

impl TaskMetadata {
    pub fn new(pid: u32, comm: Vec<u8>, cgroup_id: u64) -> (r: TaskMetadata)
        ensures
            r.pid == pid,
            r.comm == comm,
            r.cgroup_id == cgroup_id,
    {
        TaskMetadata { pid, comm, cgroup_id }
    }
}

/// The `pid -> metadata` mapping plus the pending-removal set.
pub struct TaskCollection {
    map: HashMap<u32, TaskMetadata>,
    pending: Vec<u32>,
}

impl TaskCollection {
    /// The mapping as currently visible to `lookup`.
    pub closed spec fn tasks(&self) -> Map<u32, TaskMetadata> {
        self.map@
    }

    /// The pids queued for removal at the next flush.
    pub closed spec fn pending(&self) -> Set<u32> {
        self.pending@.to_set()
    }

    pub fn new() -> (r: TaskCollection)
        ensures
            r.tasks() == Map::<u32, TaskMetadata>::empty(),
            r.pending() == Set::<u32>::empty(),
    {
        let r = TaskCollection { map: HashMap::new(), pending: Vec::new() };
        proof {
            assert(r.pending@.to_set() =~= Set::<u32>::empty());
        }
        r
    }

    /// Upsert by pid. Idempotent; does not disturb pending removals.
    pub fn add(&mut self, meta: TaskMetadata)
        ensures
            final(self).tasks() == old(self).tasks().insert(meta.pid, meta),
            final(self).pending() == old(self).pending(),
    {
        self.map.insert(meta.pid, meta);
    }

    /// O(1) metadata lookup; pids queued for removal are still visible.
    pub fn lookup(&self, pid: u32) -> (r: Option<&TaskMetadata>)
        ensures
            match r {
                Some(m) => self.tasks().contains_key(pid) && *m == self.tasks()[pid],
                None => !self.tasks().contains_key(pid),
            },
    {
        self.map.get(&pid)
    }

    /// Queue `pid` for removal; the mapping entry remains visible.
    pub fn queue_removal(&mut self, pid: u32)
        ensures
            final(self).tasks() == old(self).tasks(),
            final(self).pending() == old(self).pending().insert(pid),
    {
        self.pending.push(pid);
        proof {
            lemma_to_set_push(old(self).pending@, pid);
        }
    }

    /// Remove every queued pid from the mapping and clear the queue.
    pub fn flush_removals(&mut self)
        ensures
            final(self).tasks() == old(self).tasks().remove_keys(old(self).pending()),
            final(self).pending() == Set::<u32>::empty(),
    {
        let n = self.pending.len();
        let mut i: usize = 0;
        while i < n
            invariant
                i <= n,
                n == self.pending@.len(),
                self.pending@ == old(self).pending@,
                self.map@ == old(self).map@.remove_keys(
                    self.pending@.subrange(0, i as int).to_set(),
                ),
            decreases n - i,
        {
            broadcast use vstd::std_specs::hash::group_hash_axioms;

            let pid = self.pending[i];
            self.map.remove(&pid);
            proof {
                assert(self.pending@.subrange(0, i + 1) =~= self.pending@.subrange(
                    0,
                    i as int,
                ).push(pid));
                lemma_to_set_push(self.pending@.subrange(0, i as int), pid);
                assert(self.map@ =~= old(self).map@.remove_keys(
                    self.pending@.subrange(0, i + 1).to_set(),
                ));
            }
            i += 1;
        }
        proof {
            assert(self.pending@.subrange(0, n as int) =~= self.pending@);
        }
        self.pending.clear();
        proof {
            assert(self.pending@.to_set() =~= Set::<u32>::empty());
        }
    }
}

proof fn lemma_to_set_push(s: Seq<u32>, a: u32)
    ensures
        s.push(a).to_set() == s.to_set().insert(a),
{
    assert forall|x: u32| s.push(a).contains(x) implies (s.contains(x) || x == a) by {
        let k = choose|k: int| 0 <= k < s.push(a).len() && #[trigger] s.push(a)[k] == x;
        if k < s.len() {
            assert(s[k] == x);
        }
    }
    assert forall|x: u32| s.contains(x) implies s.push(a).contains(x) by {
        let k = choose|k: int| 0 <= k < s.len() && #[trigger] s[k] == x;
        assert(s.push(a)[k] == x);
    }
    assert(s.push(a)[s.len() as int] == a);
    assert(s.push(a).contains(a));
    assert(s.push(a).to_set() =~= s.to_set().insert(a));
}

/// An operation observed by the table within a single timeslot.
pub enum TableOp {
    Insert(TaskMetadata),
    QueueRemoval(u32),
}

/// The table state reached by applying `ops` in order, without any flush.
pub open spec fn apply_ops(
    tasks: Map<u32, TaskMetadata>,
    ops: Seq<TableOp>,
) -> Map<u32, TaskMetadata>
    decreases ops.len(),
{
    if ops.len() == 0 {
        tasks
    } else {
        let rest = apply_ops(tasks, ops.drop_last());
        match ops.last() {
            TableOp::Insert(meta) => rest.insert(meta.pid, meta),
            TableOp::QueueRemoval(_) => rest,
        }
    }
}

/// Deferred-removal soundness: within one timeslot — that is, under any
/// interleaving of inserts of `meta` for its pid and queued removals, with no
/// flush — a pid once inserted still resolves to its metadata.
pub proof fn lemma_deferred_removal(
    tasks: Map<u32, TaskMetadata>,
    ops: Seq<TableOp>,
    pid: u32,
    meta: TaskMetadata,
)
    requires
        meta.pid == pid,
        tasks.contains_key(pid) && tasks[pid] == meta,
        forall|i: int| 0 <= i < ops.len() ==> match #[trigger] ops[i] {
            TableOp::Insert(m) => m.pid != pid || m == meta,
            TableOp::QueueRemoval(_) => true,
        },
    ensures
        apply_ops(tasks, ops).contains_key(pid),
        apply_ops(tasks, ops)[pid] == meta,
    decreases ops.len(),
{
    if ops.len() > 0 {
        lemma_deferred_removal(tasks, ops.drop_last(), pid, meta);
    }
}

/// Tracks task metadata and free events arriving from the kernel rings.
pub struct BpfTaskTracker {
    collection: TaskCollection,
    parse_errors: u64,
}

impl BpfTaskTracker {
    pub closed spec fn tasks(&self) -> Map<u32, TaskMetadata> {
        self.collection.tasks()
    }

    pub closed spec fn pending(&self) -> Set<u32> {
        self.collection.pending()
    }

    pub closed spec fn parse_errors(&self) -> u64 {
        self.parse_errors
    }

    pub fn new() -> (r: BpfTaskTracker)
        ensures
            r.tasks() == Map::<u32, TaskMetadata>::empty(),
            r.pending() == Set::<u32>::empty(),
            r.parse_errors() == 0,
    {
        BpfTaskTracker { collection: TaskCollection::new(), parse_errors: 0 }
    }

    /// Look up task metadata by PID.
    pub fn lookup(&self, pid: u32) -> (r: Option<&TaskMetadata>)
        ensures
            match r {
                Some(m) => self.tasks().contains_key(pid) && *m == self.tasks()[pid],
                None => !self.tasks().contains_key(pid),
            },
    {
        self.collection.lookup(pid)
    }

    /// Flush queued task removals.
    pub fn flush_removals(&mut self)
        ensures
            final(self).tasks() == old(self).tasks().remove_keys(old(self).pending()),
            final(self).pending() == Set::<u32>::empty(),
            final(self).parse_errors() == old(self).parse_errors(),
    {
        self.collection.flush_removals();
    }

    /// Handle a task-metadata record; malformed input is counted and skipped.
    pub fn handle_task_metadata(&mut self, data: &[u8])
        ensures
            crate::events::task_metadata_wf(data@) ==> {
                let pid = crate::events::le32(data@, 4) as u32;
                &&& final(self).tasks().contains_key(pid)
                &&& final(self).tasks()[pid].pid == pid
                &&& final(self).tasks()[pid].comm@ == data@.subrange(8, 24)
                &&& final(self).tasks()[pid].cgroup_id == crate::events::le64(data@, 24) as u64
                &&& final(self).tasks().remove(pid) == old(self).tasks().remove(pid)
                &&& final(self).pending() == old(self).pending()
                &&& final(self).parse_errors() == old(self).parse_errors()
            },
            !crate::events::task_metadata_wf(data@) ==> final(self).tasks() == old(self).tasks()
                && final(self).pending() == old(self).pending(),
    {
        match parse_task_metadata(data) {
            Some(msg) => {
                let meta = TaskMetadata::new(msg.pid, msg.comm, msg.cgroup_id);
                self.collection.add(meta);
            },
            None => {
                self.parse_errors = if self.parse_errors < u64::MAX {
                    self.parse_errors + 1
                } else {
                    self.parse_errors
                };
            },
        }
    }

    /// Handle a task-free record; malformed input is counted and skipped.
    pub fn handle_task_free(&mut self, data: &[u8])
        ensures
            match crate::events::task_free_spec(data@) {
                Some(msg) => {
                    &&& final(self).tasks() == old(self).tasks()
                    &&& final(self).pending() == old(self).pending().insert(msg.pid)
                    &&& final(self).parse_errors() == old(self).parse_errors()
                },
                None => final(self).tasks() == old(self).tasks() && final(self).pending() == old(
                    self,
                ).pending(),
            },
    {
        match parse_task_free(data) {
            Some(msg) => {
                self.collection.queue_removal(msg.pid);
            },
            None => {
                self.parse_errors = if self.parse_errors < u64::MAX {
                    self.parse_errors + 1
                } else {
                    self.parse_errors
                };
            },
        }
    }
}

} // verus!
