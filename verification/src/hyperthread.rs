//! Hyperthread analysis: for each CPU, how long its sibling spent in the
//! same process, a different process, or the kernel, between events.

use vstd::prelude::*;

verus! {

/// Per-CPU state: who runs there and the sibling-time counters.
#[derive(Debug, Clone, Copy, PartialEq, Eq, Structural)]
pub struct CpuState {
    pub current_pid: i32,
    pub last_counter_update: i64,
    pub ns_peer_same_process: i64,
    pub ns_peer_different_process: i64,
    pub ns_peer_kernel: i64,
}

impl CpuState {
    pub fn new() -> (r: CpuState)
        ensures
            r == (CpuState {
                current_pid: 0i32,
                last_counter_update: 0i64,
                ns_peer_same_process: 0i64,
                ns_peer_different_process: 0i64,
                ns_peer_kernel: 0i64,
            }),
    {
        CpuState {
            current_pid: 0,
            last_counter_update: 0,
            ns_peer_same_process: 0,
            ns_peer_different_process: 0,
            ns_peer_kernel: 0,
        }
    }

    pub fn reset_counters(&mut self)
        ensures
            final(self).ns_peer_same_process == 0,
            final(self).ns_peer_different_process == 0,
            final(self).ns_peer_kernel == 0,
            final(self).current_pid == old(self).current_pid,
            final(self).last_counter_update == old(self).last_counter_update,
    {
        self.ns_peer_same_process = 0;
        self.ns_peer_different_process = 0;
        self.ns_peer_kernel = 0;
    }
}

/// Which sibling-time counter an observation falls into.
pub open spec fn peer_bucket_kernel(peer_pid: i32, own_pid: i32) -> bool {
    peer_pid == 0
}

pub open spec fn peer_bucket_same(peer_pid: i32, own_pid: i32) -> bool {
    peer_pid != 0 && peer_pid == own_pid
}

/// How one sibling-pair update moves the two CPU states: each side is
/// charged for its own elapsed time into the bucket its sibling selects,
/// and both clocks land on the event time.
pub open spec fn hyperthread_updated(
    a0: CpuState,
    b0: CpuState,
    a1: CpuState,
    b1: CpuState,
    ts: i64,
) -> bool {
    let da = ts - a0.last_counter_update;
    let db = ts - b0.last_counter_update;
    &&& a1.current_pid == a0.current_pid
    &&& b1.current_pid == b0.current_pid
    &&& a1.last_counter_update == ts
    &&& b1.last_counter_update == ts
    &&& (peer_bucket_kernel(b0.current_pid, a0.current_pid) ==> a1.ns_peer_kernel
        == a0.ns_peer_kernel + da && a1.ns_peer_same_process == a0.ns_peer_same_process
        && a1.ns_peer_different_process == a0.ns_peer_different_process)
    &&& (peer_bucket_same(b0.current_pid, a0.current_pid) ==> a1.ns_peer_same_process
        == a0.ns_peer_same_process + da && a1.ns_peer_kernel == a0.ns_peer_kernel
        && a1.ns_peer_different_process == a0.ns_peer_different_process)
    &&& (!peer_bucket_kernel(b0.current_pid, a0.current_pid) && !peer_bucket_same(
        b0.current_pid,
        a0.current_pid,
    ) ==> a1.ns_peer_different_process == a0.ns_peer_different_process + da && a1.ns_peer_kernel
        == a0.ns_peer_kernel && a1.ns_peer_same_process == a0.ns_peer_same_process)
    &&& (peer_bucket_kernel(a0.current_pid, b0.current_pid) ==> b1.ns_peer_kernel
        == b0.ns_peer_kernel + db)
    &&& (peer_bucket_same(a0.current_pid, b0.current_pid) ==> b1.ns_peer_same_process
        == b0.ns_peer_same_process + db)
    &&& (!peer_bucket_kernel(a0.current_pid, b0.current_pid) && !peer_bucket_same(
        a0.current_pid,
        b0.current_pid,
    ) ==> b1.ns_peer_different_process == b0.ns_peer_different_process + db)
}

/// The sibling of a CPU among `num_cpus`: the same index in the other
/// half.
pub open spec fn peer_of(num_cpus: usize, cpu_id: usize) -> usize {
    if cpu_id < num_cpus / 2 {
        (cpu_id + num_cpus / 2) as usize
    } else {
        (cpu_id - num_cpus / 2) as usize
    }
}

/// The hyperthread analysis over all CPUs; siblings pair across the two
/// halves of the CPU index space.
pub struct HyperthreadAnalysis {
    num_cpus: usize,
    cpu_states: Vec<CpuState>,
    output_filename: String,
}

impl HyperthreadAnalysis {
    pub closed spec fn num_cpus_spec(&self) -> usize {
        self.num_cpus
    }

    pub closed spec fn states(&self) -> Seq<CpuState> {
        self.cpu_states@
    }

    pub closed spec fn output_filename_spec(&self) -> Seq<char> {
        self.output_filename@
    }

    pub closed spec fn wf(&self) -> bool {
        self.cpu_states@.len() == self.num_cpus
    }

    pub fn new(num_cpus: usize, output_filename: String) -> (r: HyperthreadAnalysis)
        ensures
            r.wf(),
            r.num_cpus_spec() == num_cpus,
            r.output_filename_spec() == output_filename@,
            forall|i: int| 0 <= i < num_cpus ==> r.states()[i] == CpuState::new_spec(),
    {
        let mut states: Vec<CpuState> = Vec::new();
        let mut i: usize = 0;
        while i < num_cpus
            invariant
                i <= num_cpus,
                states@.len() == i,
                forall|j: int| 0 <= j < i ==> states@[j] == CpuState::new_spec(),
            decreases num_cpus - i,
        {
            states.push(CpuState::new());
            i += 1;
        }
        HyperthreadAnalysis { num_cpus, cpu_states: states, output_filename }
    }

    /// The sibling of a CPU: the same index in the other half.
    pub fn get_hyperthread_peer(&self, cpu_id: usize) -> (r: usize)
        requires
            cpu_id < self.num_cpus_spec(),
        ensures
            r == peer_of(self.num_cpus_spec(), cpu_id),
            cpu_id < self.num_cpus_spec() / 2 ==> r == cpu_id + self.num_cpus_spec() / 2,
            cpu_id >= self.num_cpus_spec() / 2 ==> r == cpu_id - self.num_cpus_spec() / 2,
            r < self.num_cpus_spec(),
    {
        if cpu_id < self.num_cpus / 2 {
            cpu_id + self.num_cpus / 2
        } else {
            cpu_id - self.num_cpus / 2
        }
    }

    /// Whether the sibling-counter update for this pair and time stays in
    /// range: the clocks do not run backwards and no counter overflows.
    pub open spec fn update_ok(&self, cpu_a: int, cpu_b: int, ts: i64) -> bool {
        let a = self.states()[cpu_a];
        let b = self.states()[cpu_b];
        &&& 0 <= cpu_a < self.num_cpus_spec()
        &&& 0 <= cpu_b < self.num_cpus_spec()
        &&& cpu_a != cpu_b
        &&& 0 <= a.last_counter_update <= ts
        &&& 0 <= b.last_counter_update <= ts
        &&& a.ns_peer_kernel + (ts - a.last_counter_update) <= i64::MAX
        &&& a.ns_peer_same_process + (ts - a.last_counter_update) <= i64::MAX
        &&& a.ns_peer_different_process + (ts - a.last_counter_update) <= i64::MAX
        &&& b.ns_peer_kernel + (ts - b.last_counter_update) <= i64::MAX
        &&& b.ns_peer_same_process + (ts - b.last_counter_update) <= i64::MAX
        &&& b.ns_peer_different_process + (ts - b.last_counter_update) <= i64::MAX
        &&& a.ns_peer_kernel >= 0 && a.ns_peer_same_process >= 0
            && a.ns_peer_different_process >= 0
        &&& b.ns_peer_kernel >= 0 && b.ns_peer_same_process >= 0
            && b.ns_peer_different_process >= 0
    }

    /// Decide `update_ok` on concrete inputs.
    pub fn can_update(&self, cpu_a: usize, cpu_b: usize, ts: i64) -> (r: bool)
        requires
            self.wf(),
        ensures
            r == self.update_ok(cpu_a as int, cpu_b as int, ts),
    {
        if cpu_a >= self.num_cpus || cpu_b >= self.num_cpus || cpu_a == cpu_b {
            return false;
        }
        let a = self.cpu_states[cpu_a];
        let b = self.cpu_states[cpu_b];
        a.last_counter_update >= 0 && a.last_counter_update <= ts && b.last_counter_update >= 0
            && b.last_counter_update <= ts && a.ns_peer_kernel >= 0 && a.ns_peer_same_process >= 0
            && a.ns_peer_different_process >= 0 && b.ns_peer_kernel >= 0
            && b.ns_peer_same_process >= 0 && b.ns_peer_different_process >= 0 && a.ns_peer_kernel
            <= i64::MAX - (ts - a.last_counter_update) && a.ns_peer_same_process <= i64::MAX - (ts
            - a.last_counter_update) && a.ns_peer_different_process <= i64::MAX - (ts
            - a.last_counter_update) && b.ns_peer_kernel <= i64::MAX - (ts - b.last_counter_update)
            && b.ns_peer_same_process <= i64::MAX - (ts - b.last_counter_update)
            && b.ns_peer_different_process <= i64::MAX - (ts - b.last_counter_update)
    }

    /// Charge each CPU of a sibling pair for the time since its last update,
    /// into the counter its sibling's occupant selects: the kernel when the
    /// sibling runs pid 0, same-process when the pids agree, different
    /// otherwise; then both clocks advance to the event time.
    pub fn update_hyperthread(&mut self, cpu_a: usize, cpu_b: usize, event_timestamp: i64)
        requires
            old(self).wf(),
            old(self).update_ok(cpu_a as int, cpu_b as int, event_timestamp),
        ensures
            final(self).wf(),
            final(self).num_cpus_spec() == old(self).num_cpus_spec(),
            final(self).output_filename_spec() == old(self).output_filename_spec(),
            forall|i: int|
                0 <= i < old(self).states().len() && i != cpu_a && i != cpu_b
                    ==> final(self).states()[i] == old(self).states()[i],
            hyperthread_updated(
                old(self).states()[cpu_a as int],
                old(self).states()[cpu_b as int],
                final(self).states()[cpu_a as int],
                final(self).states()[cpu_b as int],
                event_timestamp,
            ),
    {
        let time_since_a = event_timestamp - self.cpu_states[cpu_a].last_counter_update;
        let time_since_b = event_timestamp - self.cpu_states[cpu_b].last_counter_update;
        let peer_b_pid = self.cpu_states[cpu_b].current_pid;
        let mut a = self.cpu_states[cpu_a];
        if peer_b_pid == 0 {
            a.ns_peer_kernel = a.ns_peer_kernel + time_since_a;
        } else if peer_b_pid == a.current_pid {
            a.ns_peer_same_process = a.ns_peer_same_process + time_since_a;
        } else {
            a.ns_peer_different_process = a.ns_peer_different_process + time_since_a;
        }
        a.last_counter_update = event_timestamp;
        self.cpu_states[cpu_a] = a;
        let peer_a_pid = a.current_pid;
        let mut b = self.cpu_states[cpu_b];
        if peer_a_pid == 0 {
            b.ns_peer_kernel = b.ns_peer_kernel + time_since_b;
        } else if peer_a_pid == b.current_pid {
            b.ns_peer_same_process = b.ns_peer_same_process + time_since_b;
        } else {
            b.ns_peer_different_process = b.ns_peer_different_process + time_since_b;
        }
        b.last_counter_update = event_timestamp;
        self.cpu_states[cpu_b] = b;
    }

    /// Set which pid occupies a CPU, as a context switch commits it.
    pub fn set_current_pid(&mut self, cpu_id: usize, pid: i32)
        requires
            old(self).wf(),
            cpu_id < old(self).num_cpus_spec(),
        ensures
            final(self).wf(),
            final(self).num_cpus_spec() == old(self).num_cpus_spec(),
            final(self).output_filename_spec() == old(self).output_filename_spec(),
            final(self).states()[cpu_id as int].current_pid == pid,
            forall|i: int|
                0 <= i < old(self).states().len() && i != cpu_id ==> final(self).states()[i]
                    == old(self).states()[i],
            final(self).states()[cpu_id as int] == (CpuState {
                current_pid: pid,
                ..old(self).states()[cpu_id as int]
            }),
    {
        let mut st = self.cpu_states[cpu_id];
        st.current_pid = pid;
        self.cpu_states[cpu_id] = st;
    }

    /// Read one CPU's counters.
    pub fn counters_of(&self, cpu_id: usize) -> (r: (i64, i64, i64))
        requires
            self.wf(),
            cpu_id < self.num_cpus_spec(),
        ensures
            r.0 == self.states()[cpu_id as int].ns_peer_same_process,
            r.1 == self.states()[cpu_id as int].ns_peer_different_process,
            r.2 == self.states()[cpu_id as int].ns_peer_kernel,
    {
        let st = &self.cpu_states[cpu_id];
        (st.ns_peer_same_process, st.ns_peer_different_process, st.ns_peer_kernel)
    }

    /// Zero one CPU's counters after they were recorded.
    pub fn reset_cpu_counters(&mut self, cpu_id: usize)
        requires
            old(self).wf(),
            cpu_id < old(self).num_cpus_spec(),
        ensures
            final(self).wf(),
            final(self).num_cpus_spec() == old(self).num_cpus_spec(),
            final(self).output_filename_spec() == old(self).output_filename_spec(),
            final(self).states()[cpu_id as int].ns_peer_same_process == 0,
            final(self).states()[cpu_id as int].ns_peer_different_process == 0,
            final(self).states()[cpu_id as int].ns_peer_kernel == 0,
            final(self).states()[cpu_id as int].current_pid == old(self).states()[
                cpu_id as int
            ].current_pid,
            final(self).states()[cpu_id as int].last_counter_update == old(self).states()[
                cpu_id as int
            ].last_counter_update,
            forall|i: int|
                0 <= i < old(self).states().len() && i != cpu_id ==> final(self).states()[i]
                    == old(self).states()[i],
    {
        let mut st = self.cpu_states[cpu_id];
        st.reset_counters();
        self.cpu_states[cpu_id] = st;
    }
}

/// One trace row for the hyperthread analysis, as plain values.
#[derive(Debug, Clone, Copy, PartialEq, Eq, Structural)]
pub struct HyperthreadRow {
    pub timestamp: i64,
    pub cpu_id: usize,
    pub pid: i32,
    pub is_context_switch: bool,
}

impl HyperthreadAnalysis {
    /// Absorb a batch of rows in order: charge each row's CPU and its
    /// sibling, record the row's counters, commit the new occupant on a
    /// context switch, and reset the row's counters. A row out of range
    /// stops the batch: its index comes back, and that row provably has no
    /// distinct sibling or fails `update_ok` against the state the
    /// preceding rows left behind.
    pub fn process_rows(&mut self, rows: &Vec<HyperthreadRow>) -> (r: Result<
        Vec<(i64, i64, i64)>,
        usize,
    >)
        requires
            old(self).wf(),
        ensures
            final(self).wf(),
            final(self).num_cpus_spec() == old(self).num_cpus_spec(),
            r matches Ok(out) ==> out@.len() == rows@.len(),
            r matches Err(i) ==> i < rows@.len() && (rows@[i as int].cpu_id
                >= final(self).num_cpus_spec() || peer_of(
                final(self).num_cpus_spec(),
                rows@[i as int].cpu_id,
            ) == rows@[i as int].cpu_id || !final(self).update_ok(
                rows@[i as int].cpu_id as int,
                peer_of(final(self).num_cpus_spec(), rows@[i as int].cpu_id) as int,
                rows@[i as int].timestamp,
            )),
    {
        let mut out: Vec<(i64, i64, i64)> = Vec::new();
        let n = rows.len();
        let mut i: usize = 0;
        while i < n
            invariant
                i <= n,
                n == rows@.len(),
                out@.len() == i,
                self.wf(),
                self.num_cpus_spec() == old(self).num_cpus_spec(),
            decreases n - i,
        {
            let row = rows[i];
            if row.cpu_id >= self.num_cpus {
                return Err(i);
            }
            let peer = self.get_hyperthread_peer(row.cpu_id);
            if peer == row.cpu_id || !self.can_update(row.cpu_id, peer, row.timestamp) {
                return Err(i);
            }
            self.update_hyperthread(row.cpu_id, peer, row.timestamp);
            out.push(self.counters_of(row.cpu_id));
            if row.is_context_switch {
                self.set_current_pid(row.cpu_id, row.pid);
            }
            self.reset_cpu_counters(row.cpu_id);
            i += 1;
        }
        Ok(out)
    }
}

impl CpuState {
    /// The value `new` returns.
    pub open spec fn new_spec() -> CpuState {
        CpuState {
            current_pid: 0,
            last_counter_update: 0,
            ns_peer_same_process: 0,
            ns_peer_different_process: 0,
            ns_peer_kernel: 0,
        }
    }
}

} // verus!
