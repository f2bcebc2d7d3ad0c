//! Concurrency analysis over a scheduling trace: per-pid and machine-wide
//! aggregate CPU-time counters driven by context-switch events.
//!
//! The arithmetic core is exact; callers divide the returned deltas by the
//! interval themselves. Inputs that the counters cannot absorb — a
//! timestamp running backwards, a release without a matching acquire, or an
//! aggregate outgrowing its word — are excluded up front, and
//! `can_process_event` decides exactly that, so a caller can test before
//! calling.

use vstd::prelude::*;

use std::collections::HashMap;

verus! {

broadcast use vstd::std_specs::hash::group_hash_axioms;

/// CPU time counter tracking aggregate busy time and a thread count.
#[derive(Debug, Clone, Copy, PartialEq, Eq, Structural)]
pub struct CpuTimeCounter {
    pub aggregate_cpu_time: u64,
    pub last_update_timestamp: u64,
    pub current_thread_count: u32,
}

/// The aggregate after advancing a counter to `ts`.
pub open spec fn advanced_aggregate(c: CpuTimeCounter, ts: u64) -> int {
    if c.last_update_timestamp > 0 {
        c.aggregate_cpu_time + (ts - c.last_update_timestamp) * c.current_thread_count
    } else {
        c.aggregate_cpu_time as int
    }
}

/// The whole counter after advancing to `ts`.
pub open spec fn advanced(c: CpuTimeCounter, ts: u64) -> CpuTimeCounter {
    CpuTimeCounter {
        aggregate_cpu_time: advanced_aggregate(c, ts) as u64,
        last_update_timestamp: ts,
        current_thread_count: c.current_thread_count,
    }
}

impl CpuTimeCounter {
    /// A new, idle counter.
    pub fn new() -> (r: CpuTimeCounter)
        ensures
            r.aggregate_cpu_time == 0,
            r.last_update_timestamp == 0,
            r.current_thread_count == 0,
    {
        CpuTimeCounter {
            aggregate_cpu_time: 0,
            last_update_timestamp: 0,
            current_thread_count: 0,
        }
    }

    /// One more running thread.
    pub fn increase(&mut self)
        requires
            old(self).current_thread_count < u32::MAX,
        ensures
            final(self).current_thread_count == old(self).current_thread_count + 1,
            final(self).aggregate_cpu_time == old(self).aggregate_cpu_time,
            final(self).last_update_timestamp == old(self).last_update_timestamp,
    {
        self.current_thread_count = self.current_thread_count + 1;
    }

    /// One less running thread; a release without a matching acquire is
    /// excluded.
    pub fn decrease(&mut self)
        requires
            old(self).current_thread_count > 0,
        ensures
            final(self).current_thread_count == old(self).current_thread_count - 1,
            final(self).aggregate_cpu_time == old(self).aggregate_cpu_time,
            final(self).last_update_timestamp == old(self).last_update_timestamp,
    {
        self.current_thread_count = self.current_thread_count - 1;
    }

    /// Advance the aggregate by the elapsed time times the thread count.
    /// Regressions and aggregates beyond the word are excluded.
    pub fn update(&mut self, timestamp: u64)
        requires
            old(self).last_update_timestamp > 0 ==> timestamp >= old(
                self,
            ).last_update_timestamp,
            advanced_aggregate(*old(self), timestamp) <= u64::MAX,
        ensures
            *final(self) == advanced(*old(self), timestamp),
    {
        if self.last_update_timestamp > 0 {
            let elapsed = timestamp - self.last_update_timestamp;
            proof {
                assert(elapsed * self.current_thread_count >= 0) by (nonlinear_arith);
            }
            self.aggregate_cpu_time = self.aggregate_cpu_time + elapsed * (
            self.current_thread_count as u64);
        }
        self.last_update_timestamp = timestamp;
    }

    /// Current aggregate CPU time in nanoseconds.
    pub fn get_ns(&self) -> (r: u64)
        ensures
            r == self.aggregate_cpu_time,
    {
        self.aggregate_cpu_time
    }
}

/// Per-CPU bookkeeping between events.
#[derive(Debug, Clone, Copy, PartialEq, Eq, Structural)]
pub struct PerCpuState {
    pub last_timestamp: u64,
    pub start_total_cpu_time: u64,
    pub start_same_process_cpu_time: u64,
    pub context_switch_count: u64,
}

impl PerCpuState {
    pub fn new() -> (r: PerCpuState)
        ensures
            r == (PerCpuState {
                last_timestamp: 0u64,
                start_total_cpu_time: 0u64,
                start_same_process_cpu_time: 0u64,
                context_switch_count: 0u64,
            }),
    {
        PerCpuState {
            last_timestamp: 0,
            start_total_cpu_time: 0,
            start_same_process_cpu_time: 0,
            context_switch_count: 0,
        }
    }
}

/// The concurrency deltas one event yields: numerators over the interval.
#[derive(Debug, Clone, Copy, PartialEq, Eq, Structural)]
pub struct ConcurrencyDeltas {
    pub total_cpu_delta: u64,
    pub same_process_cpu_delta: u64,
    pub interval: u64,
}

/// Main concurrency analysis state.
pub struct ConcurrencyAnalysis {
    num_cpus: usize,
    per_pid_counters: HashMap<u32, CpuTimeCounter>,
    total_counter: CpuTimeCounter,
    per_cpu_state: Vec<PerCpuState>,
}

impl ConcurrencyAnalysis {
    pub closed spec fn num_cpus_spec(&self) -> usize {
        self.num_cpus
    }

    pub closed spec fn counters(&self) -> Map<u32, CpuTimeCounter> {
        self.per_pid_counters@
    }

    pub closed spec fn total(&self) -> CpuTimeCounter {
        self.total_counter
    }

    pub closed spec fn cpu_states(&self) -> Seq<PerCpuState> {
        self.per_cpu_state@
    }

    pub closed spec fn wf(&self) -> bool {
        self.per_cpu_state@.len() == self.num_cpus
    }

    /// The counter a pid resolves to: its tracked one, or a fresh one.
    pub open spec fn counter_of(&self, pid: u32) -> CpuTimeCounter {
        if self.counters().contains_key(pid) {
            self.counters()[pid]
        } else {
            CpuTimeCounter {
                aggregate_cpu_time: 0,
                last_update_timestamp: 0,
                current_thread_count: 0,
            }
        }
    }

    pub fn new(num_cpus: usize) -> (r: ConcurrencyAnalysis)
        ensures
            r.wf(),
            r.num_cpus_spec() == num_cpus,
            r.counters() == Map::<u32, CpuTimeCounter>::empty(),
            r.total() == CpuTimeCounter::new_spec(),
            forall|i: int| 0 <= i < num_cpus ==> r.cpu_states()[i] == PerCpuState::new_spec(),
    {
        let mut states: Vec<PerCpuState> = Vec::new();
        let mut i: usize = 0;
        while i < num_cpus
            invariant
                i <= num_cpus,
                states@.len() == i,
                forall|j: int| 0 <= j < i ==> states@[j] == PerCpuState::new_spec(),
            decreases num_cpus - i,
        {
            states.push(PerCpuState::new());
            i += 1;
        }
        ConcurrencyAnalysis {
            num_cpus,
            per_pid_counters: HashMap::new(),
            total_counter: CpuTimeCounter::new(),
            per_cpu_state: states,
        }
    }

    /// Whether a process id is a kernel thread.
    pub fn is_kernel(pid: u32) -> (r: bool)
        ensures
            r == (pid == 0),
    {
        pid == 0
    }

    /// The conditions under which one event can be absorbed: timestamps do
    /// not run backwards for the counters involved, aggregates stay within
    /// their words, and on a context switch after the first one the
    /// outgoing thread is actually accounted.
    pub open spec fn event_ok(
        &self,
        timestamp: u64,
        pid: u32,
        cpu_id: usize,
        is_context_switch: bool,
        next_tgid: Option<u32>,
    ) -> bool {
        let tot = self.total();
        let cnt = self.counter_of(pid);
        &&& cpu_id < self.num_cpus_spec()
        &&& (self.cpu_states()[cpu_id as int].last_timestamp > 0 ==> timestamp
            >= self.cpu_states()[cpu_id as int].last_timestamp)
        &&& (tot.last_update_timestamp > 0 ==> timestamp >= tot.last_update_timestamp)
        &&& advanced_aggregate(tot, timestamp) <= u64::MAX
        &&& (cnt.last_update_timestamp > 0 ==> timestamp >= cnt.last_update_timestamp)
        &&& advanced_aggregate(cnt, timestamp) <= u64::MAX
        &&& (is_context_switch ==> {
            let nxt0 = self.counter_of(next_tgid.unwrap());
            &&& next_tgid is Some
            &&& (self.cpu_states()[cpu_id as int].context_switch_count > 0 ==> {
                &&& advanced(cnt, timestamp).current_thread_count > 0
                &&& (pid != 0 ==> advanced(tot, timestamp).current_thread_count > 0)
            })
            &&& (nxt0.last_update_timestamp > 0 ==> timestamp >= nxt0.last_update_timestamp)
            &&& advanced_aggregate(nxt0, timestamp) <= u64::MAX
            &&& nxt0.current_thread_count < u32::MAX
            &&& advanced(tot, timestamp).current_thread_count < u32::MAX
            &&& self.cpu_states()[cpu_id as int].context_switch_count < u64::MAX
        })
    }

    /// Decide `event_ok` on concrete inputs, so an unverified caller can
    /// test before calling `process_event`.
    pub fn can_process_event(
        &self,
        timestamp: u64,
        pid: u32,
        cpu_id: usize,
        is_context_switch: bool,
        next_tgid: Option<u32>,
    ) -> (r: bool)
        requires
            self.wf(),
        ensures
            r == self.event_ok(timestamp, pid, cpu_id, is_context_switch, next_tgid),
    {
        if cpu_id >= self.num_cpus {
            return false;
        }
        if self.per_cpu_state[cpu_id].last_timestamp > 0 && timestamp < self.per_cpu_state[
            cpu_id
        ].last_timestamp {
            return false;
        }
        let tot = self.total_counter;
        if !counter_can_advance(&tot, timestamp) {
            return false;
        }
        let cnt = self.lookup_counter(pid);
        if !counter_can_advance(&cnt, timestamp) {
            return false;
        }
        if is_context_switch {
            let next = match next_tgid {
                Some(n) => n,
                None => {
                    return false;
                },
            };
            let nxt0 = self.lookup_counter(next);
            if self.per_cpu_state[cpu_id].context_switch_count > 0 {
                if cnt.current_thread_count == 0 {
                    return false;
                }
                if pid != 0 && tot.current_thread_count == 0 {
                    return false;
                }
            }
            if !counter_can_advance(&nxt0, timestamp) {
                return false;
            }
            if nxt0.current_thread_count == u32::MAX {
                return false;
            }
            if tot.current_thread_count == u32::MAX {
                return false;
            }
            if self.per_cpu_state[cpu_id].context_switch_count == u64::MAX {
                return false;
            }
        }
        true
    }

    /// Look up the counter a pid resolves to, a fresh one when untracked.
    fn lookup_counter(&self, pid: u32) -> (r: CpuTimeCounter)
        ensures
            r == self.counter_of(pid),
    {
        match self.per_pid_counters.get(&pid) {
            Some(c) => *c,
            None => CpuTimeCounter::new(),
        }
    }

    /// Absorb one scheduling event: advance the machine-wide and the
    /// current pid's counters to the event time; on a context switch move
    /// one thread from the outgoing to the incoming pid (kernel threads do
    /// not count toward the machine total, and nothing is released before
    /// the first switch seen on a CPU); return the aggregate growth on this
    /// CPU since its previous event, and the interval itself.
    pub fn process_event(
        &mut self,
        timestamp: u64,
        pid: u32,
        cpu_id: usize,
        is_context_switch: bool,
        next_tgid: Option<u32>,
    ) -> (r: ConcurrencyDeltas)
        requires
            old(self).wf(),
            old(self).event_ok(timestamp, pid, cpu_id, is_context_switch, next_tgid),
        ensures
            final(self).wf(),
            final(self).num_cpus_spec() == old(self).num_cpus_spec(),
            r.interval == if old(self).cpu_states()[cpu_id as int].last_timestamp > 0 {
                (timestamp - old(self).cpu_states()[cpu_id as int].last_timestamp) as u64
            } else {
                0u64
            },
            // the two deltas are exact: the aggregate growth on this CPU
            // since its previous event, zero on a first event or when a
            // recorded start ran ahead of the aggregate
            r.interval > 0 && advanced_aggregate(old(self).total(), timestamp) >= old(
                self,
            ).cpu_states()[cpu_id as int].start_total_cpu_time ==> r.total_cpu_delta
                == advanced_aggregate(old(self).total(), timestamp) - old(
                self,
            ).cpu_states()[cpu_id as int].start_total_cpu_time,
            !(r.interval > 0 && advanced_aggregate(old(self).total(), timestamp) >= old(
                self,
            ).cpu_states()[cpu_id as int].start_total_cpu_time) ==> r.total_cpu_delta == 0,
            r.interval > 0 && advanced_aggregate(old(self).counter_of(pid), timestamp) >= old(
                self,
            ).cpu_states()[cpu_id as int].start_same_process_cpu_time
                ==> r.same_process_cpu_delta == advanced_aggregate(
                old(self).counter_of(pid),
                timestamp,
            ) - old(self).cpu_states()[cpu_id as int].start_same_process_cpu_time,
            !(r.interval > 0 && advanced_aggregate(old(self).counter_of(pid), timestamp) >= old(
                self,
            ).cpu_states()[cpu_id as int].start_same_process_cpu_time)
                ==> r.same_process_cpu_delta == 0,
            final(self).cpu_states()[cpu_id as int].last_timestamp == timestamp,
            final(self).cpu_states()[cpu_id as int].start_total_cpu_time == advanced_aggregate(
                old(self).total(),
                timestamp,
            ),
            final(self).total().last_update_timestamp == timestamp,
            final(self).total().aggregate_cpu_time == advanced_aggregate(
                old(self).total(),
                timestamp,
            ),
            !is_context_switch ==> final(self).total().current_thread_count == old(
                self,
            ).total().current_thread_count,
            forall|q: u32|
                q != pid && (match next_tgid {
                    Some(n) => q != n,
                    None => true,
                }) ==> #[trigger] final(self).counter_of(q) == old(self).counter_of(q),
    {
        let start_total = self.per_cpu_state[cpu_id].start_total_cpu_time;
        let start_same = self.per_cpu_state[cpu_id].start_same_process_cpu_time;
        let last_cpu_ts = self.per_cpu_state[cpu_id].last_timestamp;
        // advance the two counters to the event time
        let mut tot = self.total_counter;
        tot.update(timestamp);
        self.total_counter = tot;
        let mut cnt = self.lookup_counter(pid);
        cnt.update(timestamp);
        self.per_pid_counters.insert(pid, cnt);
        let end_total = self.total_counter.get_ns();
        let end_same = cnt.get_ns();
        if is_context_switch {
            let next_pid = match next_tgid {
                Some(n) => n,
                None => {
                    proof {
                        assert(false);
                    }
                    0
                },
            };
            let csc = self.per_cpu_state[cpu_id].context_switch_count;
            if csc > 0 {
                // release the outgoing thread
                let mut out_cnt = self.lookup_counter(pid);
                out_cnt.decrease();
                self.per_pid_counters.insert(pid, out_cnt);
                if pid != 0 {
                    let mut t2 = self.total_counter;
                    t2.decrease();
                    self.total_counter = t2;
                }
            }
            // account the incoming thread
            let mut nxt = self.lookup_counter(next_pid);
            proof {
                if next_pid == pid {
                    assert(nxt.last_update_timestamp == timestamp);
                    assert((timestamp - nxt.last_update_timestamp) * nxt.current_thread_count
                        == 0) by (nonlinear_arith)
                        requires
                            timestamp == nxt.last_update_timestamp,
                    ;
                    assert(advanced_aggregate(nxt, timestamp) == nxt.aggregate_cpu_time as int);
                } else {
                    assert(nxt == old(self).counter_of(next_pid));
                }
            }
            nxt.update(timestamp);
            nxt.increase();
            self.per_pid_counters.insert(next_pid, nxt);
            if next_pid != 0 {
                let mut t3 = self.total_counter;
                t3.increase();
                self.total_counter = t3;
            }
            let mut cpu = self.per_cpu_state[cpu_id];
            cpu.context_switch_count = csc + 1;
            self.per_cpu_state[cpu_id] = cpu;
        }
        let interval: u64 = if last_cpu_ts > 0 {
            timestamp - last_cpu_ts
        } else {
            0
        };
        let total_delta: u64 = if interval > 0 && end_total >= start_total {
            end_total - start_total
        } else {
            0
        };
        let same_delta: u64 = if interval > 0 && end_same >= start_same {
            end_same - start_same
        } else {
            0
        };
        let next_same: u64 = match next_tgid {
            Some(n) => self.lookup_counter(n).get_ns(),
            None => end_same,
        };
        let mut cpu = self.per_cpu_state[cpu_id];
        cpu.start_total_cpu_time = end_total;
        cpu.start_same_process_cpu_time = next_same;
        cpu.last_timestamp = timestamp;
        self.per_cpu_state[cpu_id] = cpu;
        ConcurrencyDeltas {
            total_cpu_delta: total_delta,
            same_process_cpu_delta: same_delta,
            interval,
        }
    }
}

/// One scheduling-trace row, as plain values.
#[derive(Debug, Clone, Copy, PartialEq, Eq, Structural)]
pub struct ConcurrencyRow {
    pub timestamp: u64,
    pub pid: u32,
    pub cpu_id: usize,
    pub is_context_switch: bool,
    pub next_tgid: Option<u32>,
}

impl ConcurrencyAnalysis {
    /// Absorb a batch of rows in order, yielding one delta triple per row.
    /// A row the counters cannot absorb stops the batch: its index comes
    /// back, and that row provably fails `event_ok` against the state the
    /// preceding rows left behind.
    pub fn process_rows(&mut self, rows: &Vec<ConcurrencyRow>) -> (r: Result<
        Vec<ConcurrencyDeltas>,
        usize,
    >)
        requires
            old(self).wf(),
        ensures
            final(self).wf(),
            final(self).num_cpus_spec() == old(self).num_cpus_spec(),
            r matches Ok(out) ==> out@.len() == rows@.len(),
            r matches Err(i) ==> i < rows@.len() && !final(self).event_ok(
                rows@[i as int].timestamp,
                rows@[i as int].pid,
                rows@[i as int].cpu_id,
                rows@[i as int].is_context_switch,
                rows@[i as int].next_tgid,
            ),
    {
        let mut out: Vec<ConcurrencyDeltas> = Vec::new();
        let n = rows.len();
        let mut i: usize = 0;
        while i < n
            invariant
                i <= n,
                n == rows@.len(),
                out@.len() == i,
                self.wf(),
                self.num_cpus_spec() == old(self).num_cpus_spec(),
            decreases n - i,
        {
            let row = rows[i];
            if !self.can_process_event(
                row.timestamp,
                row.pid,
                row.cpu_id,
                row.is_context_switch,
                row.next_tgid,
            ) {
                return Err(i);
            }
            let d = self.process_event(
                row.timestamp,
                row.pid,
                row.cpu_id,
                row.is_context_switch,
                row.next_tgid,
            );
            out.push(d);
            i += 1;
        }
        Ok(out)
    }
}

impl CpuTimeCounter {
    /// The value `new` returns.
    pub open spec fn new_spec() -> CpuTimeCounter {
        CpuTimeCounter { aggregate_cpu_time: 0, last_update_timestamp: 0, current_thread_count: 0 }
    }
}

impl PerCpuState {
    /// The value `new` returns.
    pub open spec fn new_spec() -> PerCpuState {
        PerCpuState {
            last_timestamp: 0,
            start_total_cpu_time: 0,
            start_same_process_cpu_time: 0,
            context_switch_count: 0,
        }
    }
}

/// Whether a counter can advance to `ts` without regression or overflow.
fn counter_can_advance(c: &CpuTimeCounter, ts: u64) -> (r: bool)
    ensures
        r == ((c.last_update_timestamp > 0 ==> ts >= c.last_update_timestamp)
            && advanced_aggregate(*c, ts) <= u64::MAX),
{
    if c.last_update_timestamp > 0 && ts < c.last_update_timestamp {
        return false;
    }
    if c.last_update_timestamp > 0 {
        let elapsed = ts - c.last_update_timestamp;
        proof {
            assert((elapsed as int) * (c.current_thread_count as int) <= u128::MAX)
                by (nonlinear_arith)
                requires
                    0 <= elapsed <= u64::MAX,
                    0 <= c.current_thread_count <= u32::MAX,
            ;
        }
        let prod: u128 = (elapsed as u128) * (c.current_thread_count as u128);
        proof {
            assert(prod == elapsed * c.current_thread_count) by (nonlinear_arith)
                requires
                    prod == (elapsed as u128) * (c.current_thread_count as u128),
            ;
        }
        prod <= ((u64::MAX - c.aggregate_cpu_time) as u128)
    } else {
        true
    }
}

} // verus!
