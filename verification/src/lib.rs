//! Per-node observability and resource-control agent for container workloads.
//!
//! The library aggregates hardware performance-counter deltas into fixed
//! wall-clock timeslots and assigns container processes to kernel resctrl
//! monitoring groups, converging the group-to-PID invariant per pod.

pub mod analysis;
pub mod analyzer;
pub mod cgroup_path;
pub mod cmd;
pub mod dec;
pub mod events;
pub mod fs;
pub mod hyperthread;
pub mod kv;
pub mod memfs;
pub mod node_id;
pub mod plugin;
pub mod processor;
pub mod resctrl;
pub mod task_table;
pub mod tasks_file;
pub mod text;
pub mod timeslot;
pub mod writer;

use vstd::prelude::*;

verus! {

/// Addition that tops out at `u64::MAX` instead of wrapping.
///
/// Counter deltas are folded with saturation so that an aggregate can never
/// wrap around; kernel-produced deltas stay far below the ceiling in practice.
pub fn sat_add_u64(a: u64, b: u64) -> (r: u64)
    ensures
        r == sat_add(a as nat, b as nat),
{
    if a <= u64::MAX - b {
        a + b
    } else {
        u64::MAX
    }
}

/// Mathematical saturating addition on naturals, capped at `u64::MAX`.
pub open spec fn sat_add(a: nat, b: nat) -> nat {
    if a + b <= u64::MAX as nat {
        a + b
    } else {
        u64::MAX as nat
    }
}

} // verus!
