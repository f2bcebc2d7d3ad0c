//! Wire format of the kernel-emitted event records.
//!
//! Every record starts with a one-byte type tag; payloads are fixed-layout,
//! little-endian and natively aligned. Parsing is total: a record that is too
//! short or carries the wrong tag yields `None` and must be skipped by the
//! caller without mutating any state.

use vstd::prelude::*;

verus! {

pub const MSG_TYPE_PERF_MEASUREMENT: u8 = 1;

pub const MSG_TYPE_TASK_METADATA: u8 = 2;

pub const MSG_TYPE_TASK_FREE: u8 = 3;

pub const MSG_TYPE_TIMESLOT: u8 = 4;

pub const MSG_TYPE_ERROR: u8 = 5;

/// Little-endian value of four bytes.
pub open spec fn le32(s: Seq<u8>, off: int) -> int {
    s[off] + 0x100 * s[off + 1] + 0x1_0000 * s[off + 2] + 0x100_0000 * s[off + 3]
}

/// Little-endian value of eight bytes.
pub open spec fn le64(s: Seq<u8>, off: int) -> int {
    s[off] + 0x100 * s[off + 1] + 0x1_0000 * s[off + 2] + 0x100_0000 * s[off + 3] + 0x1_0000_0000
        * s[off + 4] + 0x100_0000_0000 * s[off + 5] + 0x1_0000_0000_0000 * s[off + 6]
        + 0x100_0000_0000_0000 * s[off + 7]
}

pub fn read_u32_le(data: &[u8], off: usize) -> (r: u32)
    requires
        off + 4 <= data@.len(),
    ensures
        r == le32(data@, off as int),
{
    let b0 = data[off] as u32;
    let b1 = data[off + 1] as u32;
    let b2 = data[off + 2] as u32;
    let b3 = data[off + 3] as u32;
    b0 + 0x100 * b1 + 0x1_0000 * b2 + 0x100_0000 * b3
}

pub fn read_u64_le(data: &[u8], off: usize) -> (r: u64)
    requires
        off + 8 <= data@.len(),
    ensures
        r == le64(data@, off as int),
{
    let b0 = data[off] as u64;
    let b1 = data[off + 1] as u64;
    let b2 = data[off + 2] as u64;
    let b3 = data[off + 3] as u64;
    let b4 = data[off + 4] as u64;
    let b5 = data[off + 5] as u64;
    let b6 = data[off + 6] as u64;
    let b7 = data[off + 7] as u64;
    b0 + 0x100 * b1 + 0x1_0000 * b2 + 0x100_0000 * b3 + 0x1_0000_0000 * b4 + 0x100_0000_0000 * b5
        + 0x1_0000_0000_0000 * b6 + 0x100_0000_0000_0000 * b7
}

/// A perf-counter delta record for one task in one timeslot.
#[derive(Clone, Copy, PartialEq, Eq, Structural, Debug)]
pub struct PerfMeasurementMsg {
    pub pid: u32,
    pub cycles_delta: u64,
    pub instructions_delta: u64,
    pub llc_misses_delta: u64,
    pub cache_references_delta: u64,
    pub time_delta_ns: u64,
    pub timeslot: u64,
}

/// Task identity: pid, the 16-byte command name, cgroup id.
#[derive(Debug)]
pub struct TaskMetadataMsg {
    pub pid: u32,
    pub comm: Vec<u8>,
    pub cgroup_id: u64,
}

#[derive(Clone, Copy, PartialEq, Eq, Structural, Debug)]
pub struct TaskFreeMsg {
    pub pid: u32,
}

/// A timeslot boundary: the slot that ended and the slot that began.
#[derive(Clone, Copy, PartialEq, Eq, Structural, Debug)]
pub struct TimeslotMsg {
    pub old_timeslot: u64,
    pub new_timeslot: u64,
}

pub const PERF_MEASUREMENT_SIZE: usize = 64;

pub const TASK_METADATA_SIZE: usize = 32;

pub const TASK_FREE_SIZE: usize = 8;

pub const TIMESLOT_SIZE: usize = 24;

/// What a well-formed perf-measurement record contains.
pub open spec fn perf_measurement_spec(s: Seq<u8>) -> Option<PerfMeasurementMsg> {
    if s.len() == PERF_MEASUREMENT_SIZE && s[0] == MSG_TYPE_PERF_MEASUREMENT {
        Some(
            PerfMeasurementMsg {
                pid: le32(s, 8) as u32,
                cycles_delta: le64(s, 16) as u64,
                instructions_delta: le64(s, 24) as u64,
                llc_misses_delta: le64(s, 32) as u64,
                cache_references_delta: le64(s, 40) as u64,
                time_delta_ns: le64(s, 48) as u64,
                timeslot: le64(s, 56) as u64,
            },
        )
    } else {
        None
    }
}

pub fn parse_perf_measurement(data: &[u8]) -> (r: Option<PerfMeasurementMsg>)
    ensures
        r == perf_measurement_spec(data@),
{
    if data.len() != PERF_MEASUREMENT_SIZE || data[0] != MSG_TYPE_PERF_MEASUREMENT {
        return None;
    }
    Some(
        PerfMeasurementMsg {
            pid: read_u32_le(data, 8),
            cycles_delta: read_u64_le(data, 16),
            instructions_delta: read_u64_le(data, 24),
            llc_misses_delta: read_u64_le(data, 32),
            cache_references_delta: read_u64_le(data, 40),
            time_delta_ns: read_u64_le(data, 48),
            timeslot: read_u64_le(data, 56),
        },
    )
}

/// Whether a byte sequence is a well-formed task-metadata record.
pub open spec fn task_metadata_wf(s: Seq<u8>) -> bool {
    s.len() == TASK_METADATA_SIZE && s[0] == MSG_TYPE_TASK_METADATA
}

pub fn parse_task_metadata(data: &[u8]) -> (r: Option<TaskMetadataMsg>)
    ensures
        match r {
            Some(m) => {
                &&& task_metadata_wf(data@)
                &&& m.pid == le32(data@, 4)
                &&& m.comm@ == data@.subrange(8, 24)
                &&& m.cgroup_id == le64(data@, 24)
            },
            None => !task_metadata_wf(data@),
        },
{
    if data.len() != TASK_METADATA_SIZE || data[0] != MSG_TYPE_TASK_METADATA {
        return None;
    }
    let mut comm: Vec<u8> = Vec::new();
    let mut i: usize = 0;
    while i < 16
        invariant
            i <= 16,
            data@.len() == TASK_METADATA_SIZE,
            comm@.len() == i,
            forall|j: int| 0 <= j < i ==> comm@[j] == data@[8 + j],
        decreases 16 - i,
    {
        comm.push(data[8 + i]);
        i += 1;
    }
    proof {
        assert(comm@ =~= data@.subrange(8, 24));
    }
    Some(
        TaskMetadataMsg { pid: read_u32_le(data, 4), comm, cgroup_id: read_u64_le(data, 24) },
    )
}

/// What a well-formed task-free record contains.
pub open spec fn task_free_spec(s: Seq<u8>) -> Option<TaskFreeMsg> {
    if s.len() == TASK_FREE_SIZE && s[0] == MSG_TYPE_TASK_FREE {
        Some(TaskFreeMsg { pid: le32(s, 4) as u32 })
    } else {
        None
    }
}

pub fn parse_task_free(data: &[u8]) -> (r: Option<TaskFreeMsg>)
    ensures
        r == task_free_spec(data@),
{
    if data.len() != TASK_FREE_SIZE || data[0] != MSG_TYPE_TASK_FREE {
        return None;
    }
    Some(TaskFreeMsg { pid: read_u32_le(data, 4) })
}

/// What a well-formed timeslot-boundary record contains.
pub open spec fn timeslot_spec(s: Seq<u8>) -> Option<TimeslotMsg> {
    if s.len() == TIMESLOT_SIZE && s[0] == MSG_TYPE_TIMESLOT {
        Some(TimeslotMsg { old_timeslot: le64(s, 8) as u64, new_timeslot: le64(s, 16) as u64 })
    } else {
        None
    }
}

pub fn parse_timeslot(data: &[u8]) -> (r: Option<TimeslotMsg>)
    ensures
        r == timeslot_spec(data@),
{
    if data.len() != TIMESLOT_SIZE || data[0] != MSG_TYPE_TIMESLOT {
        return None;
    }
    Some(TimeslotMsg { old_timeslot: read_u64_le(data, 8), new_timeslot: read_u64_le(data, 16) })
}

} // verus!
