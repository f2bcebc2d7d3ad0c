//! The timeslot pipeline: wire parsing, the task table, the aggregator,
//! and the writer state machine, on concrete values.

use collector::events;
use collector::processor::PerfEventProcessor;
use collector::task_table::{TaskCollection, TaskMetadata};
use collector::timeslot::{Metric, TimeslotData};
use collector::writer::{ParquetWriter, ParquetWriterConfig, WriterAction};

fn perf_record(pid: u32, cycles: u64, timeslot: u64) -> Vec<u8> {
    let mut data = vec![0u8; 64];
    data[0] = events::MSG_TYPE_PERF_MEASUREMENT;
    data[8..12].copy_from_slice(&pid.to_le_bytes());
    data[16..24].copy_from_slice(&cycles.to_le_bytes());
    data[24..32].copy_from_slice(&2u64.to_le_bytes()); // instructions
    data[32..40].copy_from_slice(&3u64.to_le_bytes()); // llc misses
    data[40..48].copy_from_slice(&4u64.to_le_bytes()); // cache references
    data[48..56].copy_from_slice(&5u64.to_le_bytes()); // time ns
    data[56..64].copy_from_slice(&timeslot.to_le_bytes());
    data
}

fn metadata_record(pid: u32, comm: &[u8], cgroup_id: u64) -> Vec<u8> {
    let mut data = vec![0u8; 32];
    data[0] = events::MSG_TYPE_TASK_METADATA;
    data[4..8].copy_from_slice(&pid.to_le_bytes());
    data[8..8 + comm.len()].copy_from_slice(comm);
    data[24..32].copy_from_slice(&cgroup_id.to_le_bytes());
    data
}

fn free_record(pid: u32) -> Vec<u8> {
    let mut data = vec![0u8; 8];
    data[0] = events::MSG_TYPE_TASK_FREE;
    data[4..8].copy_from_slice(&pid.to_le_bytes());
    data
}

#[test]
fn parse_perf_measurement_roundtrip() {
    let data = perf_record(42, 1000, 7_000_000);
    let msg = events::parse_perf_measurement(&data).expect("well-formed record");
    assert_eq!(msg.pid, 42);
    assert_eq!(msg.cycles_delta, 1000);
    assert_eq!(msg.instructions_delta, 2);
    assert_eq!(msg.llc_misses_delta, 3);
    assert_eq!(msg.cache_references_delta, 4);
    assert_eq!(msg.time_delta_ns, 5);
    assert_eq!(msg.timeslot, 7_000_000);
}

#[test]
fn parse_rejects_malformed_records() {
    // wrong tag
    let mut data = perf_record(1, 1, 1);
    data[0] = events::MSG_TYPE_TASK_FREE;
    assert!(events::parse_perf_measurement(&data).is_none());
    // wrong length
    assert!(events::parse_perf_measurement(&[events::MSG_TYPE_PERF_MEASUREMENT]).is_none());
    assert!(events::parse_task_metadata(&[0u8; 31]).is_none());
    assert!(events::parse_task_free(&[0u8; 8]).is_none());
}

#[test]
fn deferred_removal_keeps_lookup_until_flush() {
    let mut table = TaskCollection::new();
    table.add(TaskMetadata::new(7, b"worker".to_vec(), 99));
    table.queue_removal(7);
    // still visible after queueing
    let found = table.lookup(7).expect("still visible");
    assert_eq!(found.cgroup_id, 99);
    // a re-insert during the same slot keeps it visible too
    table.add(TaskMetadata::new(7, b"worker".to_vec(), 99));
    assert!(table.lookup(7).is_some());
    table.flush_removals();
    assert!(table.lookup(7).is_none());
}

#[test]
fn late_task_free_does_not_lose_a_perf_record() {
    let mut proc = PerfEventProcessor::new();
    let mut comm = vec![0u8; 16];
    comm[0] = b'a';
    proc.handle_task_metadata(&metadata_record(42, &comm, 9));
    proc.handle_task_free(&free_record(42));
    // the record arrives after the free, still within the slot
    proc.handle_perf_measurement(&perf_record(42, 1000, 0));
    let completed = proc.on_new_timeslot(1_000_000);
    assert_eq!(completed.len(), 1);
    let row = completed.row(0);
    assert_eq!(row.0, 42);
    let meta = row.1.metadata.as_ref().expect("metadata resolved");
    assert_eq!(meta.comm[0], b'a');
    assert_eq!(meta.cgroup_id, 9);
    assert_eq!(row.1.metric.cycles, 1000);
    // and the table flushed after the hand-off
    proc.handle_perf_measurement(&perf_record(42, 50, 1_000_000));
    let completed2 = proc.on_new_timeslot(2_000_000);
    let row2 = completed2.row(0);
    assert!(row2.1.metadata.is_none());
}

#[test]
fn timeslot_fold_accumulates_per_pid() {
    let mut slot = TimeslotData::new(5);
    assert_eq!(slot.timestamp(), 5);
    slot.update(1, None, Metric::from_deltas(10, 1, 0, 0, 2));
    slot.update(2, None, Metric::from_deltas(5, 0, 0, 0, 1));
    slot.update(1, None, Metric::from_deltas(7, 2, 1, 1, 3));
    assert_eq!(slot.len(), 2);
    let row = slot.row(0);
    assert_eq!(row.0, 1);
    assert_eq!(row.1.metric.cycles, 17);
    assert_eq!(row.1.metric.instructions, 3);
    assert_eq!(row.1.metric.time_ns, 5);
    let row2 = slot.row(1);
    assert_eq!(row2.0, 2);
    assert_eq!(row2.1.metric.cycles, 5);
}

#[test]
fn timeslot_fold_split_matches_sequential() {
    // folding [a, b, c] in one slot equals folding [a] and [b, c]
    // independently and summing per pid
    let a = (1u32, Metric::from_deltas(10, 0, 0, 0, 0));
    let b = (1u32, Metric::from_deltas(20, 0, 0, 0, 0));
    let c = (2u32, Metric::from_deltas(30, 0, 0, 0, 0));

    let mut whole = TimeslotData::new(0);
    for (pid, m) in [a, b, c] {
        whole.update(pid, None, m);
    }
    let mut left = TimeslotData::new(0);
    left.update(a.0, None, a.1);
    let mut right = TimeslotData::new(0);
    right.update(b.0, None, b.1);
    right.update(c.0, None, c.1);

    // merge right into left by per-pid summation
    let mut merged: Vec<(u32, u64)> = Vec::new();
    for i in 0..left.len() {
        let row = left.row(i);
        merged.push((row.0, row.1.metric.cycles));
    }
    for i in 0..right.len() {
        let row = right.row(i);
        if let Some(entry) = merged.iter_mut().find(|(p, _)| *p == row.0) {
            entry.1 += row.1.metric.cycles;
        } else {
            merged.push((row.0, row.1.metric.cycles));
        }
    }
    let mut whole_counts: Vec<(u32, u64)> = Vec::new();
    for i in 0..whole.len() {
        let row = whole.row(i);
        whole_counts.push((row.0, row.1.metric.cycles));
    }
    merged.sort();
    whole_counts.sort();
    assert_eq!(merged, whole_counts);
}

#[test]
fn saturating_fold_never_wraps() {
    let mut slot = TimeslotData::new(0);
    slot.update(1, None, Metric::from_deltas(u64::MAX - 1, 0, 0, 0, 0));
    slot.update(1, None, Metric::from_deltas(10, 0, 0, 0, 0));
    assert_eq!(slot.row(0).1.metric.cycles, u64::MAX);
}

fn writer_cfg(buffer: u64, file_limit: u64, quota: Option<u64>) -> ParquetWriterConfig {
    ParquetWriterConfig {
        storage_prefix: "unvariance-metrics-test".to_string(),
        buffer_size: buffer,
        file_size_limit: file_limit,
        max_row_group_size: 1024,
        storage_quota: quota,
    }
}

fn count(actions: &[WriterAction], which: fn(&WriterAction) -> bool) -> usize {
    actions.iter().filter(|a| which(a)).count()
}

#[test]
fn writer_rotation_on_signal_produces_two_objects() {
    let mut w = ParquetWriter::new(writer_cfg(1 << 20, 1 << 30, None));
    let mut all: Vec<WriterAction> = Vec::new();
    for _ in 0..100 {
        all.extend(w.accept_timeslot(10, 4096));
    }
    all.extend(w.rotate());
    for _ in 0..100 {
        all.extend(w.accept_timeslot(10, 4096));
    }
    all.extend(w.finish());
    let opens = count(&all, |a| matches!(a, WriterAction::Open(_)));
    let closes = count(&all, |a| matches!(a, WriterAction::Close));
    assert_eq!(opens, 2);
    assert_eq!(closes, 2);
}

#[test]
fn writer_two_rotations_at_most_two_boundaries() {
    let mut w = ParquetWriter::new(writer_cfg(1 << 20, 1 << 30, None));
    let mut all: Vec<WriterAction> = Vec::new();
    all.extend(w.accept_timeslot(1, 100));
    all.extend(w.rotate());
    all.extend(w.rotate());
    let closes = count(&all, |a| matches!(a, WriterAction::Close));
    assert!(closes <= 2);
}

#[test]
fn writer_quota_stops_accepting() {
    // quota of 8 KiB with 4 KiB objects: after the quota no object opens
    let mut w = ParquetWriter::new(writer_cfg(1024, 4096, Some(8192)));
    let mut all: Vec<WriterAction> = Vec::new();
    for _ in 0..100 {
        all.extend(w.accept_timeslot(10, 2048));
    }
    all.extend(w.finish());
    assert!(w.is_stopped());
    assert!(w.dropped_timeslots() > 0);
    // every open object fits the accounting: at most quota + one row group
    let opens = count(&all, |a| matches!(a, WriterAction::Open(_)));
    assert!(opens <= 3);
}

#[test]
fn writer_sequences_are_monotonic() {
    let mut w = ParquetWriter::new(writer_cfg(100, 250, None));
    let mut seqs: Vec<u64> = Vec::new();
    for _ in 0..10 {
        for a in w.accept_timeslot(1, 120) {
            if let WriterAction::Open(s) = a {
                seqs.push(s);
            }
        }
    }
    let mut sorted = seqs.clone();
    sorted.sort();
    sorted.dedup();
    assert_eq!(seqs, sorted);
    assert!(seqs.len() >= 2);
}
