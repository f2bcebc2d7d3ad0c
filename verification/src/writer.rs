//! The columnar-writer state machine: buffering, row-group flushes, object
//! rotation and the storage quota.
//!
//! The machine decides; the caller performs. Each operation returns the
//! actions to carry out against the object store, in order: open an object,
//! flush a row group into it, close it. Byte counts are the caller's
//! (estimated) encoded sizes. The quota can never be exceeded by more than
//! one row group's worth of bytes.

use vstd::prelude::*;

verus! {

/// Writer configuration, as the command line hands it over.
#[derive(Clone, Debug)]
pub struct ParquetWriterConfig {
    /// Object-name prefix, already carrying the node identity.
    pub storage_prefix: String,
    /// Buffered bytes that trigger a row-group flush.
    pub buffer_size: u64,
    /// Object size after which the object is closed and a new one begun.
    pub file_size_limit: u64,
    /// Buffered rows that trigger a row-group flush.
    pub max_row_group_size: usize,
    /// Total bytes across all objects, if bounded.
    pub storage_quota: Option<u64>,
}

/// One action the caller must perform against the store, in order.
#[derive(Clone, Copy, PartialEq, Eq, Structural, Debug)]
pub enum WriterAction {
    /// Begin object number `seq`.
    Open(u64),
    /// Encode the buffered rows as one row group into the current object.
    FlushRowGroup,
    /// Write the footer and finish the current object.
    Close,
}

/// The writer's accounting state.
pub struct ParquetWriter {
    cfg: ParquetWriterConfig,
    buffered_rows: usize,
    buffered_bytes: u64,
    object_open: bool,
    object_bytes: u64,
    total_bytes: u64,
    next_seq: u64,
    stopped: bool,
    dropped_timeslots: u64,
    largest_flush: Ghost<nat>,
}

impl ParquetWriter {
    pub closed spec fn cfg_spec(&self) -> ParquetWriterConfig {
        self.cfg
    }

    pub closed spec fn buffered_rows_spec(&self) -> usize {
        self.buffered_rows
    }

    pub closed spec fn buffered_bytes_spec(&self) -> u64 {
        self.buffered_bytes
    }

    pub closed spec fn object_open_spec(&self) -> bool {
        self.object_open
    }

    pub closed spec fn object_bytes_spec(&self) -> u64 {
        self.object_bytes
    }

    /// Cumulative bytes flushed across all objects.
    pub closed spec fn total_bytes_spec(&self) -> u64 {
        self.total_bytes
    }

    pub closed spec fn next_seq_spec(&self) -> u64 {
        self.next_seq
    }

    /// Whether the quota was reached and the writer drains silently.
    pub closed spec fn stopped_spec(&self) -> bool {
        self.stopped
    }

    pub closed spec fn dropped_timeslots_spec(&self) -> u64 {
        self.dropped_timeslots
    }

    /// The largest single row-group flush so far.
    pub closed spec fn largest_flush_spec(&self) -> nat {
        self.largest_flush@
    }

    /// The accounting invariant. With a quota `q`: while an object is open,
    /// what was written before it began leaves room for a full object; and
    /// the total can only exceed `q` by the final row group of an object.
    pub closed spec fn wf(&self) -> bool {
        &&& self.object_open ==> self.object_bytes <= self.cfg.file_size_limit
        &&& self.object_open ==> self.object_bytes <= self.total_bytes
        &&& self.stopped ==> !self.object_open
        &&& match self.cfg.storage_quota {
            Some(q) => {
                &&& self.object_open ==> self.total_bytes - self.object_bytes
                    + self.cfg.file_size_limit <= q
                &&& self.total_bytes <= q + self.largest_flush@
            },
            None => true,
        }
    }

    /// The writer-quota bound: the cumulative bytes written never exceed the
    /// quota by more than one row group's worth.
    pub open spec fn quota_respected(&self) -> bool {
        match self.cfg_spec().storage_quota {
            Some(q) => self.total_bytes_spec() <= q + self.largest_flush_spec(),
            None => true,
        }
    }

    pub proof fn lemma_wf_implies_quota(&self)
        requires
            self.wf(),
        ensures
            self.quota_respected(),
    {
    }

    pub fn new(cfg: ParquetWriterConfig) -> (r: ParquetWriter)
        ensures
            r.wf(),
            r.cfg_spec() == cfg,
            r.buffered_rows_spec() == 0,
            r.buffered_bytes_spec() == 0,
            !r.object_open_spec(),
            r.total_bytes_spec() == 0,
            r.next_seq_spec() == 0,
            !r.stopped_spec(),
            r.dropped_timeslots_spec() == 0,
    {
        ParquetWriter {
            cfg,
            buffered_rows: 0,
            buffered_bytes: 0,
            object_open: false,
            object_bytes: 0,
            total_bytes: 0,
            next_seq: 0,
            stopped: false,
            dropped_timeslots: 0,
            largest_flush: Ghost(0),
        }
    }

    /// Flush the buffer as one row group, opening an object first if none is
    /// open, and close the object when it has outgrown the size limit.
    /// Does nothing when the buffer is empty.
    fn flush_row_group(&mut self, actions: &mut Vec<WriterAction>)
        requires
            old(self).wf(),
            !old(self).stopped_spec(),
        ensures
            final(self).wf(),
            final(self).cfg_spec() == old(self).cfg_spec(),
            final(self).buffered_rows_spec() == 0,
            final(self).buffered_bytes_spec() == 0,
            final(self).dropped_timeslots_spec() == old(self).dropped_timeslots_spec(),
            // closing happens at most once here, and only on the way to a
            // closed object
            count_closes(final(actions)@) <= count_closes(old(actions)@) + 1,
            final(self).object_open_spec() ==> count_closes(final(actions)@) == count_closes(
                old(actions)@,
            ),
            old(self).buffered_bytes_spec() == 0 ==> final(actions)@ == old(actions)@
                && *final(self) == old(self).with_buffered_rows_zero(),
            final(self).stopped_spec() ==> old(self).cfg_spec().storage_quota is Some,
            // the appended actions are fixed by the pre-state
            final(actions)@ == old(actions)@ + old(self).flush_actions_with(
                old(self).buffered_bytes_spec(),
            ),
            old(self).buffered_bytes_spec() > 0 && old(self).would_stop()
                ==> final(self).stopped_spec()
                && final(self).total_bytes_spec() == old(self).total_bytes_spec()
                && final(self).object_open_spec() == old(self).object_open_spec()
                && final(self).object_bytes_spec() == old(self).object_bytes_spec()
                && final(self).next_seq_spec() == old(self).next_seq_spec(),
            old(self).buffered_bytes_spec() > 0 && !old(self).would_stop() ==> {
                let oaf = old(self).object_after_flush(old(self).buffered_bytes_spec());
                &&& final(self).stopped_spec() == old(self).stopped_spec()
                &&& final(self).total_bytes_spec() == crate::sat_add(
                    old(self).total_bytes_spec() as nat,
                    old(self).buffered_bytes_spec() as nat,
                )
                &&& final(self).object_open_spec() == (oaf
                    <= old(self).cfg_spec().file_size_limit)
                &&& final(self).object_bytes_spec() == (if oaf > old(
                    self,
                ).cfg_spec().file_size_limit {
                    0int
                } else {
                    oaf
                })
                &&& (old(self).object_open_spec() ==> final(self).next_seq_spec() == old(
                    self,
                ).next_seq_spec())
                &&& (!old(self).object_open_spec() && old(self).next_seq_spec() < u64::MAX
                    ==> final(self).next_seq_spec() == old(self).next_seq_spec() + 1)
                &&& (!old(self).object_open_spec() && old(self).next_seq_spec() == u64::MAX
                    ==> final(self).next_seq_spec() == u64::MAX)
            },
    {
        if self.buffered_bytes == 0 {
            self.buffered_rows = 0;
            return ;
        }
        if !self.object_open {
            // quota gate: an object is begun only when a full-size object
            // still fits under the quota
            match self.cfg.storage_quota {
                Some(q) => {
                    if self.total_bytes > q || self.cfg.file_size_limit > q - self.total_bytes {
                        self.stopped = true;
                        self.buffered_rows = 0;
                        self.buffered_bytes = 0;
                        return ;
                    }
                },
                None => {},
            }
            let pre_open = Ghost(actions@);
            actions.push(WriterAction::Open(self.next_seq));
            proof {
                lemma_count_closes_push(pre_open@, WriterAction::Open(self.next_seq));
            }
            self.next_seq = if self.next_seq < u64::MAX {
                self.next_seq + 1
            } else {
                self.next_seq
            };
            self.object_open = true;
            self.object_bytes = 0;
        }
        let bytes = self.buffered_bytes;
        let total0 = Ghost(self.total_bytes);
        let object0 = Ghost(self.object_bytes);
        let pre_flush = Ghost(actions@);
        actions.push(WriterAction::FlushRowGroup);
        proof {
            lemma_count_closes_push(pre_flush@, WriterAction::FlushRowGroup);
        }
        self.total_bytes = if self.total_bytes <= u64::MAX - bytes {
            self.total_bytes + bytes
        } else {
            u64::MAX
        };
        self.object_bytes = if self.object_bytes <= u64::MAX - bytes {
            self.object_bytes + bytes
        } else {
            u64::MAX
        };
        proof {
            if self.largest_flush@ < bytes as nat {
                self.largest_flush@ = bytes as nat;
            }
            assert(self.largest_flush@ >= bytes);
            assert(self.largest_flush@ >= old(self).largest_flush@);
            if let Some(q) = self.cfg.storage_quota {
                assert(total0@ - object0@ + self.cfg.file_size_limit <= q);
                assert(total0@ <= q);
                if self.object_bytes <= self.cfg.file_size_limit {
                    if object0@ + bytes <= u64::MAX {
                        // nothing saturated: the object still fits, so the
                        // total stays under the quota
                        assert(object0@ + bytes <= self.cfg.file_size_limit);
                        assert(total0@ + bytes <= q);
                        assert(self.total_bytes == total0@ + bytes);
                    } else {
                        assert(self.cfg.file_size_limit == u64::MAX);
                        assert(q == u64::MAX);
                    }
                }
                assert(self.total_bytes <= total0@ + bytes);
                assert(self.total_bytes <= q + self.largest_flush@);
            }
        }
        self.buffered_rows = 0;
        self.buffered_bytes = 0;
        if self.object_bytes > self.cfg.file_size_limit {
            let pre_close = Ghost(actions@);
            actions.push(WriterAction::Close);
            proof {
                lemma_count_closes_push(pre_close@, WriterAction::Close);
            }
            self.object_open = false;
            self.object_bytes = 0;
        }
    }

    /// The same state with an emptied row buffer.
    pub closed spec fn with_buffered_rows_zero(&self) -> ParquetWriter {
        ParquetWriter { buffered_rows: 0, buffered_bytes: 0, ..*self }
    }

    /// Whether beginning an object now would overrun the quota and stop
    /// the writer.
    pub open spec fn would_stop(&self) -> bool {
        !self.object_open_spec() && match self.cfg_spec().storage_quota {
            Some(q) => self.total_bytes_spec() > q || self.cfg_spec().file_size_limit > q
                - self.total_bytes_spec(),
            None => false,
        }
    }

    /// The current object's size after flushing `buffered` bytes into it —
    /// starting from zero when no object is open yet.
    pub open spec fn object_after_flush(&self, buffered: u64) -> int {
        crate::sat_add(
            (if self.object_open_spec() {
                self.object_bytes_spec()
            } else {
                0u64
            }) as nat,
            buffered as nat,
        ) as int
    }

    /// The actions one row-group flush of `buffered` bytes appends, fixed
    /// by the pre-state: nothing on an empty buffer or at the quota gate;
    /// otherwise an open when no object is open, the flush itself, and a
    /// close when the object outgrows its limit.
    pub open spec fn flush_actions_with(&self, buffered: u64) -> Seq<WriterAction> {
        if buffered == 0 || self.would_stop() {
            Seq::empty()
        } else {
            (if self.object_open_spec() {
                Seq::<WriterAction>::empty()
            } else {
                seq![WriterAction::Open(self.next_seq_spec())]
            }) + seq![WriterAction::FlushRowGroup] + (if self.object_after_flush(buffered)
                > self.cfg_spec().file_size_limit {
                seq![WriterAction::Close]
            } else {
                Seq::<WriterAction>::empty()
            })
        }
    }

    /// Bumped row count after accepting a timeslot.
    pub open spec fn bump_rows(&self, rows: usize) -> usize {
        if self.buffered_rows_spec() <= usize::MAX - rows {
            (self.buffered_rows_spec() + rows) as usize
        } else {
            usize::MAX
        }
    }

    /// Bumped byte count after accepting a timeslot.
    pub open spec fn bump_bytes(&self, bytes: u64) -> u64 {
        crate::sat_add(self.buffered_bytes_spec() as nat, bytes as nat) as u64
    }

    /// Whether a buffer of this size must be flushed.
    pub open spec fn threshold_crossed(&self, rows: usize, bytes: u64) -> bool {
        bytes >= self.cfg_spec().buffer_size || rows >= self.cfg_spec().max_row_group_size
    }

    /// Accept one completed timeslot of `rows` rows and `bytes` estimated
    /// encoded bytes. Once the quota stopped the writer, timeslots are
    /// dropped silently and counted.
    pub fn accept_timeslot(&mut self, rows: usize, bytes: u64) -> (actions: Vec<WriterAction>)
        requires
            old(self).wf(),
        ensures
            final(self).wf(),
            final(self).cfg_spec() == old(self).cfg_spec(),
            final(self).quota_respected(),
            count_closes(actions@) <= 1,
            // once stopped, the timeslot is dropped and counted, nothing else
            old(self).stopped_spec() ==> actions@.len() == 0 && final(self).buffered_rows_spec()
                == old(self).buffered_rows_spec() && final(self).buffered_bytes_spec() == old(
                self,
            ).buffered_bytes_spec() && final(self).total_bytes_spec() == old(
                self,
            ).total_bytes_spec() && final(self).object_open_spec() == old(
                self,
            ).object_open_spec() && final(self).stopped_spec() && final(self).next_seq_spec() == old(self).next_seq_spec() && (old(
                self,
            ).dropped_timeslots_spec() < u64::MAX ==> final(self).dropped_timeslots_spec()
                == old(self).dropped_timeslots_spec() + 1),
            // below a threshold the buffers grow by exactly this timeslot
            // and nothing is performed
            !old(self).stopped_spec() && !old(self).threshold_crossed(
                old(self).bump_rows(rows),
                old(self).bump_bytes(bytes),
            ) ==> actions@.len() == 0 && final(self).buffered_rows_spec() == old(self).bump_rows(
                rows,
            ) && final(self).buffered_bytes_spec() == old(self).bump_bytes(bytes) && final(self).total_bytes_spec() == old(self).total_bytes_spec() && final(self).object_open_spec() == old(self).object_open_spec() && final(self).object_bytes_spec() == old(self).object_bytes_spec() && !final(self).stopped_spec() && final(self).next_seq_spec() == old(self).next_seq_spec(),
            // at a threshold the buffer is flushed as one row group and the
            // performed actions are fixed by the pre-state
            !old(self).stopped_spec() && old(self).threshold_crossed(
                old(self).bump_rows(rows),
                old(self).bump_bytes(bytes),
            ) ==> actions@ == old(self).flush_actions_with(old(self).bump_bytes(bytes)) && final(self).buffered_rows_spec() == 0 && final(self).buffered_bytes_spec() == 0 && (!old(
                self,
            ).would_stop() && old(self).bump_bytes(bytes) > 0 ==> final(self).total_bytes_spec()
                == crate::sat_add(
                old(self).total_bytes_spec() as nat,
                old(self).bump_bytes(bytes) as nat,
            ) && !final(self).stopped_spec()) && (old(self).would_stop() && old(self).bump_bytes(
                bytes,
            ) > 0 ==> final(self).stopped_spec() && final(self).total_bytes_spec() == old(
                self,
            ).total_bytes_spec()),
    {
        let mut actions: Vec<WriterAction> = Vec::new();
        if self.stopped {
            self.dropped_timeslots = if self.dropped_timeslots < u64::MAX {
                self.dropped_timeslots + 1
            } else {
                self.dropped_timeslots
            };
            proof {
                self.lemma_wf_implies_quota();
            }
            return actions;
        }
        self.buffered_rows = if self.buffered_rows <= usize::MAX - rows {
            self.buffered_rows + rows
        } else {
            usize::MAX
        };
        self.buffered_bytes = if self.buffered_bytes <= u64::MAX - bytes {
            self.buffered_bytes + bytes
        } else {
            u64::MAX
        };
        proof {
            assert(self.buffered_rows_spec() == old(self).bump_rows(rows));
            assert(self.buffered_bytes_spec() == old(self).bump_bytes(bytes));
        }
        if self.buffered_bytes >= self.cfg.buffer_size || self.buffered_rows
            >= self.cfg.max_row_group_size {
            let mid = Ghost(*self);
            self.flush_row_group(&mut actions);
            proof {
                assert(mid@.would_stop() == old(self).would_stop());
                assert(mid@.flush_actions_with(mid@.buffered_bytes_spec())
                    =~= old(self).flush_actions_with(old(self).bump_bytes(bytes)));
                assert(actions@ =~= old(self).flush_actions_with(old(self).bump_bytes(bytes)));
            }
        }
        proof {
            self.lemma_wf_implies_quota();
        }
        actions
    }

    /// The rotate signal: finish the current object at the next row-group
    /// boundary — here, now — and let the next flush begin a new object
    /// regardless of size. At most one object boundary per signal.
    pub fn rotate(&mut self) -> (actions: Vec<WriterAction>)
        requires
            old(self).wf(),
        ensures
            final(self).wf(),
            final(self).cfg_spec() == old(self).cfg_spec(),
            final(self).quota_respected(),
            count_closes(actions@) <= 1,
            !old(self).object_open_spec() && old(self).buffered_bytes_spec() == 0 ==> count_closes(
                actions@,
            ) == 0,
            // the signal always leaves the current object finished
            !final(self).object_open_spec(),
            // an open object is closed by exactly one boundary, after any
            // buffered rows went out as a final row group
            old(self).object_open_spec() ==> count_closes(actions@) == 1,
            !old(self).stopped_spec() ==> final(self).buffered_rows_spec() == 0 && final(self).buffered_bytes_spec() == 0,
            old(self).stopped_spec() ==> actions@.len() == 0 && *final(self) == *old(self),
    {
        let mut actions: Vec<WriterAction> = Vec::new();
        if !self.stopped {
            self.flush_row_group(&mut actions);
        }
        if self.object_open {
            let pre = Ghost(actions@);
            actions.push(WriterAction::Close);
            proof {
                lemma_count_closes_push(pre@, WriterAction::Close);
            }
            self.object_open = false;
            self.object_bytes = 0;
        }
        proof {
            self.lemma_wf_implies_quota();
        }
        actions
    }

    /// Channel closed: flush what is buffered and finish the object.
    pub fn finish(&mut self) -> (actions: Vec<WriterAction>)
        requires
            old(self).wf(),
        ensures
            final(self).wf(),
            final(self).quota_respected(),
            !final(self).object_open_spec(),
            final(self).buffered_bytes_spec() == 0,
            count_closes(actions@) <= 1,
    {
        let mut actions: Vec<WriterAction> = Vec::new();
        if !self.stopped {
            self.flush_row_group(&mut actions);
        } else {
            self.buffered_rows = 0;
            self.buffered_bytes = 0;
        }
        if self.object_open {
            let pre = Ghost(actions@);
            actions.push(WriterAction::Close);
            proof {
                lemma_count_closes_push(pre@, WriterAction::Close);
            }
            self.object_open = false;
            self.object_bytes = 0;
        }
        proof {
            self.lemma_wf_implies_quota();
        }
        actions
    }

    /// How many timeslots were dropped after the quota stop.
    pub fn dropped_timeslots(&self) -> (r: u64)
        ensures
            r == self.dropped_timeslots_spec(),
    {
        self.dropped_timeslots
    }

    /// Whether the quota has stopped the writer.
    pub fn is_stopped(&self) -> (r: bool)
        ensures
            r == self.stopped_spec(),
    {
        self.stopped
    }

    /// The next object's sequence number.
    pub fn next_seq(&self) -> (r: u64)
        ensures
            r == self.next_seq_spec(),
    {
        self.next_seq
    }
}

/// The number of object boundaries among the actions.
pub open spec fn count_closes(actions: Seq<WriterAction>) -> nat
    decreases actions.len(),
{
    if actions.len() == 0 {
        0
    } else {
        count_closes(actions.drop_last()) + if actions.last() is Close {
            1nat
        } else {
            0nat
        }
    }
}

proof fn lemma_count_closes_push(s: Seq<WriterAction>, a: WriterAction)
    ensures
        count_closes(s.push(a)) == count_closes(s) + if a is Close {
            1nat
        } else {
            0nat
        },
{
    assert(s.push(a).drop_last() =~= s);
    assert(s.push(a).last() == a);
}

/// Rotation idempotence: two rotate signals, each producing its action list,
/// yield at most two object boundaries between them.
pub proof fn lemma_rotation_idempotence(a1: Seq<WriterAction>, a2: Seq<WriterAction>)
    requires
        count_closes(a1) <= 1,
        count_closes(a2) <= 1,
    ensures
        count_closes(a1 + a2) <= 2,
{
    lemma_count_closes_concat(a1, a2);
}

proof fn lemma_count_closes_concat(a: Seq<WriterAction>, b: Seq<WriterAction>)
    ensures
        count_closes(a + b) == count_closes(a) + count_closes(b),
    decreases b.len(),
{
    if b.len() == 0 {
        assert(a + b =~= a);
    } else {
        lemma_count_closes_concat(a, b.drop_last());
        assert((a + b).drop_last() =~= a + b.drop_last());
    }
}

} // verus!
