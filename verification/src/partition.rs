//! Partitions: the unit of ordering and the heart of the append/read path.
//!
//! A partition owns an ordered list of segments (oldest first, all but the
//! newest sealed), a buffer of appended-but-not-yet-segment-durable messages,
//! a cache of the most recent messages, and the next-offset counter. Within
//! one partition, append order, offset order and durable write order agree.

use vstd::prelude::*;

use crate::cache::{evict_count, lemma_evict_count_bounds, MemoryTracker, PartitionCache};
use crate::error::Error;
use crate::message::{
    assigned, batch_size, lemma_assigned_size, lemma_msg_size_lb, lemma_msgs_size_nonneg,
    lemma_msgs_size_skip, lemma_msgs_size_take_step, msg_size, msgs_size, msgs_view, Message,
    MessagePayload, MsgV, PayloadV,
};
use crate::segment::{
    lemma_msgs_size_prefix_le_total, lemma_segs_msgs_index, lemma_segs_msgs_len,
    lemma_segs_msgs_push, lemma_segs_msgs_update_last_push, segs_chain, segs_msgs, segs_sealing,
    Segment,
};

verus! {

/// The durability strategy, chosen once per deployment. Buffered writes rely
/// on the operating system's flush; fsync-on-write forces a synchronous
/// flush before an append reports success.
#[derive(Clone, Copy, Debug, PartialEq, Eq, Structural)]
pub enum Persister {
    Buffered,
    FsyncOnWrite,
}

/// Per-partition segment rollover thresholds.
#[derive(Clone, Copy, Debug, PartialEq, Eq, Structural)]
pub struct PartitionConfig {
    /// Messages an open segment may hold before it is sealed.
    pub segment_max_count: u64,
    /// Accounted bytes an open segment may hold before it is sealed.
    pub segment_max_bytes: u64,
}

/// The models of a batch of payloads.
pub open spec fn batch_view(b: Seq<MessagePayload>) -> Seq<PayloadV> {
    b.map_values(|p: MessagePayload| p@)
}

/// One ordered, append-only log.
#[derive(Debug)]
pub struct Partition {
    pub partition_id: u32,
    /// Segments, oldest first; always at least one; only the last is open.
    pub segments: Vec<Segment>,
    /// Appended messages whose durable copy has not reached a segment yet
    /// (buffered persister); always a suffix of the cache.
    pub unsaved: Vec<Message>,
    /// The most recently appended messages, for hot reads.
    pub cache: PartitionCache,
    /// The offset the next appended message will be assigned; only grows.
    pub next_offset: u64,
}

impl Partition {
    /// The durably segmented part of the log.
    pub open spec fn durable(&self) -> Seq<MsgV> {
        segs_msgs(self.segments@)
    }

    /// Appended messages not yet in a segment.
    pub open spec fn unsaved_msgs(&self) -> Seq<MsgV> {
        msgs_view(self.unsaved@)
    }

    /// The whole logical log: durable messages followed by unsaved ones.
    pub open spec fn log(&self) -> Seq<MsgV> {
        self.durable() + self.unsaved_msgs()
    }

    /// One past the highest durably segmented offset.
    pub open spec fn durable_end(&self) -> int {
        self.segments@.last().end_offset()
    }

    /// The first offset resident in the cache.
    pub open spec fn cache_start(&self) -> int {
        self.next_offset - self.cache.view_msgs().len()
    }

    /// The partition invariant.
    ///
    /// - segments chain contiguously from offset zero and only the newest is
    ///   open;
    /// - the unsaved buffer continues exactly where the segments end;
    /// - `next_offset` is one past the last appended message;
    /// - the cache is a contiguous suffix of the log ending at
    ///   `next_offset - 1` and always covers every unsaved message, so
    ///   eviction can never drop data that has no durable copy.
    pub open spec fn wf(&self) -> bool {
        &&& segs_chain(self.segments@)
        &&& segs_sealing(self.segments@)
        &&& self.durable().len() == self.durable_end()
        &&& forall|j: int|
            0 <= j < self.unsaved_msgs().len() ==> (#[trigger] self.unsaved_msgs()[j]).offset
                == self.durable_end() + j
        &&& self.next_offset == self.durable_end() + self.unsaved_msgs().len()
        &&& self.log().len() == self.next_offset
        &&& self.cache.wf()
        &&& self.cache.view_msgs().len() >= self.unsaved_msgs().len()
        &&& self.cache.view_msgs().len() <= self.next_offset
        &&& self.cache.view_msgs() == self.log().subrange(
            self.cache_start(),
            self.next_offset as int,
        )
    }

    /// A fresh, empty partition: one open segment at offset zero.
    pub fn create(partition_id: u32) -> (r: Partition)
        ensures
            r.wf(),
            r.partition_id == partition_id,
            r.next_offset == 0,
            r.log() == Seq::<MsgV>::empty(),
            r.durable() == Seq::<MsgV>::empty(),
            r.cache.view_msgs() == Seq::<MsgV>::empty(),
            r.cache.size() == 0,
    {
        let mut segments: Vec<Segment> = Vec::new();
        segments.push(Segment::open_at(0));
        let r = Partition {
            partition_id,
            segments,
            unsaved: Vec::new(),
            cache: PartitionCache::new(),
            next_offset: 0,
        };
        proof {
            lemma_segs_msgs_len(r.segments@);
            assert(r.durable() =~= Seq::<MsgV>::empty());
            assert(r.log() =~= Seq::<MsgV>::empty());
            assert(r.unsaved_msgs() =~= Seq::<MsgV>::empty());
            assert(r.cache.view_msgs() =~= r.log().subrange(0, 0));
        }
        r
    }

    /// The offset the next append will assign.
    pub fn current_next_offset(&self) -> (r: u64)
        ensures
            r == self.next_offset,
    {
        self.next_offset
    }

    /// The earliest offset the partition still retains; the seam where a
    /// retention policy would trim whole sealed segments.
    pub fn earliest_offset(&self) -> (r: u64)
        requires
            self.wf(),
        ensures
            r == self.segments@[0].start_offset,
    {
        self.segments[0].start_offset
    }

    /// One past the highest durably segmented offset.
    pub fn durable_end_offset(&self) -> (r: u64)
        requires
            self.wf(),
        ensures
            r == self.durable_end(),
    {
        let last = self.segments.len() - 1;
        let seg = &self.segments[last];
        seg.start_offset + seg.messages.len() as u64
    }

    /// Write one message into the open segment, sealing it and opening a
    /// fresh one first when it is full (or when its size counter would
    /// overflow). Touches only the segment list.
    fn persist_one(&mut self, m: Message, config: &PartitionConfig)
        requires
            segs_chain(old(self).segments@),
            segs_sealing(old(self).segments@),
            m@.offset == old(self).durable_end(),
            old(self).durable_end() + 1 <= u64::MAX,
            msg_size(m@) <= u64::MAX,
        ensures
            segs_chain(final(self).segments@),
            segs_sealing(final(self).segments@),
            final(self).durable() == old(self).durable().push(m@),
            final(self).durable_end() == old(self).durable_end() + 1,
            final(self).unsaved == old(self).unsaved,
            final(self).cache == old(self).cache,
            final(self).next_offset == old(self).next_offset,
            final(self).partition_id == old(self).partition_id,
    {
        let ghost mv = m@;
        let msz = crate::cache::message_size_bytes(&m);
        let last = self.segments.len() - 1;
        let roll = self.segments[last].messages.len() as u64 >= config.segment_max_count
            || self.segments[last].size_bytes >= config.segment_max_bytes
            || self.segments[last].size_bytes > u64::MAX - msz;
        if roll {
            let ghost before = self.segments@;
            let mut seg = self.segments.pop().unwrap();
            let end = seg.start_offset + seg.messages.len() as u64;
            seg.seal();
            self.segments.push(seg);
            proof {
                assert(self.segments@.len() == before.len());
                assert(forall|k: int|
                    0 <= k < before.len() - 1 ==> self.segments@[k] == before[k]);
                lemma_segs_msgs_congruence(before, self.segments@);
                lemma_segs_msgs_len(self.segments@);
            }
            let mut fresh = Segment::open_at(end);
            fresh.append(m);
            let ghost mid = self.segments@;
            self.segments.push(fresh);
            proof {
                lemma_segs_msgs_push(mid, self.segments@.last());
                assert(self.segments@.last().msgs() =~= Seq::<MsgV>::empty().push(mv));
                assert(segs_msgs(self.segments@) =~= segs_msgs(before).push(mv));
                assert(segs_chain(self.segments@)) by {
                    assert(forall|k: int|
                        0 <= k < mid.len() ==> self.segments@[k] == mid[k]);
                }
                lemma_segs_msgs_len(self.segments@);
            }
        } else {
            let ghost before = self.segments@;
            let mut seg = self.segments.pop().unwrap();
            seg.append(m);
            self.segments.push(seg);
            proof {
                assert(self.segments@.len() == before.len());
                assert(forall|k: int|
                    0 <= k < before.len() - 1 ==> self.segments@[k] == before[k]);
                lemma_segs_msgs_update_last_push(before, self.segments@, mv);
                lemma_segs_msgs_len(self.segments@);
            }
        }
    }

    /// Flush every unsaved message into the segments. The logical log does
    /// not change; afterwards all of it is durably segmented.
    pub fn flush_unsaved(&mut self, config: &PartitionConfig)
        requires
            old(self).wf(),
        ensures
            final(self).wf(),
            final(self).durable() == old(self).log(),
            final(self).log() == old(self).log(),
            final(self).unsaved_msgs() == Seq::<MsgV>::empty(),
            final(self).next_offset == old(self).next_offset,
            final(self).cache == old(self).cache,
            final(self).partition_id == old(self).partition_id,
    {
        let ghost pending = self.unsaved_msgs();
        let ghost base = self.durable();
        let n = self.unsaved.len();
        let mut i: usize = 0;
        while i < n
            invariant
                i <= n,
                n == self.unsaved@.len(),
                pending == self.unsaved_msgs(),
                base == segs_msgs(old(self).segments@),
                old(self).wf(),
                self.unsaved == old(self).unsaved,
                self.cache == old(self).cache,
                self.next_offset == old(self).next_offset,
                self.partition_id == old(self).partition_id,
                segs_chain(self.segments@),
                segs_sealing(self.segments@),
                self.durable() == base + pending.take(i as int),
                self.durable_end() == base.len() + i,
            decreases n - i,
        {
            proof {
                lemma_msg_size_in_cache(old(self), i as int);
                assert(pending[i as int].offset == base.len() + i);
            }
            let m = clone_message_at(&self.unsaved, i);
            self.persist_one(m, config);
            proof {
                assert(self.durable() =~= base + pending.take(i + 1));
            }
            i += 1;
        }
        self.unsaved = Vec::new();
        proof {
            assert(pending.take(n as int) =~= pending);
            assert(self.durable() =~= old(self).log());
            assert(self.unsaved_msgs() =~= Seq::<MsgV>::empty());
            assert(self.log() =~= self.durable());
            lemma_segs_msgs_len(self.segments@);
            assert(self.cache.view_msgs() =~= self.log().subrange(
                self.cache_start(),
                self.next_offset as int,
            ));
        }
    }
}

impl Partition {
    /// Append one already-assigned message: into the cache always, and into
    /// the open segment (fsync-on-write) or the unsaved buffer (buffered).
    fn append_one(
        &mut self,
        m: Message,
        persister: Persister,
        config: &PartitionConfig,
        tracker: &mut MemoryTracker,
    )
        requires
            old(self).wf(),
            m@.offset == old(self).next_offset,
            old(self).next_offset + 1 <= u64::MAX,
            old(self).cache.size() + msg_size(m@) <= u64::MAX,
            old(tracker).usage() + msg_size(m@) <= u64::MAX,
            persister is FsyncOnWrite ==> old(self).unsaved_msgs().len() == 0,
        ensures
            final(self).wf(),
            final(self).log() == old(self).log().push(m@),
            final(self).cache.view_msgs() == old(self).cache.view_msgs().push(m@),
            final(self).cache.size() == old(self).cache.size() + msg_size(m@),
            final(self).next_offset == old(self).next_offset + 1,
            final(tracker).usage() == old(tracker).usage() + msg_size(m@),
            final(self).partition_id == old(self).partition_id,
            persister is Buffered ==> final(self).durable() == old(self).durable(),
            persister is FsyncOnWrite ==> final(self).durable() == final(self).log()
                && final(self).unsaved_msgs().len() == 0,
    {
        let ghost mv = m@;
        proof {
            lemma_log_offsets(old(self));
            if old(self).cache.view_msgs().len() > 0 {
                let clen = old(self).cache.view_msgs().len() as int;
                assert(old(self).cache.view_msgs()[clen - 1] == old(self).log()[old(
                    self,
                ).cache_start() + clen - 1]);
            }
        }
        let copy = m.clone();
        self.cache.push_message(copy, tracker);
        match persister {
            Persister::Buffered => {
                self.unsaved.push(m);
            },
            Persister::FsyncOnWrite => {
                proof {
                    assert(old(self).log() =~= old(self).durable());
                }
                self.persist_one(m, config);
            },
        }
        self.next_offset = self.next_offset + 1;
        proof {
            lemma_segs_msgs_len(self.segments@);
            assert(self.unsaved_msgs() =~= msgs_view(self.unsaved@));
            if persister is Buffered {
                assert(self.unsaved_msgs() =~= old(self).unsaved_msgs().push(mv));
            } else {
                assert(self.unsaved_msgs() =~= Seq::<MsgV>::empty());
            }
            assert(self.log() =~= old(self).log().push(mv));
            assert(self.cache.view_msgs() =~= self.log().subrange(
                self.cache_start(),
                self.next_offset as int,
            ));
        }
    }

    /// Append a batch of payloads, assigning strictly increasing offsets
    /// starting at `next_offset`, caching every message and handing it to
    /// the durability path chosen for the deployment.
    ///
    /// `persist_ok` is the outcome of the underlying store's write, supplied
    /// by the caller that performed it: when it is false the append fails
    /// with `WriteFailed` and the partition is left exactly as it was, so a
    /// failed batch never advances `next_offset` (all-or-nothing).
    pub fn append(
        &mut self,
        batch: &Vec<MessagePayload>,
        timestamp: u64,
        persister: Persister,
        config: &PartitionConfig,
        persist_ok: bool,
        tracker: &mut MemoryTracker,
    ) -> (r: Result<(u64, u64), Error>)
        requires
            old(self).wf(),
            old(self).next_offset + batch@.len() <= u64::MAX,
            old(self).cache.size() + batch_size(batch_view(batch@)) <= u64::MAX,
            old(tracker).usage() + batch_size(batch_view(batch@)) <= u64::MAX,
        ensures
            final(self).wf(),
            final(self).partition_id == old(self).partition_id,
            !persist_ok ==> {
                &&& r == Err::<(u64, u64), Error>(Error::WriteFailed)
                &&& *final(self) == *old(self)
                &&& *final(tracker) == *old(tracker)
            },
            persist_ok ==> {
                &&& r == Ok::<(u64, u64), Error>(
                    (
                        old(self).next_offset,
                        (old(self).next_offset + batch@.len()) as u64,
                    ),
                )
                &&& final(self).next_offset == old(self).next_offset + batch@.len()
                &&& final(self).log() == old(self).log() + assigned(
                    batch_view(batch@),
                    old(self).next_offset as int,
                    timestamp,
                )
                &&& final(self).cache.view_msgs() == old(self).cache.view_msgs() + assigned(
                    batch_view(batch@),
                    old(self).next_offset as int,
                    timestamp,
                )
                &&& final(self).cache.size() == old(self).cache.size() + batch_size(
                    batch_view(batch@),
                )
                &&& final(tracker).usage() == old(tracker).usage() + batch_size(
                    batch_view(batch@),
                )
                &&& (persister is FsyncOnWrite ==> final(self).durable() == final(self).log())
                &&& (persister is Buffered ==> final(self).durable() == old(self).durable())
            },
    {
        if !persist_ok {
            return Err(Error::WriteFailed);
        }
        let ghost bview = batch_view(batch@);
        let start = self.next_offset;
        let ghost asg = assigned(bview, start as int, timestamp);
        proof {
            lemma_assigned_size(bview, start as int, timestamp);
        }
        let ghost mid = *self;
        if matches!(persister, Persister::FsyncOnWrite) {
            self.flush_unsaved(config);
        }
        let ghost flushed = *self;
        let ghost flushed_tracker_usage = tracker.usage();
        let n = batch.len();
        let mut i: usize = 0;
        while i < n
            invariant
                i <= n,
                n == batch@.len(),
                bview == batch_view(batch@),
                asg == assigned(bview, start as int, timestamp),
                msgs_size(asg) == batch_size(bview),
                self.wf(),
                self.partition_id == flushed.partition_id,
                start + n <= u64::MAX,
                self.next_offset == start + i,
                self.log() == flushed.log() + asg.take(i as int),
                self.cache.view_msgs() == flushed.cache.view_msgs() + asg.take(i as int),
                self.cache.size() == flushed.cache.size() + msgs_size(asg.take(i as int)),
                tracker.usage() == flushed_tracker_usage + msgs_size(asg.take(i as int)),
                flushed.cache.size() + batch_size(bview) <= u64::MAX,
                flushed_tracker_usage + batch_size(bview) <= u64::MAX,
                persister is FsyncOnWrite ==> self.durable() == self.log()
                    && self.unsaved_msgs().len() == 0,
                persister is Buffered ==> self.durable() == flushed.durable(),
            decreases n - i,
        {
            proof {
                lemma_msgs_size_take_step(asg, i as int);
                lemma_take_size_le(asg, i as int);
                lemma_take_size_le(asg, i + 1);
                lemma_msg_size_lb(asg[i as int]);
            }
            let m = make_message(&batch[i], start + i as u64, timestamp);
            proof {
                assert(m@ == asg[i as int]);
                assert(asg.take(i as int).push(asg[i as int]) =~= asg.take(i + 1));
            }
            self.append_one(m, persister, config, tracker);
            i += 1;
        }
        proof {
            assert(asg.take(n as int) =~= asg);
            if persister is FsyncOnWrite {
                assert(flushed.log() == mid.log());
                assert(flushed.cache.view_msgs() == mid.cache.view_msgs());
            }
        }
        Ok((start, start + n as u64))
    }
}

impl Partition {
    /// Whether a range read is within the retained log. Out-of-range reads
    /// are rejected with an error rather than clamped; that policy is fixed
    /// here and tested.
    pub open spec fn can_read(&self, start: u64, count: u64) -> bool {
        start + count <= self.next_offset
    }

    /// What a range read returns: the log's messages from `start`, `count`
    /// of them, in offset order; or nothing when out of range.
    pub open spec fn read_spec(&self, start: u64, count: u64) -> Option<Seq<MsgV>> {
        if self.can_read(start, count) {
            Some(self.log().subrange(start as int, start as int + count))
        } else {
            None
        }
    }

    /// Locate the segment holding offset `o`.
    fn find_segment(&self, o: u64) -> (k: usize)
        requires
            segs_chain(self.segments@),
            o < self.durable_end(),
        ensures
            k < self.segments@.len(),
            self.segments@[k as int].start_offset <= o < self.segments@[k as int].end_offset(),
    {
        let n = self.segments.len();
        let mut k: usize = 0;
        loop
            invariant
                k < n,
                n == self.segments@.len(),
                segs_chain(self.segments@),
                o < self.durable_end(),
                self.segments@[k as int].start_offset <= o,
            ensures
                k < self.segments@.len(),
                self.segments@[k as int].start_offset <= o < self.segments@[k as int].end_offset(),
            decreases n - k,
        {
            let seg = &self.segments[k];
            if o < seg.start_offset + seg.messages.len() as u64 {
                break;
            }
            proof {
                assert(k < n - 1);
            }
            k += 1;
        }
        k
    }

    /// Read `count` messages starting at offset `start`.
    ///
    /// Serves entirely from the cache when the range lies in the cached
    /// suffix; otherwise reads the leading part from the segments (each
    /// message found through its segment) and merges the cache-resident
    /// tail. Fails with `OffsetOutOfRange` exactly when the range ends past
    /// the last appended message.
    pub fn read(&self, start: u64, count: u64) -> (r: Result<Vec<Message>, Error>)
        requires
            self.wf(),
        ensures
            match r {
                Ok(v) => {
                    &&& self.can_read(start, count)
                    &&& Some(msgs_view(v@)) == self.read_spec(start, count)
                },
                Err(e) => {
                    &&& !self.can_read(start, count)
                    &&& e == Error::OffsetOutOfRange
                },
            },
    {
        if count > u64::MAX - start {
            return Err(Error::OffsetOutOfRange);
        }
        let end = start + count;
        if end > self.next_offset {
            return Err(Error::OffsetOutOfRange);
        }
        proof {
            lemma_segs_msgs_len(self.segments@);
        }
        let clen = self.cache.len() as u64;
        let cstart = self.next_offset - clen;
        let mut out: Vec<Message> = Vec::new();
        let mut o = start;
        while o < end
            invariant
                self.wf(),
                start <= o <= end,
                end <= self.next_offset,
                clen == self.cache.view_msgs().len(),
                clen <= usize::MAX,
                cstart == self.cache_start(),
                self.durable().len() == self.durable_end(),
                msgs_view(out@) =~= self.log().subrange(start as int, o as int),
            decreases end - o,
        {
            proof {
                assert(self.log().subrange(start as int, o as int).len() == o - start);
            }
            if o >= cstart {
                proof {
                    assert(o - cstart < clen);
                }
                let m = self.cache.get((o - cstart) as usize).clone();
                proof {
                    assert(self.cache.view_msgs()[o - cstart] == self.log()[o as int]);
                }
                out.push(m);
            } else {
                proof {
                    assert(cstart <= self.durable_end());
                }
                let k = self.find_segment(o);
                let seg = &self.segments[k];
                let seg_len = seg.messages.len();
                proof {
                    lemma_segs_msgs_index(self.segments@, k as int, o as int);
                    assert(self.log()[o as int] == self.durable()[o as int]);
                    assert(o - seg.start_offset < seg_len);
                }
                let m = clone_message_at(&seg.messages, (o - seg.start_offset) as usize);
                out.push(m);
            }
            proof {
                assert(msgs_view(out@) =~= self.log().subrange(start as int, o + 1));
            }
            o += 1;
        }
        Ok(out)
    }

    /// Flush every unsaved message to the durable segments; the graceful
    /// shutdown path. `persist_ok` is the outcome of the underlying store's
    /// write; on failure nothing changes and `WriteFailed` is returned.
    pub fn persist_messages(&mut self, config: &PartitionConfig, persist_ok: bool) -> (r: Result<
        (),
        Error,
    >)
        requires
            old(self).wf(),
        ensures
            final(self).wf(),
            final(self).partition_id == old(self).partition_id,
            !persist_ok ==> r == Err::<(), Error>(Error::WriteFailed) && *final(self) == *old(
                self,
            ),
            persist_ok ==> {
                &&& r == Ok::<(), Error>(())
                &&& final(self).log() == old(self).log()
                &&& final(self).durable() == old(self).log()
                &&& final(self).unsaved_msgs().len() == 0
                &&& final(self).next_offset == old(self).next_offset
                &&& final(self).cache == old(self).cache
            },
    {
        if !persist_ok {
            return Err(Error::WriteFailed);
        }
        self.flush_unsaved(config);
        Ok(())
    }

    /// How many of the oldest cached entries have a durable copy and are
    /// therefore allowed to leave the cache.
    pub open spec fn evictable_count(&self) -> int {
        self.cache.view_msgs().len() - self.unsaved_msgs().len()
    }

    /// Shed cached bytes: remove entries from the oldest cached offset
    /// forward until `target` bytes are freed or every entry with a durable
    /// copy is gone. Eviction never removes a message whose only copy is the
    /// cached one, so no durable data is ever lost to it.
    pub fn evict_by_size(&mut self, target: u64, tracker: &mut MemoryTracker) -> (freed: u64)
        requires
            old(self).wf(),
            old(self).cache.size() <= old(tracker).usage(),
        ensures
            final(self).wf(),
            final(self).partition_id == old(self).partition_id,
            final(self).log() == old(self).log(),
            final(self).durable() == old(self).durable(),
            final(self).unsaved == old(self).unsaved,
            final(self).next_offset == old(self).next_offset,
            final(self).cache.view_msgs() == old(self).cache.view_msgs().skip(
                evict_count(
                    old(self).cache.view_msgs(),
                    target as int,
                    old(self).evictable_count(),
                ),
            ),
            freed == old(self).cache.size() - final(self).cache.size(),
            final(tracker).usage() == old(tracker).usage() - freed,
            // the cache still covers every offset that lacks a durable copy
            final(self).cache.view_msgs().len() >= old(self).unsaved_msgs().len(),
            final(self).cache_start() >= old(self).cache_start(),
            final(self).cache_start() <= final(self).durable_end(),
    {
        let max_evict = self.cache.len() - self.unsaved.len();
        let ghost cv = self.cache.view_msgs();
        proof {
            lemma_evict_count_bounds(cv, target as int, max_evict as int, 0);
            crate::message::lemma_msgs_size_nonneg(cv);
        }
        let freed = self.cache.evict_by_size(target, max_evict, tracker);
        proof {
            let k = evict_count(cv, target as int, max_evict as int);
            lemma_msgs_size_skip(cv, k);
            assert(self.cache.view_msgs() =~= self.log().subrange(
                self.cache_start(),
                self.next_offset as int,
            ));
        }
        freed
    }
}

/// The models of a recovered on-disk image: one message list per segment
/// file, oldest first.
pub open spec fn image_views(img: Seq<Vec<Message>>) -> Seq<Seq<MsgV>> {
    img.map_values(|v: Vec<Message>| msgs_view(v@))
}

/// The first offset of the `k`-th segment of an image: the count of all
/// messages in earlier segments.
pub open spec fn image_starts(img: Seq<Seq<MsgV>>, k: int) -> int
    decreases k,
{
    if k <= 0 {
        0
    } else {
        image_starts(img, k - 1) + img[k - 1].len()
    }
}

/// All messages of an image, concatenated oldest segment first.
pub open spec fn image_flat(img: Seq<Seq<MsgV>>) -> Seq<MsgV>
    decreases img.len(),
{
    if img.len() == 0 {
        Seq::empty()
    } else {
        image_flat(img.drop_last()) + img.last()
    }
}

/// What recovery accepts: every segment's offsets continue exactly where
/// the previous segment ended, counted from zero, and every count and size
/// fits the machine word.
pub open spec fn image_valid(img: Seq<Seq<MsgV>>) -> bool {
    &&& forall|k: int|
        0 <= k < img.len() ==> image_starts(img, k) + (#[trigger] img[k]).len() <= u64::MAX
    &&& forall|k: int, j: int|
        0 <= k < img.len() && 0 <= j < img[k].len() ==> (#[trigger] img[k][j]).offset
            == image_starts(img, k) + j
    &&& forall|k: int| 0 <= k < img.len() ==> msgs_size(#[trigger] img[k]) <= u64::MAX
}

/// Segments whose messages match an image concatenate to the image's
/// flattening.
pub proof fn lemma_segs_match_flat(segs: Seq<Segment>, img: Seq<Seq<MsgV>>)
    requires
        segs.len() == img.len(),
        forall|k: int| 0 <= k < segs.len() ==> (#[trigger] segs[k]).msgs() == img[k],
    ensures
        segs_msgs(segs) == image_flat(img),
    decreases segs.len(),
{
    if segs.len() > 0 {
        assert(forall|k: int|
            0 <= k < segs.drop_last().len() ==> (#[trigger] segs.drop_last()[k]).msgs()
                == img.drop_last()[k]);
        lemma_segs_match_flat(segs.drop_last(), img.drop_last());
    }
}

/// In a chained segment list, the image start of each segment equals its
/// start offset, and the start after the last equals the durable end.
pub proof fn lemma_image_starts_match(segs: Seq<Segment>, img: Seq<Seq<MsgV>>, k: int)
    requires
        segs_chain(segs),
        segs.len() == img.len(),
        forall|kk: int| 0 <= kk < segs.len() ==> (#[trigger] segs[kk]).msgs() == img[kk],
        0 <= k <= segs.len(),
    ensures
        k < segs.len() ==> image_starts(img, k) == segs[k].start_offset,
        k == segs.len() ==> image_starts(img, k) == segs.last().end_offset(),
    decreases k,
{
    if k > 0 {
        lemma_image_starts_match(segs, img, k - 1);
        assert(segs[k - 1].msgs() == img[k - 1]);
        if k < segs.len() {
            assert(segs[(k - 1) + 1].start_offset == segs[k - 1].end_offset());
        }
    }
}

impl Partition {
    /// Export the durably segmented messages, one list per segment: what the
    /// persistence layer writes as segment files, and what `recover` takes
    /// back after a restart.
    pub fn durable_image(&self) -> (img: Vec<Vec<Message>>)
        requires
            self.wf(),
        ensures
            image_views(img@).len() == self.segments@.len(),
            forall|k: int|
                0 <= k < img@.len() ==> image_views(img@)[k] == self.segments@[k].msgs(),
            image_flat(image_views(img@)) == self.durable(),
            image_valid(image_views(img@)),
    {
        let n = self.segments.len();
        let mut img: Vec<Vec<Message>> = Vec::new();
        let mut k: usize = 0;
        while k < n
            invariant
                k <= n,
                n == self.segments@.len(),
                self.wf(),
                img@.len() == k,
                forall|kk: int|
                    0 <= kk < k ==> image_views(img@)[kk] == self.segments@[kk].msgs(),
            decreases n - k,
        {
            let copy = crate::message::clone_messages(&self.segments[k].messages);
            let ghost old_img = img@;
            let ghost cv = copy@;
            img.push(copy);
            proof {
                assert forall|kk: int| 0 <= kk < k + 1 implies image_views(img@)[kk]
                    == self.segments@[kk].msgs() by {
                    if kk < k {
                        assert(img@[kk] == old_img[kk]);
                        assert(image_views(old_img)[kk] == self.segments@[kk].msgs());
                    } else {
                        assert(img@[kk] == old_img.push(img@[k as int])[kk]);
                        assert(msgs_view(cv) == self.segments@[kk].msgs());
                    }
                }
            }
            k += 1;
        }
        proof {
            let views = image_views(img@);
            assert(forall|kk: int|
                0 <= kk < views.len() ==> (#[trigger] self.segments@[kk]).msgs() == views[kk]);
            lemma_segs_match_flat(self.segments@, views);
            assert forall|kk: int| 0 <= kk < views.len() implies image_starts(views, kk) + (
            #[trigger] views[kk]).len() <= u64::MAX && msgs_size(views[kk]) <= u64::MAX by {
                lemma_image_starts_match(self.segments@, views, kk);
                assert(self.segments@[kk].wf());
            }
            assert forall|kk: int, j: int|
                0 <= kk < views.len() && 0 <= j < views[kk].len() implies (
            #[trigger] views[kk][j]).offset == image_starts(views, kk) + j by {
                lemma_image_starts_match(self.segments@, views, kk);
                assert(self.segments@[kk].wf());
                assert(self.segments@[kk].msgs()[j].offset == self.segments@[kk].start_offset
                    + j);
            }
        }
        img
    }

    /// Rebuild a partition from an on-disk image after a restart: validate
    /// every segment, recompute `next_offset` as one past the highest offset
    /// found, and start with an empty cache. A corrupt image fails the whole
    /// partition with `CorruptState` (fail-fast; no partial reconstruction),
    /// since silently skipping data would break the ordering invariant.
    pub fn recover(partition_id: u32, image: &Vec<Vec<Message>>) -> (r: Result<Partition, Error>)
        ensures
            match r {
                Ok(p) => {
                    &&& image_valid(image_views(image@))
                    &&& p.wf()
                    &&& p.partition_id == partition_id
                    &&& p.unsaved_msgs() == Seq::<MsgV>::empty()
                    &&& p.cache.view_msgs() == Seq::<MsgV>::empty()
                    &&& p.cache.size() == 0
                    &&& p.durable() == image_flat(image_views(image@))
                    &&& p.log() == p.durable()
                    &&& p.next_offset == p.durable().len()
                },
                Err(e) => {
                    &&& e == Error::CorruptState
                    &&& !image_valid(image_views(image@))
                },
            },
    {
        let ghost views = image_views(image@);
        let n = image.len();
        if n == 0 {
            let p = Partition::create(partition_id);
            proof {
                assert(p.log() =~= p.durable());
                assert(image_flat(views) =~= Seq::<MsgV>::empty());
            }
            return Ok(p);
        }
        let mut segments: Vec<Segment> = Vec::new();
        let mut cum: u64 = 0;
        let mut k: usize = 0;
        while k < n
            invariant
                k <= n,
                n == image@.len(),
                views == image_views(image@),
                segments@.len() == k,
                cum == image_starts(views, k as int),
                forall|kk: int|
                    0 <= kk < k ==> (#[trigger] segments@[kk]).msgs() == views[kk],
                forall|kk: int|
                    0 <= kk < k ==> (#[trigger] segments@[kk]).start_offset == image_starts(
                        views,
                        kk,
                    ),
                forall|kk: int| 0 <= kk < k ==> (#[trigger] segments@[kk]).wf(),
                forall|kk: int| 0 <= kk < k ==> (#[trigger] segments@[kk]).sealed == (kk < n - 1),
                forall|kk: int|
                    0 <= kk < k ==> image_starts(views, kk) + (#[trigger] views[kk]).len()
                        <= u64::MAX,
                forall|kk: int, j: int|
                    0 <= kk < k && 0 <= j < views[kk].len() ==> (#[trigger] views[kk][j]).offset
                        == image_starts(views, kk) + j,
                forall|kk: int| 0 <= kk < k ==> msgs_size(#[trigger] views[kk]) <= u64::MAX,
            decreases n - k,
        {
            let copy = crate::message::clone_messages(&image[k]);
            proof {
                assert(msgs_view(copy@) == views[k as int]);
            }
            let sealed = k + 1 < n;
            match Segment::restore(cum, copy, sealed) {
                Ok(seg) => {
                    let seg_len = seg.messages.len();
                    segments.push(seg);
                    cum = cum + seg_len as u64;
                },
                Err(_) => {
                    return Err(Error::CorruptState);
                },
            }
            k += 1;
        }
        let p = Partition {
            partition_id,
            segments,
            unsaved: Vec::new(),
            cache: PartitionCache::new(),
            next_offset: cum,
        };
        proof {
            assert(segs_chain(p.segments@)) by {
                assert(forall|kk: int|
                    0 <= kk < p.segments@.len() - 1 ==> (#[trigger] p.segments@[kk
                        + 1]).start_offset == image_starts(views, kk + 1)
                        == image_starts(views, kk) + views[kk].len());
            }
            assert(segs_sealing(p.segments@));
            lemma_segs_msgs_len(p.segments@);
            assert(forall|kk: int|
                0 <= kk < p.segments@.len() ==> (#[trigger] p.segments@[kk]).msgs() == views[kk]);
            lemma_segs_match_flat(p.segments@, views);
            assert(p.unsaved_msgs() =~= Seq::<MsgV>::empty());
            assert(p.log() =~= p.durable());
            lemma_image_starts_match(p.segments@, views, n as int);
            assert(p.cache.view_msgs() =~= p.log().subrange(
                p.cache_start(),
                p.next_offset as int,
            ));
        }
        Ok(p)
    }
}

/// A prefix of the assigned messages never weighs more than the batch.
proof fn lemma_take_size_le(s: Seq<MsgV>, i: int)
    requires
        0 <= i <= s.len(),
    ensures
        msgs_size(s.take(i)) <= msgs_size(s),
        msgs_size(s.take(i)) >= 0,
{
    lemma_msgs_size_prefix_le_total(s, i);
    lemma_msgs_size_nonneg(s.take(i));
}

/// Every message of a well-formed partition's log sits at the index equal
/// to its offset.
pub proof fn lemma_log_offsets(p: &Partition)
    requires
        p.wf(),
    ensures
        forall|idx: int| 0 <= idx < p.log().len() ==> (#[trigger] p.log()[idx]).offset == idx,
{
    lemma_segs_msgs_len(p.segments@);
    assert forall|idx: int| 0 <= idx < p.log().len() implies (#[trigger] p.log()[idx]).offset
        == idx by {
        if idx < p.durable().len() {
            assert(p.log()[idx] == p.durable()[idx]);
        } else {
            assert(p.log()[idx] == p.unsaved_msgs()[idx - p.durable().len()]);
        }
    }
}

/// Build the message a payload becomes at the given offset and timestamp.
fn make_message(p: &MessagePayload, offset: u64, timestamp: u64) -> (m: Message)
    ensures
        m@ == (MsgV {
            offset,
            timestamp,
            key: p@.key,
            payload: p@.payload,
            headers: p@.headers,
        }),
{
    let c = p.clone();
    Message { offset, timestamp, key: c.key, payload: c.payload, headers: c.headers }
}

/// Clone the message at one index of a vector.
fn clone_message_at(v: &Vec<Message>, i: usize) -> (r: Message)
    requires
        i < v@.len(),
    ensures
        r@ == msgs_view(v@)[i as int],
{
    v[i].clone()
}

/// Two segment lists with the same messages concatenate to the same log.
pub proof fn lemma_segs_msgs_congruence(s1: Seq<Segment>, s2: Seq<Segment>)
    requires
        s1.len() == s2.len(),
        forall|k: int| 0 <= k < s1.len() ==> (#[trigger] s2[k]).msgs() == s1[k].msgs(),
    ensures
        segs_msgs(s2) == segs_msgs(s1),
    decreases s1.len(),
{
    if s1.len() > 0 {
        assert(s1.drop_last().len() == s2.drop_last().len());
        assert(forall|k: int|
            0 <= k < s1.drop_last().len() ==> (#[trigger] s2.drop_last()[k]).msgs()
                == s1.drop_last()[k].msgs());
        lemma_segs_msgs_congruence(s1.drop_last(), s2.drop_last());
        assert(s2.last().msgs() == s1.last().msgs());
    }
}

/// Every message buffered as unsaved is cache-resident, so its size is
/// bounded by the cache's (machine-word) size counter.
pub proof fn lemma_msg_size_in_cache(p: &Partition, i: int)
    requires
        p.wf(),
        0 <= i < p.unsaved_msgs().len(),
    ensures
        msg_size(p.unsaved_msgs()[i]) <= p.cache.size(),
{
    let cv = p.cache.view_msgs();
    let clen = cv.len() as int;
    let ulen = p.unsaved_msgs().len() as int;
    let j = clen - ulen + i;
    assert(cv[j] == p.log()[p.cache_start() + j]);
    assert(p.log()[p.durable_end() + i] == p.unsaved_msgs()[i]);
    assert(p.cache_start() + j == p.durable_end() + i);
    lemma_msgs_size_take_step(cv, j);
    lemma_msgs_size_nonneg(cv.take(j));
    lemma_msgs_size_skip(cv, j + 1);
    lemma_msgs_size_nonneg(cv.skip(j + 1));
    lemma_msgs_size_prefix_le_total(cv, j + 1);
}

} // verus!
