//! Topics: named collections of partitions inside a stream, each owning the
//! consumer-offset store scoped to it.

use vstd::prelude::*;

use crate::cache::{evict_count, eviction_target_spec, MemoryTracker};
use crate::offsets::ConsumerOffsets;
use crate::partition::{Partition, PartitionConfig};
use crate::usage::{lemma_parts_bytes_elem_le, lemma_parts_bytes_update, parts_cache_bytes};

verus! {

/// Every partition of `b` is the one of `a` with its unsaved messages made
/// durable: the logical log, the cache and the next offset are untouched.
pub open spec fn parts_flushed(a: Seq<Partition>, b: Seq<Partition>) -> bool {
    &&& b.len() == a.len()
    &&& forall|k: int|
        0 <= k < a.len() ==> {
            &&& (#[trigger] b[k]).wf()
            &&& b[k].partition_id == a[k].partition_id
            &&& b[k].log() == a[k].log()
            &&& b[k].durable() == a[k].log()
            &&& b[k].unsaved_msgs().len() == 0
            &&& b[k].next_offset == a[k].next_offset
            &&& b[k].cache == a[k].cache
        }
}

/// Every partition of `b` is the one of `a` after one proportional eviction
/// pass against `total` tracked bytes and `to_clean` bytes to reclaim: its
/// log is untouched and its cache lost exactly the oldest entries that its
/// computed share demanded.
pub open spec fn parts_evicted(a: Seq<Partition>, b: Seq<Partition>, total: int, to_clean: int)
    -> bool {
    &&& b.len() == a.len()
    &&& forall|k: int|
        0 <= k < a.len() ==> {
            &&& (#[trigger] b[k]).wf()
            &&& b[k].partition_id == a[k].partition_id
            &&& b[k].log() == a[k].log()
            &&& b[k].durable() == a[k].durable()
            &&& b[k].unsaved == a[k].unsaved
            &&& b[k].next_offset == a[k].next_offset
            &&& b[k].cache.view_msgs() == a[k].cache.view_msgs().skip(
                evict_count(
                    a[k].cache.view_msgs(),
                    eviction_target_spec(a[k].cache.size(), total, to_clean),
                    a[k].evictable_count(),
                ),
            )
        }
}

/// A named collection of partitions; the partition count is fixed at
/// creation and changed only by explicit add/remove operations.
#[derive(Debug)]
pub struct Topic {
    pub topic_id: u32,
    pub name: String,
    /// Partitions, identified by their index.
    pub partitions: Vec<Partition>,
    /// Offsets committed by consumers and consumer groups of this topic.
    pub offsets: ConsumerOffsets,
}

impl Topic {
    /// Every partition is well-formed and sits at the index equal to its
    /// identifier; the offset store is well-formed.
    pub open spec fn wf(&self) -> bool {
        &&& self.partitions@.len() <= u32::MAX
        &&& forall|k: int| 0 <= k < self.partitions@.len() ==> (#[trigger] self.partitions@[k]).wf()
        &&& forall|k: int|
            0 <= k < self.partitions@.len() ==> (#[trigger] self.partitions@[k]).partition_id == k
        &&& self.offsets.wf()
    }

    /// A fresh topic with `partitions_count` empty partitions.
    pub fn create(topic_id: u32, name: String, partitions_count: u32) -> (r: Topic)
        ensures
            r.wf(),
            r.topic_id == topic_id,
            r.name@ == name@,
            r.partitions@.len() == partitions_count,
            forall|k: int|
                0 <= k < partitions_count ==> (#[trigger] r.partitions@[k]).next_offset == 0
                    && r.partitions@[k].log() == Seq::<crate::message::MsgV>::empty(),
            forall|key: crate::offsets::OffsetKey| #[trigger]
                r.offsets.stored(key) == None::<u64>,
    {
        let mut partitions: Vec<Partition> = Vec::new();
        let mut k: u32 = 0;
        while k < partitions_count
            invariant
                k <= partitions_count,
                partitions@.len() == k,
                forall|j: int| 0 <= j < k ==> (#[trigger] partitions@[j]).wf(),
                forall|j: int| 0 <= j < k ==> (#[trigger] partitions@[j]).partition_id == j,
                forall|j: int|
                    0 <= j < k ==> (#[trigger] partitions@[j]).next_offset == 0
                        && partitions@[j].log() == Seq::<crate::message::MsgV>::empty(),
            decreases partitions_count - k,
        {
            partitions.push(Partition::create(k));
            k += 1;
        }
        Topic { topic_id, name, partitions, offsets: ConsumerOffsets::new() }
    }

    /// Add `count` fresh partitions after the existing ones.
    pub fn add_partitions(&mut self, count: u32)
        requires
            old(self).wf(),
            old(self).partitions@.len() + count <= u32::MAX,
        ensures
            final(self).wf(),
            final(self).topic_id == old(self).topic_id,
            final(self).name == old(self).name,
            final(self).offsets == old(self).offsets,
            final(self).partitions@.len() == old(self).partitions@.len() + count,
            forall|k: int|
                0 <= k < old(self).partitions@.len() ==> #[trigger] final(self).partitions@[k]
                    == old(self).partitions@[k],
            forall|k: int|
                old(self).partitions@.len() <= k < final(self).partitions@.len() ==> (
                #[trigger] final(self).partitions@[k]).next_offset == 0
                    && final(self).partitions@[k].log() == Seq::<crate::message::MsgV>::empty(),
    {
        let base = self.partitions.len();
        let mut added: u32 = 0;
        while added < count
            invariant
                added <= count,
                base == old(self).partitions@.len(),
                base + count <= u32::MAX,
                self.partitions@.len() == base + added,
                self.topic_id == old(self).topic_id,
                self.name == old(self).name,
                self.offsets == old(self).offsets,
                old(self).wf(),
                forall|k: int|
                    0 <= k < base ==> #[trigger] self.partitions@[k] == old(self).partitions@[k],
                forall|k: int|
                    base <= k < self.partitions@.len() ==> (
                    #[trigger] self.partitions@[k]).wf() && self.partitions@[k].partition_id == k
                        && self.partitions@[k].next_offset == 0 && self.partitions@[k].log()
                        == Seq::<crate::message::MsgV>::empty(),
            decreases count - added,
        {
            let id = (base as u32) + added;
            self.partitions.push(Partition::create(id));
            added += 1;
        }
        proof {
            assert forall|k: int| 0 <= k < self.partitions@.len() implies (
            #[trigger] self.partitions@[k]).wf() && self.partitions@[k].partition_id == k by {
                if k < base as int {
                    assert(self.partitions@[k] == old(self).partitions@[k]);
                }
            }
        }
    }

    /// Remove the newest `count` partitions (with all their data); removing
    /// more than exist empties the topic.
    pub fn remove_partitions(&mut self, count: u32)
        requires
            old(self).wf(),
        ensures
            final(self).wf(),
            final(self).topic_id == old(self).topic_id,
            final(self).name == old(self).name,
            final(self).offsets == old(self).offsets,
            final(self).partitions@ == old(self).partitions@.take(
                if count as int <= old(self).partitions@.len() {
                    old(self).partitions@.len() - count as int
                } else {
                    0
                },
            ),
    {
        let len = self.partitions.len();
        let keep: usize = if (count as usize) <= len {
            len - count as usize
        } else {
            0
        };
        self.partitions.truncate(keep);
        proof {
            assert(self.partitions@ =~= old(self).partitions@.take(keep as int));
            assert(forall|k: int|
                0 <= k < self.partitions@.len() ==> #[trigger] self.partitions@[k] == old(
                    self,
                ).partitions@[k]);
        }
    }

    /// Flush every partition's unsaved messages to its segments: the
    /// shutdown path of one topic.
    pub fn persist_all(&mut self, config: &PartitionConfig)
        requires
            old(self).wf(),
        ensures
            final(self).wf(),
            final(self).topic_id == old(self).topic_id,
            final(self).name == old(self).name,
            final(self).offsets == old(self).offsets,
            parts_flushed(old(self).partitions@, final(self).partitions@),
            parts_cache_bytes(final(self).partitions@) == parts_cache_bytes(
                old(self).partitions@,
            ),
    {
        let n = self.partitions.len();
        let mut pi: usize = 0;
        while pi < n
            invariant
                pi <= n,
                n == self.partitions@.len(),
                n == old(self).partitions@.len(),
                old(self).wf(),
                self.topic_id == old(self).topic_id,
                self.name == old(self).name,
                self.offsets == old(self).offsets,
                self.partitions@.len() == n,
                forall|k: int|
                    pi <= k < n ==> #[trigger] self.partitions@[k] == old(self).partitions@[k],
                forall|k: int|
                    0 <= k < pi ==> {
                        &&& (#[trigger] self.partitions@[k]).wf()
                        &&& self.partitions@[k].partition_id == old(self).partitions@[
                            k].partition_id
                        &&& self.partitions@[k].log() == old(self).partitions@[k].log()
                        &&& self.partitions@[k].durable() == old(self).partitions@[k].log()
                        &&& self.partitions@[k].unsaved_msgs().len() == 0
                        &&& self.partitions@[k].next_offset == old(self).partitions@[
                            k].next_offset
                        &&& self.partitions@[k].cache == old(self).partitions@[k].cache
                    },
                parts_cache_bytes(self.partitions@) == parts_cache_bytes(old(self).partitions@),
            decreases n - pi,
        {
            let ghost before = self.partitions@;
            let p = &mut self.partitions[pi];
            p.flush_unsaved(config);
            proof {
                lemma_parts_bytes_update(before, pi as int, self.partitions@[pi as int]);
            }
            pi += 1;
        }
    }

    /// Run one eviction pass over every partition: each sheds its
    /// proportional share of `to_clean`, computed against the `total`
    /// tracked at trigger time, times the over-eviction factor.
    pub fn clean_cache(&mut self, total: u64, to_clean: u64, tracker: &mut MemoryTracker)
        requires
            old(self).wf(),
            total > 0,
            to_clean <= total,
            parts_cache_bytes(old(self).partitions@) <= old(tracker).usage(),
            forall|k: int|
                0 <= k < old(self).partitions@.len() ==> (#[trigger] old(self).partitions@[
                k]).cache.size() <= total,
        ensures
            final(self).wf(),
            final(self).topic_id == old(self).topic_id,
            final(self).name == old(self).name,
            final(self).offsets == old(self).offsets,
            parts_evicted(
                old(self).partitions@,
                final(self).partitions@,
                total as int,
                to_clean as int,
            ),
            old(tracker).usage() - final(tracker).usage() == parts_cache_bytes(
                old(self).partitions@,
            ) - parts_cache_bytes(final(self).partitions@),
            final(tracker).usage() <= old(tracker).usage(),
            parts_cache_bytes(final(self).partitions@) <= final(tracker).usage(),
    {
        let n = self.partitions.len();
        let mut pi: usize = 0;
        while pi < n
            invariant
                pi <= n,
                n == self.partitions@.len(),
                n == old(self).partitions@.len(),
                old(self).wf(),
                total > 0,
                to_clean <= total,
                self.topic_id == old(self).topic_id,
                self.name == old(self).name,
                self.offsets == old(self).offsets,
                self.partitions@.len() == n,
                forall|k: int|
                    pi <= k < n ==> #[trigger] self.partitions@[k] == old(self).partitions@[k],
                forall|k: int|
                    0 <= k < pi ==> {
                        &&& (#[trigger] self.partitions@[k]).wf()
                        &&& self.partitions@[k].partition_id == old(self).partitions@[
                            k].partition_id
                        &&& self.partitions@[k].log() == old(self).partitions@[k].log()
                        &&& self.partitions@[k].durable() == old(self).partitions@[k].durable()
                        &&& self.partitions@[k].unsaved == old(self).partitions@[k].unsaved
                        &&& self.partitions@[k].next_offset == old(self).partitions@[
                            k].next_offset
                        &&& self.partitions@[k].cache.view_msgs() == old(self).partitions@[
                            k].cache.view_msgs().skip(
                            evict_count(
                                old(self).partitions@[k].cache.view_msgs(),
                                eviction_target_spec(
                                    old(self).partitions@[k].cache.size(),
                                    total as int,
                                    to_clean as int,
                                ),
                                old(self).partitions@[k].evictable_count(),
                            ),
                        )
                    },
                forall|k: int|
                    0 <= k < n ==> (#[trigger] old(self).partitions@[k]).cache.size() <= total,
                parts_cache_bytes(self.partitions@) <= tracker.usage(),
                tracker.usage() <= old(tracker).usage(),
                old(tracker).usage() - tracker.usage() == parts_cache_bytes(
                    old(self).partitions@,
                ) - parts_cache_bytes(self.partitions@),
            decreases n - pi,
        {
            let ghost before = self.partitions@;
            proof {
                lemma_parts_bytes_elem_le(before, pi as int);
                assert(self.partitions@[pi as int] == old(self).partitions@[pi as int]);
                assert(old(self).partitions@[pi as int].wf());
            }
            let size_i = self.partitions[pi].cache.current_size();
            let target = crate::cache::eviction_target(size_i, total, to_clean);
            let p = &mut self.partitions[pi];
            let _freed = p.evict_by_size(target, tracker);
            proof {
                lemma_parts_bytes_update(before, pi as int, self.partitions@[pi as int]);
            }
            pi += 1;
        }
    }
}

} // verus!
