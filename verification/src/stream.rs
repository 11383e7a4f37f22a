//! Streams: the top-level named collections of topics.

use vstd::prelude::*;

use crate::cache::MemoryTracker;
use crate::partition::PartitionConfig;
use crate::topic::{parts_evicted, parts_flushed, Topic};
use crate::usage::{lemma_topics_bytes_elem_le, lemma_topics_bytes_update, topics_cache_bytes};

verus! {

/// Every topic of `b` is the one of `a` with all partitions flushed.
pub open spec fn topics_flushed(a: Seq<Topic>, b: Seq<Topic>) -> bool {
    &&& b.len() == a.len()
    &&& forall|k: int|
        0 <= k < a.len() ==> {
            &&& (#[trigger] b[k]).wf()
            &&& b[k].topic_id == a[k].topic_id
            &&& b[k].name == a[k].name
            &&& b[k].offsets == a[k].offsets
            &&& parts_flushed(a[k].partitions@, b[k].partitions@)
        }
}

/// Every topic of `b` is the one of `a` after one proportional eviction
/// pass.
pub open spec fn topics_evicted(a: Seq<Topic>, b: Seq<Topic>, total: int, to_clean: int) -> bool {
    &&& b.len() == a.len()
    &&& forall|k: int|
        0 <= k < a.len() ==> {
            &&& (#[trigger] b[k]).wf()
            &&& b[k].topic_id == a[k].topic_id
            &&& b[k].name == a[k].name
            &&& b[k].offsets == a[k].offsets
            &&& parts_evicted(a[k].partitions@, b[k].partitions@, total, to_clean)
        }
}

/// A named collection of topics.
#[derive(Debug)]
pub struct Stream {
    pub stream_id: u32,
    pub name: String,
    pub topics: Vec<Topic>,
}

impl Stream {
    /// Every topic is well-formed, and topic identifiers and names are
    /// unique within the stream.
    pub open spec fn wf(&self) -> bool {
        &&& forall|k: int| 0 <= k < self.topics@.len() ==> (#[trigger] self.topics@[k]).wf()
        &&& forall|i: int, j: int|
            0 <= i < j < self.topics@.len() ==> (#[trigger] self.topics@[i]).topic_id != (
            #[trigger] self.topics@[j]).topic_id
        &&& forall|i: int, j: int|
            0 <= i < j < self.topics@.len() ==> (#[trigger] self.topics@[i]).name@ != (
            #[trigger] self.topics@[j]).name@
    }

    /// A fresh stream with no topics.
    pub fn create(stream_id: u32, name: String) -> (r: Stream)
        ensures
            r.wf(),
            r.stream_id == stream_id,
            r.name@ == name@,
            r.topics@.len() == 0,
    {
        Stream { stream_id, name, topics: Vec::new() }
    }

    /// The index of the topic with this identifier, if any.
    pub fn find_topic(&self, topic_id: u32) -> (r: Option<usize>)
        ensures
            match r {
                Some(i) => i < self.topics@.len() && self.topics@[i as int].topic_id == topic_id,
                None => forall|k: int|
                    0 <= k < self.topics@.len() ==> (#[trigger] self.topics@[k]).topic_id
                        != topic_id,
            },
    {
        let n = self.topics.len();
        let mut i: usize = 0;
        while i < n
            invariant
                i <= n,
                n == self.topics@.len(),
                forall|k: int|
                    0 <= k < i ==> (#[trigger] self.topics@[k]).topic_id != topic_id,
            decreases n - i,
        {
            if self.topics[i].topic_id == topic_id {
                return Some(i);
            }
            i += 1;
        }
        None
    }

    /// Whether any topic carries this name.
    pub fn has_topic_named(&self, name: &String) -> (r: bool)
        ensures
            r == exists|k: int|
                0 <= k < self.topics@.len() && (#[trigger] self.topics@[k]).name@ == name@,
    {
        let n = self.topics.len();
        let mut i: usize = 0;
        while i < n
            invariant
                i <= n,
                n == self.topics@.len(),
                forall|k: int| 0 <= k < i ==> (#[trigger] self.topics@[k]).name@ != name@,
            decreases n - i,
        {
            if self.topics[i].name == *name {
                return true;
            }
            i += 1;
        }
        false
    }

    /// Flush every partition of every topic: the shutdown path of one
    /// stream.
    pub fn persist_all(&mut self, config: &PartitionConfig)
        requires
            old(self).wf(),
        ensures
            final(self).wf(),
            final(self).stream_id == old(self).stream_id,
            final(self).name == old(self).name,
            topics_flushed(old(self).topics@, final(self).topics@),
            topics_cache_bytes(final(self).topics@) == topics_cache_bytes(old(self).topics@),
    {
        let n = self.topics.len();
        let mut ti: usize = 0;
        while ti < n
            invariant
                ti <= n,
                n == self.topics@.len(),
                n == old(self).topics@.len(),
                old(self).wf(),
                self.stream_id == old(self).stream_id,
                self.name == old(self).name,
                self.topics@.len() == n,
                forall|k: int| ti <= k < n ==> #[trigger] self.topics@[k] == old(self).topics@[k],
                forall|k: int|
                    0 <= k < ti ==> {
                        &&& (#[trigger] self.topics@[k]).wf()
                        &&& self.topics@[k].topic_id == old(self).topics@[k].topic_id
                        &&& self.topics@[k].name == old(self).topics@[k].name
                        &&& self.topics@[k].offsets == old(self).topics@[k].offsets
                        &&& parts_flushed(
                            old(self).topics@[k].partitions@,
                            self.topics@[k].partitions@,
                        )
                    },
                topics_cache_bytes(self.topics@) == topics_cache_bytes(old(self).topics@),
            decreases n - ti,
        {
            let ghost before = self.topics@;
            proof {
                assert(self.topics@[ti as int] == old(self).topics@[ti as int]);
                assert(old(self).topics@[ti as int].wf());
            }
            let t = &mut self.topics[ti];
            t.persist_all(config);
            proof {
                lemma_topics_bytes_update(before, ti as int, self.topics@[ti as int]);
            }
            ti += 1;
        }
        proof {
            assert forall|i: int, j: int| 0 <= i < j < self.topics@.len() implies (
            #[trigger] self.topics@[i]).topic_id != (#[trigger] self.topics@[j]).topic_id && self
                .topics@[i].name@ != self.topics@[j].name@ by {
                assert(self.topics@[i].topic_id == old(self).topics@[i].topic_id);
                assert(self.topics@[j].topic_id == old(self).topics@[j].topic_id);
                assert(self.topics@[i].name == old(self).topics@[i].name);
                assert(self.topics@[j].name == old(self).topics@[j].name);
            }
        }
    }

    /// Run one proportional eviction pass over every partition of every
    /// topic.
    pub fn clean_cache(&mut self, total: u64, to_clean: u64, tracker: &mut MemoryTracker)
        requires
            old(self).wf(),
            total > 0,
            to_clean <= total,
            topics_cache_bytes(old(self).topics@) <= old(tracker).usage(),
            forall|t: int, k: int|
                0 <= t < old(self).topics@.len() && 0 <= k < old(self).topics@[t].partitions@.len()
                    ==> (#[trigger] old(self).topics@[t].partitions@[k]).cache.size() <= total,
        ensures
            final(self).wf(),
            final(self).stream_id == old(self).stream_id,
            final(self).name == old(self).name,
            topics_evicted(old(self).topics@, final(self).topics@, total as int, to_clean as int),
            old(tracker).usage() - final(tracker).usage() == topics_cache_bytes(
                old(self).topics@,
            ) - topics_cache_bytes(final(self).topics@),
            final(tracker).usage() <= old(tracker).usage(),
            topics_cache_bytes(final(self).topics@) <= final(tracker).usage(),
    {
        let n = self.topics.len();
        let mut ti: usize = 0;
        while ti < n
            invariant
                ti <= n,
                n == self.topics@.len(),
                n == old(self).topics@.len(),
                old(self).wf(),
                total > 0,
                to_clean <= total,
                self.stream_id == old(self).stream_id,
                self.name == old(self).name,
                self.topics@.len() == n,
                forall|k: int| ti <= k < n ==> #[trigger] self.topics@[k] == old(self).topics@[k],
                forall|k: int|
                    0 <= k < ti ==> {
                        &&& (#[trigger] self.topics@[k]).wf()
                        &&& self.topics@[k].topic_id == old(self).topics@[k].topic_id
                        &&& self.topics@[k].name == old(self).topics@[k].name
                        &&& self.topics@[k].offsets == old(self).topics@[k].offsets
                        &&& parts_evicted(
                            old(self).topics@[k].partitions@,
                            self.topics@[k].partitions@,
                            total as int,
                            to_clean as int,
                        )
                    },
                forall|t: int, k: int|
                    0 <= t < n && 0 <= k < old(self).topics@[t].partitions@.len() ==> (
                    #[trigger] old(self).topics@[t].partitions@[k]).cache.size() <= total,
                topics_cache_bytes(self.topics@) <= tracker.usage(),
                tracker.usage() <= old(tracker).usage(),
                old(tracker).usage() - tracker.usage() == topics_cache_bytes(old(self).topics@)
                    - topics_cache_bytes(self.topics@),
            decreases n - ti,
        {
            let ghost before = self.topics@;
            proof {
                lemma_topics_bytes_elem_le(before, ti as int);
                assert(self.topics@[ti as int] == old(self).topics@[ti as int]);
                assert(old(self).topics@[ti as int].wf());
            }
            let t = &mut self.topics[ti];
            t.clean_cache(total, to_clean, tracker);
            proof {
                lemma_topics_bytes_update(before, ti as int, self.topics@[ti as int]);
            }
            ti += 1;
        }
        proof {
            assert forall|i: int, j: int| 0 <= i < j < self.topics@.len() implies (
            #[trigger] self.topics@[i]).topic_id != (#[trigger] self.topics@[j]).topic_id && self
                .topics@[i].name@ != self.topics@[j].name@ by {
                assert(self.topics@[i].topic_id == old(self).topics@[i].topic_id);
                assert(self.topics@[j].topic_id == old(self).topics@[j].topic_id);
                assert(self.topics@[i].name == old(self).topics@[i].name);
                assert(self.topics@[j].name == old(self).topics@[j].name);
            }
        }
    }
}

} // verus!
