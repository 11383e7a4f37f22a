//! The per-partition in-memory cache and the process-wide memory tracker.
//!
//! A `PartitionCache` holds the most recently appended messages of one
//! partition so hot reads never touch a segment. A single `MemoryTracker`,
//! constructed once and threaded through every cache mutation, counts the
//! bytes held by all caches together; eviction decisions are made against it.

use vstd::prelude::*;

use crate::message::{
    lemma_msg_size_lb, lemma_msgs_size_nonneg, lemma_msgs_size_push, lemma_msgs_size_skip,
    msg_size, msgs_size, msgs_view, Message, MsgV,
};

verus! {

/// For each cache eviction, more than the strictly needed size is removed,
/// on purpose, so that eviction is not triggered again by the next write.
pub const CACHE_OVER_EVICTION_FACTOR: u64 = 5;

/// Process-wide counter of bytes held by all partition caches.
#[derive(Debug)]
pub struct MemoryTracker {
    pub used: u64,
}

impl MemoryTracker {
    /// The bytes currently accounted.
    pub open spec fn usage(&self) -> int {
        self.used as int
    }

    /// A fresh tracker accounts nothing.
    pub fn new() -> (r: MemoryTracker)
        ensures
            r.usage() == 0,
    {
        MemoryTracker { used: 0 }
    }

    /// Current total cache usage in bytes.
    pub fn usage_bytes(&self) -> (r: u64)
        ensures
            r == self.usage(),
    {
        self.used
    }

    /// Account `delta` more bytes.
    pub fn add(&mut self, delta: u64)
        requires
            old(self).usage() + delta <= u64::MAX,
        ensures
            final(self).usage() == old(self).usage() + delta,
    {
        self.used = self.used + delta;
    }

    /// Release `delta` accounted bytes.
    pub fn sub(&mut self, delta: u64)
        requires
            delta <= old(self).usage(),
        ensures
            final(self).usage() == old(self).usage() - delta,
    {
        self.used = self.used - delta;
    }
}

/// The smallest count of leading cache entries whose combined size reaches
/// `target`, capped at `max`; scanning starts at `k`.
pub open spec fn evict_count_from(s: Seq<MsgV>, target: int, max: int, k: int) -> int
    decreases max - k,
{
    if k >= max {
        max
    } else if msgs_size(s.take(k)) >= target {
        k
    } else {
        evict_count_from(s, target, max, k + 1)
    }
}

/// The number of entries an eviction pass removes: the smallest count of
/// oldest entries whose combined size meets `target`, but never more than
/// `max` (the caller's durability bound).
pub open spec fn evict_count(s: Seq<MsgV>, target: int, max: int) -> int {
    evict_count_from(s, target, max, 0)
}

/// The computed count stays between the scan start and the cap.
pub proof fn lemma_evict_count_bounds(s: Seq<MsgV>, target: int, max: int, k: int)
    requires
        0 <= k <= max,
    ensures
        k <= evict_count_from(s, target, max, k) <= max,
    decreases max - k,
{
    if k < max && msgs_size(s.take(k)) < target {
        lemma_evict_count_bounds(s, target, max, k + 1);
    }
}

/// A bounded ring of the most recently appended messages of one partition.
///
/// Contiguity with the partition's log is part of the partition's own
/// well-formedness; the cache itself guarantees exact size accounting and
/// offset contiguity among its entries.
#[derive(Debug)]
pub struct PartitionCache {
    pub messages: Vec<Message>,
    pub size_bytes: u64,
}

impl PartitionCache {
    /// The cached messages, oldest first.
    pub open spec fn view_msgs(&self) -> Seq<MsgV> {
        msgs_view(self.messages@)
    }

    /// Exact bytes held, as accounted.
    pub open spec fn size(&self) -> int {
        self.size_bytes as int
    }

    /// The cache's own well-formedness: the size counter is exact and the
    /// cached offsets are contiguous.
    pub open spec fn wf(&self) -> bool {
        &&& self.size_bytes == msgs_size(self.view_msgs())
        &&& forall|j: int|
            0 <= j < self.view_msgs().len() ==> (#[trigger] self.view_msgs()[j]).offset
                == self.view_msgs()[0].offset + j
    }

    /// A fresh, empty cache.
    pub fn new() -> (r: PartitionCache)
        ensures
            r.wf(),
            r.view_msgs() == Seq::<MsgV>::empty(),
            r.size() == 0,
    {
        let r = PartitionCache { messages: Vec::new(), size_bytes: 0 };
        proof {
            assert(r.view_msgs() =~= Seq::<MsgV>::empty());
        }
        r
    }

    /// Exact bytes held.
    pub fn current_size(&self) -> (r: u64)
        ensures
            r == self.size(),
    {
        self.size_bytes
    }

    /// Number of cached messages.
    pub fn len(&self) -> (r: usize)
        ensures
            r == self.view_msgs().len(),
    {
        self.messages.len()
    }

    /// The cached message at position `i` (oldest first).
    pub fn get(&self, i: usize) -> (r: &Message)
        requires
            i < self.view_msgs().len(),
        ensures
            r@ == self.view_msgs()[i as int],
    {
        &self.messages[i]
    }

    /// Insert a freshly appended message at the newest end and account its
    /// bytes with the tracker.
    pub fn push_message(&mut self, m: Message, tracker: &mut MemoryTracker)
        requires
            old(self).wf(),
            old(self).view_msgs().len() > 0 ==> m@.offset == old(self).view_msgs().last().offset
                + 1,
            old(self).size() + msg_size(m@) <= u64::MAX,
            old(tracker).usage() + msg_size(m@) <= u64::MAX,
        ensures
            final(self).wf(),
            final(self).view_msgs() == old(self).view_msgs().push(m@),
            final(self).size() == old(self).size() + msg_size(m@),
            final(tracker).usage() == old(tracker).usage() + msg_size(m@),
    {
        let ghost mv = m@;
        proof {
            lemma_msg_size_lb(mv);
            lemma_msgs_size_push(self.view_msgs(), mv);
        }
        let delta = message_size_bytes(&m);
        self.messages.push(m);
        self.size_bytes = self.size_bytes + delta;
        tracker.add(delta);
        proof {
            assert(self.view_msgs() =~= old(self).view_msgs().push(mv));
            assert forall|j: int| 0 <= j < self.view_msgs().len() implies (
            #[trigger] self.view_msgs()[j]).offset == self.view_msgs()[0].offset + j by {
                if j < old(self).view_msgs().len() {
                    assert(old(self).view_msgs()[j].offset == old(self).view_msgs()[0].offset + j);
                }
            }
        }
    }

    /// Remove entries from the oldest end until `target` bytes are freed or
    /// `max_evict` entries (the caller's durability bound) are gone, and
    /// release the freed bytes with the tracker. Returns the bytes freed.
    pub fn evict_by_size(&mut self, target: u64, max_evict: usize, tracker: &mut MemoryTracker)
        -> (freed: u64)
        requires
            old(self).wf(),
            max_evict <= old(self).view_msgs().len(),
            old(self).size() <= old(tracker).usage(),
        ensures
            final(self).wf(),
            final(self).view_msgs() == old(self).view_msgs().skip(
                evict_count(old(self).view_msgs(), target as int, max_evict as int),
            ),
            freed == msgs_size(
                old(self).view_msgs().take(
                    evict_count(old(self).view_msgs(), target as int, max_evict as int),
                ),
            ),
            final(self).size() == old(self).size() - freed,
            final(tracker).usage() == old(tracker).usage() - freed,
    {
        let ghost s = self.view_msgs();
        let ghost t = target as int;
        let ghost mx = max_evict as int;
        let mut i: usize = 0;
        let mut acc: u64 = 0;
        proof {
            assert(s.take(0) =~= Seq::<MsgV>::empty());
        }
        while i < max_evict && acc < target
            invariant
                i <= max_evict,
                max_evict <= s.len(),
                acc == msgs_size(s.take(i as int)),
                evict_count(s, t, mx) == evict_count_from(s, t, mx, i as int),
                self.wf(),
                s == self.view_msgs(),
                self.size() == msgs_size(s),
                t == target as int,
                mx == max_evict as int,
            decreases max_evict - i,
        {
            proof {
                crate::message::lemma_msgs_size_take_step(s, i as int);
                lemma_msgs_size_skip(s, i + 1);
                lemma_msgs_size_nonneg(s.skip(i + 1));
                lemma_msg_size_lb(s[i as int]);
            }
            acc = acc + message_size_bytes_at(self, i);
            i += 1;
        }
        let ghost k = evict_count(s, t, mx);
        proof {
            if i == max_evict {
                assert(evict_count_from(s, t, mx, i as int) == mx);
            }
            assert(k == i as int);
            lemma_msgs_size_skip(s, k);
            lemma_msgs_size_nonneg(s.skip(k));
        }
        let kept = self.messages.split_off(i);
        self.messages = kept;
        self.size_bytes = self.size_bytes - acc;
        tracker.sub(acc);
        proof {
            assert(self.view_msgs() =~= s.skip(k));
            assert forall|j: int| 0 <= j < self.view_msgs().len() implies (
            #[trigger] self.view_msgs()[j]).offset == self.view_msgs()[0].offset + j by {
                assert(s[k + j].offset == s[0].offset + (k + j));
                assert(s[k].offset == s[0].offset + k);
            }
        }
        acc
    }
}

/// Exact accounted size of the cache entry at position `i`, used while an
/// eviction pass walks the oldest entries.
fn message_size_bytes_at(cache: &PartitionCache, i: usize) -> (r: u64)
    requires
        cache.wf(),
        i < cache.view_msgs().len(),
    ensures
        r == msg_size(cache.view_msgs()[i as int]),
{
    proof {
        lemma_msgs_size_skip(cache.view_msgs(), i as int);
        crate::message::lemma_msgs_size_take_step(cache.view_msgs(), i as int);
        lemma_msgs_size_skip(cache.view_msgs(), i + 1);
        lemma_msgs_size_nonneg(cache.view_msgs().skip(i + 1));
        lemma_msgs_size_nonneg(cache.view_msgs().take(i as int));
    }
    message_size_bytes(cache.get(i))
}

/// Exact accounted size of one message, as a machine word.
pub fn message_size_bytes(m: &Message) -> (r: u64)
    requires
        msg_size(m@) <= u64::MAX,
    ensures
        r == msg_size(m@),
{
    proof {
        crate::message::lemma_headers_size_nonneg(m@.headers);
    }
    let mut acc: u64 = 16;
    match &m.key {
        Some(k) => {
            acc = acc + k.len() as u64;
        },
        None => {},
    }
    acc = acc + m.payload.len() as u64;
    let mut hs: u64 = 0;
    let mut i: usize = 0;
    let ghost model = m@.headers;
    while i < m.headers.len()
        invariant
            i <= m.headers.len(),
            hs == crate::message::headers_size(model.take(i as int)),
            crate::message::headers_size(model) <= u64::MAX - acc,
            model == m@.headers,
            acc == 16 + crate::message::key_size(m@.key) + m@.payload.len(),
        decreases m.headers.len() - i,
    {
        proof {
            crate::message::lemma_headers_size_take_step(model, i as int);
            crate::message::lemma_headers_size_prefix_le(model, i + 1);
        }
        hs = hs + m.headers[i].name.len() as u64 + m.headers[i].value.len() as u64;
        i += 1;
    }
    proof {
        assert(model.take(model.len() as int) =~= model);
    }
    acc + hs
}

} // verus!

use vstd::arithmetic::div_mod::{lemma_div_is_ordered, lemma_fundamental_div_mod_converse};
use vstd::arithmetic::mul::lemma_mul_upper_bound;

verus! {

/// The share of a reclaim that one partition must shed, rounded up: the
/// partition's fraction of total cache usage, applied to the bytes to
/// reclaim.
pub open spec fn share_ceil(size: int, total: int, to_clean: int) -> int
    recommends
        total > 0,
{
    (size * to_clean + total - 1) / total
}

/// The local eviction target handed to one partition: its proportional
/// share of the reclaim, multiplied by the over-eviction factor, saturated
/// at the machine word.
pub open spec fn eviction_target_spec(size: int, total: int, to_clean: int) -> int {
    let t = CACHE_OVER_EVICTION_FACTOR * share_ceil(size, total, to_clean);
    if t > u64::MAX {
        u64::MAX as int
    } else {
        t
    }
}

/// Compute a partition's eviction target from its cache size, the total
/// tracked usage, and the bytes the whole process must reclaim.
pub fn eviction_target(size: u64, total: u64, to_clean: u64) -> (r: u64)
    requires
        total > 0,
        size <= total,
        to_clean <= total,
    ensures
        r == eviction_target_spec(size as int, total as int, to_clean as int),
{
    proof {
        lemma_mul_upper_bound(size as int, u64::MAX as int, to_clean as int, u64::MAX as int);
    }
    let num: u128 = (size as u128) * (to_clean as u128);
    let ceil: u128 = (num + (total as u128) - 1) / (total as u128);
    proof {
        lemma_mul_upper_bound(size as int, total as int, to_clean as int, to_clean as int);
        lemma_div_is_ordered(
            size as int * to_clean as int + total - 1,
            total as int * to_clean as int + total - 1,
            total as int,
        );
        lemma_fundamental_div_mod_converse(
            total as int * to_clean as int + total - 1,
            total as int,
            to_clean as int,
            total - 1,
        );
        assert(ceil <= to_clean);
    }
    proof {
        lemma_mul_upper_bound(
            CACHE_OVER_EVICTION_FACTOR as int,
            CACHE_OVER_EVICTION_FACTOR as int,
            ceil as int,
            u64::MAX as int,
        );
    }
    let t5: u128 = (CACHE_OVER_EVICTION_FACTOR as u128) * ceil;
    if t5 > u64::MAX as u128 {
        u64::MAX
    } else {
        t5 as u64
    }
}

} // verus!
