//! The engine's cross-cutting guarantees, stated and proved once over the
//! models that the operation contracts expose.

use vstd::prelude::*;

use crate::cache::{share_ceil, CACHE_OVER_EVICTION_FACTOR};
use crate::message::{assigned, PayloadV};
use crate::partition::{lemma_log_offsets, Partition};
use crate::recovery::{image_matches_system, recovered_from, StreamImage};
use crate::system::System;

verus! {

/// Ordering: appending a batch at `start` assigns exactly the offsets
/// `start, start + 1, ...`, strictly increasing, with no gaps, in batch
/// order.
pub proof fn law_append_ordering(batch: Seq<PayloadV>, start: int, ts: u64)
    requires
        0 <= start,
        start + batch.len() <= u64::MAX,
    ensures
        assigned(batch, start, ts).len() == batch.len(),
        forall|i: int|
            0 <= i < batch.len() ==> (#[trigger] assigned(batch, start, ts)[i]).offset == start
                + i,
        forall|i: int, j: int|
            0 <= i < j < batch.len() ==> assigned(batch, start, ts)[i].offset < assigned(
                batch,
                start,
                ts,
            )[j].offset,
{
}

/// Ordering across calls: when one append follows another on the same
/// partition, the second range begins exactly where the first ended, so a
/// sequence of appends covers a gap-free, strictly increasing run of
/// offsets. The hypotheses are what each append's contract guarantees.
pub proof fn law_consecutive_appends(
    p0: Partition,
    p1: Partition,
    p2: Partition,
    b1: Seq<PayloadV>,
    b2: Seq<PayloadV>,
    ts1: u64,
    ts2: u64,
)
    requires
        p0.wf(),
        p1.log() == p0.log() + assigned(b1, p0.next_offset as int, ts1),
        p1.next_offset == p0.next_offset + b1.len(),
        p2.log() == p1.log() + assigned(b2, p1.next_offset as int, ts2),
        p2.next_offset == p1.next_offset + b2.len(),
    ensures
        // the ranges are adjacent: [p0.next, p0.next+|b1|) then
        // [p0.next+|b1|, p0.next+|b1|+|b2|)
        p1.next_offset == p0.next_offset + b1.len(),
        p2.next_offset == p0.next_offset + b1.len() + b2.len(),
        p2.log() == p0.log() + assigned(b1, p0.next_offset as int, ts1) + assigned(
            b2,
            p0.next_offset + b1.len() as int,
            ts2,
        ),
{
}

/// Read-your-write: immediately after an append returns a range, reading
/// that range returns exactly the appended messages, byte-identical, in
/// order. The hypotheses are the append contract's postconditions.
pub proof fn law_read_your_write(p0: Partition, p1: Partition, b: Seq<PayloadV>, ts: u64)
    requires
        p0.wf(),
        p1.wf(),
        p1.log() == p0.log() + assigned(b, p0.next_offset as int, ts),
        p1.next_offset == p0.next_offset + b.len(),
    ensures
        p1.read_spec(p0.next_offset, b.len() as u64) == Some(
            assigned(b, p0.next_offset as int, ts),
        ),
{
    let asg = assigned(b, p0.next_offset as int, ts);
    assert(p0.log().len() == p0.next_offset);
    assert(p1.can_read(p0.next_offset, b.len() as u64));
    assert(p1.log().subrange(p0.next_offset as int, p0.next_offset + b.len()) =~= asg);
}

/// Cache-is-suffix: in every reachable partition state, the cached offsets
/// form a contiguous range ending at `next_offset - 1`, with no gaps, and
/// the cached messages are exactly the log's newest entries.
pub proof fn law_cache_is_suffix(p: Partition)
    requires
        p.wf(),
    ensures
        p.cache_start() + p.cache.view_msgs().len() == p.next_offset,
        forall|j: int|
            0 <= j < p.cache.view_msgs().len() ==> (#[trigger] p.cache.view_msgs()[j]).offset
                == p.cache_start() + j,
        p.cache.view_msgs() == p.log().subrange(p.cache_start(), p.next_offset as int),
{
    lemma_log_offsets(&p);
    assert forall|j: int| 0 <= j < p.cache.view_msgs().len() implies (
    #[trigger] p.cache.view_msgs()[j]).offset == p.cache_start() + j by {
        assert(p.cache.view_msgs()[j] == p.log()[p.cache_start() + j]);
    }
}

/// Eviction never loses data that has no durable copy: every cache entry an
/// eviction pass may remove (any of the first `evictable_count` entries)
/// already lies in a sealed or open segment, and after removing up to that
/// many, the cache still covers every offset from the durable end to the
/// newest message.
pub proof fn law_eviction_durable_only(p: Partition, k: int)
    requires
        p.wf(),
        0 <= k <= p.evictable_count(),
    ensures
        forall|j: int|
            0 <= j < k ==> (#[trigger] p.cache.view_msgs()[j]).offset < p.durable_end(),
        p.cache_start() + k <= p.durable_end(),
        // what remains still covers [durable_end, next_offset)
        p.next_offset - p.cache.view_msgs().skip(k).len() <= p.durable_end(),
{
    law_cache_is_suffix(p);
}

/// Recovery determinism: two engines rebuilt from the same durable image
/// agree on every identifier, name, log, offset counter and committed
/// consumer offset — restarting against the same directory reconstructs
/// the same state.
pub proof fn law_recovery_deterministic(a: System, b: System, img: Seq<StreamImage>)
    requires
        recovered_from(a, img),
        recovered_from(b, img),
    ensures
        a.streams@.len() == b.streams@.len(),
        forall|si: int|
            0 <= si < img.len() ==> {
                let sa = #[trigger] a.streams@[si];
                let sb = b.streams@[si];
                &&& sa.stream_id == sb.stream_id
                &&& sa.name@ == sb.name@
                &&& sa.topics@.len() == sb.topics@.len()
                &&& forall|ti: int|
                    0 <= ti < sa.topics@.len() ==> {
                        let ta = #[trigger] sa.topics@[ti];
                        let tb = sb.topics@[ti];
                        &&& ta.topic_id == tb.topic_id
                        &&& ta.name@ == tb.name@
                        &&& ta.partitions@.len() == tb.partitions@.len()
                        &&& (forall|key: crate::offsets::OffsetKey| #[trigger]
                            ta.offsets.stored(key) == tb.offsets.stored(key))
                        &&& forall|pi: int|
                            0 <= pi < ta.partitions@.len() ==> {
                                let pa = #[trigger] ta.partitions@[pi];
                                let pb = tb.partitions@[pi];
                                &&& pa.log() == pb.log()
                                &&& pa.durable() == pb.durable()
                                &&& pa.next_offset == pb.next_offset
                            }
                    }
            },
{
}

/// Recovery round trip: rebuilding an engine from its own exported durable
/// image reconstructs, partition by partition, exactly the durable log,
/// with `next_offset` one past its end, and every committed consumer offset
/// intact — so every previously durably-committed range reads back
/// identically after a restart.
pub proof fn law_export_recover_round_trip(s: System, img: Seq<StreamImage>, r: System)
    requires
        s.wf(),
        img.len() == s.streams@.len(),
        forall|si: int|
            0 <= si < img.len() ==> image_matches_system(#[trigger] img[si], s.streams@[si]),
        recovered_from(r, img),
    ensures
        r.streams@.len() == s.streams@.len(),
        forall|si: int, ti: int, pi: int|
            0 <= si < img.len() && 0 <= ti < s.streams@[si].topics@.len() && 0 <= pi
                < s.streams@[si].topics@[ti].partitions@.len() ==> {
                let p = s.streams@[si].topics@[ti].partitions@[pi];
                let q = #[trigger] r.streams@[si].topics@[ti].partitions@[pi];
                &&& q.durable() == p.durable()
                &&& q.log() == p.durable()
                &&& q.next_offset == p.durable().len()
            },
        forall|si: int, ti: int, key: crate::offsets::OffsetKey|
            0 <= si < img.len() && 0 <= ti < s.streams@[si].topics@.len() ==> #[trigger] r.streams@[
                si].topics@[ti].offsets.stored(key) == s.streams@[si].topics@[ti].offsets.stored(
                key,
            ),
{
    assert forall|si: int, ti: int, pi: int|
        0 <= si < img.len() && 0 <= ti < s.streams@[si].topics@.len() && 0 <= pi
            < s.streams@[si].topics@[ti].partitions@.len() implies {
        let p = s.streams@[si].topics@[ti].partitions@[pi];
        let q = #[trigger] r.streams@[si].topics@[ti].partitions@[pi];
        &&& q.durable() == p.durable()
        &&& q.log() == p.durable()
        &&& q.next_offset == p.durable().len()
    } by {
        assert(image_matches_system(img[si], s.streams@[si]));
    }
    assert forall|si: int, ti: int, key: crate::offsets::OffsetKey|
        0 <= si < img.len() && 0 <= ti < s.streams@[si].topics@.len() implies #[trigger] r.streams@[
        si].topics@[ti].offsets.stored(key) == s.streams@[si].topics@[ti].offsets.stored(
        key,
    ) by {
        assert(image_matches_system(img[si], s.streams@[si]));
        assert(img[si].topics@[ti].offsets@ == s.streams@[si].topics@[ti].offsets.entries@);
    }
}

/// After a recovery, every previously durable range reads back exactly the
/// durable messages: reading `[start, start + count)` of a recovered
/// partition yields the durable log's own subrange.
pub proof fn law_recovered_reads(q: Partition, start: u64, count: u64)
    requires
        q.wf(),
        q.log() == q.durable(),
        q.next_offset == q.durable().len(),
        start + count <= q.durable().len(),
    ensures
        q.read_spec(start, count) == Some(
            q.durable().subrange(start as int, start as int + count),
        ),
{
}

/// A read that succeeds returns messages whose payloads are byte-identical
/// to what was appended at those offsets: the log never rewrites a message.
pub proof fn law_reads_are_log_subranges(p: Partition, start: u64, count: u64)
    requires
        p.wf(),
        p.can_read(start, count),
    ensures
        p.read_spec(start, count) == Some(
            p.log().subrange(start as int, start as int + count),
        ),
        forall|j: int|
            0 <= j < count ==> (#[trigger] p.log().subrange(
                start as int,
                start as int + count,
            )[j]).offset == start + j,
{
    lemma_log_offsets(&p);
    assert forall|j: int| 0 <= j < count implies (#[trigger] p.log().subrange(
        start as int,
        start as int + count,
    )[j]).offset == start + j by {
        assert(p.log().subrange(start as int, start as int + count)[j] == p.log()[start + j]);
    }
}

/// Proportional eviction: the share one partition is asked to shed is its
/// fraction of the total cache usage applied to the bytes to reclaim,
/// rounded up — the smallest count of bytes `c` with
/// `c * total >= size * to_clean` — and the handed-down target is that
/// share times the over-eviction factor (saturated at the machine word).
pub proof fn law_proportional_share(size: int, total: int, to_clean: int)
    requires
        0 < total,
        0 <= size,
        0 <= to_clean,
    ensures
        share_ceil(size, total, to_clean) * total >= size * to_clean,
        (share_ceil(size, total, to_clean) - 1) * total < size * to_clean,
        crate::cache::eviction_target_spec(size, total, to_clean) == (
        if CACHE_OVER_EVICTION_FACTOR * share_ceil(size, total, to_clean) > u64::MAX {
            u64::MAX as int
        } else {
            CACHE_OVER_EVICTION_FACTOR * share_ceil(size, total, to_clean)
        }),
{
    let a = size * to_clean;
    let c = share_ceil(size, total, to_clean);
    vstd::arithmetic::div_mod::lemma_fundamental_div_mod(a + total - 1, total);
    vstd::arithmetic::div_mod::lemma_mod_bound(a + total - 1, total);
    vstd::arithmetic::mul::lemma_mul_is_distributive_sub_other_way(total, c, 1);
    vstd::arithmetic::mul::lemma_mul_is_commutative(c, total);
    assert(size * to_clean >= 0) by {
        vstd::arithmetic::mul::lemma_mul_nonnegative(size, to_clean);
    }
}

} // verus!
