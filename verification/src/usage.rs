//! Cache-byte accounting across the hierarchy: the total bytes held by all
//! partition caches of all topics of all streams. The system invariant ties
//! the shared `MemoryTracker` to exactly this sum.

use vstd::prelude::*;

use crate::partition::Partition;
use crate::stream::Stream;
use crate::topic::Topic;

verus! {

/// Bytes held by the caches of a list of partitions.
pub open spec fn parts_cache_bytes(s: Seq<Partition>) -> int
    decreases s.len(),
{
    if s.len() == 0 {
        0
    } else {
        parts_cache_bytes(s.drop_last()) + s.last().cache.size()
    }
}

/// Bytes held by the caches of all partitions of a list of topics.
pub open spec fn topics_cache_bytes(s: Seq<Topic>) -> int
    decreases s.len(),
{
    if s.len() == 0 {
        0
    } else {
        topics_cache_bytes(s.drop_last()) + parts_cache_bytes(s.last().partitions@)
    }
}

/// Bytes held by all partition caches of a list of streams.
pub open spec fn streams_cache_bytes(s: Seq<Stream>) -> int
    decreases s.len(),
{
    if s.len() == 0 {
        0
    } else {
        streams_cache_bytes(s.drop_last()) + topics_cache_bytes(s.last().topics@)
    }
}

pub proof fn lemma_parts_bytes_nonneg(s: Seq<Partition>)
    ensures
        parts_cache_bytes(s) >= 0,
    decreases s.len(),
{
    if s.len() > 0 {
        lemma_parts_bytes_nonneg(s.drop_last());
    }
}

pub proof fn lemma_topics_bytes_nonneg(s: Seq<Topic>)
    ensures
        topics_cache_bytes(s) >= 0,
    decreases s.len(),
{
    if s.len() > 0 {
        lemma_topics_bytes_nonneg(s.drop_last());
        lemma_parts_bytes_nonneg(s.last().partitions@);
    }
}

pub proof fn lemma_streams_bytes_nonneg(s: Seq<Stream>)
    ensures
        streams_cache_bytes(s) >= 0,
    decreases s.len(),
{
    if s.len() > 0 {
        lemma_streams_bytes_nonneg(s.drop_last());
        lemma_topics_bytes_nonneg(s.last().topics@);
    }
}

/// Replacing one partition changes the sum by the difference of its cache.
pub proof fn lemma_parts_bytes_update(s: Seq<Partition>, i: int, p: Partition)
    requires
        0 <= i < s.len(),
    ensures
        parts_cache_bytes(s.update(i, p)) == parts_cache_bytes(s) - s[i].cache.size()
            + p.cache.size(),
    decreases s.len(),
{
    if i == s.len() - 1 {
        assert(s.update(i, p).drop_last() =~= s.drop_last());
    } else {
        assert(s.update(i, p).drop_last() =~= s.drop_last().update(i, p));
        assert(s.update(i, p).last() == s.last());
        lemma_parts_bytes_update(s.drop_last(), i, p);
    }
}

/// Replacing one topic changes the sum by the difference of its partitions.
pub proof fn lemma_topics_bytes_update(s: Seq<Topic>, i: int, t: Topic)
    requires
        0 <= i < s.len(),
    ensures
        topics_cache_bytes(s.update(i, t)) == topics_cache_bytes(s) - parts_cache_bytes(
            s[i].partitions@,
        ) + parts_cache_bytes(t.partitions@),
    decreases s.len(),
{
    if i == s.len() - 1 {
        assert(s.update(i, t).drop_last() =~= s.drop_last());
    } else {
        assert(s.update(i, t).drop_last() =~= s.drop_last().update(i, t));
        assert(s.update(i, t).last() == s.last());
        lemma_topics_bytes_update(s.drop_last(), i, t);
    }
}

/// Replacing one stream changes the sum by the difference of its topics.
pub proof fn lemma_streams_bytes_update(s: Seq<Stream>, i: int, st: Stream)
    requires
        0 <= i < s.len(),
    ensures
        streams_cache_bytes(s.update(i, st)) == streams_cache_bytes(s) - topics_cache_bytes(
            s[i].topics@,
        ) + topics_cache_bytes(st.topics@),
    decreases s.len(),
{
    if i == s.len() - 1 {
        assert(s.update(i, st).drop_last() =~= s.drop_last());
    } else {
        assert(s.update(i, st).drop_last() =~= s.drop_last().update(i, st));
        assert(s.update(i, st).last() == s.last());
        lemma_streams_bytes_update(s.drop_last(), i, st);
    }
}

/// Sums split over concatenation, per level.
pub proof fn lemma_parts_bytes_add(a: Seq<Partition>, b: Seq<Partition>)
    ensures
        parts_cache_bytes(a + b) == parts_cache_bytes(a) + parts_cache_bytes(b),
    decreases b.len(),
{
    if b.len() == 0 {
        assert(a + b =~= a);
    } else {
        assert((a + b).drop_last() =~= a + b.drop_last());
        assert((a + b).last() == b.last());
        lemma_parts_bytes_add(a, b.drop_last());
    }
}

pub proof fn lemma_topics_bytes_add(a: Seq<Topic>, b: Seq<Topic>)
    ensures
        topics_cache_bytes(a + b) == topics_cache_bytes(a) + topics_cache_bytes(b),
    decreases b.len(),
{
    if b.len() == 0 {
        assert(a + b =~= a);
    } else {
        assert((a + b).drop_last() =~= a + b.drop_last());
        assert((a + b).last() == b.last());
        lemma_topics_bytes_add(a, b.drop_last());
    }
}

pub proof fn lemma_streams_bytes_add(a: Seq<Stream>, b: Seq<Stream>)
    ensures
        streams_cache_bytes(a + b) == streams_cache_bytes(a) + streams_cache_bytes(b),
    decreases b.len(),
{
    if b.len() == 0 {
        assert(a + b =~= a);
    } else {
        assert((a + b).drop_last() =~= a + b.drop_last());
        assert((a + b).last() == b.last());
        lemma_streams_bytes_add(a, b.drop_last());
    }
}

/// A one-element list sums to that element's contribution, per level.
pub proof fn lemma_parts_bytes_singleton(p: Partition)
    ensures
        parts_cache_bytes(seq![p]) == p.cache.size(),
{
    assert(seq![p].drop_last() =~= Seq::<Partition>::empty());
    assert(parts_cache_bytes(Seq::<Partition>::empty()) == 0);
    assert(seq![p].last() == p);
}

pub proof fn lemma_topics_bytes_singleton(t: Topic)
    ensures
        topics_cache_bytes(seq![t]) == parts_cache_bytes(t.partitions@),
{
    assert(seq![t].drop_last() =~= Seq::<Topic>::empty());
    assert(topics_cache_bytes(Seq::<Topic>::empty()) == 0);
    assert(seq![t].last() == t);
}

pub proof fn lemma_streams_bytes_singleton(st: Stream)
    ensures
        streams_cache_bytes(seq![st]) == topics_cache_bytes(st.topics@),
{
    assert(seq![st].drop_last() =~= Seq::<Stream>::empty());
    assert(streams_cache_bytes(Seq::<Stream>::empty()) == 0);
    assert(seq![st].last() == st);
}

/// One partition's cache never exceeds the partitions' sum.
pub proof fn lemma_parts_bytes_elem_le(s: Seq<Partition>, i: int)
    requires
        0 <= i < s.len(),
    ensures
        s[i].cache.size() <= parts_cache_bytes(s),
{
    assert(s =~= s.take(i) + (s.skip(i).take(1) + s.skip(i + 1)));
    assert(s.skip(i).take(1) =~= seq![s[i]]);
    lemma_parts_bytes_singleton(s[i]);
    lemma_parts_bytes_add(s.skip(i).take(1), s.skip(i + 1));
    lemma_parts_bytes_add(s.take(i), s.skip(i).take(1) + s.skip(i + 1));
    lemma_parts_bytes_nonneg(s.take(i));
    lemma_parts_bytes_nonneg(s.skip(i + 1));
}

/// One topic's partitions never exceed the topics' sum.
pub proof fn lemma_topics_bytes_elem_le(s: Seq<Topic>, i: int)
    requires
        0 <= i < s.len(),
    ensures
        parts_cache_bytes(s[i].partitions@) <= topics_cache_bytes(s),
{
    assert(s =~= s.take(i) + (s.skip(i).take(1) + s.skip(i + 1)));
    assert(s.skip(i).take(1) =~= seq![s[i]]);
    lemma_topics_bytes_singleton(s[i]);
    lemma_topics_bytes_add(s.skip(i).take(1), s.skip(i + 1));
    lemma_topics_bytes_add(s.take(i), s.skip(i).take(1) + s.skip(i + 1));
    lemma_topics_bytes_nonneg(s.take(i));
    lemma_topics_bytes_nonneg(s.skip(i + 1));
}

/// One stream's topics never exceed the streams' sum.
pub proof fn lemma_streams_bytes_elem_le(s: Seq<Stream>, i: int)
    requires
        0 <= i < s.len(),
    ensures
        topics_cache_bytes(s[i].topics@) <= streams_cache_bytes(s),
{
    assert(s =~= s.take(i) + (s.skip(i).take(1) + s.skip(i + 1)));
    assert(s.skip(i).take(1) =~= seq![s[i]]);
    lemma_streams_bytes_singleton(s[i]);
    lemma_streams_bytes_add(s.skip(i).take(1), s.skip(i + 1));
    lemma_streams_bytes_add(s.take(i), s.skip(i).take(1) + s.skip(i + 1));
    lemma_streams_bytes_nonneg(s.take(i));
    lemma_streams_bytes_nonneg(s.skip(i + 1));
}

/// Appending a fresh element with an empty cache keeps each sum.
pub proof fn lemma_parts_bytes_push(s: Seq<Partition>, p: Partition)
    ensures
        parts_cache_bytes(s.push(p)) == parts_cache_bytes(s) + p.cache.size(),
{
    assert(s.push(p).drop_last() =~= s);
}

pub proof fn lemma_topics_bytes_push(s: Seq<Topic>, t: Topic)
    ensures
        topics_cache_bytes(s.push(t)) == topics_cache_bytes(s) + parts_cache_bytes(t.partitions@),
{
    assert(s.push(t).drop_last() =~= s);
}

pub proof fn lemma_streams_bytes_push(s: Seq<Stream>, st: Stream)
    ensures
        streams_cache_bytes(s.push(st)) == streams_cache_bytes(s) + topics_cache_bytes(st.topics@),
{
    assert(s.push(st).drop_last() =~= s);
}

/// Removing an element subtracts exactly its contribution, per level.
pub proof fn lemma_parts_bytes_remove(s: Seq<Partition>, i: int)
    requires
        0 <= i < s.len(),
    ensures
        parts_cache_bytes(s.remove(i)) == parts_cache_bytes(s) - s[i].cache.size(),
{
    assert(s =~= s.take(i) + (s.skip(i).take(1) + s.skip(i + 1)));
    assert(s.skip(i).take(1) =~= seq![s[i]]);
    lemma_parts_bytes_singleton(s[i]);
    assert(s.remove(i) =~= s.take(i) + s.skip(i + 1));
    lemma_parts_bytes_add(s.skip(i).take(1), s.skip(i + 1));
    lemma_parts_bytes_add(s.take(i), s.skip(i).take(1) + s.skip(i + 1));
    lemma_parts_bytes_add(s.take(i), s.skip(i + 1));
}

pub proof fn lemma_topics_bytes_remove(s: Seq<Topic>, i: int)
    requires
        0 <= i < s.len(),
    ensures
        topics_cache_bytes(s.remove(i)) == topics_cache_bytes(s) - parts_cache_bytes(
            s[i].partitions@,
        ),
{
    assert(s =~= s.take(i) + (s.skip(i).take(1) + s.skip(i + 1)));
    assert(s.skip(i).take(1) =~= seq![s[i]]);
    lemma_topics_bytes_singleton(s[i]);
    assert(s.remove(i) =~= s.take(i) + s.skip(i + 1));
    lemma_topics_bytes_add(s.skip(i).take(1), s.skip(i + 1));
    lemma_topics_bytes_add(s.take(i), s.skip(i).take(1) + s.skip(i + 1));
    lemma_topics_bytes_add(s.take(i), s.skip(i + 1));
}

pub proof fn lemma_streams_bytes_remove(s: Seq<Stream>, i: int)
    requires
        0 <= i < s.len(),
    ensures
        streams_cache_bytes(s.remove(i)) == streams_cache_bytes(s) - topics_cache_bytes(
            s[i].topics@,
        ),
{
    assert(s =~= s.take(i) + (s.skip(i).take(1) + s.skip(i + 1)));
    assert(s.skip(i).take(1) =~= seq![s[i]]);
    lemma_streams_bytes_singleton(s[i]);
    assert(s.remove(i) =~= s.take(i) + s.skip(i + 1));
    lemma_streams_bytes_add(s.skip(i).take(1), s.skip(i + 1));
    lemma_streams_bytes_add(s.take(i), s.skip(i).take(1) + s.skip(i + 1));
    lemma_streams_bytes_add(s.take(i), s.skip(i + 1));
}

/// Truncation splits the partition sum.
pub proof fn lemma_parts_bytes_take_skip(s: Seq<Partition>, k: int)
    requires
        0 <= k <= s.len(),
    ensures
        parts_cache_bytes(s) == parts_cache_bytes(s.take(k)) + parts_cache_bytes(s.skip(k)),
{
    assert(s =~= s.take(k) + s.skip(k));
    lemma_parts_bytes_add(s.take(k), s.skip(k));
}

} // verus!
