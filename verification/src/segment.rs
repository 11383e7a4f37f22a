//! Segments: file-sized, append-only chunks of one partition's log.
//!
//! A partition's log is the concatenation of its segments, oldest first.
//! All segments but the newest are sealed and never written again; only the
//! newest accepts appends. Offsets within a segment are contiguous and
//! strictly increasing from its start offset.

use vstd::prelude::*;

use crate::error::Error;
use crate::message::{
    lemma_msg_size_lb, lemma_msgs_size_push, msg_size, msgs_size, msgs_view, Message, MsgV,
};

verus! {

/// One chunk of a partition's log, backed by one data file plus one offset
/// index when persisted.
#[derive(Debug)]
pub struct Segment {
    /// The offset of the segment's first message.
    pub start_offset: u64,
    /// The messages held, in offset order.
    pub messages: Vec<Message>,
    /// Sealed segments never accept another append.
    pub sealed: bool,
    /// Exact accounted bytes of the held messages.
    pub size_bytes: u64,
}

impl Segment {
    /// The messages of this segment as models.
    pub open spec fn msgs(&self) -> Seq<MsgV> {
        msgs_view(self.messages@)
    }

    /// One past the highest offset held.
    pub open spec fn end_offset(&self) -> int {
        self.start_offset + self.msgs().len()
    }

    /// A segment is well-formed when its offsets are contiguous from its
    /// start, they fit the offset word, and its size counter is exact.
    pub open spec fn wf(&self) -> bool {
        &&& self.end_offset() <= u64::MAX
        &&& forall|j: int|
            0 <= j < self.msgs().len() ==> (#[trigger] self.msgs()[j]).offset == self.start_offset
                + j
        &&& self.size_bytes == msgs_size(self.msgs())
    }

    /// A fresh, open, empty segment starting at `start_offset`.
    pub fn open_at(start_offset: u64) -> (r: Segment)
        ensures
            r.wf(),
            !r.sealed,
            r.start_offset == start_offset,
            r.msgs() == Seq::<MsgV>::empty(),
    {
        let r = Segment { start_offset, messages: Vec::new(), sealed: false, size_bytes: 0 };
        proof {
            assert(r.msgs() =~= Seq::<MsgV>::empty());
        }
        r
    }

    /// Number of messages held.
    pub fn len(&self) -> (r: usize)
        ensures
            r == self.msgs().len(),
    {
        self.messages.len()
    }

    /// Append one message to an open segment. The message's offset must be
    /// the next one the segment expects.
    pub fn append(&mut self, m: Message)
        requires
            old(self).wf(),
            !old(self).sealed,
            m@.offset == old(self).end_offset(),
            old(self).end_offset() + 1 <= u64::MAX,
            old(self).size_bytes + msg_size(m@) <= u64::MAX,
        ensures
            final(self).wf(),
            !final(self).sealed,
            final(self).start_offset == old(self).start_offset,
            final(self).msgs() == old(self).msgs().push(m@),
            final(self).size_bytes == old(self).size_bytes + msg_size(m@),
    {
        let ghost mv = m@;
        proof {
            lemma_msg_size_lb(mv);
            lemma_msgs_size_push(self.msgs(), mv);
        }
        let delta = crate::cache::message_size_bytes(&m);
        self.messages.push(m);
        self.size_bytes = self.size_bytes + delta;
        proof {
            assert(self.msgs() =~= old(self).msgs().push(mv));
        }
    }

    /// Seal the segment: it becomes read-only for good.
    pub fn seal(&mut self)
        ensures
            final(self).sealed,
            final(self).start_offset == old(self).start_offset,
            final(self).msgs() == old(self).msgs(),
            final(self).size_bytes == old(self).size_bytes,
            old(self).wf() ==> final(self).wf(),
    {
        self.sealed = true;
    }

    /// Rebuild a segment from recovered messages, validating what recovery
    /// scanned off disk: offsets must be contiguous from `start_offset` and
    /// every size must fit the machine word. Returns `CorruptState` exactly
    /// when the scanned data violates that.
    pub fn restore(start_offset: u64, messages: Vec<Message>, sealed: bool) -> (r: Result<
        Segment,
        Error,
    >)
        ensures
            match r {
                Ok(seg) => {
                    &&& seg.wf()
                    &&& seg.start_offset == start_offset
                    &&& seg.sealed == sealed
                    &&& seg.msgs() == msgs_view(messages@)
                    &&& start_offset + messages@.len() <= u64::MAX
                    &&& forall|j: int|
                        0 <= j < messages@.len() ==> (#[trigger] msgs_view(messages@)[j]).offset
                            == start_offset + j
                    &&& msgs_size(msgs_view(messages@)) <= u64::MAX
                },
                Err(e) => {
                    &&& e == Error::CorruptState
                    &&& {
                        ||| start_offset + messages@.len() > u64::MAX
                        ||| !(forall|j: int|
                            0 <= j < messages@.len() ==> (#[trigger] msgs_view(
                                messages@,
                            )[j]).offset == start_offset + j)
                        ||| msgs_size(msgs_view(messages@)) > u64::MAX
                    }
                },
            },
    {
        let ghost model = msgs_view(messages@);
        let n = messages.len();
        if n as u64 > u64::MAX - start_offset {
            return Err(Error::CorruptState);
        }
        let mut i: usize = 0;
        let mut size: u64 = 0;
        while i < n
            invariant
                i <= n,
                n == messages@.len(),
                model == msgs_view(messages@),
                start_offset + n <= u64::MAX,
                size == msgs_size(model.take(i as int)),
                forall|j: int| 0 <= j < i ==> (#[trigger] model[j]).offset == start_offset + j,
            decreases n - i,
        {
            if messages[i].offset != start_offset + i as u64 {
                return Err(Error::CorruptState);
            }
            proof {
                crate::message::lemma_msgs_size_take_step(model, i as int);
                crate::message::lemma_msgs_size_nonneg(model.take(i as int));
                lemma_msg_size_lb(model[i as int]);
            }
            let msz = match crate::message::msg_size_checked(&messages[i]) {
                Some(s) => s,
                None => {
                    proof {
                        lemma_size_with_oversized_element(model, i as int);
                    }
                    return Err(Error::CorruptState);
                },
            };
            if msz > u64::MAX - size {
                proof {
                    lemma_msgs_size_prefix_le_total(model, i + 1);
                }
                return Err(Error::CorruptState);
            }
            size = size + msz;
            i += 1;
        }
        proof {
            assert(model.take(n as int) =~= model);
        }
        Ok(Segment { start_offset, messages, sealed, size_bytes: size })
    }
}

/// A prefix of messages never weighs more than all of them.
pub proof fn lemma_msgs_size_prefix_le_total(s: Seq<MsgV>, i: int)
    requires
        0 <= i <= s.len(),
    ensures
        msgs_size(s.take(i)) <= msgs_size(s),
    decreases s.len() - i,
{
    if i == s.len() {
        assert(s.take(i) =~= s);
    } else {
        crate::message::lemma_msgs_size_take_step(s, i);
        lemma_msg_size_lb(s[i]);
        lemma_msgs_size_prefix_le_total(s, i + 1);
    }
}

/// If one element alone does not fit the machine word, the whole sequence
/// does not either.
proof fn lemma_size_with_oversized_element(s: Seq<MsgV>, i: int)
    requires
        0 <= i < s.len(),
        msg_size(s[i]) > u64::MAX,
    ensures
        msgs_size(s) > u64::MAX,
{
    crate::message::lemma_msgs_size_take_step(s, i);
    crate::message::lemma_msgs_size_nonneg(s.take(i));
    lemma_msgs_size_prefix_le_total(s, i + 1);
}

/// The chaining discipline of a partition's segment list: the first segment
/// starts at offset zero and each later one starts where the previous ended.
pub open spec fn segs_chain(segs: Seq<Segment>) -> bool {
    &&& segs.len() >= 1
    &&& segs[0].start_offset == 0
    &&& forall|k: int| 0 <= k < segs.len() ==> (#[trigger] segs[k]).wf()
    &&& forall|k: int|
        0 <= k < segs.len() - 1 ==> (#[trigger] segs[k + 1]).start_offset == segs[k].end_offset()
}

/// The sealing discipline: every segment but the newest is sealed, and the
/// newest is open.
pub open spec fn segs_sealing(segs: Seq<Segment>) -> bool {
    &&& segs.len() >= 1
    &&& forall|k: int| 0 <= k < segs.len() - 1 ==> (#[trigger] segs[k]).sealed
    &&& !segs.last().sealed
}

/// The concatenation of the segments' messages, oldest segment first.
pub open spec fn segs_msgs(segs: Seq<Segment>) -> Seq<MsgV>
    decreases segs.len(),
{
    if segs.len() == 0 {
        Seq::empty()
    } else {
        segs_msgs(segs.drop_last()) + segs.last().msgs()
    }
}

/// Chained segments concatenate to exactly the offsets up to the last
/// segment's end.
pub proof fn lemma_segs_msgs_len(segs: Seq<Segment>)
    requires
        segs_chain(segs),
    ensures
        segs_msgs(segs).len() == segs.last().end_offset(),
        forall|idx: int|
            0 <= idx < segs_msgs(segs).len() ==> (#[trigger] segs_msgs(segs)[idx]).offset == idx,
    decreases segs.len(),
{
    if segs.len() == 1 {
        assert(segs_msgs(segs.drop_last()) =~= Seq::<MsgV>::empty());
    } else {
        let front = segs.drop_last();
        assert(segs_chain(front)) by {
            assert(forall|k: int| 0 <= k < front.len() ==> front[k] == segs[k]);
        }
        lemma_segs_msgs_len(front);
        let last = segs.last();
        assert(segs[segs.len() - 2 + 1].start_offset == segs[segs.len() - 2].end_offset());
        assert(front.last() == segs[segs.len() - 2]);
        assert(last.start_offset == front.last().end_offset());
        assert forall|idx: int| 0 <= idx < segs_msgs(segs).len() implies (#[trigger] segs_msgs(
            segs,
        )[idx]).offset == idx by {
            if idx < segs_msgs(front).len() {
                assert(segs_msgs(segs)[idx] == segs_msgs(front)[idx]);
            } else {
                let j = idx - segs_msgs(front).len();
                assert(segs_msgs(segs)[idx] == last.msgs()[j]);
                assert(last.msgs()[j].offset == last.start_offset + j);
            }
        }
    }
}

/// Locating an offset: a message within segment `k`'s range is found in the
/// concatenation at its offset.
pub proof fn lemma_segs_msgs_index(segs: Seq<Segment>, k: int, o: int)
    requires
        segs_chain(segs),
        0 <= k < segs.len(),
        segs[k].start_offset <= o < segs[k].end_offset(),
    ensures
        0 <= o < segs_msgs(segs).len(),
        segs_msgs(segs)[o] == segs[k].msgs()[o - segs[k].start_offset],
    decreases segs.len(),
{
    lemma_segs_msgs_len(segs);
    if k == segs.len() - 1 {
        if segs.len() > 1 {
            let front = segs.drop_last();
            assert(segs_chain(front)) by {
                assert(forall|kk: int| 0 <= kk < front.len() ==> front[kk] == segs[kk]);
            }
            lemma_segs_msgs_len(front);
            assert(segs_msgs(front).len() == segs[k].start_offset);
            assert(segs_msgs(segs)[o] == segs.last().msgs()[o - segs[k].start_offset]);
        } else {
            assert(segs_msgs(segs.drop_last()) =~= Seq::<MsgV>::empty());
        }
    } else {
        let front = segs.drop_last();
        assert(segs_chain(front)) by {
            assert(forall|kk: int| 0 <= kk < front.len() ==> front[kk] == segs[kk]);
        }
        lemma_segs_msgs_index(front, k, o);
        lemma_segs_msgs_len(front);
        assert(o < segs_msgs(front).len()) by {
            lemma_chain_end_monotonic(segs, k);
        }
        assert(segs_msgs(segs)[o] == segs_msgs(front)[o]);
    }
}

/// Segment ends only grow along the chain.
pub proof fn lemma_chain_end_monotonic(segs: Seq<Segment>, k: int)
    requires
        segs_chain(segs),
        0 <= k < segs.len(),
    ensures
        segs[k].end_offset() <= segs.last().end_offset(),
        segs[k].start_offset <= segs_msgs(segs).len(),
        segs[k].end_offset() <= segs_msgs(segs).len(),
    decreases segs.len(),
{
    lemma_segs_msgs_len(segs);
    if k < segs.len() - 1 {
        let front = segs.drop_last();
        assert(segs_chain(front)) by {
            assert(forall|kk: int| 0 <= kk < front.len() ==> front[kk] == segs[kk]);
        }
        lemma_chain_end_monotonic(front, k);
        lemma_segs_msgs_len(front);
        assert(segs.last().start_offset == front.last().end_offset());
    }
}

/// Appending a message to the last segment appends it to the concatenation.
pub proof fn lemma_segs_msgs_update_last_push(s1: Seq<Segment>, s2: Seq<Segment>, m: MsgV)
    requires
        s1.len() >= 1,
        s2.len() == s1.len(),
        forall|k: int| 0 <= k < s1.len() - 1 ==> s2[k] == s1[k],
        s2.last().msgs() == s1.last().msgs().push(m),
    ensures
        segs_msgs(s2) == segs_msgs(s1).push(m),
{
    assert(s2.drop_last() =~= s1.drop_last());
    assert(segs_msgs(s2) == segs_msgs(s2.drop_last()) + s2.last().msgs());
    assert(segs_msgs(s2) =~= segs_msgs(s1).push(m));
}

/// Opening a fresh empty segment leaves the concatenation unchanged.
pub proof fn lemma_segs_msgs_push_empty(segs: Seq<Segment>, s: Segment)
    requires
        s.msgs() == Seq::<MsgV>::empty(),
    ensures
        segs_msgs(segs.push(s)) == segs_msgs(segs),
{
    assert(segs.push(s).drop_last() =~= segs);
    assert(segs.push(s).last() == s);
    assert(segs_msgs(segs.push(s)) =~= segs_msgs(segs));
}

/// Appending any segment appends its messages to the concatenation.
pub proof fn lemma_segs_msgs_push(segs: Seq<Segment>, s: Segment)
    ensures
        segs_msgs(segs.push(s)) == segs_msgs(segs) + s.msgs(),
{
    assert(segs.push(s).drop_last() =~= segs);
    assert(segs.push(s).last() == s);
}

} // verus!
