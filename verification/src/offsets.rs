//! Consumer offset tracking: per (consumer-or-group, partition) stored
//! offsets, scoped to one topic. Upserts are idempotent and last-write-wins;
//! absence means the consumer starts from its policy default. The store is
//! persisted independently of message data and survives restart.

use vstd::prelude::*;

verus! {

/// The scope an offset is stored under: a single consumer or a consumer
/// group, its numeric identity, and the partition it reads.
#[derive(Clone, Copy, Debug, PartialEq, Eq, Structural, Hash)]
pub struct OffsetKey {
    /// True for a consumer group, false for a single consumer.
    pub group: bool,
    pub consumer_id: u32,
    pub partition_id: u32,
}

/// What a sequence of store operations left for a key: the value of the
/// latest entry, scanning from the newest.
pub open spec fn lookup(s: Seq<(OffsetKey, u64)>, key: OffsetKey) -> Option<u64>
    decreases s.len(),
{
    if s.len() == 0 {
        None
    } else if s.last().0 == key {
        Some(s.last().1)
    } else {
        lookup(s.drop_last(), key)
    }
}

/// No two entries share a key.
pub open spec fn unique_keys(s: Seq<(OffsetKey, u64)>) -> bool {
    forall|i: int, j: int| 0 <= i < j < s.len() ==> (#[trigger] s[i]).0 != (#[trigger] s[j]).0
}

/// An entry's key finds that entry's value.
proof fn lemma_lookup_found(s: Seq<(OffsetKey, u64)>, i: int, key: OffsetKey)
    requires
        unique_keys(s),
        0 <= i < s.len(),
        s[i].0 == key,
    ensures
        lookup(s, key) == Some(s[i].1),
    decreases s.len(),
{
    if i < s.len() - 1 {
        assert(s[i].0 != s[s.len() - 1].0);
        assert(unique_keys(s.drop_last())) by {
            assert(forall|a: int, b: int|
                0 <= a < b < s.drop_last().len() ==> s.drop_last()[a] == s[a] && s.drop_last()[b]
                    == s[b]);
        }
        lemma_lookup_found(s.drop_last(), i, key);
    }
}

/// A key no entry carries finds nothing.
proof fn lemma_lookup_none(s: Seq<(OffsetKey, u64)>, key: OffsetKey)
    requires
        forall|i: int| 0 <= i < s.len() ==> (#[trigger] s[i]).0 != key,
    ensures
        lookup(s, key) == None::<u64>,
    decreases s.len(),
{
    if s.len() > 0 {
        lemma_lookup_none(s.drop_last(), key);
    }
}

/// Removing an entry with a different key does not change what a key finds.
proof fn lemma_lookup_remove(s: Seq<(OffsetKey, u64)>, i: int, key: OffsetKey)
    requires
        0 <= i < s.len(),
        s[i].0 != key,
    ensures
        lookup(s.remove(i), key) == lookup(s, key),
    decreases s.len(),
{
    if i == s.len() - 1 {
        assert(s.remove(i) =~= s.drop_last());
    } else {
        assert(s.remove(i).last() == s.last());
        if s.last().0 != key {
            assert(s.remove(i).drop_last() =~= s.drop_last().remove(i));
            lemma_lookup_remove(s.drop_last(), i, key);
        }
    }
}

/// The topic-scoped store of consumer offsets.
#[derive(Debug)]
pub struct ConsumerOffsets {
    pub entries: Vec<(OffsetKey, u64)>,
}

impl ConsumerOffsets {
    /// What is stored for a key.
    pub open spec fn stored(&self, key: OffsetKey) -> Option<u64> {
        lookup(self.entries@, key)
    }

    /// Well-formed: every key appears at most once.
    pub open spec fn wf(&self) -> bool {
        unique_keys(self.entries@)
    }

    /// An empty store: nothing committed yet.
    pub fn new() -> (r: ConsumerOffsets)
        ensures
            r.wf(),
            forall|k: OffsetKey| #[trigger] r.stored(k) == None::<u64>,
    {
        let r = ConsumerOffsets { entries: Vec::new() };
        proof {
            assert forall|k: OffsetKey| #[trigger] r.stored(k) == None::<u64> by {
                lemma_lookup_none(r.entries@, k);
            }
        }
        r
    }

    /// Upsert the offset stored for a key: idempotent, last write wins;
    /// every other key keeps what it had.
    pub fn store(&mut self, key: OffsetKey, offset: u64)
        requires
            old(self).wf(),
        ensures
            final(self).wf(),
            final(self).stored(key) == Some(offset),
            forall|k2: OffsetKey|
                k2 != key ==> #[trigger] final(self).stored(k2) == old(self).stored(k2),
    {
        let ghost orig = self.entries@;
        let n = self.entries.len();
        let mut i: usize = 0;
        let mut found = n;
        while i < n
            invariant_except_break
                found == n,
            invariant
                i <= n,
                n == self.entries@.len(),
                self.entries@ == orig,
                forall|j: int| 0 <= j < i ==> (#[trigger] orig[j]).0 != key,
            ensures
                n == self.entries@.len(),
                self.entries@ == orig,
                found <= n,
                found == n ==> forall|j: int| 0 <= j < orig.len() ==> (#[trigger] orig[j]).0
                    != key,
                found < n ==> orig[found as int].0 == key,
            decreases n - i,
        {
            if self.entries[i].0 == key {
                found = i;
                break;
            }
            i += 1;
        }
        if found < n {
            self.entries.remove(found);
            proof {
                assert forall|k2: OffsetKey| k2 != key implies lookup(self.entries@, k2) == lookup(
                    orig,
                    k2,
                ) by {
                    lemma_lookup_remove(orig, found as int, k2);
                }
                assert(unique_keys(self.entries@)) by {
                    assert(forall|j: int|
                        0 <= j < self.entries@.len() ==> #[trigger] self.entries@[j] == (if j
                            < found as int {
                            orig[j]
                        } else {
                            orig[j + 1]
                        }));
                }
                assert forall|j: int| 0 <= j < self.entries@.len() implies (
                #[trigger] self.entries@[j]).0 != key by {
                    if j < found as int {
                        assert(self.entries@[j] == orig[j]);
                        if orig[j].0 == key {
                            assert(orig[j].0 != orig[found as int].0);
                        }
                    } else {
                        assert(self.entries@[j] == orig[j + 1]);
                        assert(orig[found as int].0 != orig[j + 1].0);
                    }
                }
            }
        } else {
            proof {
                assert(forall|j: int| 0 <= j < orig.len() ==> (#[trigger] orig[j]).0 != key);
            }
        }
        let ghost trimmed = self.entries@;
        self.entries.push((key, offset));
        proof {
            assert(self.entries@.drop_last() =~= trimmed);
            assert(self.entries@.last() == (key, offset));
            assert forall|k2: OffsetKey| k2 != key implies #[trigger] lookup(self.entries@, k2)
                == lookup(orig, k2) by {
                assert(lookup(self.entries@, k2) == lookup(trimmed, k2));
            }
            assert(unique_keys(self.entries@)) by {
                assert(forall|j: int|
                    0 <= j < trimmed.len() ==> (#[trigger] trimmed[j]).0 != key);
                assert(forall|j: int|
                    0 <= j < self.entries@.len() - 1 ==> #[trigger] self.entries@[j]
                        == trimmed[j]);
            }
        }
    }

    /// What a consumer committed for this key, if anything.
    pub fn get(&self, key: OffsetKey) -> (r: Option<u64>)
        requires
            self.wf(),
        ensures
            r == self.stored(key),
    {
        let n = self.entries.len();
        let mut i: usize = 0;
        while i < n
            invariant
                i <= n,
                n == self.entries@.len(),
                self.wf(),
                forall|j: int| 0 <= j < i ==> (#[trigger] self.entries@[j]).0 != key,
            decreases n - i,
        {
            if self.entries[i].0 == key {
                proof {
                    lemma_lookup_found(self.entries@, i as int, key);
                }
                return Some(self.entries[i].1);
            }
            i += 1;
        }
        proof {
            lemma_lookup_none(self.entries@, key);
        }
        None
    }
}

} // verus!
