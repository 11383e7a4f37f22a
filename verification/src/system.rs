//! The system: owner of all streams, the shared memory tracker, the
//! persister strategy and the authorization gate. It resolves every
//! operation to a stream, topic and partition, runs startup recovery,
//! periodic cache eviction and graceful shutdown.

use vstd::prelude::*;

use crate::cache::MemoryTracker;
use crate::error::Error;
use crate::message::{assigned, batch_size, Message, MessagePayload, MsgV};
use crate::offsets::OffsetKey;
use crate::partition::{batch_view, Partition, PartitionConfig, Persister};
use crate::permissioner::Permissioner;
use crate::stream::{topics_evicted, topics_flushed, Stream};
use crate::topic::Topic;
use crate::usage::{
    lemma_parts_bytes_elem_le, lemma_parts_bytes_nonneg, lemma_parts_bytes_update,
    lemma_streams_bytes_elem_le, lemma_streams_bytes_nonneg, lemma_streams_bytes_push,
    lemma_streams_bytes_remove, lemma_streams_bytes_update, lemma_topics_bytes_elem_le,
    lemma_topics_bytes_nonneg, lemma_topics_bytes_push, lemma_topics_bytes_remove,
    lemma_topics_bytes_update, parts_cache_bytes, streams_cache_bytes, topics_cache_bytes,
};

verus! {

/// Process-wide configuration, chosen once at startup.
#[derive(Clone, Copy, Debug, PartialEq, Eq, Structural)]
pub struct SystemConfig {
    /// Segment rollover thresholds handed to every partition.
    pub partition: PartitionConfig,
    /// Whether every write is followed by a synchronous flush.
    pub enforce_fsync: bool,
    /// The cache budget in bytes that periodic eviction defends.
    pub cache_budget: u64,
}

/// A caller's session, as established by the transport layer.
#[derive(Clone, Copy, Debug, PartialEq, Eq, Structural)]
pub struct Session {
    pub user_id: u32,
    pub authenticated: bool,
}

impl Session {
    /// A session carrying an identity the transport has already verified.
    pub fn stateless(user_id: u32) -> (r: Session)
        ensures
            r.user_id == user_id,
            r.authenticated,
    {
        Session { user_id, authenticated: true }
    }

    /// Whether the session has authenticated.
    pub fn is_authenticated(&self) -> (r: bool)
        ensures
            r == self.authenticated,
    {
        self.authenticated
    }
}

/// Whether some stream carries this identifier.
pub open spec fn has_sid(s: Seq<Stream>, id: u32) -> bool {
    exists|k: int| 0 <= k < s.len() && (#[trigger] s[k]).stream_id == id
}

/// The index of the stream with this identifier.
pub open spec fn sid_index(s: Seq<Stream>, id: u32) -> int {
    choose|k: int| 0 <= k < s.len() && (#[trigger] s[k]).stream_id == id
}

/// Whether some stream carries this name.
pub open spec fn has_sname(s: Seq<Stream>, name: Seq<char>) -> bool {
    exists|k: int| 0 <= k < s.len() && (#[trigger] s[k]).name@ == name
}

/// Whether some topic carries this identifier.
pub open spec fn has_tid(s: Seq<Topic>, id: u32) -> bool {
    exists|k: int| 0 <= k < s.len() && (#[trigger] s[k]).topic_id == id
}

/// The index of the topic with this identifier.
pub open spec fn tid_index(s: Seq<Topic>, id: u32) -> int {
    choose|k: int| 0 <= k < s.len() && (#[trigger] s[k]).topic_id == id
}

/// Whether some topic carries this name.
pub open spec fn has_tname(s: Seq<Topic>, name: Seq<char>) -> bool {
    exists|k: int| 0 <= k < s.len() && (#[trigger] s[k]).name@ == name
}

/// The partition an operation resolves to, if the whole path exists.
pub open spec fn lookup_partition(ss: Seq<Stream>, sid: u32, tid: u32, pid: u32) -> Option<
    Partition,
> {
    if !has_sid(ss, sid) {
        None
    } else {
        let st = ss[sid_index(ss, sid)];
        if !has_tid(st.topics@, tid) {
            None
        } else {
            let t = st.topics@[tid_index(st.topics@, tid)];
            if pid < t.partitions@.len() {
                Some(t.partitions@[pid as int])
            } else {
                None
            }
        }
    }
}

/// With unique identifiers, an index that carries the identifier is the
/// index the lookup resolves to.
pub proof fn lemma_sid_at(s: Seq<Stream>, i: int, id: u32)
    requires
        forall|a: int, b: int|
            0 <= a < b < s.len() ==> (#[trigger] s[a]).stream_id != (#[trigger] s[b]).stream_id,
        0 <= i < s.len(),
        s[i].stream_id == id,
    ensures
        has_sid(s, id),
        sid_index(s, id) == i,
{
    assert(has_sid(s, id));
    let j = sid_index(s, id);
    assert(0 <= j < s.len() && s[j].stream_id == id);
    if i < j {
        assert(s[i].stream_id != s[j].stream_id);
    } else if j < i {
        assert(s[j].stream_id != s[i].stream_id);
    }
}

/// The topic-level counterpart of `lemma_sid_at`.
pub proof fn lemma_tid_at(s: Seq<Topic>, i: int, id: u32)
    requires
        forall|a: int, b: int|
            0 <= a < b < s.len() ==> (#[trigger] s[a]).topic_id != (#[trigger] s[b]).topic_id,
        0 <= i < s.len(),
        s[i].topic_id == id,
    ensures
        has_tid(s, id),
        tid_index(s, id) == i,
{
    assert(has_tid(s, id));
    let j = tid_index(s, id);
    assert(0 <= j < s.len() && s[j].topic_id == id);
    if i < j {
        assert(s[i].topic_id != s[j].topic_id);
    } else if j < i {
        assert(s[j].topic_id != s[i].topic_id);
    }
}

/// Every stream of `b` is the one of `a` with all partitions flushed.
pub open spec fn streams_flushed(a: Seq<Stream>, b: Seq<Stream>) -> bool {
    &&& b.len() == a.len()
    &&& forall|k: int|
        0 <= k < a.len() ==> {
            &&& (#[trigger] b[k]).wf()
            &&& b[k].stream_id == a[k].stream_id
            &&& b[k].name == a[k].name
            &&& topics_flushed(a[k].topics@, b[k].topics@)
        }
}

/// Every stream of `b` is the one of `a` after one proportional eviction
/// pass.
pub open spec fn streams_evicted(a: Seq<Stream>, b: Seq<Stream>, total: int, to_clean: int)
    -> bool {
    &&& b.len() == a.len()
    &&& forall|k: int|
        0 <= k < a.len() ==> {
            &&& (#[trigger] b[k]).wf()
            &&& b[k].stream_id == a[k].stream_id
            &&& b[k].name == a[k].name
            &&& topics_evicted(a[k].topics@, b[k].topics@, total, to_clean)
        }
}

/// The storage engine.
#[derive(Debug)]
pub struct System {
    /// The authorization gate, consulted by the transport layer before
    /// every mutating call.
    pub permissioner: Permissioner,
    /// All streams, owned exclusively.
    pub streams: Vec<Stream>,
    /// The single shared counter of bytes held by all partition caches.
    pub tracker: MemoryTracker,
    /// The durability strategy, fixed at startup.
    pub persister: Persister,
    /// Process-wide configuration.
    pub config: SystemConfig,
}

impl System {
    /// The system invariant: every stream is well-formed, stream
    /// identifiers and names are unique, and the shared tracker counts
    /// exactly the bytes held by all partition caches.
    pub open spec fn wf(&self) -> bool {
        &&& forall|k: int| 0 <= k < self.streams@.len() ==> (#[trigger] self.streams@[k]).wf()
        &&& forall|a: int, b: int|
            0 <= a < b < self.streams@.len() ==> (#[trigger] self.streams@[a]).stream_id != (
            #[trigger] self.streams@[b]).stream_id
        &&& forall|a: int, b: int|
            0 <= a < b < self.streams@.len() ==> (#[trigger] self.streams@[a]).name@ != (
            #[trigger] self.streams@[b]).name@
        &&& self.permissioner.wf()
        &&& self.tracker.usage() == streams_cache_bytes(self.streams@)
    }

    /// Build an empty system from configuration: the persister strategy is
    /// chosen here, once, from the fsync setting.
    pub fn create(config: SystemConfig) -> (r: System)
        ensures
            r.wf(),
            r.streams@.len() == 0,
            r.config == config,
            r.tracker.usage() == 0,
            r.persister == (if config.enforce_fsync {
                Persister::FsyncOnWrite
            } else {
                Persister::Buffered
            }),
            forall|u: u32| #[trigger]
                r.permissioner.perms_of(u) == None::<crate::permissioner::GlobalPermissions>,
    {
        let persister = if config.enforce_fsync {
            Persister::FsyncOnWrite
        } else {
            Persister::Buffered
        };
        let r = System {
            permissioner: Permissioner::new(),
            streams: Vec::new(),
            tracker: MemoryTracker::new(),
            persister,
            config,
        };
        r
    }

    /// `create` under the name deployments construct the engine with.
    pub fn new(config: SystemConfig) -> (r: System)
        ensures
            r.wf(),
            r.streams@.len() == 0,
            r.config == config,
            r.tracker.usage() == 0,
            r.persister == (if config.enforce_fsync {
                Persister::FsyncOnWrite
            } else {
                Persister::Buffered
            }),
            forall|u: u32| #[trigger]
                r.permissioner.perms_of(u) == None::<crate::permissioner::GlobalPermissions>,
    {
        System::create(config)
    }

    /// Refuse a session that has not authenticated.
    pub fn ensure_authenticated(&self, session: &Session) -> (r: Result<(), Error>)
        ensures
            r == if session.authenticated {
                Ok::<(), Error>(())
            } else {
                Err::<(), Error>(Error::Unauthenticated)
            },
    {
        match session.is_authenticated() {
            true => Ok(()),
            false => Err(Error::Unauthenticated),
        }
    }

    /// The word a toggle prints as.
    pub fn map_toggle_str(enabled: bool) -> (r: &'static str)
        ensures
            enabled ==> r@ == "enabled"@,
            !enabled ==> r@ == "disabled"@,
    {
        match enabled {
            true => "enabled",
            false => "disabled",
        }
    }

    /// The index of the stream with this identifier, if any.
    pub fn find_stream(&self, stream_id: u32) -> (r: Option<usize>)
        ensures
            match r {
                Some(i) => i < self.streams@.len() && self.streams@[i as int].stream_id
                    == stream_id,
                None => !has_sid(self.streams@, stream_id),
            },
    {
        let n = self.streams.len();
        let mut i: usize = 0;
        while i < n
            invariant
                i <= n,
                n == self.streams@.len(),
                forall|k: int|
                    0 <= k < i ==> (#[trigger] self.streams@[k]).stream_id != stream_id,
            decreases n - i,
        {
            if self.streams[i].stream_id == stream_id {
                return Some(i);
            }
            i += 1;
        }
        None
    }

    /// Whether any stream carries this name.
    pub fn has_stream_named(&self, name: &String) -> (r: bool)
        ensures
            r == has_sname(self.streams@, name@),
    {
        let n = self.streams.len();
        let mut i: usize = 0;
        while i < n
            invariant
                i <= n,
                n == self.streams@.len(),
                forall|k: int| 0 <= k < i ==> (#[trigger] self.streams@[k]).name@ != name@,
            decreases n - i,
        {
            if self.streams[i].name == *name {
                return true;
            }
            i += 1;
        }
        false
    }

    /// Create a stream. Fails with `AlreadyExists` exactly when the
    /// identifier or the name is already taken.
    pub fn create_stream(&mut self, stream_id: u32, name: String) -> (r: Result<(), Error>)
        requires
            old(self).wf(),
        ensures
            final(self).wf(),
            final(self).tracker == old(self).tracker,
            final(self).permissioner == old(self).permissioner,
            final(self).config == old(self).config,
            final(self).persister == old(self).persister,
            match r {
                Ok(()) => {
                    &&& !has_sid(old(self).streams@, stream_id)
                    &&& !has_sname(old(self).streams@, name@)
                    &&& final(self).streams@.len() == old(self).streams@.len() + 1
                    &&& forall|k: int|
                        0 <= k < old(self).streams@.len() ==> #[trigger] final(self).streams@[k]
                            == old(self).streams@[k]
                    &&& final(self).streams@.last().stream_id == stream_id
                    &&& final(self).streams@.last().name@ == name@
                    &&& final(self).streams@.last().topics@.len() == 0
                },
                Err(e) => {
                    &&& e == Error::AlreadyExists
                    &&& (has_sid(old(self).streams@, stream_id) || has_sname(
                        old(self).streams@,
                        name@,
                    ))
                    &&& *final(self) == *old(self)
                },
            },
    {
        if let Some(_) = self.find_stream(stream_id) {
            proof {
                assert(has_sid(self.streams@, stream_id));
            }
            return Err(Error::AlreadyExists);
        }
        if self.has_stream_named(&name) {
            return Err(Error::AlreadyExists);
        }
        let ghost before = self.streams@;
        let st = Stream::create(stream_id, name);
        proof {
            lemma_streams_bytes_push(before, st);
            assert(topics_cache_bytes(st.topics@) == 0);
        }
        self.streams.push(st);
        Ok(())
    }

    /// Delete a stream with all its topics, partitions and cached data; the
    /// tracker releases whatever its caches held. Fails with `NotFound`
    /// exactly when no stream carries the identifier.
    pub fn delete_stream(&mut self, stream_id: u32) -> (r: Result<(), Error>)
        requires
            old(self).wf(),
        ensures
            final(self).wf(),
            final(self).permissioner == old(self).permissioner,
            final(self).config == old(self).config,
            final(self).persister == old(self).persister,
            match r {
                Ok(()) => {
                    &&& has_sid(old(self).streams@, stream_id)
                    &&& final(self).streams@ == old(self).streams@.remove(
                        sid_index(old(self).streams@, stream_id),
                    )
                },
                Err(e) => {
                    &&& e == Error::NotFound
                    &&& !has_sid(old(self).streams@, stream_id)
                    &&& *final(self) == *old(self)
                },
            },
    {
        let si = match self.find_stream(stream_id) {
            Some(si) => si,
            None => {
                return Err(Error::NotFound);
            },
        };
        proof {
            lemma_sid_at(self.streams@, si as int, stream_id);
            lemma_streams_bytes_elem_le(self.streams@, si as int);
            lemma_topics_bytes_nonneg(self.streams@[si as int].topics@);
            lemma_streams_bytes_nonneg(self.streams@);
        }
        let freed = stream_cached_bytes(&self.streams[si]);
        let ghost before = self.streams@;
        self.streams.remove(si);
        self.tracker.sub(freed);
        proof {
            lemma_streams_bytes_remove(before, si as int);
        }
        Ok(())
    }
}

impl System {
    /// Create a topic inside a stream. Fails with `NotFound` when the
    /// stream does not exist and with `AlreadyExists` when the topic
    /// identifier or name is taken within the stream.
    pub fn create_topic(
        &mut self,
        stream_id: u32,
        topic_id: u32,
        name: String,
        partitions_count: u32,
    ) -> (r: Result<(), Error>)
        requires
            old(self).wf(),
        ensures
            final(self).wf(),
            final(self).tracker == old(self).tracker,
            final(self).permissioner == old(self).permissioner,
            final(self).config == old(self).config,
            final(self).persister == old(self).persister,
            match r {
                Ok(()) => {
                    &&& has_sid(old(self).streams@, stream_id)
                    &&& {
                        let si = sid_index(old(self).streams@, stream_id);
                        let st0 = old(self).streams@[si];
                        let st1 = final(self).streams@[si];
                        &&& !has_tid(st0.topics@, topic_id)
                        &&& !has_tname(st0.topics@, name@)
                        &&& final(self).streams@.len() == old(self).streams@.len()
                        &&& forall|k: int|
                            0 <= k < old(self).streams@.len() && k != si ==> #[trigger] final(self).streams@[k] == old(self).streams@[k]
                        &&& st1.stream_id == st0.stream_id
                        &&& st1.name == st0.name
                        &&& st1.topics@.len() == st0.topics@.len() + 1
                        &&& forall|k: int|
                            0 <= k < st0.topics@.len() ==> #[trigger] st1.topics@[k]
                                == st0.topics@[k]
                        &&& st1.topics@.last().topic_id == topic_id
                        &&& st1.topics@.last().name@ == name@
                        &&& st1.topics@.last().partitions@.len() == partitions_count
                        &&& forall|k: int|
                            0 <= k < partitions_count ==> (
                            #[trigger] st1.topics@.last().partitions@[k]).next_offset == 0
                                && st1.topics@.last().partitions@[k].log() == Seq::<
                                MsgV,
                            >::empty()
                    }
                },
                Err(e) => {
                    &&& *final(self) == *old(self)
                    &&& (e == Error::NotFound <==> !has_sid(old(self).streams@, stream_id))
                    &&& (e == Error::NotFound || e == Error::AlreadyExists)
                    &&& (e == Error::AlreadyExists ==> {
                        let st0 = old(self).streams@[sid_index(old(self).streams@, stream_id)];
                        has_tid(st0.topics@, topic_id) || has_tname(st0.topics@, name@)
                    })
                },
            },
    {
        let si = match self.find_stream(stream_id) {
            Some(si) => si,
            None => {
                return Err(Error::NotFound);
            },
        };
        proof {
            lemma_sid_at(self.streams@, si as int, stream_id);
        }
        if let Some(_) = self.streams[si].find_topic(topic_id) {
            proof {
                assert(has_tid(self.streams@[si as int].topics@, topic_id));
            }
            return Err(Error::AlreadyExists);
        }
        if self.streams[si].has_topic_named(&name) {
            return Err(Error::AlreadyExists);
        }
        let topic = Topic::create(topic_id, name, partitions_count);
        proof {
            lemma_fresh_parts_bytes(topic.partitions@);
        }
        let ghost before = self.streams@;
        let ghost before_topics = self.streams@[si as int].topics@;
        let st = &mut self.streams[si];
        proof {
            lemma_topics_bytes_push(st.topics@, topic);
        }
        st.topics.push(topic);
        proof {
            lemma_streams_bytes_update(before, si as int, self.streams@[si as int]);
            lemma_stream_wf_topic_push(
                before[si as int],
                self.streams@[si as int],
                self.streams@[si as int].topics@.last(),
            );
            lemma_wf_after_stream_change(before, self.streams@, si as int);
        }
        Ok(())
    }

    /// Delete a topic with all its partitions and cached data. Fails with
    /// `NotFound` when the stream or the topic does not exist.
    pub fn delete_topic(&mut self, stream_id: u32, topic_id: u32) -> (r: Result<(), Error>)
        requires
            old(self).wf(),
        ensures
            final(self).wf(),
            final(self).permissioner == old(self).permissioner,
            final(self).config == old(self).config,
            final(self).persister == old(self).persister,
            match r {
                Ok(()) => {
                    &&& has_sid(old(self).streams@, stream_id)
                    &&& {
                        let si = sid_index(old(self).streams@, stream_id);
                        let st0 = old(self).streams@[si];
                        let st1 = final(self).streams@[si];
                        &&& has_tid(st0.topics@, topic_id)
                        &&& final(self).streams@.len() == old(self).streams@.len()
                        &&& forall|k: int|
                            0 <= k < old(self).streams@.len() && k != si ==> #[trigger] final(self).streams@[k] == old(self).streams@[k]
                        &&& st1.stream_id == st0.stream_id
                        &&& st1.name == st0.name
                        &&& st1.topics@ == st0.topics@.remove(tid_index(st0.topics@, topic_id))
                    }
                },
                Err(e) => {
                    &&& e == Error::NotFound
                    &&& !(has_sid(old(self).streams@, stream_id) && has_tid(
                        old(self).streams@[sid_index(old(self).streams@, stream_id)].topics@,
                        topic_id,
                    ))
                    &&& *final(self) == *old(self)
                },
            },
    {
        let si = match self.find_stream(stream_id) {
            Some(si) => si,
            None => {
                return Err(Error::NotFound);
            },
        };
        proof {
            lemma_sid_at(self.streams@, si as int, stream_id);
        }
        let ti = match self.streams[si].find_topic(topic_id) {
            Some(ti) => ti,
            None => {
                return Err(Error::NotFound);
            },
        };
        proof {
            lemma_tid_at(self.streams@[si as int].topics@, ti as int, topic_id);
            lemma_streams_bytes_elem_le(self.streams@, si as int);
            lemma_topics_bytes_elem_le(self.streams@[si as int].topics@, ti as int);
            lemma_parts_bytes_nonneg(self.streams@[si as int].topics@[ti as int].partitions@);
            lemma_streams_bytes_nonneg(self.streams@);
            lemma_topics_bytes_nonneg(self.streams@[si as int].topics@);
        }
        let freed = topic_cached_bytes(&self.streams[si].topics[ti]);
        let ghost before = self.streams@;
        let ghost before_topics = self.streams@[si as int].topics@;
        let st = &mut self.streams[si];
        st.topics.remove(ti);
        self.tracker.sub(freed);
        proof {
            lemma_topics_bytes_remove(before_topics, ti as int);
            lemma_streams_bytes_update(before, si as int, self.streams@[si as int]);
            lemma_stream_wf_topic_remove(before[si as int], self.streams@[si as int], ti as int);
            lemma_wf_after_stream_change(before, self.streams@, si as int);
        }
        Ok(())
    }

    /// Add partitions to a topic. Fails with `NotFound` when the stream or
    /// topic does not exist.
    pub fn create_partitions(&mut self, stream_id: u32, topic_id: u32, count: u32) -> (r: Result<
        (),
        Error,
    >)
        requires
            old(self).wf(),
        ensures
            final(self).wf(),
            final(self).tracker == old(self).tracker,
            final(self).permissioner == old(self).permissioner,
            final(self).config == old(self).config,
            final(self).persister == old(self).persister,
            match r {
                Ok(()) => {
                    &&& has_sid(old(self).streams@, stream_id)
                    &&& {
                        let si = sid_index(old(self).streams@, stream_id);
                        let st0 = old(self).streams@[si];
                        let st1 = final(self).streams@[si];
                        &&& has_tid(st0.topics@, topic_id)
                        &&& {
                            let ti = tid_index(st0.topics@, topic_id);
                            let t0 = st0.topics@[ti];
                            let t1 = st1.topics@[ti];
                            &&& t0.partitions@.len() + count <= u32::MAX
                            &&& final(self).streams@.len() == old(self).streams@.len()
                            &&& forall|k: int|
                                0 <= k < old(self).streams@.len() && k != si ==> #[trigger] final(self).streams@[k] == old(self).streams@[k]
                            &&& st1.stream_id == st0.stream_id
                            &&& st1.name == st0.name
                            &&& st1.topics@.len() == st0.topics@.len()
                            &&& forall|k: int|
                                0 <= k < st0.topics@.len() && k != ti ==> #[trigger] st1.topics@[k]
                                    == st0.topics@[k]
                            &&& t1.topic_id == t0.topic_id
                            &&& t1.name == t0.name
                            &&& t1.offsets == t0.offsets
                            &&& t1.partitions@.len() == t0.partitions@.len() + count
                            &&& forall|k: int|
                                0 <= k < t0.partitions@.len() ==> #[trigger] t1.partitions@[k]
                                    == t0.partitions@[k]
                            &&& forall|k: int|
                                t0.partitions@.len() <= k < t1.partitions@.len() ==> (
                                #[trigger] t1.partitions@[k]).next_offset == 0
                                    && t1.partitions@[k].log() == Seq::<MsgV>::empty()
                        }
                    }
                },
                Err(e) => {
                    &&& *final(self) == *old(self)
                    &&& (e == Error::NotFound <==> !(has_sid(old(self).streams@, stream_id)
                        && has_tid(
                        old(self).streams@[sid_index(old(self).streams@, stream_id)].topics@,
                        topic_id,
                    )))
                    &&& (e == Error::OffsetOutOfRange <==> (has_sid(old(self).streams@, stream_id)
                        && has_tid(
                        old(self).streams@[sid_index(old(self).streams@, stream_id)].topics@,
                        topic_id,
                    ) && old(self).streams@[sid_index(old(self).streams@, stream_id)].topics@[
                        tid_index(
                            old(self).streams@[sid_index(old(self).streams@, stream_id)].topics@,
                            topic_id,
                        )].partitions@.len() + count > u32::MAX))
                    &&& (e == Error::NotFound || e == Error::OffsetOutOfRange)
                },
            },
    {
        let si = match self.find_stream(stream_id) {
            Some(si) => si,
            None => {
                return Err(Error::NotFound);
            },
        };
        proof {
            lemma_sid_at(self.streams@, si as int, stream_id);
        }
        let ti = match self.streams[si].find_topic(topic_id) {
            Some(ti) => ti,
            None => {
                return Err(Error::NotFound);
            },
        };
        proof {
            lemma_tid_at(self.streams@[si as int].topics@, ti as int, topic_id);
        }
        let cur = self.streams[si].topics[ti].partitions.len();
        if count as usize > u32::MAX as usize - cur {
            return Err(Error::OffsetOutOfRange);
        }
        let ghost before = self.streams@;
        let ghost before_topics = self.streams@[si as int].topics@;
        let ghost before_parts = self.streams@[si as int].topics@[ti as int].partitions@;
        let t = &mut self.streams[si].topics[ti];
        t.add_partitions(count);
        proof {
            lemma_fresh_suffix_bytes(before_parts, self.streams@[si as int].topics@[ti
                as int].partitions@);
            lemma_topics_bytes_update(before_topics, ti as int, self.streams@[si
                as int].topics@[ti as int]);
            lemma_streams_bytes_update(before, si as int, self.streams@[si as int]);
            lemma_stream_wf_topic_update(before[si as int], self.streams@[si as int], ti as int);
            lemma_wf_after_stream_change(before, self.streams@, si as int);
        }
        Ok(())
    }

    /// Remove the newest `count` partitions of a topic, with their data;
    /// the tracker releases what their caches held. Fails with `NotFound`
    /// when the stream or topic does not exist.
    pub fn delete_partitions(&mut self, stream_id: u32, topic_id: u32, count: u32) -> (r: Result<
        (),
        Error,
    >)
        requires
            old(self).wf(),
        ensures
            final(self).wf(),
            final(self).permissioner == old(self).permissioner,
            final(self).config == old(self).config,
            final(self).persister == old(self).persister,
            match r {
                Ok(()) => {
                    &&& has_sid(old(self).streams@, stream_id)
                    &&& {
                        let si = sid_index(old(self).streams@, stream_id);
                        let st0 = old(self).streams@[si];
                        let st1 = final(self).streams@[si];
                        &&& has_tid(st0.topics@, topic_id)
                        &&& {
                            let ti = tid_index(st0.topics@, topic_id);
                            let t0 = st0.topics@[ti];
                            let t1 = st1.topics@[ti];
                            &&& final(self).streams@.len() == old(self).streams@.len()
                            &&& forall|k: int|
                                0 <= k < old(self).streams@.len() && k != si ==> #[trigger] final(self).streams@[k] == old(self).streams@[k]
                            &&& st1.stream_id == st0.stream_id
                            &&& st1.name == st0.name
                            &&& st1.topics@.len() == st0.topics@.len()
                            &&& forall|k: int|
                                0 <= k < st0.topics@.len() && k != ti ==> #[trigger] st1.topics@[k]
                                    == st0.topics@[k]
                            &&& t1.topic_id == t0.topic_id
                            &&& t1.name == t0.name
                            &&& t1.offsets == t0.offsets
                            &&& t1.partitions@ == t0.partitions@.take(
                                if count as int <= t0.partitions@.len() {
                                    t0.partitions@.len() - count as int
                                } else {
                                    0
                                },
                            )
                        }
                    }
                },
                Err(e) => {
                    &&& e == Error::NotFound
                    &&& !(has_sid(old(self).streams@, stream_id) && has_tid(
                        old(self).streams@[sid_index(old(self).streams@, stream_id)].topics@,
                        topic_id,
                    ))
                    &&& *final(self) == *old(self)
                },
            },
    {
        let si = match self.find_stream(stream_id) {
            Some(si) => si,
            None => {
                return Err(Error::NotFound);
            },
        };
        proof {
            lemma_sid_at(self.streams@, si as int, stream_id);
        }
        let ti = match self.streams[si].find_topic(topic_id) {
            Some(ti) => ti,
            None => {
                return Err(Error::NotFound);
            },
        };
        proof {
            lemma_tid_at(self.streams@[si as int].topics@, ti as int, topic_id);
            lemma_streams_bytes_elem_le(self.streams@, si as int);
            lemma_topics_bytes_elem_le(self.streams@[si as int].topics@, ti as int);
            lemma_streams_bytes_nonneg(self.streams@);
            lemma_topics_bytes_nonneg(self.streams@[si as int].topics@);
            lemma_parts_bytes_nonneg(self.streams@[si as int].topics@[ti as int].partitions@);
        }
        let len = self.streams[si].topics[ti].partitions.len();
        let keep: usize = if (count as usize) <= len {
            len - count as usize
        } else {
            0
        };
        let ghost before = self.streams@;
        let ghost before_topics = self.streams@[si as int].topics@;
        let ghost before_parts = self.streams@[si as int].topics@[ti as int].partitions@;
        let freed = removed_parts_bytes(&self.streams[si].topics[ti], keep);
        let t = &mut self.streams[si].topics[ti];
        t.remove_partitions(count);
        proof {
            crate::usage::lemma_parts_bytes_take_skip(before_parts, keep as int);
            lemma_parts_bytes_nonneg(before_parts.take(keep as int));
        }
        self.tracker.sub(freed);
        proof {
            lemma_topics_bytes_update(before_topics, ti as int, self.streams@[si
                as int].topics@[ti as int]);
            lemma_streams_bytes_update(before, si as int, self.streams@[si as int]);
            lemma_stream_wf_topic_update(before[si as int], self.streams@[si as int], ti as int);
            lemma_wf_after_stream_change(before, self.streams@, si as int);
        }
        Ok(())
    }
}

impl System {
    /// Append a batch to one partition, resolved by identifiers. The
    /// partition assigns strictly increasing offsets from its `next_offset`
    /// and the tracker accounts the cached bytes. `persist_ok` is the
    /// outcome of the underlying store's write: on failure nothing advances
    /// and `WriteFailed` is returned.
    pub fn append(
        &mut self,
        stream_id: u32,
        topic_id: u32,
        partition_id: u32,
        batch: &Vec<MessagePayload>,
        timestamp: u64,
        persist_ok: bool,
    ) -> (r: Result<(u64, u64), Error>)
        requires
            old(self).wf(),
            match lookup_partition(old(self).streams@, stream_id, topic_id, partition_id) {
                Some(p) => {
                    &&& p.next_offset + batch@.len() <= u64::MAX
                    &&& p.cache.size() + batch_size(batch_view(batch@)) <= u64::MAX
                    &&& old(self).tracker.usage() + batch_size(batch_view(batch@)) <= u64::MAX
                },
                None => true,
            },
        ensures
            final(self).wf(),
            final(self).permissioner == old(self).permissioner,
            final(self).config == old(self).config,
            final(self).persister == old(self).persister,
            match r {
                Ok(range) => {
                    &&& lookup_partition(old(self).streams@, stream_id, topic_id, partition_id)
                        is Some
                    &&& persist_ok
                    &&& {
                        let si = sid_index(old(self).streams@, stream_id);
                        let ti = tid_index(old(self).streams@[si].topics@, topic_id);
                        let p0 = old(self).streams@[si].topics@[ti].partitions@[partition_id
                            as int];
                        let p1 = final(self).streams@[si].topics@[ti].partitions@[partition_id
                            as int];
                        let asg = assigned(batch_view(batch@), p0.next_offset as int, timestamp);
                        &&& range == (p0.next_offset, (p0.next_offset + batch@.len()) as u64)
                        &&& p1.log() == p0.log() + asg
                        &&& p1.next_offset == p0.next_offset + batch@.len()
                        &&& p1.cache.view_msgs() == p0.cache.view_msgs() + asg
                        &&& (old(self).persister is FsyncOnWrite ==> p1.durable() == p1.log())
                        &&& (old(self).persister is Buffered ==> p1.durable() == p0.durable())
                        &&& final(self).tracker.usage() == old(self).tracker.usage() + batch_size(
                            batch_view(batch@),
                        )
                        &&& final(self).streams@.len() == old(self).streams@.len()
                        &&& forall|k: int|
                            0 <= k < old(self).streams@.len() && k != si ==> #[trigger] final(self).streams@[k] == old(self).streams@[k]
                        &&& final(self).streams@[si].stream_id == old(self).streams@[
                            si].stream_id
                        &&& final(self).streams@[si].name == old(self).streams@[si].name
                        &&& final(self).streams@[si].topics@.len() == old(self).streams@[
                            si].topics@.len()
                        &&& forall|k: int|
                            0 <= k < old(self).streams@[si].topics@.len() && k != ti
                                ==> #[trigger] final(self).streams@[si].topics@[k] == old(self).streams@[si].topics@[k]
                        &&& final(self).streams@[si].topics@[ti].topic_id == old(self).streams@[si].topics@[ti].topic_id
                        &&& final(self).streams@[si].topics@[ti].name == old(self).streams@[
                            si].topics@[ti].name
                        &&& final(self).streams@[si].topics@[ti].offsets == old(self).streams@[
                            si].topics@[ti].offsets
                        &&& final(self).streams@[si].topics@[ti].partitions@.len() == old(self).streams@[si].topics@[ti].partitions@.len()
                        &&& forall|k: int|
                            0 <= k < old(self).streams@[si].topics@[ti].partitions@.len() && k
                                != partition_id as int ==> #[trigger] final(self).streams@[si].topics@[ti].partitions@[k] == old(self).streams@[si].topics@[ti].partitions@[k]
                    }
                },
                Err(e) => {
                    &&& *final(self) == *old(self)
                    &&& (e == Error::NotFound <==> lookup_partition(
                        old(self).streams@,
                        stream_id,
                        topic_id,
                        partition_id,
                    ) is None)
                    &&& (e == Error::WriteFailed <==> lookup_partition(
                        old(self).streams@,
                        stream_id,
                        topic_id,
                        partition_id,
                    ) is Some && !persist_ok)
                    &&& (e == Error::NotFound || e == Error::WriteFailed)
                },
            },
    {
        let persister = self.persister;
        let config = self.config.partition;
        let si = match self.find_stream(stream_id) {
            Some(si) => si,
            None => {
                return Err(Error::NotFound);
            },
        };
        proof {
            lemma_sid_at(self.streams@, si as int, stream_id);
        }
        let ti = match self.streams[si].find_topic(topic_id) {
            Some(ti) => ti,
            None => {
                return Err(Error::NotFound);
            },
        };
        proof {
            lemma_tid_at(self.streams@[si as int].topics@, ti as int, topic_id);
        }
        if partition_id as usize >= self.streams[si].topics[ti].partitions.len() {
            return Err(Error::NotFound);
        }
        if !persist_ok {
            return Err(Error::WriteFailed);
        }
        let pid = partition_id as usize;
        let ghost before = self.streams@;
        let ghost before_topics = self.streams@[si as int].topics@;
        let ghost before_parts = self.streams@[si as int].topics@[ti as int].partitions@;
        let tracker = &mut self.tracker;
        let p = &mut self.streams[si].topics[ti].partitions[pid];
        let r = p.append(batch, timestamp, persister, &config, true, tracker);
        proof {
            lemma_parts_bytes_update(before_parts, pid as int, self.streams@[si
                as int].topics@[ti as int].partitions@[pid as int]);
            lemma_topics_bytes_update(before_topics, ti as int, self.streams@[si
                as int].topics@[ti as int]);
            lemma_streams_bytes_update(before, si as int, self.streams@[si as int]);
            lemma_wf_after_partition_change(before, self.streams@, si as int, ti as int, pid
                as int);
        }
        r
    }

    /// Read a range of messages from one partition, resolved by
    /// identifiers. Out-of-range reads fail with `OffsetOutOfRange`; an
    /// unknown path fails with `NotFound`.
    pub fn read(
        &self,
        stream_id: u32,
        topic_id: u32,
        partition_id: u32,
        start: u64,
        count: u64,
    ) -> (r: Result<Vec<Message>, Error>)
        requires
            self.wf(),
        ensures
            match lookup_partition(self.streams@, stream_id, topic_id, partition_id) {
                None => r == Err::<Vec<Message>, Error>(Error::NotFound),
                Some(p) => match r {
                    Ok(v) => Some(crate::message::msgs_view(v@)) == p.read_spec(start, count),
                    Err(e) => e == Error::OffsetOutOfRange && !p.can_read(start, count),
                },
            },
    {
        let si = match self.find_stream(stream_id) {
            Some(si) => si,
            None => {
                return Err(Error::NotFound);
            },
        };
        proof {
            lemma_sid_at(self.streams@, si as int, stream_id);
        }
        let ti = match self.streams[si].find_topic(topic_id) {
            Some(ti) => ti,
            None => {
                return Err(Error::NotFound);
            },
        };
        proof {
            lemma_tid_at(self.streams@[si as int].topics@, ti as int, topic_id);
        }
        if partition_id as usize >= self.streams[si].topics[ti].partitions.len() {
            return Err(Error::NotFound);
        }
        self.streams[si].topics[ti].partitions[partition_id as usize].read(start, count)
    }

    /// Store a consumer's offset for one partition: idempotent,
    /// last-write-wins. A committed offset may never exceed the partition's
    /// `next_offset`; anything beyond it is rejected with `OffsetOutOfRange`
    /// rather than clamped. An unknown path fails with `NotFound`.
    pub fn store_offset(
        &mut self,
        group: bool,
        consumer_id: u32,
        stream_id: u32,
        topic_id: u32,
        partition_id: u32,
        offset: u64,
    ) -> (r: Result<(), Error>)
        requires
            old(self).wf(),
        ensures
            final(self).wf(),
            final(self).tracker == old(self).tracker,
            final(self).permissioner == old(self).permissioner,
            final(self).config == old(self).config,
            final(self).persister == old(self).persister,
            match r {
                Ok(()) => {
                    &&& lookup_partition(old(self).streams@, stream_id, topic_id, partition_id)
                        matches Some(p) && offset <= p.next_offset
                    &&& {
                        let si = sid_index(old(self).streams@, stream_id);
                        let ti = tid_index(old(self).streams@[si].topics@, topic_id);
                        let key = OffsetKey { group, consumer_id, partition_id };
                        let t0 = old(self).streams@[si].topics@[ti];
                        let t1 = final(self).streams@[si].topics@[ti];
                        &&& final(self).streams@.len() == old(self).streams@.len()
                        &&& forall|k: int|
                            0 <= k < old(self).streams@.len() && k != si ==> #[trigger] final(self).streams@[k] == old(self).streams@[k]
                        &&& final(self).streams@[si].stream_id == old(self).streams@[
                            si].stream_id
                        &&& final(self).streams@[si].name == old(self).streams@[si].name
                        &&& final(self).streams@[si].topics@.len() == old(self).streams@[
                            si].topics@.len()
                        &&& forall|k: int|
                            0 <= k < old(self).streams@[si].topics@.len() && k != ti
                                ==> #[trigger] final(self).streams@[si].topics@[k] == old(self).streams@[si].topics@[k]
                        &&& t1.topic_id == t0.topic_id
                        &&& t1.name == t0.name
                        &&& t1.partitions == t0.partitions
                        &&& t1.offsets.stored(key) == Some(offset)
                        &&& forall|k2: OffsetKey|
                            k2 != key ==> #[trigger] t1.offsets.stored(k2) == t0.offsets.stored(
                                k2,
                            )
                    }
                },
                Err(e) => {
                    &&& *final(self) == *old(self)
                    &&& (e == Error::NotFound <==> lookup_partition(
                        old(self).streams@,
                        stream_id,
                        topic_id,
                        partition_id,
                    ) is None)
                    &&& (e == Error::OffsetOutOfRange <==> (lookup_partition(
                        old(self).streams@,
                        stream_id,
                        topic_id,
                        partition_id,
                    ) matches Some(p) && offset > p.next_offset))
                    &&& (e == Error::NotFound || e == Error::OffsetOutOfRange)
                },
            },
    {
        let si = match self.find_stream(stream_id) {
            Some(si) => si,
            None => {
                return Err(Error::NotFound);
            },
        };
        proof {
            lemma_sid_at(self.streams@, si as int, stream_id);
        }
        let ti = match self.streams[si].find_topic(topic_id) {
            Some(ti) => ti,
            None => {
                return Err(Error::NotFound);
            },
        };
        proof {
            lemma_tid_at(self.streams@[si as int].topics@, ti as int, topic_id);
        }
        if partition_id as usize >= self.streams[si].topics[ti].partitions.len() {
            return Err(Error::NotFound);
        }
        if offset > self.streams[si].topics[ti].partitions[partition_id as usize].current_next_offset() {
            return Err(Error::OffsetOutOfRange);
        }
        let key = OffsetKey { group, consumer_id, partition_id };
        let ghost before = self.streams@;
        let ghost before_topics = self.streams@[si as int].topics@;
        let t = &mut self.streams[si].topics[ti];
        t.offsets.store(key, offset);
        proof {
            lemma_topics_bytes_update(before_topics, ti as int, self.streams@[si
                as int].topics@[ti as int]);
            lemma_streams_bytes_update(before, si as int, self.streams@[si as int]);
            lemma_wf_after_topic_change(before, self.streams@, si as int, ti as int);
        }
        Ok(())
    }

    /// What a consumer committed for one partition, if anything. An unknown
    /// path fails with `NotFound`; an absent commit is `Ok(None)`.
    pub fn get_offset(
        &self,
        group: bool,
        consumer_id: u32,
        stream_id: u32,
        topic_id: u32,
        partition_id: u32,
    ) -> (r: Result<Option<u64>, Error>)
        requires
            self.wf(),
        ensures
            match lookup_partition(self.streams@, stream_id, topic_id, partition_id) {
                None => r == Err::<Option<u64>, Error>(Error::NotFound),
                Some(_) => {
                    let si = sid_index(self.streams@, stream_id);
                    let ti = tid_index(self.streams@[si].topics@, topic_id);
                    let key = OffsetKey { group, consumer_id, partition_id };
                    r == Ok::<Option<u64>, Error>(
                        self.streams@[si].topics@[ti].offsets.stored(key),
                    )
                },
            },
    {
        let si = match self.find_stream(stream_id) {
            Some(si) => si,
            None => {
                return Err(Error::NotFound);
            },
        };
        proof {
            lemma_sid_at(self.streams@, si as int, stream_id);
        }
        let ti = match self.streams[si].find_topic(topic_id) {
            Some(ti) => ti,
            None => {
                return Err(Error::NotFound);
            },
        };
        proof {
            lemma_tid_at(self.streams@[si as int].topics@, ti as int, topic_id);
        }
        if partition_id as usize >= self.streams[si].topics[ti].partitions.len() {
            return Err(Error::NotFound);
        }
        let key = OffsetKey { group, consumer_id, partition_id };
        Ok(self.streams[si].topics[ti].offsets.get(key))
    }

    /// Flush every partition's buffered messages to its durable segments:
    /// the graceful shutdown path. `persist_ok` is the outcome of the
    /// underlying store's writes; on failure nothing changes.
    pub fn persist_messages(&mut self, persist_ok: bool) -> (r: Result<(), Error>)
        requires
            old(self).wf(),
        ensures
            final(self).wf(),
            final(self).permissioner == old(self).permissioner,
            final(self).config == old(self).config,
            final(self).persister == old(self).persister,
            !persist_ok ==> r == Err::<(), Error>(Error::WriteFailed) && *final(self) == *old(self),
            persist_ok ==> {
                &&& r == Ok::<(), Error>(())
                &&& streams_flushed(old(self).streams@, final(self).streams@)
                &&& final(self).tracker == old(self).tracker
            },
    {
        if !persist_ok {
            return Err(Error::WriteFailed);
        }
        let config = self.config.partition;
        let n = self.streams.len();
        let mut si: usize = 0;
        while si < n
            invariant
                si <= n,
                n == self.streams@.len(),
                n == old(self).streams@.len(),
                old(self).wf(),
                self.permissioner == old(self).permissioner,
                self.config == old(self).config,
                self.persister == old(self).persister,
                self.tracker == old(self).tracker,
                config == old(self).config.partition,
                self.streams@.len() == n,
                forall|k: int|
                    si <= k < n ==> #[trigger] self.streams@[k] == old(self).streams@[k],
                forall|k: int|
                    0 <= k < si ==> {
                        &&& (#[trigger] self.streams@[k]).wf()
                        &&& self.streams@[k].stream_id == old(self).streams@[k].stream_id
                        &&& self.streams@[k].name == old(self).streams@[k].name
                        &&& topics_flushed(old(self).streams@[k].topics@, self.streams@[k].topics@)
                    },
                streams_cache_bytes(self.streams@) == streams_cache_bytes(old(self).streams@),
            decreases n - si,
        {
            let ghost before = self.streams@;
            proof {
                assert(self.streams@[si as int] == old(self).streams@[si as int]);
                assert(old(self).streams@[si as int].wf());
            }
            let st = &mut self.streams[si];
            st.persist_all(&config);
            proof {
                lemma_streams_bytes_update(before, si as int, self.streams@[si as int]);
            }
            si += 1;
        }
        proof {
            lemma_ids_names_stable(old(self).streams@, self.streams@);
        }
        Ok(())
    }

    /// Graceful shutdown: flush everything buffered, then stop.
    pub fn shutdown(&mut self, persist_ok: bool) -> (r: Result<(), Error>)
        requires
            old(self).wf(),
        ensures
            final(self).wf(),
            !persist_ok ==> r == Err::<(), Error>(Error::WriteFailed) && *final(self) == *old(self),
            persist_ok ==> r == Ok::<(), Error>(()) && streams_flushed(
                old(self).streams@,
                final(self).streams@,
            ),
    {
        self.persist_messages(persist_ok)
    }

    /// One eviction pass over every partition of the process, triggered
    /// when total usage exceeds the budget: each partition sheds its share
    /// of `size_to_clean` in proportion to its part of the total tracked
    /// usage, times the over-eviction factor. Eviction only ever removes
    /// cache entries whose durable copy exists.
    pub fn clean_cache(&mut self, size_to_clean: u64)
        requires
            old(self).wf(),
        ensures
            final(self).wf(),
            final(self).permissioner == old(self).permissioner,
            final(self).config == old(self).config,
            final(self).persister == old(self).persister,
            old(self).tracker.usage() == 0 ==> *final(self) == *old(self),
            old(self).tracker.usage() > 0 ==> streams_evicted(
                old(self).streams@,
                final(self).streams@,
                old(self).tracker.usage(),
                if size_to_clean <= old(self).tracker.usage() {
                    size_to_clean as int
                } else {
                    old(self).tracker.usage()
                },
            ),
            final(self).tracker.usage() <= old(self).tracker.usage(),
    {
        let total = self.tracker.usage_bytes();
        if total == 0 {
            return ;
        }
        let to_clean = if size_to_clean <= total {
            size_to_clean
        } else {
            total
        };
        let n = self.streams.len();
        let mut si: usize = 0;
        while si < n
            invariant
                si <= n,
                n == self.streams@.len(),
                n == old(self).streams@.len(),
                old(self).wf(),
                total == old(self).tracker.usage(),
                total > 0,
                to_clean <= total,
                self.permissioner == old(self).permissioner,
                self.config == old(self).config,
                self.persister == old(self).persister,
                self.streams@.len() == n,
                forall|k: int|
                    si <= k < n ==> #[trigger] self.streams@[k] == old(self).streams@[k],
                forall|k: int|
                    0 <= k < si ==> {
                        &&& (#[trigger] self.streams@[k]).wf()
                        &&& self.streams@[k].stream_id == old(self).streams@[k].stream_id
                        &&& self.streams@[k].name == old(self).streams@[k].name
                        &&& topics_evicted(
                            old(self).streams@[k].topics@,
                            self.streams@[k].topics@,
                            total as int,
                            to_clean as int,
                        )
                    },
                streams_cache_bytes(self.streams@) <= self.tracker.usage(),
                self.tracker.usage() == streams_cache_bytes(self.streams@),
                self.tracker.usage() <= total,
            decreases n - si,
        {
            let ghost before = self.streams@;
            proof {
                lemma_streams_bytes_elem_le(before, si as int);
                assert(self.streams@[si as int] == old(self).streams@[si as int]);
                assert(old(self).streams@[si as int].wf());
                assert forall|t: int, k: int|
                    0 <= t < self.streams@[si as int].topics@.len() && 0 <= k < self.streams@[si
                        as int].topics@[t].partitions@.len() implies (#[trigger] self.streams@[si
                    as int].topics@[t].partitions@[k]).cache.size() <= total by {
                    lemma_parts_bytes_elem_le(self.streams@[si as int].topics@[t].partitions@, k);
                    lemma_topics_bytes_elem_le(self.streams@[si as int].topics@, t);
                    lemma_streams_bytes_elem_le(old(self).streams@, si as int);
                }
            }
            let tracker = &mut self.tracker;
            let st = &mut self.streams[si];
            st.clean_cache(total, to_clean, tracker);
            proof {
                lemma_streams_bytes_update(before, si as int, self.streams@[si as int]);
            }
            si += 1;
        }
        proof {
            lemma_ids_names_stable(old(self).streams@, self.streams@);
        }
    }
}

/// A stream with one more topic — well-formed, carrying an identifier and
/// a name no existing topic has — is still well-formed.
proof fn lemma_stream_wf_topic_push(s0: Stream, s1: Stream, t: Topic)
    requires
        s0.wf(),
        t.wf(),
        forall|k: int|
            0 <= k < s0.topics@.len() ==> (#[trigger] s0.topics@[k]).topic_id != t.topic_id,
        forall|k: int| 0 <= k < s0.topics@.len() ==> (#[trigger] s0.topics@[k]).name@ != t.name@,
        s1.topics@ == s0.topics@.push(t),
    ensures
        s1.wf(),
{
    assert forall|j: int| 0 <= j < s1.topics@.len() implies (#[trigger] s1.topics@[j]).wf() by {
        if j < s0.topics@.len() {
            assert(s1.topics@[j] == s0.topics@[j]);
        }
    }
    assert forall|i: int, j: int| 0 <= i < j < s1.topics@.len() implies (
    #[trigger] s1.topics@[i]).topic_id != (#[trigger] s1.topics@[j]).topic_id && s1.topics@[i].name@
        != s1.topics@[j].name@ by {
        if j < s0.topics@.len() {
            assert(s1.topics@[i] == s0.topics@[i]);
            assert(s1.topics@[j] == s0.topics@[j]);
        } else {
            assert(s1.topics@[i] == s0.topics@[i]);
            assert(s1.topics@[j] == t);
        }
    }
}

/// A stream with one topic removed is still well-formed.
proof fn lemma_stream_wf_topic_remove(s0: Stream, s1: Stream, ti: int)
    requires
        s0.wf(),
        0 <= ti < s0.topics@.len(),
        s1.topics@ == s0.topics@.remove(ti),
    ensures
        s1.wf(),
{
    assert(forall|j: int|
        0 <= j < s1.topics@.len() ==> #[trigger] s1.topics@[j] == (if j < ti {
            s0.topics@[j]
        } else {
            s0.topics@[j + 1]
        }));
}

/// A stream whose topics changed at one index — the topic still well-formed,
/// its identifier and name kept — is still well-formed.
proof fn lemma_stream_wf_topic_update(s0: Stream, s1: Stream, ti: int)
    requires
        s0.wf(),
        0 <= ti < s0.topics@.len(),
        s1.topics@.len() == s0.topics@.len(),
        forall|k: int| 0 <= k < s0.topics@.len() && k != ti ==> #[trigger] s1.topics@[k]
            == s0.topics@[k],
        s1.topics@[ti].wf(),
        s1.topics@[ti].topic_id == s0.topics@[ti].topic_id,
        s1.topics@[ti].name == s0.topics@[ti].name,
    ensures
        s1.wf(),
{
    assert forall|j: int| 0 <= j < s1.topics@.len() implies (#[trigger] s1.topics@[j]).wf() by {
        if j != ti {
            assert(s1.topics@[j] == s0.topics@[j]);
        }
    }
    assert forall|i: int, j: int| 0 <= i < j < s1.topics@.len() implies (
    #[trigger] s1.topics@[i]).topic_id != (#[trigger] s1.topics@[j]).topic_id && s1.topics@[i].name@
        != s1.topics@[j].name@ by {
        assert(s1.topics@[i].topic_id == s0.topics@[i].topic_id);
        assert(s1.topics@[j].topic_id == s0.topics@[j].topic_id);
        assert(s1.topics@[i].name == s0.topics@[i].name);
        assert(s1.topics@[j].name == s0.topics@[j].name);
    }
}

/// Replacing one stream — still well-formed, identifier and name kept —
/// keeps the structural parts of the system invariant.
proof fn lemma_wf_after_stream_change(a: Seq<Stream>, b: Seq<Stream>, si: int)
    requires
        forall|k: int| 0 <= k < a.len() ==> (#[trigger] a[k]).wf(),
        forall|x: int, y: int|
            0 <= x < y < a.len() ==> (#[trigger] a[x]).stream_id != (#[trigger] a[y]).stream_id,
        forall|x: int, y: int|
            0 <= x < y < a.len() ==> (#[trigger] a[x]).name@ != (#[trigger] a[y]).name@,
        0 <= si < a.len(),
        b.len() == a.len(),
        forall|k: int| 0 <= k < a.len() && k != si ==> #[trigger] b[k] == a[k],
        b[si].wf(),
        b[si].stream_id == a[si].stream_id,
        b[si].name == a[si].name,
    ensures
        forall|k: int| 0 <= k < b.len() ==> (#[trigger] b[k]).wf(),
        forall|x: int, y: int|
            0 <= x < y < b.len() ==> (#[trigger] b[x]).stream_id != (#[trigger] b[y]).stream_id,
        forall|x: int, y: int|
            0 <= x < y < b.len() ==> (#[trigger] b[x]).name@ != (#[trigger] b[y]).name@,
{
    assert forall|k: int| 0 <= k < b.len() implies (#[trigger] b[k]).wf() by {
        if k != si {
            assert(b[k] == a[k]);
        }
    }
    assert forall|x: int, y: int| 0 <= x < y < b.len() implies (#[trigger] b[x]).stream_id != (
    #[trigger] b[y]).stream_id && b[x].name@ != b[y].name@ by {
        assert(b[x].stream_id == a[x].stream_id && b[y].stream_id == a[y].stream_id);
        assert(b[x].name@ == a[x].name@ && b[y].name@ == a[y].name@);
    }
}

/// Two stream lists with pointwise equal identifiers and names have the
/// same uniqueness properties.
proof fn lemma_ids_names_stable(a: Seq<Stream>, b: Seq<Stream>)
    requires
        b.len() == a.len(),
        forall|k: int|
            0 <= k < a.len() ==> (#[trigger] b[k]).stream_id == a[k].stream_id && b[k].name
                == a[k].name,
        forall|x: int, y: int|
            0 <= x < y < a.len() ==> (#[trigger] a[x]).stream_id != (#[trigger] a[y]).stream_id,
        forall|x: int, y: int|
            0 <= x < y < a.len() ==> (#[trigger] a[x]).name@ != (#[trigger] a[y]).name@,
    ensures
        forall|x: int, y: int|
            0 <= x < y < b.len() ==> (#[trigger] b[x]).stream_id != (#[trigger] b[y]).stream_id,
        forall|x: int, y: int|
            0 <= x < y < b.len() ==> (#[trigger] b[x]).name@ != (#[trigger] b[y]).name@,
{
    assert forall|x: int, y: int| 0 <= x < y < b.len() implies (#[trigger] b[x]).stream_id != (
    #[trigger] b[y]).stream_id && b[x].name@ != b[y].name@ by {
        assert(a[x].stream_id != a[y].stream_id);
        assert(a[x].name@ != a[y].name@);
    }
}

/// After one partition of one topic of one stream changed (everything else
/// pointwise equal, identifiers and names kept), the structural parts of
/// the system invariant still hold provided the changed partition is
/// well-formed and keeps its identifier.
proof fn lemma_wf_after_partition_change(
    a: Seq<Stream>,
    b: Seq<Stream>,
    si: int,
    ti: int,
    pi: int,
)
    requires
        forall|k: int| 0 <= k < a.len() ==> (#[trigger] a[k]).wf(),
        forall|x: int, y: int|
            0 <= x < y < a.len() ==> (#[trigger] a[x]).stream_id != (#[trigger] a[y]).stream_id,
        forall|x: int, y: int|
            0 <= x < y < a.len() ==> (#[trigger] a[x]).name@ != (#[trigger] a[y]).name@,
        0 <= si < a.len(),
        0 <= ti < a[si].topics@.len(),
        0 <= pi < a[si].topics@[ti].partitions@.len(),
        b.len() == a.len(),
        forall|k: int| 0 <= k < a.len() && k != si ==> #[trigger] b[k] == a[k],
        b[si].stream_id == a[si].stream_id,
        b[si].name == a[si].name,
        b[si].topics@.len() == a[si].topics@.len(),
        forall|k: int|
            0 <= k < a[si].topics@.len() && k != ti ==> #[trigger] b[si].topics@[k]
                == a[si].topics@[k],
        b[si].topics@[ti].topic_id == a[si].topics@[ti].topic_id,
        b[si].topics@[ti].name == a[si].topics@[ti].name,
        b[si].topics@[ti].offsets == a[si].topics@[ti].offsets,
        b[si].topics@[ti].partitions@.len() == a[si].topics@[ti].partitions@.len(),
        forall|k: int|
            0 <= k < a[si].topics@[ti].partitions@.len() && k != pi ==> #[trigger] b[si].topics@[
            ti].partitions@[k] == a[si].topics@[ti].partitions@[k],
        b[si].topics@[ti].partitions@[pi].wf(),
        b[si].topics@[ti].partitions@[pi].partition_id == a[si].topics@[
        ti].partitions@[pi].partition_id,
    ensures
        forall|k: int| 0 <= k < b.len() ==> (#[trigger] b[k]).wf(),
        forall|x: int, y: int|
            0 <= x < y < b.len() ==> (#[trigger] b[x]).stream_id != (#[trigger] b[y]).stream_id,
        forall|x: int, y: int|
            0 <= x < y < b.len() ==> (#[trigger] b[x]).name@ != (#[trigger] b[y]).name@,
{
    let t0 = a[si].topics@[ti];
    let t1 = b[si].topics@[ti];
    assert(t1.wf()) by {
        assert(t0.wf());
        assert forall|j: int| 0 <= j < t1.partitions@.len() implies (
        #[trigger] t1.partitions@[j]).wf() && t1.partitions@[j].partition_id == j by {
            if j != pi {
                assert(t1.partitions@[j] == t0.partitions@[j]);
            }
        }
    }
    lemma_stream_wf_topic_update(a[si], b[si], ti);
    lemma_wf_after_stream_change(a, b, si);
}

/// The topic-level counterpart of `lemma_wf_after_partition_change`, for
/// operations that change only a topic's offset store.
proof fn lemma_wf_after_topic_change(a: Seq<Stream>, b: Seq<Stream>, si: int, ti: int)
    requires
        forall|k: int| 0 <= k < a.len() ==> (#[trigger] a[k]).wf(),
        forall|x: int, y: int|
            0 <= x < y < a.len() ==> (#[trigger] a[x]).stream_id != (#[trigger] a[y]).stream_id,
        forall|x: int, y: int|
            0 <= x < y < a.len() ==> (#[trigger] a[x]).name@ != (#[trigger] a[y]).name@,
        0 <= si < a.len(),
        0 <= ti < a[si].topics@.len(),
        b.len() == a.len(),
        forall|k: int| 0 <= k < a.len() && k != si ==> #[trigger] b[k] == a[k],
        b[si].stream_id == a[si].stream_id,
        b[si].name == a[si].name,
        b[si].topics@.len() == a[si].topics@.len(),
        forall|k: int|
            0 <= k < a[si].topics@.len() && k != ti ==> #[trigger] b[si].topics@[k]
                == a[si].topics@[k],
        b[si].topics@[ti].topic_id == a[si].topics@[ti].topic_id,
        b[si].topics@[ti].name == a[si].topics@[ti].name,
        b[si].topics@[ti].partitions == a[si].topics@[ti].partitions,
        b[si].topics@[ti].offsets.wf(),
    ensures
        forall|k: int| 0 <= k < b.len() ==> (#[trigger] b[k]).wf(),
        forall|x: int, y: int|
            0 <= x < y < b.len() ==> (#[trigger] b[x]).stream_id != (#[trigger] b[y]).stream_id,
        forall|x: int, y: int|
            0 <= x < y < b.len() ==> (#[trigger] b[x]).name@ != (#[trigger] b[y]).name@,
{
    assert(a[si].topics@[ti].wf());
    assert(b[si].topics@[ti].wf());
    lemma_stream_wf_topic_update(a[si], b[si], ti);
    lemma_wf_after_stream_change(a, b, si);
}

/// Fresh partitions hold no cached bytes.
proof fn lemma_fresh_parts_bytes(s: Seq<Partition>)
    requires
        forall|k: int| 0 <= k < s.len() ==> (#[trigger] s[k]).cache.size() == 0,
    ensures
        parts_cache_bytes(s) == 0,
    decreases s.len(),
{
    if s.len() > 0 {
        lemma_fresh_parts_bytes(s.drop_last());
    }
}

/// Extending a partition list with empty caches keeps its byte sum.
proof fn lemma_fresh_suffix_bytes(a: Seq<Partition>, b: Seq<Partition>)
    requires
        b.len() >= a.len(),
        forall|k: int| 0 <= k < a.len() ==> #[trigger] b[k] == a[k],
        forall|k: int| a.len() <= k < b.len() ==> (#[trigger] b[k]).cache.size() == 0,
    ensures
        parts_cache_bytes(b) == parts_cache_bytes(a),
{
    assert(b =~= a + b.skip(a.len() as int));
    crate::usage::lemma_parts_bytes_add(a, b.skip(a.len() as int));
    lemma_fresh_parts_bytes(b.skip(a.len() as int));
}

/// The exact bytes held by the caches of the partitions a truncation to
/// `keep` entries would remove.
fn removed_parts_bytes(t: &Topic, keep: usize) -> (r: u64)
    requires
        t.wf(),
        keep <= t.partitions@.len(),
        parts_cache_bytes(t.partitions@) <= u64::MAX,
    ensures
        r == parts_cache_bytes(t.partitions@.skip(keep as int)),
{
    let ghost ps = t.partitions@;
    proof {
        crate::usage::lemma_parts_bytes_take_skip(ps, keep as int);
        lemma_parts_prefix_le(ps, keep as int);
        lemma_parts_bytes_nonneg(ps.take(keep as int));
    }
    let n = t.partitions.len();
    let mut acc: u64 = 0;
    let mut i: usize = keep;
    while i < n
        invariant
            keep <= i <= n,
            n == ps.len(),
            ps == t.partitions@,
            parts_cache_bytes(ps) <= u64::MAX,
            parts_cache_bytes(ps.take(keep as int)) >= 0,
            parts_cache_bytes(ps) == parts_cache_bytes(ps.take(keep as int)) + parts_cache_bytes(
                ps.skip(keep as int),
            ),
            acc == parts_cache_bytes(ps.skip(keep as int).take(i - keep)),
        decreases n - i,
    {
        proof {
            lemma_parts_take_step(ps.skip(keep as int), i - keep);
            lemma_parts_prefix_le(ps.skip(keep as int), i - keep + 1);
            lemma_parts_bytes_nonneg(ps.skip(keep as int).take(i - keep));
            assert(ps.skip(keep as int)[i - keep] == ps[i as int]);
        }
        acc = acc + t.partitions[i].cache.current_size();
        i += 1;
    }
    proof {
        assert(ps.skip(keep as int).take(n - keep) =~= ps.skip(keep as int));
    }
    acc
}

/// The exact bytes all caches of one topic hold.
fn topic_cached_bytes(t: &Topic) -> (r: u64)
    requires
        t.wf(),
        parts_cache_bytes(t.partitions@) <= u64::MAX,
    ensures
        r == parts_cache_bytes(t.partitions@),
{
    let ghost ps = t.partitions@;
    let n = t.partitions.len();
    let mut acc: u64 = 0;
    let mut i: usize = 0;
    while i < n
        invariant
            i <= n,
            n == ps.len(),
            ps == t.partitions@,
            parts_cache_bytes(ps) <= u64::MAX,
            acc == parts_cache_bytes(ps.take(i as int)),
        decreases n - i,
    {
        proof {
            lemma_parts_take_step(ps, i as int);
            lemma_parts_prefix_le(ps, i + 1);
            lemma_parts_bytes_nonneg(ps.take(i as int));
        }
        acc = acc + t.partitions[i].cache.current_size();
        i += 1;
    }
    proof {
        assert(ps.take(n as int) =~= ps);
    }
    acc
}

/// The exact bytes all caches of one stream hold.
fn stream_cached_bytes(st: &Stream) -> (r: u64)
    requires
        st.wf(),
        topics_cache_bytes(st.topics@) <= u64::MAX,
    ensures
        r == topics_cache_bytes(st.topics@),
{
    let ghost ts = st.topics@;
    let n = st.topics.len();
    let mut acc: u64 = 0;
    let mut i: usize = 0;
    while i < n
        invariant
            i <= n,
            n == ts.len(),
            ts == st.topics@,
            st.wf(),
            topics_cache_bytes(ts) <= u64::MAX,
            acc == topics_cache_bytes(ts.take(i as int)),
        decreases n - i,
    {
        proof {
            lemma_topics_take_step(ts, i as int);
            lemma_topics_prefix_le(ts, i + 1);
            lemma_topics_bytes_nonneg(ts.take(i as int));
            lemma_parts_bytes_nonneg(ts[i as int].partitions@);
        }
        acc = acc + topic_cached_bytes(&st.topics[i]);
        i += 1;
    }
    proof {
        assert(ts.take(n as int) =~= ts);
    }
    acc
}

/// Taking one more topic adds exactly its partitions' bytes.
proof fn lemma_topics_take_step(s: Seq<Topic>, i: int)
    requires
        0 <= i < s.len(),
    ensures
        topics_cache_bytes(s.take(i + 1)) == topics_cache_bytes(s.take(i)) + parts_cache_bytes(
            s[i].partitions@,
        ),
{
    assert(s.take(i + 1).drop_last() =~= s.take(i));
    assert(s.take(i + 1).last() == s[i]);
}

/// A prefix of topics never exceeds the whole sum.
proof fn lemma_topics_prefix_le(s: Seq<Topic>, i: int)
    requires
        0 <= i <= s.len(),
    ensures
        topics_cache_bytes(s.take(i)) <= topics_cache_bytes(s),
    decreases s.len() - i,
{
    if i == s.len() {
        assert(s.take(i) =~= s);
    } else {
        lemma_topics_take_step(s, i);
        lemma_parts_bytes_nonneg(s[i].partitions@);
        lemma_topics_prefix_le(s, i + 1);
    }
}

/// Taking one more partition adds exactly its cache bytes.
proof fn lemma_parts_take_step(s: Seq<Partition>, i: int)
    requires
        0 <= i < s.len(),
    ensures
        parts_cache_bytes(s.take(i + 1)) == parts_cache_bytes(s.take(i)) + s[i].cache.size(),
{
    assert(s.take(i + 1).drop_last() =~= s.take(i));
    assert(s.take(i + 1).last() == s[i]);
}

/// A prefix of partitions never exceeds the whole sum.
proof fn lemma_parts_prefix_le(s: Seq<Partition>, i: int)
    requires
        0 <= i <= s.len(),
    ensures
        parts_cache_bytes(s.take(i)) <= parts_cache_bytes(s),
    decreases s.len() - i,
{
    if i == s.len() {
        assert(s.take(i) =~= s);
    } else {
        lemma_parts_take_step(s, i);
        lemma_parts_prefix_le(s, i + 1);
    }
}

} // verus!
