//! Startup recovery and its inverse: exporting the durable state.
//!
//! The on-disk layout is one directory per stream, one per topic, one per
//! partition holding ordered segment files; consumer offsets live in a
//! separate key-value store. Recovery rebuilds all in-memory state from
//! that image and recomputes every partition's `next_offset`; a corrupt
//! image fails recovery with `CorruptState` (fail-fast), since skipping
//! data would break the ordering invariant.

use vstd::prelude::*;

use crate::cache::MemoryTracker;
use crate::error::Error;
use crate::offsets::{lookup, ConsumerOffsets, OffsetKey};
use crate::partition::{image_flat, image_valid, image_views, Partition};
use crate::permissioner::{perms_lookup, GlobalPermissions, Permissioner};
use crate::stream::Stream;
use crate::system::{System, SystemConfig};
use crate::topic::Topic;
use crate::usage::{parts_cache_bytes, streams_cache_bytes, topics_cache_bytes};

verus! {

/// The durable state of one topic: per partition, the recovered segment
/// files (one message list per segment, oldest first), plus the committed
/// consumer offsets.
#[derive(Debug)]
pub struct TopicImage {
    pub topic_id: u32,
    pub name: String,
    /// One entry per partition; each is that partition's segments.
    pub partitions: Vec<Vec<Vec<crate::message::Message>>>,
    /// The committed consumer offsets, as key-value pairs.
    pub offsets: Vec<(OffsetKey, u64)>,
}

/// The durable state of one stream.
#[derive(Debug)]
pub struct StreamImage {
    pub stream_id: u32,
    pub name: String,
    pub topics: Vec<TopicImage>,
}

/// The version of the on-disk format this engine reads and writes. Recovery
/// refuses an image of any other version, so an incompatible layout is
/// detected at startup instead of misread.
pub const SCHEMA_VERSION: u32 = 1;

/// The durable state of the whole system: the format version, the recorded
/// user permissions, and every stream's messages and committed offsets.
#[derive(Debug)]
pub struct SystemImage {
    /// The on-disk format version the image was written with.
    pub version: u32,
    /// The recorded global permissions, as key-value pairs.
    pub permissions: Vec<(u32, GlobalPermissions)>,
    pub streams: Vec<StreamImage>,
}

/// What recovery accepts of one topic's image.
pub open spec fn topic_image_valid(t: TopicImage) -> bool {
    &&& t.partitions@.len() <= u32::MAX
    &&& forall|pi: int|
        0 <= pi < t.partitions@.len() ==> image_valid(image_views((#[trigger] t.partitions@[pi])@))
}

/// What recovery accepts of one stream's image.
pub open spec fn stream_image_valid(s: StreamImage) -> bool {
    &&& forall|a: int, b: int|
        0 <= a < b < s.topics@.len() ==> (#[trigger] s.topics@[a]).topic_id != (
        #[trigger] s.topics@[b]).topic_id
    &&& forall|a: int, b: int|
        0 <= a < b < s.topics@.len() ==> (#[trigger] s.topics@[a]).name@ != (
        #[trigger] s.topics@[b]).name@
    &&& forall|ti: int| 0 <= ti < s.topics@.len() ==> topic_image_valid(#[trigger] s.topics@[ti])
}

/// What recovery accepts of a whole image: unique identifiers and names at
/// every level and a valid image for every partition.
pub open spec fn sys_image_valid(ss: Seq<StreamImage>) -> bool {
    &&& forall|a: int, b: int|
        0 <= a < b < ss.len() ==> (#[trigger] ss[a]).stream_id != (#[trigger] ss[b]).stream_id
    &&& forall|a: int, b: int|
        0 <= a < b < ss.len() ==> (#[trigger] ss[a]).name@ != (#[trigger] ss[b]).name@
    &&& forall|si: int| 0 <= si < ss.len() ==> stream_image_valid(#[trigger] ss[si])
}

/// The shape recovery guarantees: the rebuilt state mirrors the image, all
/// of it durable, every cache empty, every `next_offset` one past the
/// highest recovered offset, every committed offset findable.
pub open spec fn recovered_from(s: System, ss: Seq<StreamImage>) -> bool {
    &&& s.streams@.len() == ss.len()
    &&& forall|si: int|
        0 <= si < ss.len() ==> {
            let st = #[trigger] s.streams@[si];
            let im = ss[si];
            &&& st.stream_id == im.stream_id
            &&& st.name@ == im.name@
            &&& st.topics@.len() == im.topics@.len()
            &&& forall|ti: int|
                0 <= ti < im.topics@.len() ==> {
                    let t = #[trigger] st.topics@[ti];
                    let tim = im.topics@[ti];
                    &&& t.topic_id == tim.topic_id
                    &&& t.name@ == tim.name@
                    &&& t.partitions@.len() == tim.partitions@.len()
                    &&& (forall|k: OffsetKey| #[trigger]
                        t.offsets.stored(k) == lookup(tim.offsets@, k))
                    &&& forall|pi: int|
                        0 <= pi < tim.partitions@.len() ==> {
                            let p = #[trigger] t.partitions@[pi];
                            &&& p.durable() == image_flat(image_views(tim.partitions@[pi]@))
                            &&& p.log() == p.durable()
                            &&& p.next_offset == p.durable().len()
                            &&& p.cache.view_msgs() == Seq::<crate::message::MsgV>::empty()
                        }
                }
        }
}

/// Rebuild a topic's offset store from recovered key-value pairs; later
/// pairs win, matching the store's last-write-wins upserts.
fn rebuild_offsets(entries: &Vec<(OffsetKey, u64)>) -> (r: ConsumerOffsets)
    ensures
        r.wf(),
        forall|k: OffsetKey| #[trigger] r.stored(k) == lookup(entries@, k),
{
    let mut store = ConsumerOffsets::new();
    let n = entries.len();
    let mut i: usize = 0;
    while i < n
        invariant
            i <= n,
            n == entries@.len(),
            store.wf(),
            forall|k: OffsetKey| #[trigger] store.stored(k) == lookup(entries@.take(i as int), k),
        decreases n - i,
    {
        let (key, off) = entries[i];
        store.store(key, off);
        proof {
            assert(entries@.take(i + 1).drop_last() =~= entries@.take(i as int));
            assert(entries@.take(i + 1).last() == entries@[i as int]);
        }
        i += 1;
    }
    proof {
        assert(entries@.take(n as int) =~= entries@);
    }
    store
}

impl System {
    /// Rebuild the whole engine from its on-disk image: the startup hook.
    /// Succeeds exactly when the image carries the format version this
    /// engine writes and is valid; anything else fails the whole recovery
    /// with `CorruptState` (fail-fast).
    pub fn recover(config: SystemConfig, image: &SystemImage) -> (r: Result<System, Error>)
        ensures
            match r {
                Ok(s) => {
                    &&& image.version == SCHEMA_VERSION
                    &&& sys_image_valid(image.streams@)
                    &&& s.wf()
                    &&& s.config == config
                    &&& s.tracker.usage() == 0
                    &&& s.persister == (if config.enforce_fsync {
                        crate::partition::Persister::FsyncOnWrite
                    } else {
                        crate::partition::Persister::Buffered
                    })
                    &&& recovered_from(s, image.streams@)
                    &&& forall|u: u32| #[trigger]
                        s.permissioner.perms_of(u) == perms_lookup(image.permissions@, u)
                },
                Err(e) => {
                    &&& e == Error::CorruptState
                    &&& !(image.version == SCHEMA_VERSION && sys_image_valid(image.streams@))
                },
            },
    {
        if image.version != SCHEMA_VERSION {
            return Err(Error::CorruptState);
        }
        let ghost ims = image.streams@;
        let n = image.streams.len();
        let mut streams: Vec<Stream> = Vec::new();
        let mut si: usize = 0;
        while si < n
            invariant
                si <= n,
                n == ims.len(),
                ims == image.streams@,
                streams@.len() == si,
                forall|a: int, b: int|
                    0 <= a < b < si ==> (#[trigger] ims[a]).stream_id != (
                    #[trigger] ims[b]).stream_id,
                forall|a: int, b: int|
                    0 <= a < b < si ==> (#[trigger] ims[a]).name@ != (#[trigger] ims[b]).name@,
                forall|k: int| 0 <= k < si ==> stream_image_valid(#[trigger] ims[k]),
                forall|k: int| 0 <= k < si ==> (#[trigger] streams@[k]).wf(),
                forall|k: int|
                    0 <= k < si ==> (#[trigger] streams@[k]).stream_id == ims[k].stream_id,
                forall|k: int| 0 <= k < si ==> (#[trigger] streams@[k]).name@ == ims[k].name@,
                forall|k: int|
                    0 <= k < si ==> stream_matches_image(#[trigger] streams@[k], ims[k]),
                forall|k: int|
                    0 <= k < si ==> topics_cache_bytes((#[trigger] streams@[k]).topics@) == 0,
            decreases n - si,
        {
            let im = &image.streams[si];
            let mut dup: usize = 0;
            while dup < si
                invariant
                    dup <= si,
                    si < n,
                    n == ims.len(),
                    ims == image.streams@,
                    im == &image.streams[si as int],
                    streams@.len() == si,
                    forall|k: int|
                        0 <= k < streams@.len() ==> (#[trigger] streams@[k]).stream_id
                            == ims[k].stream_id,
                    forall|k: int|
                        0 <= k < streams@.len() ==> (#[trigger] streams@[k]).name@ == ims[k].name@,
                    forall|k: int|
                        0 <= k < dup ==> (#[trigger] ims[k]).stream_id != ims[si as int].stream_id
                            && ims[k].name@ != ims[si as int].name@,
                decreases si - dup,
            {
                if streams[dup].stream_id == im.stream_id {
                    return Err(Error::CorruptState);
                }
                if streams[dup].name == im.name {
                    return Err(Error::CorruptState);
                }
                dup += 1;
            }
            let st = match recover_stream(im) {
                Ok(st) => st,
                Err(e) => {
                    return Err(e);
                },
            };
            streams.push(st);
            si += 1;
        }
        let s = System {
            permissioner: rebuild_permissions(&image.permissions),
            streams,
            tracker: MemoryTracker::new(),
            persister: if config.enforce_fsync {
                crate::partition::Persister::FsyncOnWrite
            } else {
                crate::partition::Persister::Buffered
            },
            config,
        };
        proof {
            lemma_zero_streams_bytes(s.streams@);
        }
        Ok(s)
    }

    /// Export the durable state: what the persistence layer keeps on disk,
    /// and what `recover` accepts back. Exporting and recovering are
    /// mutually inverse on the durable part of the state.
    pub fn durable_image(&self) -> (img: SystemImage)
        requires
            self.wf(),
        ensures
            img.version == SCHEMA_VERSION,
            img.permissions@ == self.permissioner.users_permissions@,
            sys_image_valid(img.streams@),
            img.streams@.len() == self.streams@.len(),
            forall|si: int|
                0 <= si < self.streams@.len() ==> image_matches_system(
                    #[trigger] img.streams@[si],
                    self.streams@[si],
                ),
    {
        let n = self.streams.len();
        let mut out: Vec<StreamImage> = Vec::new();
        let mut si: usize = 0;
        while si < n
            invariant
                si <= n,
                n == self.streams@.len(),
                self.wf(),
                out@.len() == si,
                forall|k: int|
                    0 <= k < si ==> image_matches_system(
                        #[trigger] out@[k],
                        self.streams@[k],
                    ),
                forall|k: int|
                    0 <= k < si ==> (#[trigger] out@[k]).stream_id == self.streams@[k].stream_id
                        && out@[k].name@ == self.streams@[k].name@,
                forall|k: int| 0 <= k < si ==> stream_image_valid(#[trigger] out@[k]),
            decreases n - si,
        {
            proof {
                assert(self.streams@[si as int].wf());
            }
            let im = export_stream(&self.streams[si]);
            out.push(im);
            si += 1;
        }
        proof {
            assert forall|a: int, b: int| 0 <= a < b < out@.len() implies (
            #[trigger] out@[a]).stream_id != (#[trigger] out@[b]).stream_id && out@[a].name@
                != out@[b].name@ by {
                assert(self.streams@[a].stream_id != self.streams@[b].stream_id);
                assert(self.streams@[a].name@ != self.streams@[b].name@);
            }
        }
        let m = self.permissioner.users_permissions.len();
        let mut permissions: Vec<(u32, GlobalPermissions)> = Vec::new();
        let mut i: usize = 0;
        while i < m
            invariant
                i <= m,
                m == self.permissioner.users_permissions@.len(),
                permissions@ == self.permissioner.users_permissions@.take(i as int),
            decreases m - i,
        {
            permissions.push(self.permissioner.users_permissions[i]);
            proof {
                assert(permissions@ =~= self.permissioner.users_permissions@.take(i + 1));
            }
            i += 1;
        }
        proof {
            assert(self.permissioner.users_permissions@.take(m as int)
                =~= self.permissioner.users_permissions@);
        }
        SystemImage { version: SCHEMA_VERSION, permissions, streams: out }
    }
}

/// The authorization gate that persisted key-value pairs denote; later
/// pairs win.
fn rebuild_permissions(entries: &Vec<(u32, GlobalPermissions)>) -> (r: Permissioner)
    ensures
        r.wf(),
        forall|u: u32| #[trigger] r.perms_of(u) == perms_lookup(entries@, u),
{
    let mut gate = Permissioner::new();
    let n = entries.len();
    let mut i: usize = 0;
    while i < n
        invariant
            i <= n,
            n == entries@.len(),
            gate.wf(),
            forall|u: u32| #[trigger] gate.perms_of(u) == perms_lookup(entries@.take(i as int), u),
        decreases n - i,
    {
        let (user_id, perms) = entries[i];
        gate.set_permissions(user_id, perms);
        proof {
            assert(entries@.take(i + 1).drop_last() =~= entries@.take(i as int));
            assert(entries@.take(i + 1).last() == entries@[i as int]);
        }
        i += 1;
    }
    proof {
        assert(entries@.take(n as int) =~= entries@);
    }
    gate
}

/// One exported stream image mirrors the stream it came from: same
/// identifiers and names, and per partition exactly the durable messages,
/// segment by segment; the offset pairs are the store's own entries.
pub open spec fn image_matches_system(im: StreamImage, st: Stream) -> bool {
    &&& im.stream_id == st.stream_id
    &&& im.name@ == st.name@
    &&& im.topics@.len() == st.topics@.len()
    &&& forall|ti: int|
        0 <= ti < st.topics@.len() ==> {
            let tim = #[trigger] im.topics@[ti];
            let t = st.topics@[ti];
            &&& tim.topic_id == t.topic_id
            &&& tim.name@ == t.name@
            &&& tim.offsets@ == t.offsets.entries@
            &&& tim.partitions@.len() == t.partitions@.len()
            &&& forall|pi: int|
                0 <= pi < t.partitions@.len() ==> image_flat(
                    image_views((#[trigger] tim.partitions@[pi])@),
                ) == t.partitions@[pi].durable()
        }
}

/// One recovered stream mirrors its image.
pub open spec fn stream_matches_image(st: Stream, im: StreamImage) -> bool {
    &&& st.topics@.len() == im.topics@.len()
    &&& forall|ti: int|
        0 <= ti < im.topics@.len() ==> {
            let t = #[trigger] st.topics@[ti];
            let tim = im.topics@[ti];
            &&& t.topic_id == tim.topic_id
            &&& t.name@ == tim.name@
            &&& t.partitions@.len() == tim.partitions@.len()
            &&& (forall|k: OffsetKey| #[trigger]
                t.offsets.stored(k) == lookup(tim.offsets@, k))
            &&& forall|pi: int|
                0 <= pi < tim.partitions@.len() ==> {
                    let p = #[trigger] t.partitions@[pi];
                    &&& p.durable() == image_flat(image_views(tim.partitions@[pi]@))
                    &&& p.log() == p.durable()
                    &&& p.next_offset == p.durable().len()
                    &&& p.cache.view_msgs() == Seq::<crate::message::MsgV>::empty()
                    &&& p.cache.size() == 0
                }
        }
}

/// Rebuild one stream from its image.
fn recover_stream(im: &StreamImage) -> (r: Result<Stream, Error>)
    ensures
        match r {
            Ok(st) => {
                &&& stream_image_valid(*im)
                &&& st.wf()
                &&& st.stream_id == im.stream_id
                &&& st.name@ == im.name@
                &&& stream_matches_image(st, *im)
                &&& topics_cache_bytes(st.topics@) == 0
            },
            Err(e) => {
                &&& e == Error::CorruptState
                &&& !stream_image_valid(*im)
            },
        },
{
    let ghost tims = im.topics@;
    let n = im.topics.len();
    let mut topics: Vec<Topic> = Vec::new();
    let mut ti: usize = 0;
    while ti < n
        invariant
            ti <= n,
            n == tims.len(),
            tims == im.topics@,
            topics@.len() == ti,
            forall|a: int, b: int|
                0 <= a < b < ti ==> (#[trigger] tims[a]).topic_id != (
                #[trigger] tims[b]).topic_id,
            forall|a: int, b: int|
                0 <= a < b < ti ==> (#[trigger] tims[a]).name@ != (#[trigger] tims[b]).name@,
            forall|k: int| 0 <= k < ti ==> topic_image_valid(#[trigger] tims[k]),
            forall|k: int| 0 <= k < ti ==> (#[trigger] topics@[k]).wf(),
            forall|k: int| 0 <= k < ti ==> (#[trigger] topics@[k]).topic_id == tims[k].topic_id,
            forall|k: int| 0 <= k < ti ==> (#[trigger] topics@[k]).name@ == tims[k].name@,
            forall|k: int| 0 <= k < ti ==> topic_matches_image(#[trigger] topics@[k], tims[k]),
            forall|k: int| 0 <= k < ti ==> parts_cache_bytes((#[trigger] topics@[k]).partitions@)
                == 0,
        decreases n - ti,
    {
        let tim = &im.topics[ti];
        let mut dup: usize = 0;
        while dup < ti
            invariant
                dup <= ti,
                ti < n,
                n == tims.len(),
                tims == im.topics@,
                tim == &im.topics[ti as int],
                topics@.len() == ti,
                forall|k: int|
                    0 <= k < topics@.len() ==> (#[trigger] topics@[k]).topic_id
                        == tims[k].topic_id,
                forall|k: int|
                    0 <= k < topics@.len() ==> (#[trigger] topics@[k]).name@ == tims[k].name@,
                forall|k: int|
                    0 <= k < dup ==> (#[trigger] tims[k]).topic_id != tims[ti as int].topic_id
                        && tims[k].name@ != tims[ti as int].name@,
            decreases ti - dup,
        {
            if topics[dup].topic_id == tim.topic_id {
                return Err(Error::CorruptState);
            }
            if topics[dup].name == tim.name {
                return Err(Error::CorruptState);
            }
            dup += 1;
        }
        let t = match recover_topic(tim) {
            Ok(t) => t,
            Err(e) => {
                return Err(e);
            },
        };
        topics.push(t);
        ti += 1;
    }
    proof {
        lemma_zero_topics_bytes(topics@);
    }
    let name = clone_string(&im.name);
    Ok(Stream { stream_id: im.stream_id, name, topics })
}

/// One recovered topic mirrors its image.
pub open spec fn topic_matches_image(t: Topic, tim: TopicImage) -> bool {
    &&& t.partitions@.len() == tim.partitions@.len()
    &&& (forall|k: OffsetKey| #[trigger] t.offsets.stored(k) == lookup(tim.offsets@, k))
    &&& forall|pi: int|
        0 <= pi < tim.partitions@.len() ==> {
            let p = #[trigger] t.partitions@[pi];
            &&& p.durable() == image_flat(image_views(tim.partitions@[pi]@))
            &&& p.log() == p.durable()
            &&& p.next_offset == p.durable().len()
            &&& p.cache.view_msgs() == Seq::<crate::message::MsgV>::empty()
            &&& p.cache.size() == 0
        }
}

/// Rebuild one topic from its image.
fn recover_topic(tim: &TopicImage) -> (r: Result<Topic, Error>)
    ensures
        match r {
            Ok(t) => {
                &&& topic_image_valid(*tim)
                &&& t.wf()
                &&& t.topic_id == tim.topic_id
                &&& t.name@ == tim.name@
                &&& topic_matches_image(t, *tim)
                &&& parts_cache_bytes(t.partitions@) == 0
            },
            Err(e) => {
                &&& e == Error::CorruptState
                &&& !topic_image_valid(*tim)
            },
        },
{
    let n = tim.partitions.len();
    if n > u32::MAX as usize {
        return Err(Error::CorruptState);
    }
    let ghost pims = tim.partitions@;
    let mut partitions: Vec<Partition> = Vec::new();
    let mut pi: usize = 0;
    while pi < n
        invariant
            pi <= n,
            n == pims.len(),
            n <= u32::MAX,
            pims == tim.partitions@,
            partitions@.len() == pi,
            forall|k: int| 0 <= k < pi ==> image_valid(image_views((#[trigger] pims[k])@)),
            forall|k: int| 0 <= k < pi ==> (#[trigger] partitions@[k]).wf(),
            forall|k: int| 0 <= k < pi ==> (#[trigger] partitions@[k]).partition_id == k,
            forall|k: int|
                0 <= k < pi ==> {
                    let p = #[trigger] partitions@[k];
                    &&& p.durable() == image_flat(image_views(pims[k]@))
                    &&& p.log() == p.durable()
                    &&& p.next_offset == p.durable().len()
                    &&& p.cache.view_msgs() == Seq::<crate::message::MsgV>::empty()
                    &&& p.cache.size() == 0
                },
        decreases n - pi,
    {
        let p = match Partition::recover(pi as u32, &tim.partitions[pi]) {
            Ok(p) => p,
            Err(_) => {
                return Err(Error::CorruptState);
            },
        };
        partitions.push(p);
        pi += 1;
    }
    proof {
        lemma_zero_parts_bytes(partitions@);
    }
    let offsets = rebuild_offsets(&tim.offsets);
    let name = clone_string(&tim.name);
    Ok(Topic { topic_id: tim.topic_id, name, partitions, offsets })
}

/// Export one stream's durable state.
fn export_stream(st: &Stream) -> (im: StreamImage)
    requires
        st.wf(),
    ensures
        im.stream_id == st.stream_id,
        im.name@ == st.name@,
        image_matches_system(im, *st),
        stream_image_valid(im),
{
    let n = st.topics.len();
    let mut topics: Vec<TopicImage> = Vec::new();
    let mut ti: usize = 0;
    while ti < n
        invariant
            ti <= n,
            n == st.topics@.len(),
            st.wf(),
            topics@.len() == ti,
            forall|k: int|
                0 <= k < ti ==> {
                    let tim = #[trigger] topics@[k];
                    let t = st.topics@[k];
                    &&& tim.topic_id == t.topic_id
                    &&& tim.name@ == t.name@
                    &&& tim.offsets@ == t.offsets.entries@
                    &&& tim.partitions@.len() == t.partitions@.len()
                    &&& topic_image_valid(tim)
                    &&& forall|pi: int|
                        0 <= pi < t.partitions@.len() ==> image_flat(
                            image_views((#[trigger] tim.partitions@[pi])@),
                        ) == t.partitions@[pi].durable()
                },
        decreases n - ti,
    {
        proof {
            assert(st.topics@[ti as int].wf());
        }
        let tim = export_topic(&st.topics[ti]);
        topics.push(tim);
        ti += 1;
    }
    proof {
        assert forall|a: int, b: int| 0 <= a < b < topics@.len() implies (
        #[trigger] topics@[a]).topic_id != (#[trigger] topics@[b]).topic_id && topics@[a].name@
            != topics@[b].name@ by {
            assert(st.topics@[a].topic_id != st.topics@[b].topic_id);
            assert(st.topics@[a].name@ != st.topics@[b].name@);
        }
    }
    let name = clone_string(&st.name);
    StreamImage { stream_id: st.stream_id, name, topics }
}

/// Export one topic's durable state.
fn export_topic(t: &Topic) -> (tim: TopicImage)
    requires
        t.wf(),
    ensures
        tim.topic_id == t.topic_id,
        tim.name@ == t.name@,
        tim.offsets@ == t.offsets.entries@,
        tim.partitions@.len() == t.partitions@.len(),
        topic_image_valid(tim),
        forall|pi: int|
            0 <= pi < t.partitions@.len() ==> image_flat(
                image_views((#[trigger] tim.partitions@[pi])@),
            ) == t.partitions@[pi].durable(),
{
    let n = t.partitions.len();
    let mut partitions: Vec<Vec<Vec<crate::message::Message>>> = Vec::new();
    let mut pi: usize = 0;
    while pi < n
        invariant
            pi <= n,
            n == t.partitions@.len(),
            t.wf(),
            partitions@.len() == pi,
            forall|k: int|
                0 <= k < pi ==> image_flat(image_views((#[trigger] partitions@[k])@))
                    == t.partitions@[k].durable(),
            forall|k: int|
                0 <= k < pi ==> image_valid(image_views((#[trigger] partitions@[k])@)),
        decreases n - pi,
    {
        proof {
            assert(t.partitions@[pi as int].wf());
        }
        let img = t.partitions[pi].durable_image();
        partitions.push(img);
        pi += 1;
    }
    let mut offsets: Vec<(OffsetKey, u64)> = Vec::new();
    let m = t.offsets.entries.len();
    let mut i: usize = 0;
    while i < m
        invariant
            i <= m,
            m == t.offsets.entries@.len(),
            offsets@ == t.offsets.entries@.take(i as int),
        decreases m - i,
    {
        offsets.push(t.offsets.entries[i]);
        proof {
            assert(offsets@ =~= t.offsets.entries@.take(i + 1));
        }
        i += 1;
    }
    proof {
        assert(t.offsets.entries@.take(m as int) =~= t.offsets.entries@);
    }
    let name = clone_string(&t.name);
    TopicImage { topic_id: t.topic_id, name, partitions, offsets }
}

/// A string clone whose contents are pinned down.
fn clone_string(s: &String) -> (r: String)
    ensures
        r@ == s@,
{
    s.clone()
}

/// Partition lists with empty caches contribute no bytes.
proof fn lemma_zero_parts_bytes(s: Seq<Partition>)
    requires
        forall|k: int| 0 <= k < s.len() ==> (#[trigger] s[k]).cache.size() == 0,
    ensures
        parts_cache_bytes(s) == 0,
    decreases s.len(),
{
    if s.len() > 0 {
        lemma_zero_parts_bytes(s.drop_last());
    }
}

/// Topic lists whose partitions hold no cached bytes contribute none.
proof fn lemma_zero_topics_bytes(s: Seq<Topic>)
    requires
        forall|k: int| 0 <= k < s.len() ==> parts_cache_bytes((#[trigger] s[k]).partitions@) == 0,
    ensures
        topics_cache_bytes(s) == 0,
    decreases s.len(),
{
    if s.len() > 0 {
        lemma_zero_topics_bytes(s.drop_last());
    }
}

/// Stream lists whose topics hold no cached bytes contribute none.
proof fn lemma_zero_streams_bytes(s: Seq<Stream>)
    requires
        forall|k: int| 0 <= k < s.len() ==> topics_cache_bytes((#[trigger] s[k]).topics@) == 0,
    ensures
        streams_cache_bytes(s) == 0,
    decreases s.len(),
{
    if s.len() > 0 {
        lemma_zero_streams_bytes(s.drop_last());
    }
}

} // verus!
