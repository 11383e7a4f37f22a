use iggy::cache::{eviction_target, MemoryTracker};
use iggy::error::Error;
use iggy::permissioner::GlobalPermissions;
use iggy::message::{Message, MessagePayload};
use iggy::partition::{Partition, PartitionConfig, Persister};
use iggy::system::{Session, System, SystemConfig};

fn payload(bytes: &[u8]) -> MessagePayload {
    MessagePayload {
        key: None,
        payload: bytes.to_vec(),
        headers: Vec::new(),
    }
}

fn config(fsync: bool) -> SystemConfig {
    SystemConfig {
        partition: PartitionConfig {
            segment_max_count: 1000,
            segment_max_bytes: 1_000_000,
        },
        enforce_fsync: fsync,
        cache_budget: 1_000_000,
    }
}

fn payload_strings(messages: &[Message]) -> Vec<Vec<u8>> {
    messages.iter().map(|m| m.payload.clone()).collect()
}

#[test]
fn append_offsets_are_contiguous() {
    let mut system = System::new(config(true));
    system.create_stream(1, "s1".to_string()).unwrap();
    system.create_topic(1, 1, "t1".to_string(), 1).unwrap();

    let first = system
        .append(1, 1, 0, &vec![payload(b"a"), payload(b"b")], 10, true)
        .unwrap();
    assert_eq!(first, (0, 2));

    let second = system
        .append(1, 1, 0, &vec![payload(b"c")], 11, true)
        .unwrap();
    assert_eq!(second, (2, 3));

    let third = system
        .append(1, 1, 0, &vec![payload(b"d"), payload(b"e"), payload(b"f")], 12, true)
        .unwrap();
    assert_eq!(third, (3, 6));
}

#[test]
fn read_returns_appended_messages() {
    let mut system = System::new(config(true));
    system.create_stream(1, "s1".to_string()).unwrap();
    system.create_topic(1, 1, "t1".to_string(), 1).unwrap();

    let payloads: Vec<MessagePayload> =
        vec![payload(b"alpha"), payload(b"beta"), payload(b"gamma")];
    let range = system.append(1, 1, 0, &payloads, 7, true).unwrap();
    assert_eq!(range, (0, 3));

    let messages = system.read(1, 1, 0, 0, 3).unwrap();
    assert_eq!(messages.len(), 3);
    assert_eq!(messages[0].payload, b"alpha".to_vec());
    assert_eq!(messages[1].payload, b"beta".to_vec());
    assert_eq!(messages[2].payload, b"gamma".to_vec());
    assert_eq!(messages[0].offset, 0);
    assert_eq!(messages[1].offset, 1);
    assert_eq!(messages[2].offset, 2);
    assert_eq!(messages[0].timestamp, 7);
}

#[test]
fn read_out_of_range_is_an_error() {
    let mut system = System::new(config(true));
    system.create_stream(1, "s1".to_string()).unwrap();
    system.create_topic(1, 1, "t1".to_string(), 1).unwrap();
    system.append(1, 1, 0, &vec![payload(b"x")], 0, true).unwrap();

    assert_eq!(system.read(1, 1, 0, 0, 2).unwrap_err(), Error::OffsetOutOfRange);
    assert_eq!(system.read(1, 1, 0, 5, 1).unwrap_err(), Error::OffsetOutOfRange);
    assert_eq!(system.read(9, 1, 0, 0, 1).unwrap_err(), Error::NotFound);
    assert_eq!(system.read(1, 9, 0, 0, 1).unwrap_err(), Error::NotFound);
    assert_eq!(system.read(1, 1, 9, 0, 1).unwrap_err(), Error::NotFound);
    // an empty range at the end of the log is allowed
    assert_eq!(system.read(1, 1, 0, 1, 0).unwrap().len(), 0);
}

#[test]
fn failed_write_never_advances_offsets() {
    let mut system = System::new(config(true));
    system.create_stream(1, "s1".to_string()).unwrap();
    system.create_topic(1, 1, "t1".to_string(), 1).unwrap();
    system.append(1, 1, 0, &vec![payload(b"a")], 0, true).unwrap();

    let err = system
        .append(1, 1, 0, &vec![payload(b"b")], 1, false)
        .unwrap_err();
    assert_eq!(err, Error::WriteFailed);

    // the failed batch left no trace: the next successful append gets
    // offset 1, and reading past offset 0 still fails
    assert_eq!(system.read(1, 1, 0, 0, 2).unwrap_err(), Error::OffsetOutOfRange);
    let range = system.append(1, 1, 0, &vec![payload(b"c")], 2, true).unwrap();
    assert_eq!(range, (1, 2));
}

#[test]
fn structural_errors_are_classified() {
    let mut system = System::new(config(true));
    system.create_stream(1, "s1".to_string()).unwrap();
    assert_eq!(
        system.create_stream(1, "other".to_string()).unwrap_err(),
        Error::AlreadyExists
    );
    assert_eq!(
        system.create_stream(2, "s1".to_string()).unwrap_err(),
        Error::AlreadyExists
    );
    assert_eq!(
        system.create_topic(9, 1, "t1".to_string(), 1).unwrap_err(),
        Error::NotFound
    );
    system.create_topic(1, 1, "t1".to_string(), 2).unwrap();
    assert_eq!(
        system.create_topic(1, 1, "t2".to_string(), 1).unwrap_err(),
        Error::AlreadyExists
    );
    assert_eq!(system.delete_topic(1, 9).unwrap_err(), Error::NotFound);
    system.delete_topic(1, 1).unwrap();
    assert_eq!(system.delete_stream(9).unwrap_err(), Error::NotFound);
    system.delete_stream(1).unwrap();
}

#[test]
fn consumer_offsets_round_trip() {
    let mut system = System::new(config(true));
    system.create_stream(1, "s1".to_string()).unwrap();
    system.create_topic(1, 1, "t1".to_string(), 1).unwrap();
    let batch = vec![payload(b"a"), payload(b"b"), payload(b"c")];
    system.append(1, 1, 0, &batch, 0, true).unwrap();

    assert_eq!(system.get_offset(false, 7, 1, 1, 0).unwrap(), None);
    system.store_offset(false, 7, 1, 1, 0, 2).unwrap();
    assert_eq!(system.get_offset(false, 7, 1, 1, 0).unwrap(), Some(2));

    // last write wins, idempotently
    system.store_offset(false, 7, 1, 1, 0, 1).unwrap();
    system.store_offset(false, 7, 1, 1, 0, 1).unwrap();
    assert_eq!(system.get_offset(false, 7, 1, 1, 0).unwrap(), Some(1));

    // other scopes are untouched
    assert_eq!(system.get_offset(true, 7, 1, 1, 0).unwrap(), None);

    // a commit may reach next_offset (everything consumed) but not exceed it
    system.store_offset(false, 7, 1, 1, 0, 3).unwrap();
    assert_eq!(system.get_offset(false, 7, 1, 1, 0).unwrap(), Some(3));
    assert_eq!(
        system.store_offset(false, 7, 1, 1, 0, 4).unwrap_err(),
        Error::OffsetOutOfRange
    );
    assert_eq!(system.get_offset(false, 7, 1, 1, 0).unwrap(), Some(3));
    assert_eq!(
        system.store_offset(false, 7, 1, 9, 0, 0).unwrap_err(),
        Error::NotFound
    );
}

#[test]
fn proportional_eviction_targets() {
    // two partitions holding 300 and 100 bytes of a 400-byte total, with
    // 200 bytes to reclaim: the shares are 150 and 50, each multiplied by
    // the over-eviction factor
    assert_eq!(eviction_target(300, 400, 200), 750);
    assert_eq!(eviction_target(100, 400, 200), 250);
    // shares round up
    assert_eq!(eviction_target(1, 3, 2), 5);
    // a partition holding everything sheds everything asked
    assert_eq!(eviction_target(400, 400, 200), 1000);
}

#[test]
fn eviction_is_proportional_across_partitions() {
    // messages of 100 accounted bytes each: 16 bytes overhead + 84 payload
    let big = vec![0u8; 84];
    let mut system = System::new(config(true));
    system.create_stream(1, "s1".to_string()).unwrap();
    system.create_topic(1, 1, "t1".to_string(), 2).unwrap();
    for _ in 0..3 {
        system.append(1, 1, 0, &vec![payload(&big)], 0, true).unwrap();
    }
    system.append(1, 1, 1, &vec![payload(&big)], 0, true).unwrap();

    // partition 0 caches 300 bytes, partition 1 caches 100; reclaim 40:
    // the targets are 5*30 = 150 and 5*10 = 50, so partition 0 sheds two
    // whole messages (200 bytes) and partition 1 its single one
    system.clean_cache(40);
    let read0 = system.read(1, 1, 0, 0, 3).unwrap();
    assert_eq!(read0.len(), 3);
    let read1 = system.read(1, 1, 1, 0, 1).unwrap();
    assert_eq!(read1.len(), 1);
}

#[test]
fn eviction_never_drops_unpersisted_data() {
    // buffered persister: appends stay cache-resident until persisted
    let mut system = System::new(config(false));
    system.create_stream(1, "s1".to_string()).unwrap();
    system.create_topic(1, 1, "t1".to_string(), 1).unwrap();
    let batch = vec![payload(b"a"), payload(b"b"), payload(b"c")];
    system.append(1, 1, 0, &batch, 0, true).unwrap();

    // nothing is durably segmented yet, so eviction must remove nothing
    system.clean_cache(1_000_000);
    let messages = system.read(1, 1, 0, 0, 3).unwrap();
    assert_eq!(payload_strings(&messages), vec![b"a".to_vec(), b"b".to_vec(), b"c".to_vec()]);

    // after persisting, the same eviction may empty the cache, and reads
    // fall back to the segments without losing a byte
    system.persist_messages(true).unwrap();
    system.clean_cache(1_000_000);
    let messages = system.read(1, 1, 0, 0, 3).unwrap();
    assert_eq!(payload_strings(&messages), vec![b"a".to_vec(), b"b".to_vec(), b"c".to_vec()]);
}

#[test]
fn segment_rollover_keeps_reads_correct() {
    let mut cfg = config(true);
    cfg.partition.segment_max_count = 2;
    let mut system = System::new(cfg);
    system.create_stream(1, "s1".to_string()).unwrap();
    system.create_topic(1, 1, "t1".to_string(), 1).unwrap();
    for i in 0..7u8 {
        system.append(1, 1, 0, &vec![payload(&[i])], 0, true).unwrap();
    }
    // evict everything so reads must walk the sealed segments
    system.clean_cache(1_000_000);
    let messages = system.read(1, 1, 0, 0, 7).unwrap();
    for (i, m) in messages.iter().enumerate() {
        assert_eq!(m.payload, vec![i as u8]);
        assert_eq!(m.offset, i as u64);
    }
    // and a range spanning segments and nothing else
    let middle = system.read(1, 1, 0, 2, 3).unwrap();
    assert_eq!(payload_strings(&middle), vec![vec![2u8], vec![3u8], vec![4u8]]);
}

#[test]
fn recovery_rebuilds_identical_state() {
    let mut system = System::new(config(true));
    system.create_stream(1, "s1".to_string()).unwrap();
    system.create_topic(1, 1, "t1".to_string(), 1).unwrap();
    let batch = vec![payload(b"a"), payload(b"b"), payload(b"c")];
    system.append(1, 1, 0, &batch, 5, true).unwrap();
    system.store_offset(false, 7, 1, 1, 0, 2).unwrap();
    system.shutdown(true).unwrap();

    let image = system.durable_image();
    let recovered = System::recover(config(true), &image).unwrap();
    let messages = recovered.read(1, 1, 0, 0, 3).unwrap();
    assert_eq!(payload_strings(&messages), vec![b"a".to_vec(), b"b".to_vec(), b"c".to_vec()]);
    assert_eq!(recovered.get_offset(false, 7, 1, 1, 0).unwrap(), Some(2));

    // recovering twice from the same directory gives the same state
    let image_again = recovered.durable_image();
    let recovered_again = System::recover(config(true), &image_again).unwrap();
    let messages_again = recovered_again.read(1, 1, 0, 0, 3).unwrap();
    assert_eq!(payload_strings(&messages_again), payload_strings(&messages));
    assert_eq!(recovered_again.get_offset(false, 7, 1, 1, 0).unwrap(), Some(2));
}

#[test]
fn recovery_keeps_permissions_and_checks_the_format_version() {
    let mut system = System::new(config(true));
    system.create_stream(1, "s1".to_string()).unwrap();
    system.permissioner.set_permissions(
        9,
        GlobalPermissions {
            manage_users: true,
            read_users: true,
            manage_streams: false,
            read_streams: false,
            poll_messages: false,
            send_messages: false,
        },
    );

    let image = system.durable_image();
    assert_eq!(image.version, iggy::recovery::SCHEMA_VERSION);
    let recovered = System::recover(config(true), &image).unwrap();
    assert!(recovered.permissioner.get_user(9).is_ok());
    assert_eq!(recovered.permissioner.get_user(8).unwrap_err(), Error::Unauthorized);

    // an incompatible on-disk format is detected at startup
    let mut stale = system.durable_image();
    stale.version = iggy::recovery::SCHEMA_VERSION + 1;
    assert_eq!(
        System::recover(config(true), &stale).unwrap_err(),
        Error::CorruptState
    );
}

#[test]
fn recovery_rejects_corrupt_images() {
    let mut system = System::new(config(true));
    system.create_stream(1, "s1".to_string()).unwrap();
    system.create_topic(1, 1, "t1".to_string(), 1).unwrap();
    system
        .append(1, 1, 0, &vec![payload(b"a"), payload(b"b")], 0, true)
        .unwrap();
    let mut image = system.durable_image();

    // tamper with an offset inside the recovered segment
    image.streams[0].topics[0].partitions[0][0][1].offset = 9;
    let err = System::recover(config(true), &image).unwrap_err();
    assert_eq!(err, Error::CorruptState);
}

#[test]
fn concrete_scenario_round_trip() {
    let mut system = System::new(config(true));
    system.create_stream(1, "s1".to_string()).unwrap();
    system.create_topic(1, 1, "t1".to_string(), 1).unwrap();

    let batch = vec![payload(b"a"), payload(b"b"), payload(b"c")];
    let range = system.append(1, 1, 0, &batch, 0, true).unwrap();
    assert_eq!(range, (0, 3));

    let messages = system.read(1, 1, 0, 0, 3).unwrap();
    assert_eq!(payload_strings(&messages), vec![b"a".to_vec(), b"b".to_vec(), b"c".to_vec()]);

    system.store_offset(false, 42, 1, 1, 0, 2).unwrap();
    assert_eq!(system.get_offset(false, 42, 1, 1, 0).unwrap(), Some(2));

    // restart the engine against the same durable state
    system.shutdown(true).unwrap();
    let image = system.durable_image();
    let restarted = System::recover(config(true), &image).unwrap();

    let messages = restarted.read(1, 1, 0, 0, 3).unwrap();
    assert_eq!(payload_strings(&messages), vec![b"a".to_vec(), b"b".to_vec(), b"c".to_vec()]);
    assert_eq!(restarted.get_offset(false, 42, 1, 1, 0).unwrap(), Some(2));
}

#[test]
fn partitions_can_be_added_and_removed() {
    let mut system = System::new(config(true));
    system.create_stream(1, "s1".to_string()).unwrap();
    system.create_topic(1, 1, "t1".to_string(), 1).unwrap();
    system.create_partitions(1, 1, 2).unwrap();
    system.append(1, 1, 2, &vec![payload(b"z")], 0, true).unwrap();
    assert_eq!(system.read(1, 1, 2, 0, 1).unwrap().len(), 1);
    system.delete_partitions(1, 1, 2).unwrap();
    assert_eq!(system.read(1, 1, 2, 0, 1).unwrap_err(), Error::NotFound);
    assert_eq!(system.read(1, 1, 0, 0, 0).unwrap().len(), 0);
}

#[test]
fn sessions_gate_authentication() {
    let system = System::new(config(true));
    let session = Session::stateless(3);
    assert!(system.ensure_authenticated(&session).is_ok());
    let anonymous = Session {
        user_id: 0,
        authenticated: false,
    };
    assert_eq!(
        system.ensure_authenticated(&anonymous).unwrap_err(),
        Error::Unauthenticated
    );
}

#[test]
fn buffered_and_fsync_persisters_agree_on_reads() {
    for fsync in [false, true] {
        let mut system = System::new(config(fsync));
        system.create_stream(1, "s1".to_string()).unwrap();
        system.create_topic(1, 1, "t1".to_string(), 1).unwrap();
        let batch = vec![payload(b"one"), payload(b"two")];
        assert_eq!(system.append(1, 1, 0, &batch, 0, true).unwrap(), (0, 2));
        let messages = system.read(1, 1, 0, 0, 2).unwrap();
        assert_eq!(payload_strings(&messages), vec![b"one".to_vec(), b"two".to_vec()]);
    }
}

#[test]
fn partition_append_and_read_standalone() {
    let mut tracker = MemoryTracker::new();
    let mut partition = Partition::create(0);
    let cfg = PartitionConfig {
        segment_max_count: 2,
        segment_max_bytes: 1_000_000,
    };
    let batch = vec![payload(b"m0"), payload(b"m1"), payload(b"m2")];
    let range = partition
        .append(&batch, 99, Persister::FsyncOnWrite, &cfg, true, &mut tracker)
        .unwrap();
    assert_eq!(range, (0, 3));
    assert_eq!(tracker.usage_bytes(), 3 * 18);

    let read = partition.read(1, 2).unwrap();
    assert_eq!(read.len(), 2);
    assert_eq!(read[0].payload, b"m1".to_vec());
    assert_eq!(read[1].payload, b"m2".to_vec());

    let freed = partition.evict_by_size(1_000_000, &mut tracker);
    assert_eq!(freed, 3 * 18);
    assert_eq!(tracker.usage_bytes(), 0);
    let read = partition.read(0, 3).unwrap();
    assert_eq!(read[0].payload, b"m0".to_vec());
}
