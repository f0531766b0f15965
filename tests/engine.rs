use streaming_core::error::EngineError;
use streaming_core::handlers::{handle_create_partitions, handle_delete_topic, handle_update_topic};
use streaming_core::identifier::Identifier;
use streaming_core::memory_tracker::{CacheConfig, CacheMemoryTracker};
use streaming_core::metadata::{EntryCommand, MetadataLog};
use streaming_core::namespace::{shard_for, shard_for_hash, ResourceNamespace};
use streaming_core::partition::{Message, MessageState, PolledMessage, PollingConsumer, PollingStrategy};
use streaming_core::permissions::{Permissions, StreamPermissions};
use streaming_core::session::Session;
use streaming_core::shard::{IggyShard, PollingArgs};
use streaming_core::topic::{CompressionAlgorithm, Partitioning};
use streaming_core::users::{create_root_user, System, UserStatus};

const ROOT_CLIENT: u32 = 1;

fn boot(shards: u16, tracker: Option<CacheMemoryTracker>) -> (System, IggyShard, Session) {
    let mut system = System::new();
    let mut log = MetadataLog::new();
    let root = create_root_user(None, None).unwrap();
    system.load_users(Vec::new(), Some(root), &mut log).unwrap();
    system.add_client(ROOT_CLIENT);
    let mut session = Session::new(ROOT_CLIENT);
    system.login_user("iggy", "iggy", &mut session).unwrap();
    (system, IggyShard::new(shards, tracker), session)
}

fn with_topic(shard: &mut IggyShard, system: &System, partitions: u32) {
    shard.create_stream(system, ROOT_CLIENT, Some(1), "s".to_string()).unwrap();
    shard
        .create_topic(system, ROOT_CLIENT, &Identifier::numeric(1), None, "t".to_string(), partitions, None,
            CompressionAlgorithm::Uncompressed, None, None)
        .unwrap();
}

fn msg(id: u128, payload: &[u8]) -> Message {
    Message { id, state: MessageState::Available, checksum: 0, headers: Vec::new(), payload: payload.to_vec() }
}

fn poll(shard: &mut IggyShard, system: &System, partition: u32, strategy: PollingStrategy, count: u32, auto: bool) -> Result<Vec<PolledMessage>, EngineError> {
    shard.poll_messages(system, ROOT_CLIENT, partition, PollingConsumer::Consumer(1), &Identifier::numeric(1),
        &Identifier::numeric(1), PollingArgs::new(strategy, count, auto))
}

fn expected_shard(stream: u32, topic: u32, partition: u32, shards: u16) -> u16 {
    let mut bytes = Vec::new();
    bytes.extend_from_slice(&stream.to_le_bytes());
    bytes.extend_from_slice(&topic.to_le_bytes());
    bytes.extend_from_slice(&partition.to_le_bytes());
    (twox_hash::XxHash64::oneshot(0, &bytes) % shards as u64) as u16
}

#[test]
fn create_topic_numbers_partitions_and_routes_them() {
    let (system, mut shard, _) = boot(4, None);
    with_topic(&mut shard, &system, 3);
    let topic = shard.find_topic(&system, ROOT_CLIENT, &Identifier::numeric(1), &Identifier::named("t")).unwrap();
    assert_eq!(topic.topic_id(), 1);
    assert_eq!(topic.partition_ids(), vec![1, 2, 3]);
    let table = shard.shard_table();
    assert_eq!(table.len(), 3);
    for (k, row) in table.iter().enumerate() {
        let p = k as u32 + 1;
        assert_eq!(row.namespace, ResourceNamespace::new(1, 1, p));
        assert_eq!(row.shard.id, expected_shard(1, 1, p, 4));
    }
}

#[test]
fn namespace_hash_is_xxhash_of_little_endian_ids() {
    let ns = ResourceNamespace::new(1, 2, 3);
    assert_eq!(ns.as_bytes(), vec![1, 0, 0, 0, 2, 0, 0, 0, 3, 0, 0, 0]);
    let expected = twox_hash::XxHash64::oneshot(0, &[1, 0, 0, 0, 2, 0, 0, 0, 3, 0, 0, 0]);
    assert_eq!(ns.generate_hash(), expected);
    assert_ne!(ns.generate_hash(), 0);
    assert_eq!(shard_for(&ns, 7), (expected % 7) as u16);
    assert_eq!(shard_for(&ns, 7), shard_for(&ResourceNamespace::new(1, 2, 3), 7));
    assert_eq!(shard_for_hash(10, 4), 2);
}

#[test]
fn balanced_append_then_poll_returns_the_batch_in_order() {
    let (system, mut shard, _) = boot(2, None);
    with_topic(&mut shard, &system, 3);
    let batch = vec![msg(1, b"A"), msg(2, b"B"), msg(3, b"C"), msg(4, b"D")];
    shard.append_messages(&system, ROOT_CLIENT, &Identifier::numeric(1), &Identifier::numeric(1),
        &Partitioning::Balanced, batch, 100).unwrap();
    let mut all: Vec<Vec<u8>> = Vec::new();
    for p in 1..=3 {
        for m in poll(&mut shard, &system, p, PollingStrategy::First, 10, false).unwrap() {
            all.push(m.payload);
        }
    }
    assert_eq!(all, vec![b"A".to_vec(), b"B".to_vec(), b"C".to_vec(), b"D".to_vec()]);
}

#[test]
fn balanced_appends_rotate_over_partitions() {
    let (system, mut shard, _) = boot(2, None);
    with_topic(&mut shard, &system, 3);
    let mut targets = Vec::new();
    for i in 0..4u128 {
        targets.push(shard.append_messages(&system, ROOT_CLIENT, &Identifier::numeric(1), &Identifier::numeric(1),
            &Partitioning::Balanced, vec![msg(i, b"x")], 1).unwrap());
    }
    assert_eq!(targets, vec![1, 2, 3, 1]);
}

#[test]
fn keyed_and_explicit_partitioning() {
    let (system, mut shard, _) = boot(2, None);
    with_topic(&mut shard, &system, 3);
    let p = shard.append_messages(&system, ROOT_CLIENT, &Identifier::numeric(1), &Identifier::numeric(1),
        &Partitioning::PartitionId(2), vec![msg(1, b"x")], 1).unwrap();
    assert_eq!(p, 2);
    assert_eq!(
        shard.append_messages(&system, ROOT_CLIENT, &Identifier::numeric(1), &Identifier::numeric(1),
            &Partitioning::PartitionId(9), vec![msg(1, b"x")], 1),
        Err(EngineError::ResourceNotFound)
    );
    let key = b"order-17".to_vec();
    let expected = (twox_hash::XxHash64::oneshot(0, &key) % 3) as u32 + 1;
    let p = shard.append_messages(&system, ROOT_CLIENT, &Identifier::numeric(1), &Identifier::numeric(1),
        &Partitioning::MessagesKey(key), vec![msg(2, b"y")], 1).unwrap();
    assert_eq!(p, expected);
}

#[test]
fn poll_last_sees_the_last_appended_offset() {
    let (system, mut shard, _) = boot(1, None);
    with_topic(&mut shard, &system, 1);
    for round in 0..3u128 {
        let batch = vec![msg(round * 10, b"a"), msg(round * 10 + 1, b"b")];
        shard.append_messages(&system, ROOT_CLIENT, &Identifier::numeric(1), &Identifier::numeric(1),
            &Partitioning::PartitionId(1), batch, 5).unwrap();
        let last = poll(&mut shard, &system, 1, PollingStrategy::Last, 1, false).unwrap();
        assert_eq!(last.len(), 1);
        assert_eq!(last[0].offset, (round as u64) * 2 + 1);
        assert_eq!(last[0].id, round * 10 + 1);
    }
}

#[test]
fn polled_offsets_are_consecutive_and_strategies_pick_start() {
    let (system, mut shard, _) = boot(1, None);
    with_topic(&mut shard, &system, 1);
    let batch: Vec<Message> = (0..6u128).map(|i| msg(i, &[i as u8])).collect();
    shard.append_messages(&system, ROOT_CLIENT, &Identifier::numeric(1), &Identifier::numeric(1),
        &Partitioning::PartitionId(1), batch, 50).unwrap();
    shard.append_messages(&system, ROOT_CLIENT, &Identifier::numeric(1), &Identifier::numeric(1),
        &Partitioning::PartitionId(1), vec![msg(6, b"z")], 90).unwrap();
    let offsets = |v: Vec<PolledMessage>| v.iter().map(|m| m.offset).collect::<Vec<u64>>();
    assert_eq!(offsets(poll(&mut shard, &system, 1, PollingStrategy::Offset(2), 3, false).unwrap()), vec![2, 3, 4]);
    assert_eq!(offsets(poll(&mut shard, &system, 1, PollingStrategy::First, 2, false).unwrap()), vec![0, 1]);
    assert_eq!(offsets(poll(&mut shard, &system, 1, PollingStrategy::Last, 3, false).unwrap()), vec![4, 5, 6]);
    assert_eq!(offsets(poll(&mut shard, &system, 1, PollingStrategy::Timestamp(60), 10, false).unwrap()), vec![6]);
    assert_eq!(offsets(poll(&mut shard, &system, 1, PollingStrategy::Offset(100), 3, false).unwrap()), Vec::<u64>::new());
    let v = poll(&mut shard, &system, 1, PollingStrategy::First, 10, false).unwrap();
    for w in v.windows(2) {
        assert_eq!(w[1].offset, w[0].offset + 1);
    }
    assert_eq!(v[3].payload, vec![3u8]);
    assert_eq!(v[3].timestamp, 50);
}

#[test]
fn next_strategy_follows_auto_commit() {
    let (system, mut shard, _) = boot(1, None);
    with_topic(&mut shard, &system, 1);
    let batch: Vec<Message> = (0..5u128).map(|i| msg(i, b"m")).collect();
    shard.append_messages(&system, ROOT_CLIENT, &Identifier::numeric(1), &Identifier::numeric(1),
        &Partitioning::PartitionId(1), batch, 1).unwrap();
    let first = poll(&mut shard, &system, 1, PollingStrategy::Next, 2, true).unwrap();
    assert_eq!(first.iter().map(|m| m.offset).collect::<Vec<u64>>(), vec![0, 1]);
    let second = poll(&mut shard, &system, 1, PollingStrategy::Next, 2, true).unwrap();
    assert_eq!(second.iter().map(|m| m.offset).collect::<Vec<u64>>(), vec![2, 3]);
    let peek = poll(&mut shard, &system, 1, PollingStrategy::Next, 10, false).unwrap();
    assert_eq!(peek.iter().map(|m| m.offset).collect::<Vec<u64>>(), vec![4]);
}

#[test]
fn poll_errors() {
    let (system, mut shard, _) = boot(1, None);
    with_topic(&mut shard, &system, 1);
    assert_eq!(poll(&mut shard, &system, 1, PollingStrategy::First, 0, false).unwrap_err(), EngineError::InvalidMessagesCount);
    assert_eq!(poll(&mut shard, &system, 4, PollingStrategy::First, 1, false).unwrap_err(), EngineError::ResourceNotFound);
    shard.create_topic(&system, ROOT_CLIENT, &Identifier::numeric(1), Some(9), "empty".to_string(), 0, None,
        CompressionAlgorithm::Uncompressed, None, None).unwrap();
    assert_eq!(
        shard.poll_messages(&system, ROOT_CLIENT, 1, PollingConsumer::Consumer(1), &Identifier::numeric(1),
            &Identifier::numeric(9), PollingArgs::new(PollingStrategy::First, 1, false)).unwrap_err(),
        EngineError::NoPartitions(9, 1)
    );
    assert_eq!(
        shard.append_messages(&system, ROOT_CLIENT, &Identifier::numeric(1), &Identifier::numeric(9),
            &Partitioning::Balanced, vec![msg(1, b"x")], 1),
        Err(EngineError::NoPartitions(9, 1))
    );
    assert_eq!(
        shard.poll_messages(&system, 77, 1, PollingConsumer::Consumer(1), &Identifier::numeric(1),
            &Identifier::numeric(1), PollingArgs::new(PollingStrategy::First, 1, false)).unwrap_err(),
        EngineError::NotAuthenticated
    );
}

#[test]
fn directory_uniqueness_and_lookup_errors() {
    let (system, mut shard, _) = boot(1, None);
    with_topic(&mut shard, &system, 1);
    assert_eq!(shard.create_stream(&system, ROOT_CLIENT, Some(1), "other".to_string()), Err(EngineError::StreamAlreadyExists));
    assert_eq!(shard.create_stream(&system, ROOT_CLIENT, Some(2), "s".to_string()), Err(EngineError::StreamAlreadyExists));
    assert_eq!(
        shard.create_topic(&system, ROOT_CLIENT, &Identifier::named("s"), None, "t".to_string(), 1, None,
            CompressionAlgorithm::Uncompressed, None, None),
        Err(EngineError::TopicAlreadyExists)
    );
    assert_eq!(
        shard.create_topic(&system, ROOT_CLIENT, &Identifier::numeric(5), None, "u".to_string(), 1, None,
            CompressionAlgorithm::Uncompressed, None, None),
        Err(EngineError::ResourceNotFound)
    );
    assert_eq!(
        shard.find_topic(&system, ROOT_CLIENT, &Identifier::numeric(1), &Identifier::numeric(3)).unwrap_err(),
        EngineError::ResourceNotFound
    );
    assert_eq!(shard.create_stream(&system, ROOT_CLIENT, None, "auto".to_string()), Err(EngineError::StreamAlreadyExists));
    assert_eq!(shard.create_stream(&system, ROOT_CLIENT, None, "auto".to_string()), Ok(2));
    let topics = shard.find_topics(&system, ROOT_CLIENT, &Identifier::numeric(1)).unwrap();
    assert_eq!(topics.len(), 1);
}

#[test]
fn topic_permissions_follow_stream_overlays() {
    let (mut system, mut shard, root) = boot(1, None);
    with_topic(&mut shard, &system, 1);
    let mut global = Permissions::root().global;
    global.manage_streams = false;
    global.read_streams = false;
    global.manage_topics = false;
    global.read_topics = false;
    global.poll_messages = false;
    global.send_messages = false;
    let overlay = StreamPermissions { stream_id: 1, manage_stream: false, read_stream: false, manage_topics: false,
        read_topics: true, poll_messages: true, send_messages: false };
    let perms = Permissions { global, streams: vec![overlay] };
    system.create_user(&root, "lena", "pw0", UserStatus::Active, Some(perms)).unwrap();
    system.add_client(3);
    let mut lena = Session::new(3);
    system.login_user("lena", "pw0", &mut lena).unwrap();
    assert!(shard.find_topic(&system, 3, &Identifier::numeric(1), &Identifier::numeric(1)).is_ok());
    assert!(shard.poll_messages(&system, 3, 1, PollingConsumer::Consumer(1), &Identifier::numeric(1),
        &Identifier::numeric(1), PollingArgs::new(PollingStrategy::First, 1, false)).is_ok());
    assert_eq!(
        shard.append_messages(&system, 3, &Identifier::numeric(1), &Identifier::numeric(1),
            &Partitioning::Balanced, vec![msg(1, b"x")], 1),
        Err(EngineError::PermissionDenied)
    );
    assert_eq!(
        shard.purge_topic(&system, 3, &Identifier::numeric(1), &Identifier::numeric(1)),
        Err(EngineError::PermissionDenied)
    );
}

#[test]
fn update_topic_normalizes_and_logs() {
    let (system, mut shard, root) = boot(1, None);
    with_topic(&mut shard, &system, 2);
    let mut log = MetadataLog::new();
    handle_update_topic(&mut shard, &system, &mut log, &root, &Identifier::numeric(1), &Identifier::numeric(1),
        "renamed".to_string(), Some(0), CompressionAlgorithm::Gzip, Some(0), Some(0)).unwrap();
    assert_eq!(log.len(), 1);
    match &log.entries()[0].command {
        EntryCommand::UpdateTopic { stream_id, topic_id, message_expiry, max_topic_size } => {
            assert_eq!((*stream_id, *topic_id), (1, 1));
            assert_eq!(*message_expiry, None);
            assert_eq!(*max_topic_size, None);
        }
        _ => panic!("expected an UpdateTopic entry"),
    }
    let topic = shard.find_topic(&system, ROOT_CLIENT, &Identifier::numeric(1), &Identifier::named("renamed")).unwrap();
    assert_eq!(topic.replication_factor(), 1);
    assert_eq!(topic.compression_algorithm(), CompressionAlgorithm::Gzip);
    assert_eq!(topic.get_partitions_count(), 2);
    let kept = shard.update_topic(&system, ROOT_CLIENT, &Identifier::numeric(1), &Identifier::numeric(1),
        "renamed".to_string(), Some(60), CompressionAlgorithm::Gzip, Some(1000), Some(3)).unwrap();
    assert_eq!(kept, (Some(60), Some(1000)));
}

#[test]
fn delete_topic_removes_routing_rows_and_logs() {
    let (mut system, mut shard, root) = boot(3, None);
    with_topic(&mut shard, &system, 2);
    shard.create_topic(&system, ROOT_CLIENT, &Identifier::numeric(1), Some(2), "keep".to_string(), 1, None,
        CompressionAlgorithm::Uncompressed, None, None).unwrap();
    assert_eq!(shard.shard_table().len(), 3);
    let mut log = MetadataLog::new();
    handle_delete_topic(&mut shard, &mut system, &mut log, &root, &Identifier::numeric(1), &Identifier::numeric(1)).unwrap();
    assert_eq!(log.len(), 1);
    assert_eq!(shard.shard_table().len(), 1);
    assert_eq!(shard.shard_table()[0].namespace, ResourceNamespace::new(1, 2, 1));
    assert_eq!(
        handle_delete_topic(&mut shard, &mut system, &mut log, &root, &Identifier::numeric(1), &Identifier::numeric(1)),
        Err(EngineError::ResourceNotFound)
    );
    assert_eq!(log.len(), 1);
}

#[test]
fn create_partitions_extends_ids_and_routes() {
    let (system, mut shard, root) = boot(5, None);
    with_topic(&mut shard, &system, 2);
    let mut log = MetadataLog::new();
    handle_create_partitions(&mut shard, &system, &mut log, &root, &Identifier::numeric(1), &Identifier::numeric(1), 2).unwrap();
    assert_eq!(log.len(), 1);
    let topic = shard.find_topic(&system, ROOT_CLIENT, &Identifier::numeric(1), &Identifier::numeric(1)).unwrap();
    assert_eq!(topic.partition_ids(), vec![1, 2, 3, 4]);
    let table = shard.shard_table();
    assert_eq!(table.len(), 4);
    assert_eq!(table[3].shard.id, expected_shard(1, 1, 4, 5));
}

#[test]
fn purge_keeps_partitions_and_drops_messages() {
    let (system, mut shard, _) = boot(1, None);
    with_topic(&mut shard, &system, 2);
    shard.append_messages(&system, ROOT_CLIENT, &Identifier::numeric(1), &Identifier::numeric(1),
        &Partitioning::PartitionId(2), vec![msg(1, b"x")], 1).unwrap();
    shard.purge_topic(&system, ROOT_CLIENT, &Identifier::numeric(1), &Identifier::numeric(1)).unwrap();
    assert_eq!(poll(&mut shard, &system, 2, PollingStrategy::First, 5, false).unwrap().len(), 0);
    let topic = shard.find_topic(&system, ROOT_CLIENT, &Identifier::numeric(1), &Identifier::numeric(1)).unwrap();
    assert_eq!(topic.get_partitions_count(), 2);
}

#[test]
fn append_accounts_batch_bytes_in_tracker() {
    let tracker = CacheMemoryTracker::initialize(&CacheConfig { enabled: true, size: 1000 });
    let (system, mut shard, _) = boot(1, tracker);
    with_topic(&mut shard, &system, 1);
    shard.append_messages(&system, ROOT_CLIENT, &Identifier::numeric(1), &Identifier::numeric(1),
        &Partitioning::PartitionId(1), vec![msg(1, b"abc"), msg(2, b"")], 1).unwrap();
    let t = shard.memory_tracker().as_ref().unwrap();
    assert_eq!(t.usage_bytes(), 23 + 20);
    assert!(t.will_fit_into_cache(957));
    assert!(!t.will_fit_into_cache(958));
}

#[test]
fn tracker_counts_and_saturates() {
    assert!(CacheMemoryTracker::initialize(&CacheConfig { enabled: false, size: 10 }).is_none());
    let mut t = CacheMemoryTracker::new(100);
    t.increment_used_memory(60);
    assert!(t.will_fit_into_cache(40));
    assert!(!t.will_fit_into_cache(41));
    t.decrement_used_memory(70);
    assert_eq!(t.usage_bytes(), 0);
    t.increment_used_memory(u64::MAX);
    t.increment_used_memory(5);
    assert_eq!(t.usage_bytes(), u64::MAX);
    assert!(!t.will_fit_into_cache(u64::MAX));
    assert_eq!(t.limit_bytes(), 100);
}

#[test]
fn purge_and_delete_release_cached_bytes() {
    let tracker = CacheMemoryTracker::initialize(&CacheConfig { enabled: true, size: 10_000 });
    let (mut system, mut shard, _) = boot(1, tracker);
    with_topic(&mut shard, &system, 2);
    shard.create_topic(&system, ROOT_CLIENT, &Identifier::numeric(1), Some(2), "other".to_string(), 1, None,
        CompressionAlgorithm::Uncompressed, None, None).unwrap();
    shard.append_messages(&system, ROOT_CLIENT, &Identifier::numeric(1), &Identifier::numeric(1),
        &Partitioning::PartitionId(1), vec![msg(1, b"12345")], 1).unwrap();
    shard.append_messages(&system, ROOT_CLIENT, &Identifier::numeric(1), &Identifier::numeric(1),
        &Partitioning::PartitionId(2), vec![msg(2, b"")], 1).unwrap();
    shard.append_messages(&system, ROOT_CLIENT, &Identifier::numeric(1), &Identifier::numeric(2),
        &Partitioning::Balanced, vec![msg(3, b"xy")], 1).unwrap();
    assert_eq!(shard.memory_tracker().as_ref().unwrap().usage_bytes(), 25 + 20 + 22);
    shard.purge_topic(&system, ROOT_CLIENT, &Identifier::numeric(1), &Identifier::numeric(1)).unwrap();
    assert_eq!(shard.memory_tracker().as_ref().unwrap().usage_bytes(), 22);
    shard.delete_topic(&mut system, ROOT_CLIENT, &Identifier::numeric(1), &Identifier::numeric(2)).unwrap();
    assert_eq!(shard.memory_tracker().as_ref().unwrap().usage_bytes(), 0);
}

#[test]
fn append_evicts_oldest_cached_messages_when_full() {
    let tracker = CacheMemoryTracker::initialize(&CacheConfig { enabled: true, size: 100 });
    let (system, mut shard, _) = boot(1, tracker);
    with_topic(&mut shard, &system, 1);
    for i in 0..3u128 {
        shard.append_messages(&system, ROOT_CLIENT, &Identifier::numeric(1), &Identifier::numeric(1),
            &Partitioning::PartitionId(1), vec![msg(i, &[0u8; 10])], 1).unwrap();
    }
    assert_eq!(shard.memory_tracker().as_ref().unwrap().usage_bytes(), 90);
    shard.append_messages(&system, ROOT_CLIENT, &Identifier::numeric(1), &Identifier::numeric(1),
        &Partitioning::PartitionId(1), vec![msg(3, &[0u8; 10])], 1).unwrap();
    assert_eq!(shard.memory_tracker().as_ref().unwrap().usage_bytes(), 90);
    let all = poll(&mut shard, &system, 1, PollingStrategy::First, 10, false).unwrap();
    assert_eq!(all.iter().map(|m| m.offset).collect::<Vec<u64>>(), vec![0, 1, 2, 3]);
    shard.append_messages(&system, ROOT_CLIENT, &Identifier::numeric(1), &Identifier::numeric(1),
        &Partitioning::PartitionId(1), vec![msg(4, &[0u8; 200])], 1).unwrap();
    assert_eq!(shard.memory_tracker().as_ref().unwrap().usage_bytes(), 220);
}

#[test]
fn stream_and_topic_names_are_case_folded() {
    let (system, mut shard, _) = boot(1, None);
    shard.create_stream(&system, ROOT_CLIENT, Some(1), "Orders".to_string()).unwrap();
    assert_eq!(shard.create_stream(&system, ROOT_CLIENT, Some(2), "ORDERS".to_string()), Err(EngineError::StreamAlreadyExists));
    shard.create_topic(&system, ROOT_CLIENT, &Identifier::named("orders"), None, "Events".to_string(), 1, None,
        CompressionAlgorithm::Uncompressed, None, None).unwrap();
    let t = shard.find_topic(&system, ROOT_CLIENT, &Identifier::named("ORDERS"), &Identifier::named("EVENTS")).unwrap();
    assert_eq!(t.name(), "events");
    assert_eq!(t.topic_id(), 1);
}

#[test]
fn delete_topic_drops_its_consumer_groups() {
    let (mut system, mut shard, _) = boot(1, None);
    with_topic(&mut shard, &system, 1);
    shard.create_topic(&system, ROOT_CLIENT, &Identifier::numeric(1), Some(2), "other".to_string(), 1, None,
        CompressionAlgorithm::Uncompressed, None, None).unwrap();
    system.join_consumer_group(ROOT_CLIENT, 1, 1, 10);
    system.join_consumer_group(ROOT_CLIENT, 1, 2, 11);
    system.join_consumer_group(ROOT_CLIENT, 1, 1, 12);
    assert_eq!(system.consumer_groups().len(), 3);
    shard.delete_topic(&mut system, ROOT_CLIENT, &Identifier::numeric(1), &Identifier::numeric(1)).unwrap();
    let left = system.consumer_groups();
    assert_eq!(left.len(), 1);
    assert_eq!((left[0].topic_id, left[0].group_id), (2, 11));
}

#[test]
fn poll_returns_stored_state_checksum_and_headers() {
    let (system, mut shard, _) = boot(1, None);
    with_topic(&mut shard, &system, 1);
    let m = Message { id: 77, state: MessageState::Poisoned, checksum: 0xdead_beef, headers: vec![3, 1, 4], payload: b"pay".to_vec() };
    shard.append_messages(&system, ROOT_CLIENT, &Identifier::numeric(1), &Identifier::numeric(1),
        &Partitioning::PartitionId(1), vec![m], 12).unwrap();
    let got = poll(&mut shard, &system, 1, PollingStrategy::First, 1, false).unwrap();
    assert_eq!(got[0].id, 77);
    assert_eq!(got[0].state, MessageState::Poisoned);
    assert_eq!(got[0].checksum, 0xdead_beef);
    assert_eq!(got[0].headers, vec![3, 1, 4]);
    assert_eq!(got[0].timestamp, 12);
    assert_eq!(got[0].length(), 3);
}
