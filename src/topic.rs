use vstd::prelude::*;
use crate::error::EngineError;
use crate::namespace::{xxh64, xxh64_seed0};
use crate::partition::{
    batch_size, capped, lemma_append_cache_bytes, log_appended, message_size, mviews, polled,
    Message, Partition, PolledMessage, PollingConsumer, PollingStrategy,
};
use crate::sums::{lemma_sum_update, lemma_sum_zero_tail, sum_of};

verus! {

/// How a topic's messages are compressed.
#[derive(Clone, Copy, Debug, PartialEq, Eq, Structural)]
pub enum CompressionAlgorithm {
    Uncompressed,
    Gzip,
}

/// How an append picks its partition.
#[derive(Clone, Debug)]
pub enum Partitioning {
    /// Round-robin over the partitions.
    Balanced,
    /// The partition with this id.
    PartitionId(u32),
    /// The partition that the key's hash selects.
    MessagesKey(Vec<u8>),
}

/// `Some(0)` means no value.
pub open spec fn normalized(v: Option<u32>) -> Option<u32> {
    match v {
        Some(0) => None,
        _ => v,
    }
}

/// `Some(0)` means no limit.
pub open spec fn normalized_size(v: Option<u64>) -> Option<u64> {
    match v {
        Some(0) => None,
        _ => v,
    }
}

/// A replication factor of at least one; absent or zero means one.
pub open spec fn normalized_replication(v: Option<u8>) -> u8 {
    match v {
        Some(0) | None => 1,
        Some(f) => f,
    }
}

fn normalize(v: Option<u32>) -> (r: Option<u32>)
    ensures
        r == normalized(v),
{
    match v {
        Some(0) => None,
        _ => v,
    }
}

fn normalize_size(v: Option<u64>) -> (r: Option<u64>)
    ensures
        r == normalized_size(v),
{
    match v {
        Some(0) => None,
        _ => v,
    }
}

fn normalize_replication(v: Option<u8>) -> (r: u8)
    ensures
        r == normalized_replication(v),
{
    match v {
        Some(0) | None => 1,
        Some(f) => f,
    }
}

/// A named, partitioned log within a stream.
#[derive(Debug)]
pub struct Topic {
    topic_id: u32,
    stream_id: u32,
    name: String,
    partitions: Vec<Partition>,
    message_expiry: Option<u32>,
    compression_algorithm: CompressionAlgorithm,
    max_topic_size: Option<u64>,
    replication_factor: u8,
    next_partition: usize,
}

/// Bytes that the messages of all `parts` account for.
pub open spec fn parts_bytes(parts: Seq<Partition>) -> nat {
    sum_of(parts, |p: Partition| p.cache_bytes())
}

/// When one partition changes, the total changes by that partition's difference.
pub proof fn lemma_parts_bytes_one_changed(before: Seq<Partition>, after: Seq<Partition>, i: int)
    requires
        before.len() == after.len(),
        0 <= i < before.len(),
        forall|j: int| 0 <= j < before.len() && j != i ==> after[j] == before[j],
    ensures
        parts_bytes(after) + before[i].cache_bytes() == parts_bytes(before) + after[i].cache_bytes(),
{
    assert(after =~= before.update(i, after[i]));
    lemma_sum_update(before, |p: Partition| p.cache_bytes(), i, after[i]);
}

/// With no cached message anywhere, the partitions cache no bytes.
pub proof fn lemma_parts_bytes_none_cached(parts: Seq<Partition>)
    requires
        forall|j: int| 0 <= j < parts.len() ==> (#[trigger] parts[j]).cached() == parts[j].log().len(),
    ensures
        parts_bytes(parts) == 0,
{
    assert forall|j: int| 0 <= j < parts.len() implies (|p: Partition| p.cache_bytes())(
        #[trigger] parts[j],
    ) == 0 by {
        assert(parts[j].log().skip(parts[j].cached() as int) =~= Seq::<PolledMessage>::empty());
        assert(sum_of(Seq::<PolledMessage>::empty(), |m: PolledMessage| message_size(m.payload@.len())) == 0);
    }
    lemma_sum_zero_tail(parts, |p: Partition| p.cache_bytes(), 0);
    assert(parts.take(0) =~= Seq::<Partition>::empty());
}

/// Partitions past `n` with empty logs add nothing.
pub proof fn lemma_parts_bytes_empty_tail(parts: Seq<Partition>, n: int)
    requires
        0 <= n <= parts.len(),
        forall|j: int| n <= j < parts.len() ==> (#[trigger] parts[j]).log().len() == 0 && parts[j].wf(),
    ensures
        parts_bytes(parts) == parts_bytes(parts.take(n)),
{
    assert forall|j: int| n <= j < parts.len() implies (|p: Partition| p.cache_bytes())(
        #[trigger] parts[j],
    ) == 0 by {
        assert(parts[j].log().skip(parts[j].cached() as int) =~= Seq::<PolledMessage>::empty());
        assert(sum_of(Seq::<PolledMessage>::empty(), |m: PolledMessage| message_size(m.payload@.len())) == 0);
    }
    lemma_sum_zero_tail(parts, |p: Partition| p.cache_bytes(), n);
}

/// The ids `from`, `from + 1`, ..., `from + count - 1`.
pub open spec fn id_range(from: u32, count: u32) -> Seq<u32> {
    Seq::new(count as nat, |k: int| (from + k) as u32)
}

/// The partition index an append goes to, for a topic with `len` partitions
/// and round-robin position `next`.
pub open spec fn target_index(partitioning: Partitioning, len: nat, next: nat) -> int {
    match partitioning {
        Partitioning::Balanced => (next % len) as int,
        Partitioning::PartitionId(n) => n - 1,
        Partitioning::MessagesKey(k) => (xxh64_seed0(k@) % (len as u64)) as int,
    }
}

impl Topic {
    pub closed spec fn tid(&self) -> u32 {
        self.topic_id
    }

    pub closed spec fn sid(&self) -> u32 {
        self.stream_id
    }

    pub closed spec fn name_view(&self) -> Seq<char> {
        self.name@
    }

    pub closed spec fn parts(&self) -> Seq<Partition> {
        self.partitions@
    }

    pub closed spec fn next(&self) -> nat {
        self.next_partition as nat
    }

    pub closed spec fn expiry(&self) -> Option<u32> {
        self.message_expiry
    }

    pub closed spec fn size_limit(&self) -> Option<u64> {
        self.max_topic_size
    }

    pub closed spec fn compression(&self) -> CompressionAlgorithm {
        self.compression_algorithm
    }

    pub closed spec fn replication(&self) -> u8 {
        self.replication_factor
    }

    /// Partition ids run 1, 2, ... in order, and each partition is well formed.
    pub open spec fn wf(&self) -> bool {
        &&& forall|k: int|
            0 <= k < self.parts().len() ==> (#[trigger] self.parts()[k]).id() == k + 1
                && self.parts()[k].wf()
        &&& self.parts().len() <= u32::MAX
    }

    /// The attributes other than the partitions are those of `other`.
    pub open spec fn same_config(&self, other: Topic) -> bool {
        &&& self.tid() == other.tid()
        &&& self.sid() == other.sid()
        &&& self.name_view() == other.name_view()
        &&& self.expiry() == other.expiry()
        &&& self.size_limit() == other.size_limit()
        &&& self.compression() == other.compression()
        &&& self.replication() == other.replication()
    }

    fn push_partitions(&mut self, count: u32) -> (r: Vec<u32>)
        requires
            old(self).wf(),
            old(self).parts().len() + count <= u32::MAX,
        ensures
            final(self).wf(),
            final(self).same_config(*old(self)),
            final(self).next() == old(self).next(),
            final(self).parts().len() == old(self).parts().len() + count,
            final(self).parts().take(old(self).parts().len() as int) == old(self).parts(),
            forall|k: int|
                old(self).parts().len() <= k < final(self).parts().len()
                    ==> (#[trigger] final(self).parts()[k]).log().len() == 0,
            r@ == id_range((old(self).parts().len() + 1) as u32, count),
    {
        let ghost start = self.partitions@;
        let mut ids: Vec<u32> = Vec::new();
        let mut k: u32 = 0;
        while k < count
            invariant
                k <= count,
                start.len() + count <= u32::MAX,
                self.partitions@.len() == start.len() + k,
                self.partitions@.take(start.len() as int) == start,
                forall|j: int|
                    0 <= j < self.partitions@.len() ==> (#[trigger] self.partitions@[j]).id() == j
                        + 1 && self.partitions@[j].wf(),
                forall|j: int|
                    start.len() <= j < self.partitions@.len() ==> (
                    #[trigger] self.partitions@[j]).log().len() == 0,
                ids@ == id_range((start.len() + 1) as u32, k),
                self.topic_id == old(self).topic_id,
                self.stream_id == old(self).stream_id,
                self.name@ == old(self).name@,
                self.message_expiry == old(self).message_expiry,
                self.max_topic_size == old(self).max_topic_size,
                self.compression_algorithm == old(self).compression_algorithm,
                self.replication_factor == old(self).replication_factor,
                self.next_partition == old(self).next_partition,
            decreases count - k,
        {
            let id = (self.partitions.len() + 1) as u32;
            self.partitions.push(Partition::new(id));
            ids.push(id);
            proof {
                assert(self.partitions@.take(start.len() as int) =~= start);
                assert(ids@ =~= id_range((start.len() + 1) as u32, (k + 1) as u32));
            }
            k = k + 1;
        }
        ids
    }

    /// A topic with partitions 1 to `partitions_count`, all empty, and its
    /// attributes normalized.
    pub fn new(
        stream_id: u32,
        topic_id: u32,
        name: String,
        partitions_count: u32,
        message_expiry: Option<u32>,
        compression_algorithm: CompressionAlgorithm,
        max_topic_size: Option<u64>,
        replication_factor: Option<u8>,
    ) -> (r: (Topic, Vec<u32>))
        ensures
            r.0.wf(),
            r.0.tid() == topic_id,
            r.0.sid() == stream_id,
            r.0.name_view() == name@,
            r.0.expiry() == normalized(message_expiry),
            r.0.size_limit() == normalized_size(max_topic_size),
            r.0.compression() == compression_algorithm,
            r.0.replication() == normalized_replication(replication_factor),
            r.0.parts().len() == partitions_count,
            forall|k: int| 0 <= k < partitions_count
                ==> (#[trigger] r.0.parts()[k]).log().len() == 0,
            r.1@ == id_range(1, partitions_count),
    {
        let mut topic = Topic {
            topic_id,
            stream_id,
            name,
            partitions: Vec::new(),
            message_expiry: normalize(message_expiry),
            compression_algorithm,
            max_topic_size: normalize_size(max_topic_size),
            replication_factor: normalize_replication(replication_factor),
            next_partition: 0,
        };
        let ids = topic.push_partitions(partitions_count);
        (topic, ids)
    }

    pub fn topic_id(&self) -> (r: u32)
        ensures
            r == self.tid(),
    {
        self.topic_id
    }

    pub fn stream_id(&self) -> (r: u32)
        ensures
            r == self.sid(),
    {
        self.stream_id
    }

    pub fn name(&self) -> (r: &String)
        ensures
            r@ == self.name_view(),
    {
        &self.name
    }

    pub fn message_expiry(&self) -> (r: Option<u32>)
        ensures
            r == self.expiry(),
    {
        self.message_expiry
    }

    pub fn max_topic_size(&self) -> (r: Option<u64>)
        ensures
            r == self.size_limit(),
    {
        self.max_topic_size
    }

    pub fn replication_factor(&self) -> (r: u8)
        ensures
            r == self.replication(),
    {
        self.replication_factor
    }

    pub fn compression_algorithm(&self) -> (r: CompressionAlgorithm)
        ensures
            r == self.compression(),
    {
        self.compression_algorithm
    }

    /// Bytes of all cached messages, capped at `u64::MAX`.
    pub fn size_bytes(&self) -> (r: u64)
        requires
            self.wf(),
        ensures
            r == capped(parts_bytes(self.parts())),
    {
        let mut total: u64 = 0;
        let mut i: usize = 0;
        while i < self.partitions.len()
            invariant
                self.wf(),
                i <= self.partitions@.len(),
                total == capped(parts_bytes(self.partitions@.take(i as int))),
            decreases self.partitions@.len() - i,
        {
            proof {
                assert(self.partitions@.take(i + 1).drop_last() =~= self.partitions@.take(i as int));
                assert(self.partitions@.take(i + 1).last() == self.partitions@[i as int]);
                assert(self.parts()[i as int].wf());
            }
            let part = self.partitions[i].size_bytes();
            assert(parts_bytes(self.partitions@.take(i + 1)) == parts_bytes(
                self.partitions@.take(i as int),
            ) + self.partitions@[i as int].cache_bytes());
            total = total.saturating_add(part);
            i = i + 1;
        }
        proof {
            assert(self.partitions@.take(self.partitions@.len() as int) =~= self.partitions@);
        }
        total
    }

    pub fn has_partitions(&self) -> (r: bool)
        ensures
            r == (self.parts().len() > 0),
    {
        self.partitions.len() > 0
    }

    pub fn get_partitions_count(&self) -> (r: u32)
        requires
            self.wf(),
        ensures
            r == self.parts().len(),
    {
        self.partitions.len() as u32
    }

    /// The ids of the partitions, in order.
    pub fn partition_ids(&self) -> (r: Vec<u32>)
        requires
            self.wf(),
        ensures
            r@ == id_range(1, self.parts().len() as u32),
    {
        let mut ids: Vec<u32> = Vec::new();
        let mut k: usize = 0;
        while k < self.partitions.len()
            invariant
                self.wf(),
                k <= self.parts().len(),
                ids@ == id_range(1, k as u32),
            decreases self.parts().len() - k,
        {
            ids.push(self.partitions[k].partition_id());
            proof {
                assert(ids@ =~= id_range(1, (k + 1) as u32));
            }
            k = k + 1;
        }
        ids
    }

    /// Adds `count` empty partitions after the last one.
    pub fn add_partitions(&mut self, count: u32) -> (r: Result<Vec<u32>, EngineError>)
        requires
            old(self).wf(),
        ensures
            final(self).wf(),
            final(self).same_config(*old(self)),
            old(self).parts().len() + count > u32::MAX ==> r == Err::<Vec<u32>, EngineError>(
                EngineError::TooManyPartitions,
            ) && *final(self) == *old(self),
            old(self).parts().len() + count <= u32::MAX ==> (r matches Ok(ids) && ids@ == id_range(
                (old(self).parts().len() + 1) as u32,
                count,
            ) && final(self).parts().len() == old(self).parts().len() + count
                && final(self).parts().take(old(self).parts().len() as int) == old(self).parts()
                && forall|k: int| old(self).parts().len() <= k < final(self).parts().len()
                    ==> (#[trigger] final(self).parts()[k]).log().len() == 0),
    {
        if count as usize > u32::MAX as usize - self.partitions.len() {
            return Err(EngineError::TooManyPartitions);
        }
        Ok(self.push_partitions(count))
    }

    /// Changes the mutable attributes, normalizing them as `new` does.
    pub fn update(
        &mut self,
        name: String,
        message_expiry: Option<u32>,
        compression_algorithm: CompressionAlgorithm,
        max_topic_size: Option<u64>,
        replication_factor: Option<u8>,
    )
        requires
            old(self).wf(),
        ensures
            final(self).wf(),
            final(self).tid() == old(self).tid(),
            final(self).sid() == old(self).sid(),
            final(self).parts() == old(self).parts(),
            final(self).name_view() == name@,
            final(self).expiry() == normalized(message_expiry),
            final(self).size_limit() == normalized_size(max_topic_size),
            final(self).compression() == compression_algorithm,
            final(self).replication() == normalized_replication(replication_factor),
    {
        self.name = name;
        self.message_expiry = normalize(message_expiry);
        self.compression_algorithm = compression_algorithm;
        self.max_topic_size = normalize_size(max_topic_size);
        self.replication_factor = normalize_replication(replication_factor);
    }

    /// The position of the partition that `partitioning` selects for an
    /// append of `count` messages; nothing changes.
    pub fn target_partition(&self, partitioning: &Partitioning, count: usize) -> (r: Result<
        usize,
        EngineError,
    >)
        requires
            self.wf(),
        ensures
            ({
                let len = self.parts().len();
                let i = target_index(*partitioning, len, self.next());
                if len == 0 {
                    r == Err::<usize, EngineError>(EngineError::NoPartitions(self.tid(), self.sid()))
                } else if !(0 <= i < len) {
                    r == Err::<usize, EngineError>(EngineError::ResourceNotFound)
                } else if self.parts()[i].log().len() + count > u64::MAX {
                    r == Err::<usize, EngineError>(EngineError::InternalError)
                } else {
                    r == Ok::<usize, EngineError>(i as usize)
                }
            }),
    {
        let len = self.partitions.len();
        if len == 0 {
            return Err(EngineError::NoPartitions(self.topic_id, self.stream_id));
        }
        let idx: usize = match partitioning {
            Partitioning::Balanced => self.next_partition % len,
            Partitioning::PartitionId(n) => {
                if *n == 0 || *n as usize > len {
                    return Err(EngineError::ResourceNotFound);
                }
                (*n - 1) as usize
            },
            Partitioning::MessagesKey(k) => (xxh64(k) % (len as u64)) as usize,
        };
        let stored = self.partitions[idx].messages_count();
        if count as u64 > u64::MAX - stored {
            return Err(EngineError::InternalError);
        }
        Ok(idx)
    }

    /// Appends `messages` to partition position `idx`, the one that
    /// `target_partition` chose, and moves the round-robin position on after
    /// a balanced append. Returns the partition id.
    pub fn append_to(
        &mut self,
        idx: usize,
        partitioning: &Partitioning,
        messages: Vec<Message>,
        timestamp: u64,
    ) -> (r: u32)
        requires
            old(self).wf(),
            idx < old(self).parts().len(),
            idx == target_index(*partitioning, old(self).parts().len(), old(self).next()),
            old(self).parts()[idx as int].log().len() + messages@.len() <= u64::MAX,
        ensures
            final(self).wf(),
            final(self).same_config(*old(self)),
            final(self).parts().len() == old(self).parts().len(),
            r == idx + 1,
            log_appended(
                old(self).parts()[idx as int].log(),
                final(self).parts()[idx as int].log(),
                messages@,
                timestamp,
            ),
            final(self).parts()[idx as int].offsets() == old(self).parts()[idx as int].offsets(),
            final(self).parts()[idx as int].cached() == old(self).parts()[idx as int].cached(),
            forall|j: int|
                0 <= j < old(self).parts().len() && j != idx ==> final(self).parts()[j] == old(
                self).parts()[j],
            parts_bytes(final(self).parts()) == parts_bytes(old(self).parts()) + batch_size(
                messages@,
            ),
    {
        let ghost msgs = messages@;
        let len = self.partitions.len();
        let mut partition = self.partitions.remove(idx);
        let res = partition.append_messages(messages, timestamp);
        self.partitions.insert(idx, partition);
        proof {
            assert(res is Ok);
            assert(forall|j: int|
                0 <= j < old(self).partitions@.len() && j != idx ==> self.partitions@[j] == old(self).partitions@[j]);
            lemma_parts_bytes_one_changed(old(self).partitions@, self.partitions@, idx as int);
            lemma_append_cache_bytes(
                old(self).partitions@[idx as int].log(),
                self.partitions@[idx as int].log(),
                msgs,
                timestamp,
                old(self).partitions@[idx as int].cached() as int,
            );
        }
        if let Partitioning::Balanced = partitioning {
            self.next_partition = (idx + 1) % len;
        }
        (idx + 1) as u32
    }

    /// The position of a partition that still caches messages, if any; when
    /// there is none, the topic caches no bytes.
    pub fn find_cached(&self) -> (r: Option<usize>)
        requires
            self.wf(),
        ensures
            r matches Some(k) ==> k < self.parts().len() && self.parts()[k as int].cached()
                < self.parts()[k as int].log().len(),
            r is None ==> parts_bytes(self.parts()) == 0,
    {
        let mut k: usize = 0;
        while k < self.partitions.len()
            invariant
                self.wf(),
                k <= self.parts().len(),
                forall|j: int| 0 <= j < k ==> (#[trigger] self.parts()[j]).cached() == self.parts()[j].log().len(),
            decreases self.parts().len() - k,
        {
            if self.partitions[k].has_cached() {
                return Some(k);
            }
            k = k + 1;
        }
        proof {
            lemma_parts_bytes_none_cached(self.parts());
        }
        None
    }

    /// Evicts the oldest cached message of partition position `k` and
    /// returns its size; every log stays as it was.
    pub fn evict_oldest(&mut self, k: usize) -> (r: u64)
        requires
            old(self).wf(),
            k < old(self).parts().len(),
            old(self).parts()[k as int].cached() < old(self).parts()[k as int].log().len(),
        ensures
            final(self).wf(),
            final(self).same_config(*old(self)),
            final(self).next() == old(self).next(),
            final(self).parts().len() == old(self).parts().len(),
            forall|j: int|
                0 <= j < old(self).parts().len() ==> (#[trigger] final(self).parts()[j]).log() == old(
                self).parts()[j].log() && final(self).parts()[j].offsets() == old(self).parts()[j].offsets(),
            ({
                let size = message_size(
                    old(self).parts()[k as int].log()[old(self).parts()[k as int].cached() as int].payload@.len(),
                );
                &&& parts_bytes(final(self).parts()) + size == parts_bytes(old(self).parts())
                &&& r == capped(size)
                &&& size > 0
            }),
    {
        let mut partition = self.partitions.remove(k);
        let size = partition.evict_oldest();
        self.partitions.insert(k, partition);
        proof {
            assert(forall|j: int|
                0 <= j < old(self).partitions@.len() && j != k ==> self.partitions@[j] == old(self).partitions@[j]);
            lemma_parts_bytes_one_changed(old(self).partitions@, self.partitions@, k as int);
        }
        size
    }

    /// Up to `count` messages of partition `partition_id`, from where
    /// `strategy` says.
    pub fn get_messages(
        &self,
        consumer: PollingConsumer,
        partition_id: u32,
        strategy: PollingStrategy,
        count: u32,
    ) -> (r: Result<Vec<PolledMessage>, EngineError>)
        requires
            self.wf(),
        ensures
            !(1 <= partition_id <= self.parts().len())
                ==> r == Err::<Vec<PolledMessage>, EngineError>(
                EngineError::ResourceNotFound,
            ),
            1 <= partition_id <= self.parts().len() ==> (r matches Ok(v) && mviews(v@) == polled(
                self.parts()[partition_id - 1].log(),
                strategy,
                count,
                self.parts()[partition_id - 1].stored_offset(consumer),
            )),
    {
        if partition_id == 0 || partition_id as usize > self.partitions.len() {
            return Err(EngineError::ResourceNotFound);
        }
        let p = &self.partitions[(partition_id - 1) as usize];
        Ok(p.get_messages(consumer, strategy, count))
    }

    /// Records `offset` for `consumer` on partition `partition_id`.
    pub fn store_consumer_offset(
        &mut self,
        consumer: PollingConsumer,
        partition_id: u32,
        offset: u64,
    ) -> (r: Result<(), EngineError>)
        requires
            old(self).wf(),
        ensures
            final(self).wf(),
            final(self).same_config(*old(self)),
            final(self).parts().len() == old(self).parts().len(),
            !(1 <= partition_id <= old(self).parts().len()) ==> r == Err::<(), EngineError>(
                EngineError::ResourceNotFound,
            ) && *final(self) == *old(self),
            1 <= partition_id <= old(self).parts().len() ==> {
                let i = partition_id - 1;
                &&& r is Ok
                &&& final(self).parts()[i].log() == old(self).parts()[i].log()
                &&& final(self).parts()[i].cached() == old(self).parts()[i].cached()
                &&& final(self).parts()[i].stored_offset(consumer) == Some(offset)
                &&& forall|j: int|
                    0 <= j < old(self).parts().len()
                        && j != i ==> final(self).parts()[j] == old(self).parts()[j]
            },
    {
        if partition_id == 0 || partition_id as usize > self.partitions.len() {
            return Err(EngineError::ResourceNotFound);
        }
        let idx = (partition_id - 1) as usize;
        let mut partition = self.partitions.remove(idx);
        partition.store_consumer_offset(consumer, offset);
        self.partitions.insert(idx, partition);
        proof {
            assert(forall|j: int|
                0 <= j < old(self).partitions@.len()
                    && j != idx ==> self.partitions@[j] == old(self).partitions@[j]);
        }
        Ok(())
    }

    /// Drops all messages of all partitions; the partitions and the
    /// configuration stay.
    pub fn purge(&mut self)
        requires
            old(self).wf(),
        ensures
            final(self).wf(),
            final(self).same_config(*old(self)),
            final(self).parts().len() == old(self).parts().len(),
            forall|k: int|
                0 <= k < final(self).parts().len()
                    ==> (#[trigger] final(self).parts()[k]).log().len()
                    == 0,
    {
        let n = self.partitions.len();
        let mut k: usize = 0;
        while k < n
            invariant
                k <= n,
                n == self.partitions@.len(),
                forall|j: int|
                    0 <= j < n ==> (#[trigger] self.partitions@[j]).id() == j + 1
                        && self.partitions@[j].wf(),
                forall|j: int| 0 <= j < k ==> (#[trigger] self.partitions@[j]).log().len() == 0,
                n <= u32::MAX,
                self.topic_id == old(self).topic_id,
                self.stream_id == old(self).stream_id,
                self.name@ == old(self).name@,
                self.message_expiry == old(self).message_expiry,
                self.max_topic_size == old(self).max_topic_size,
                self.compression_algorithm == old(self).compression_algorithm,
                self.replication_factor == old(self).replication_factor,
            decreases n - k,
        {
            let mut partition = self.partitions.remove(k);
            partition.purge();
            self.partitions.insert(k, partition);
            k = k + 1;
        }
    }
}

/// The partition ids of a well-formed topic with partitions start at 1 and
/// leave no gap: their count is the largest id minus the smallest plus one.
pub proof fn partition_ids_are_contiguous(t: Topic)
    requires
        t.wf(),
        t.parts().len() > 0,
    ensures
        t.parts()[0].id() == 1,
        t.parts().len() == t.parts()[t.parts().len() - 1].id() - t.parts()[0].id() + 1,
        forall|k: int|
            0 <= k < t.parts().len()
                ==> t.parts()[0].id() <= #[trigger] t.parts()[k].id() <= t.parts()[t.parts().len() - 1].id(),
{
    assert(t.parts()[0].id() == 1);
    assert(t.parts()[t.parts().len() - 1].id() == t.parts().len());
}

} // verus!
