use vstd::prelude::*;
use crate::error::EngineError;
use crate::identifier::Identifier;
use crate::memory_tracker::CacheMemoryTracker;
use crate::namespace::{shard_for, shard_of, ResourceNamespace};
use crate::partition::{
    batch_size, log_appended, mviews, polled, Message, Partition, PolledMessage,
    PollingConsumer, PollingStrategy,
};
use crate::permissions::Operation;
use crate::session::{caller_of, without_topic_groups};
use crate::sums::{lemma_sum_remove, lemma_sum_update, lemma_sum_zero_tail, sum_of};
use crate::topic::{
    id_range, lemma_parts_bytes_empty_tail, lemma_parts_bytes_one_changed, normalized,
    normalized_replication, normalized_size, parts_bytes, target_index, CompressionAlgorithm,
    Partitioning, Topic,
};
use crate::users::{lowercase_of, to_lowercase, user_allowed, System};

verus! {

/// The shard that owns a partition.
#[derive(Clone, Copy, Debug, PartialEq, Eq, Structural)]
pub struct ShardInfo {
    pub id: u16,
}

/// One row of the routing table.
#[derive(Clone, Copy, Debug, PartialEq, Eq, Structural)]
pub struct ShardRecord {
    pub namespace: ResourceNamespace,
    pub shard: ShardInfo,
}

/// A stream: a numeric id and a unique name.
#[derive(Debug)]
pub struct Stream {
    pub stream_id: u32,
    pub name: String,
}

/// What a poll asks for.
#[derive(Clone, Copy, Debug)]
pub struct PollingArgs {
    pub strategy: PollingStrategy,
    pub count: u32,
    pub auto_commit: bool,
}

impl PollingArgs {
    pub fn new(strategy: PollingStrategy, count: u32, auto_commit: bool) -> (r: PollingArgs)
        ensures
            r.strategy == strategy,
            r.count == count,
            r.auto_commit == auto_commit,
    {
        PollingArgs { strategy, count, auto_commit }
    }
}

pub open spec fn stream_matches(s: Stream, id: Identifier) -> bool {
    match id {
        Identifier::Numeric(n) => s.stream_id == n,
        Identifier::Named(x) => s.name@ == lowercase_of(x@),
    }
}

pub open spec fn is_first_stream(streams: Seq<Stream>, id: Identifier, i: int) -> bool {
    &&& 0 <= i < streams.len()
    &&& stream_matches(streams[i], id)
    &&& forall|j: int| 0 <= j < i ==> !stream_matches(#[trigger] streams[j], id)
}

pub open spec fn has_stream(streams: Seq<Stream>, id: Identifier) -> bool {
    exists|i: int| 0 <= i < streams.len() && stream_matches(#[trigger] streams[i], id)
}

/// The id of the first stream that `id` names.
pub open spec fn stream_id_of(streams: Seq<Stream>, id: Identifier) -> u32 {
    streams[choose|i: int| is_first_stream(streams, id, i)].stream_id
}

pub open spec fn topic_matches(t: Topic, stream_id: u32, id: Identifier) -> bool {
    t.sid() == stream_id && match id {
        Identifier::Numeric(n) => t.tid() == n,
        Identifier::Named(x) => t.name_view() == lowercase_of(x@),
    }
}

pub open spec fn is_first_topic(topics: Seq<Topic>, stream_id: u32, id: Identifier,
    i: int) -> bool {
    &&& 0 <= i < topics.len()
    &&& topic_matches(topics[i], stream_id, id)
    &&& forall|j: int| 0 <= j < i ==> !topic_matches(#[trigger] topics[j], stream_id, id)
}

pub open spec fn has_topic(topics: Seq<Topic>, stream_id: u32, id: Identifier) -> bool {
    exists|i: int| 0 <= i < topics.len() && topic_matches(#[trigger] topics[i], stream_id, id)
}

/// The position of the first topic of stream `stream_id` that `id` names.
pub open spec fn topic_index(topics: Seq<Topic>, stream_id: u32, id: Identifier) -> int {
    choose|i: int| is_first_topic(topics, stream_id, id, i)
}

proof fn lemma_first_stream(streams: Seq<Stream>, id: Identifier, i: int)
    requires
        is_first_stream(streams, id, i),
    ensures
        stream_id_of(streams, id) == streams[i].stream_id,
{
    let c = choose|c: int| is_first_stream(streams, id, c);
    assert(is_first_stream(streams, id, c));
    if c < i {
        assert(!stream_matches(streams[c], id));
    } else if i < c {
        assert(!stream_matches(streams[i], id));
    }
}

proof fn lemma_first_topic(topics: Seq<Topic>, stream_id: u32, id: Identifier, i: int)
    requires
        is_first_topic(topics, stream_id, id, i),
    ensures
        topic_index(topics, stream_id, id) == i,
{
    let c = choose|c: int| is_first_topic(topics, stream_id, id, c);
    assert(is_first_topic(topics, stream_id, id, c));
    if c < i {
        assert(!topic_matches(topics[c], stream_id, id));
    } else if i < c {
        assert(!topic_matches(topics[i], stream_id, id));
    }
}

/// Why reaching topic `topic_id` of stream `stream_id` for `op` fails, if it
/// does: the caller must be authenticated, both must exist, and the caller's
/// permissions must allow `op` on the stream.
pub open spec fn access_error(
    system: System,
    streams: Seq<Stream>,
    topics: Seq<Topic>,
    client_id: u32,
    stream_id: Identifier,
    topic_id: Identifier,
    op: Operation,
) -> Option<EngineError> {
    let caller = caller_of(system.clients(), client_id);
    if caller == 0 {
        Some(EngineError::NotAuthenticated)
    } else if !has_stream(streams, stream_id) {
        Some(EngineError::ResourceNotFound)
    } else if !has_topic(topics, stream_id_of(streams, stream_id), topic_id) {
        Some(EngineError::ResourceNotFound)
    } else if !user_allowed(system.users_seq(), caller, op, stream_id_of(streams, stream_id)) {
        Some(EngineError::PermissionDenied)
    } else {
        None
    }
}

/// The routing rows for partitions 1 to `count` of a topic.
pub open spec fn shard_rows(stream_id: u32, topic_id: u32, first: u32, count: u32,
    shards_count: u16) -> Seq<
    ShardRecord,
> {
    Seq::new(
        count as nat,
        |k: int|
            {
                let ns = ResourceNamespace {
                    stream_id,
                    topic_id,
                    partition_id: (first + k) as u32,
                };
                ShardRecord { namespace: ns, shard: ShardInfo { id: shard_of(ns, shards_count) } }
            },
    )
}

proof fn lemma_wf_kept(before: IggyShard, after: IggyShard)
    requires
        before.wf(),
        after.topics_seq() == before.topics_seq(),
        after.shards() == before.shards(),
        after.tracker() == before.tracker(),
    ensures
        after.wf(),
{
    assert forall|i: int| 0 <= i < after.topics_seq().len() implies (#[trigger] after.topics_seq()[i]).wf() by {
        assert(before.topics_seq()[i].wf());
    }
}

/// `a` holds the same messages and offsets as `b`; only what is cached may differ.
pub open spec fn same_logs(a: Topic, b: Topic) -> bool {
    &&& a.same_config(b)
    &&& a.next() == b.next()
    &&& a.parts().len() == b.parts().len()
    &&& forall|k: int|
        0 <= k < a.parts().len() ==> (#[trigger] a.parts()[k]).log() == b.parts()[k].log()
            && a.parts()[k].offsets() == b.parts()[k].offsets()
}

pub open spec fn all_same_logs(a: Seq<Topic>, b: Seq<Topic>) -> bool {
    &&& a.len() == b.len()
    &&& forall|j: int| 0 <= j < a.len() ==> same_logs(#[trigger] a[j], b[j])
}

proof fn lemma_same_logs_step(now: Seq<Topic>, before: Seq<Topic>, start: Seq<Topic>, i: int)
    requires
        all_same_logs(before, start),
        now.len() == before.len(),
        0 <= i < now.len(),
        forall|j: int| 0 <= j < now.len() && j != i ==> now[j] == before[j],
        same_logs(now[i], before[i]),
    ensures
        all_same_logs(now, start),
{
    assert forall|j: int| 0 <= j < now.len() implies same_logs(#[trigger] now[j], start[j]) by {
        assert(same_logs(before[j], start[j]));
        if j == i {
            assert forall|k: int| 0 <= k < now[j].parts().len() implies (#[trigger] now[j].parts()[k]).log()
                == start[j].parts()[k].log() && now[j].parts()[k].offsets() == start[j].parts()[k].offsets() by {
                assert(now[j].parts()[k].log() == before[j].parts()[k].log());
                assert(before[j].parts()[k].log() == start[j].parts()[k].log());
            }
        }
    }
}

/// Bytes that the messages of all `topics` account for.
pub open spec fn topics_bytes(topics: Seq<Topic>) -> nat {
    sum_of(topics, |t: Topic| parts_bytes(t.parts()))
}

/// Within a stream, no two topics share an id or a name.
pub open spec fn topics_distinct(topics: Seq<Topic>) -> bool {
    forall|i: int, j: int|
        0 <= i < topics.len() && 0 <= j < topics.len() && i != j && (#[trigger] topics[i]).sid()
            == (#[trigger] topics[j]).sid() ==> topics[i].tid() != topics[j].tid()
            && topics[i].name_view() != topics[j].name_view()
}

/// `after` is `before` with only the topic at `i` changed.
pub open spec fn only_topic_changed(before: Seq<Topic>, after: Seq<Topic>, i: int) -> bool {
    &&& after.len() == before.len()
    &&& forall|j: int| 0 <= j < before.len() && j != i ==> after[j] == before[j]
}

/// The routing rows that do not belong to topic `topic_id` of stream `stream_id`.
pub open spec fn rows_without_topic(rows: Seq<ShardRecord>, stream_id: u32, topic_id: u32) -> Seq<
    ShardRecord,
> {
    rows.filter(
        |r: ShardRecord| !(r.namespace.stream_id == stream_id && r.namespace.topic_id == topic_id),
    )
}

/// The tracker after a successful append of `batch` bytes.
pub open spec fn tracker_after(t: Option<CacheMemoryTracker>, batch: nat) -> Option<nat> {
    match t {
        Some(t) => Some(
            if t.used() + batch <= u64::MAX {
                t.used() + batch
            } else {
                u64::MAX as nat
            },
        ),
        None => None,
    }
}

proof fn lemma_wf_push(before: IggyShard, after: IggyShard)
    requires
        before.wf(),
        after.topics_seq().len() == before.topics_seq().len() + 1,
        after.topics_seq().drop_last() == before.topics_seq(),
        after.topics_seq().last().wf(),
        after.shards() == before.shards(),
        after.tracker() == before.tracker(),
        parts_bytes(after.topics_seq().last().parts()) == 0,
        forall|j: int|
            0 <= j < before.topics_seq().len() && (#[trigger] before.topics_seq()[j]).sid()
                == after.topics_seq().last().sid() ==> before.topics_seq()[j].tid()
                != after.topics_seq().last().tid() && before.topics_seq()[j].name_view()
                != after.topics_seq().last().name_view(),
    ensures
        after.wf(),
{
    let n = before.topics_seq().len() as int;
    assert forall|a: int, b: int|
        0 <= a < after.topics_seq().len() && 0 <= b < after.topics_seq().len() && a != b && (
        #[trigger] after.topics_seq()[a]).sid() == (#[trigger] after.topics_seq()[b]).sid()
        implies after.topics_seq()[a].tid() != after.topics_seq()[b].tid()
        && after.topics_seq()[a].name_view() != after.topics_seq()[b].name_view() by {
        if a < n {
            assert(after.topics_seq()[a] == before.topics_seq()[a]);
        }
        if b < n {
            assert(after.topics_seq()[b] == before.topics_seq()[b]);
        }
    }
    assert forall|j: int| 0 <= j < after.topics_seq().len() implies (#[trigger] after.topics_seq()[j]).wf() by {
        if j < before.topics_seq().len() {
            assert(after.topics_seq()[j] == after.topics_seq().drop_last()[j]);
            assert(before.topics_seq()[j].wf());
        }
    }
}

proof fn lemma_wf_update(before: IggyShard, after: IggyShard, i: int)
    requires
        before.wf(),
        only_topic_changed(before.topics_seq(), after.topics_seq(), i),
        0 <= i < after.topics_seq().len(),
        after.topics_seq()[i].wf(),
        after.shards() == before.shards(),
        (after.tracker() is Some) == (before.tracker() is Some),
        after.tracker() matches Some(t) ==> t.used() + parts_bytes(before.topics_seq()[i].parts())
            == before.tracker()->Some_0.used() + parts_bytes(after.topics_seq()[i].parts()),
        after.topics_seq()[i].sid() == before.topics_seq()[i].sid(),
        after.topics_seq()[i].tid() == before.topics_seq()[i].tid(),
        after.topics_seq()[i].name_view() == before.topics_seq()[i].name_view() || forall|j: int|
            0 <= j < before.topics_seq().len() && j != i && (#[trigger] before.topics_seq()[j]).sid()
                == before.topics_seq()[i].sid() ==> before.topics_seq()[j].name_view()
                != after.topics_seq()[i].name_view(),
    ensures
        after.wf(),
{
    assert(after.topics_seq() =~= before.topics_seq().update(i, after.topics_seq()[i]));
    assert forall|a: int, b: int|
        0 <= a < after.topics_seq().len() && 0 <= b < after.topics_seq().len() && a != b && (
        #[trigger] after.topics_seq()[a]).sid() == (#[trigger] after.topics_seq()[b]).sid()
        implies after.topics_seq()[a].tid() != after.topics_seq()[b].tid()
        && after.topics_seq()[a].name_view() != after.topics_seq()[b].name_view() by {
        assert(before.topics_seq()[a].sid() == before.topics_seq()[b].sid());
    }
    lemma_sum_update(before.topics_seq(), |t: Topic| parts_bytes(t.parts()), i,
        after.topics_seq()[i]);
    assert forall|j: int| 0 <= j < after.topics_seq().len() implies (#[trigger] after.topics_seq()[j]).wf() by {
        if j != i {
            assert(before.topics_seq()[j].wf());
        }
    }
}

proof fn lemma_topic_bytes_bounded(topics: Seq<Topic>, i: int)
    requires
        0 <= i < topics.len(),
    ensures
        parts_bytes(topics[i].parts()) <= topics_bytes(topics),
        topics_bytes(topics.remove(i)) + parts_bytes(topics[i].parts()) == topics_bytes(topics),
{
    lemma_sum_remove(topics, |t: Topic| parts_bytes(t.parts()), i);
}

/// Whatever state a shard reaches through its operations, its tracker
/// accounts exactly for the bytes of the messages stored in all partitions.
pub proof fn cache_usage_matches_stored_bytes(shard: IggyShard)
    requires
        shard.wf(),
    ensures
        shard.tracker() matches Some(t) ==> t.used() == topics_bytes(shard.topics_seq()),
{
}

/// A shard's streams, topics, routing table and cache accounting.
#[derive(Debug)]
pub struct IggyShard {
    streams: Vec<Stream>,
    topics: Vec<Topic>,
    shard_table: Vec<ShardRecord>,
    shards_count: u16,
    memory_tracker: Option<CacheMemoryTracker>,
    next_stream_id: u32,
    next_topic_id: u32,
}

impl IggyShard {
    pub closed spec fn streams_seq(&self) -> Seq<Stream> {
        self.streams@
    }

    pub closed spec fn topics_seq(&self) -> Seq<Topic> {
        self.topics@
    }

    pub closed spec fn table(&self) -> Seq<ShardRecord> {
        self.shard_table@
    }

    pub closed spec fn shards(&self) -> u16 {
        self.shards_count
    }

    pub closed spec fn tracker(&self) -> Option<CacheMemoryTracker> {
        self.memory_tracker
    }

    /// The bytes the tracker accounts for; 0 without a tracker.
    pub open spec fn cache_used(&self) -> nat {
        match self.tracker() {
            Some(t) => t.used(),
            None => 0,
        }
    }

    /// Why reaching a topic for `op` fails on this shard, if it does.
    pub open spec fn access_fails(
        &self,
        system: System,
        client_id: u32,
        stream_id: Identifier,
        topic_id: Identifier,
        op: Operation,
    ) -> Option<EngineError> {
        access_error(system, self.streams_seq(), self.topics_seq(), client_id, stream_id, topic_id,
            op)
    }

    /// Every topic is well formed, and the tracker, when there is one,
    /// accounts exactly for the bytes of all cached messages.
    pub open spec fn wf(&self) -> bool {
        &&& self.shards() > 0
        &&& forall|i: int| 0 <= i < self.topics_seq().len()
            ==> (#[trigger] self.topics_seq()[i]).wf()
        &&& self.tracker() matches Some(t) ==> t.used() == topics_bytes(self.topics_seq())
        &&& topics_distinct(self.topics_seq())
    }

    /// An empty shard among `shards_count` live shards.
    pub fn new(shards_count: u16, memory_tracker: Option<CacheMemoryTracker>) -> (r: IggyShard)
        requires
            shards_count > 0,
            memory_tracker matches Some(t) ==> t.used() == 0,
        ensures
            r.wf(),
            r.shards() == shards_count,
            r.tracker() == memory_tracker,
            r.streams_seq().len() == 0,
            r.topics_seq().len() == 0,
            r.table().len() == 0,
            r.next_sid() == 1,
            r.next_tid() == 1,
    {
        IggyShard {
            streams: Vec::new(),
            topics: Vec::new(),
            shard_table: Vec::new(),
            shards_count,
            memory_tracker,
            next_stream_id: 1,
            next_topic_id: 1,
        }
    }

    pub fn get_available_shards_count(&self) -> (r: u16)
        ensures
            r == self.shards(),
    {
        self.shards_count
    }

    pub fn shard_table(&self) -> (r: &Vec<ShardRecord>)
        ensures
            r@ == self.table(),
    {
        &self.shard_table
    }

    pub fn memory_tracker(&self) -> (r: &Option<CacheMemoryTracker>)
        ensures
            *r == self.tracker(),
    {
        &self.memory_tracker
    }

    /// The user that client `client_id` is logged in as.
    pub fn ensure_authenticated(&self, system: &System, client_id: u32) -> (r: Result<u32,
        EngineError>)
        ensures
            caller_of(system.clients(), client_id) == 0 ==> r == Err::<u32, EngineError>(
                EngineError::NotAuthenticated,
            ),
            caller_of(system.clients(), client_id) != 0 ==> r == Ok::<u32, EngineError>(
                caller_of(system.clients(), client_id),
            ),
    {
        match system.client_user_id(client_id) {
            Some(u) => if u == 0 {
                Err(EngineError::NotAuthenticated)
            } else {
                Ok(u)
            },
            None => Err(EngineError::NotAuthenticated),
        }
    }

    fn stream_index(&self, id: &Identifier) -> (r: Option<usize>)
        ensures
            r matches Some(i) ==> is_first_stream(self.streams@, *id, i as int),
            r is None ==> !has_stream(self.streams@, *id),
    {
        let key = match id {
            Identifier::Named(x) => to_lowercase(x.as_str()),
            Identifier::Numeric(_) => String::new(),
        };
        let mut i: usize = 0;
        while i < self.streams.len()
            invariant
                i <= self.streams@.len(),
                id matches Identifier::Named(x) ==> key@ == lowercase_of(x@),
                forall|j: int| 0 <= j < i ==> !stream_matches(#[trigger] self.streams@[j], *id),
            decreases self.streams@.len() - i,
        {
            let hit = match id {
                Identifier::Numeric(n) => self.streams[i].stream_id == *n,
                Identifier::Named(_) => self.streams[i].name == key,
            };
            if hit {
                return Some(i);
            }
            i = i + 1;
        }
        None
    }

    fn topic_index(&self, stream_id: u32, id: &Identifier) -> (r: Option<usize>)
        ensures
            r matches Some(i) ==> is_first_topic(self.topics@, stream_id, *id, i as int),
            r is None ==> !has_topic(self.topics@, stream_id, *id),
    {
        let key = match id {
            Identifier::Named(x) => to_lowercase(x.as_str()),
            Identifier::Numeric(_) => String::new(),
        };
        let mut i: usize = 0;
        while i < self.topics.len()
            invariant
                i <= self.topics@.len(),
                id matches Identifier::Named(x) ==> key@ == lowercase_of(x@),
                forall|j: int| 0 <= j < i
                    ==> !topic_matches(#[trigger] self.topics@[j], stream_id, *id),
            decreases self.topics@.len() - i,
        {
            let t = &self.topics[i];
            let hit = t.stream_id() == stream_id && match id {
                Identifier::Numeric(n) => t.topic_id() == *n,
                Identifier::Named(_) => *t.name() == key,
            };
            if hit {
                return Some(i);
            }
            i = i + 1;
        }
        None
    }

    /// Resolves a topic for `op`: the caller, the stream id and the topic's position.
    fn access(
        &self,
        system: &System,
        client_id: u32,
        stream_id: &Identifier,
        topic_id: &Identifier,
        op: Operation,
    ) -> (r: Result<(u32, u32, usize), EngineError>)
        requires
            system.wf(),
        ensures
            match access_error(*system, self.streams@, self.topics@, client_id, *stream_id,
                *topic_id, op) {
                Some(e) => r == Err::<(u32, u32, usize), EngineError>(e),
                None => r matches Ok(v) && v.0 == caller_of(system.clients(), client_id) && v.1
                    == stream_id_of(self.streams@, *stream_id) && v.2 == topic_index(
                    self.topics@,
                    v.1,
                    *topic_id,
                ) && 0 <= v.2 < self.topics@.len() && self.topics@[v.2 as int].sid() == v.1,
            },
    {
        let caller = self.ensure_authenticated(system, client_id)?;
        let si = match self.stream_index(stream_id) {
            Some(i) => i,
            None => return Err(EngineError::ResourceNotFound),
        };
        let sid = self.streams[si].stream_id;
        proof {
            lemma_first_stream(self.streams@, *stream_id, si as int);
        }
        let ti = match self.topic_index(sid, topic_id) {
            Some(i) => i,
            None => return Err(EngineError::ResourceNotFound),
        };
        proof {
            lemma_first_topic(self.topics@, sid, *topic_id, ti as int);
        }
        system.permit(caller, op, sid)?;
        Ok((caller, sid, ti))
    }

    pub closed spec fn next_sid(&self) -> u32 {
        self.next_stream_id
    }

    /// Adds a stream under `stream_id`, or under the next automatic id; the
    /// automatic counter moves on even when that id turns out to be taken.
    pub fn create_stream(
        &mut self,
        system: &System,
        client_id: u32,
        stream_id: Option<u32>,
        name: String,
    ) -> (r: Result<u32, EngineError>)
        requires
            old(self).wf(),
            system.wf(),
        ensures
            final(self).next_tid() == old(self).next_tid(),
            final(self).next_sid() == if stream_id is None && caller_of(system.clients(), client_id)
                != 0 && user_allowed(
                system.users_seq(),
                caller_of(system.clients(), client_id),
                Operation::CreateStream,
                0,
            ) && old(self).next_sid() != u32::MAX {
                (old(self).next_sid() + 1) as u32
            } else {
                old(self).next_sid()
            },
            final(self).wf(),
            final(self).topics_seq() == old(self).topics_seq(),
            final(self).table() == old(self).table(),
            final(self).shards() == old(self).shards(),
            final(self).tracker() == old(self).tracker(),
            ({
                let caller = caller_of(system.clients(), client_id);
                let id = match stream_id {
                    Some(id) => id,
                    None => old(self).next_sid(),
                };
                if caller == 0 {
                    r == Err::<u32, EngineError>(EngineError::NotAuthenticated)
                        && final(self).streams_seq() == old(self).streams_seq()
                } else if !user_allowed(system.users_seq(), caller, Operation::CreateStream, 0) {
                    r == Err::<u32, EngineError>(EngineError::PermissionDenied)
                        && final(self).streams_seq() == old(self).streams_seq()
                } else if stream_id is None && old(self).next_sid() == u32::MAX {
                    r == Err::<u32, EngineError>(EngineError::InternalError)
                        && final(self).streams_seq() == old(self).streams_seq()
                } else if has_stream(old(self).streams_seq(),
                    Identifier::Numeric(id)) || has_stream(
                    old(self).streams_seq(),
                    Identifier::Named(name),
                ) {
                    r == Err::<u32, EngineError>(EngineError::StreamAlreadyExists)
                        && final(self).streams_seq() == old(self).streams_seq()
                } else {
                    &&& r == Ok::<u32, EngineError>(id)
                    &&& final(self).streams_seq().len() == old(self).streams_seq().len() + 1
                    &&& final(self).streams_seq().drop_last() == old(self).streams_seq()
                    &&& final(self).streams_seq().last().stream_id == id
                    &&& final(self).streams_seq().last().name@ == lowercase_of(name@)
                }
            }),
    {
        let caller = self.ensure_authenticated(system, client_id)?;
        system.permit(caller, Operation::CreateStream, 0)?;
        let id = match stream_id {
            Some(id) => id,
            None => {
                if self.next_stream_id == u32::MAX {
                    return Err(EngineError::InternalError);
                }
                let id = self.next_stream_id;
                self.next_stream_id = self.next_stream_id + 1;
                id
            },
        };
        proof {
            lemma_wf_kept(*old(self), *self);
        }
        if self.stream_index(&Identifier::Numeric(id)).is_some() {
            return Err(EngineError::StreamAlreadyExists);
        }
        let by_name = Identifier::Named(name);
        if self.stream_index(&by_name).is_some() {
            return Err(EngineError::StreamAlreadyExists);
        }
        let name = match by_name {
            Identifier::Named(n) => n,
            Identifier::Numeric(_) => {
                return Err(EngineError::InternalError);
            },
        };
        self.streams.push(Stream { stream_id: id, name: to_lowercase(name.as_str()) });
        proof {
            assert(self.streams@.drop_last() =~= old(self).streams@);
            lemma_wf_kept(*old(self), *self);
        }
        Ok(id)
    }

    pub closed spec fn next_tid(&self) -> u32 {
        self.next_topic_id
    }

    fn push_shard_rows(&mut self, stream_id: u32, topic_id: u32, ids: &Vec<u32>, first: u32,
        count: u32)
        requires
            old(self).shards() > 0,
            ids@ == id_range(first, count),
        ensures
            final(self).table() == old(self).table() + shard_rows(
                stream_id,
                topic_id,
                first,
                count,
                old(self).shards(),
            ),
            final(self).topics_seq() == old(self).topics_seq(),
            final(self).streams_seq() == old(self).streams_seq(),
            final(self).shards() == old(self).shards(),
            final(self).tracker() == old(self).tracker(),
            final(self).next_tid() == old(self).next_tid(),
            final(self).next_sid() == old(self).next_sid(),
    {
        let ghost start = self.shard_table@;
        let mut k: usize = 0;
        while k < ids.len()
            invariant
                k <= ids@.len(),
                ids@ == id_range(first, count),
                self.shard_table@
                    == start + shard_rows(stream_id, topic_id, first, k as u32, self.shards_count),
                self.shards_count == old(self).shards_count,
                self.shards_count > 0,
                self.topics@ == old(self).topics@,
                self.streams@ == old(self).streams@,
                self.memory_tracker == old(self).memory_tracker,
                self.next_topic_id == old(self).next_topic_id,
                self.next_stream_id == old(self).next_stream_id,
            decreases ids@.len() - k,
        {
            let ns = ResourceNamespace::new(stream_id, topic_id, ids[k]);
            let shard = shard_for(&ns, self.shards_count);
            self.shard_table.push(ShardRecord { namespace: ns, shard: ShardInfo { id: shard } });
            proof {
                assert(self.shard_table@ =~= start + shard_rows(
                    stream_id,
                    topic_id,
                    first,
                    (k + 1) as u32,
                    self.shards_count,
                ));
            }
            k = k + 1;
        }
        proof {
            assert(shard_rows(stream_id, topic_id, first, k as u32,
                self.shards_count) =~= shard_rows(
                stream_id,
                topic_id,
                first,
                count,
                self.shards_count,
            ));
        }
    }

    /// Adds a topic with partitions 1 to `partitions_count` to a stream, and
    /// routes each new partition to the shard its namespace hashes to.
    /// Returns the topic's id: `topic_id`, or the next automatic one.
    pub fn create_topic(
        &mut self,
        system: &System,
        client_id: u32,
        stream_id: &Identifier,
        topic_id: Option<u32>,
        name: String,
        partitions_count: u32,
        message_expiry: Option<u32>,
        compression_algorithm: CompressionAlgorithm,
        max_topic_size: Option<u64>,
        replication_factor: Option<u8>,
    ) -> (r: Result<u32, EngineError>)
        requires
            old(self).wf(),
            system.wf(),
        ensures
            final(self).next_sid() == old(self).next_sid(),
            final(self).next_tid() == if topic_id is None && r is Ok {
                (old(self).next_tid() + 1) as u32
            } else {
                old(self).next_tid()
            },
            final(self).wf(),
            final(self).streams_seq() == old(self).streams_seq(),
            final(self).shards() == old(self).shards(),
            final(self).tracker() == old(self).tracker(),
            ({
                let caller = caller_of(system.clients(), client_id);
                let sid = stream_id_of(old(self).streams_seq(), *stream_id);
                let id = match topic_id {
                    Some(id) => id,
                    None => old(self).next_tid(),
                };
                if caller == 0 {
                    r == Err::<u32, EngineError>(EngineError::NotAuthenticated)
                } else if !has_stream(old(self).streams_seq(), *stream_id) {
                    r == Err::<u32, EngineError>(EngineError::ResourceNotFound)
                } else if !user_allowed(system.users_seq(), caller, Operation::CreateTopic, sid) {
                    r == Err::<u32, EngineError>(EngineError::PermissionDenied)
                } else if topic_id is None && old(self).next_tid() == u32::MAX {
                    r == Err::<u32, EngineError>(EngineError::InternalError)
                } else if has_topic(old(self).topics_seq(), sid,
                    Identifier::Numeric(id)) || has_topic(
                    old(self).topics_seq(),
                    sid,
                    Identifier::Named(name),
                ) {
                    r == Err::<u32, EngineError>(EngineError::TopicAlreadyExists)
                } else {
                    let t = final(self).topics_seq().last();
                    &&& r == Ok::<u32, EngineError>(id)
                    &&& final(self).topics_seq().len() == old(self).topics_seq().len() + 1
                    &&& final(self).topics_seq().drop_last() == old(self).topics_seq()
                    &&& t.tid() == id
                    &&& t.sid() == sid
                    &&& t.name_view() == lowercase_of(name@)
                    &&& t.parts().len() == partitions_count
                    &&& t.expiry() == normalized(message_expiry)
                    &&& t.size_limit() == normalized_size(max_topic_size)
                    &&& t.compression() == compression_algorithm
                    &&& t.replication() == normalized_replication(replication_factor)
                    &&& final(self).table() == old(self).table() + shard_rows(
                        sid,
                        id,
                        1,
                        partitions_count,
                        old(self).shards(),
                    )
                }
            }),
            r is Err ==> final(self).topics_seq() == old(self).topics_seq() && final(self).table()
                == old(self).table(),
    {
        let caller = self.ensure_authenticated(system, client_id)?;
        let si = match self.stream_index(stream_id) {
            Some(i) => i,
            None => return Err(EngineError::ResourceNotFound),
        };
        let sid = self.streams[si].stream_id;
        proof {
            lemma_first_stream(self.streams@, *stream_id, si as int);
        }
        system.permit(caller, Operation::CreateTopic, sid)?;
        let id = match topic_id {
            Some(id) => id,
            None => {
                if self.next_topic_id == u32::MAX {
                    return Err(EngineError::InternalError);
                }
                self.next_topic_id
            },
        };
        if self.topic_index(sid, &Identifier::Numeric(id)).is_some() {
            return Err(EngineError::TopicAlreadyExists);
        }
        let by_name = Identifier::Named(name);
        if self.topic_index(sid, &by_name).is_some() {
            return Err(EngineError::TopicAlreadyExists);
        }
        let name = match by_name {
            Identifier::Named(n) => n,
            Identifier::Numeric(_) => {
                return Err(EngineError::InternalError);
            },
        };
        if topic_id.is_none() {
            self.next_topic_id = self.next_topic_id + 1;
        }
        let (topic, ids) = Topic::new(
            sid,
            id,
            to_lowercase(name.as_str()),
            partitions_count,
            message_expiry,
            compression_algorithm,
            max_topic_size,
            replication_factor,
        );
        self.push_shard_rows(sid, id, &ids, 1, partitions_count);
        proof {
            lemma_parts_bytes_empty_tail(topic.parts(), 0);
            assert(topic.parts().take(0) =~= Seq::<Partition>::empty());
        }
        self.topics.push(topic);
        proof {
            assert(self.topics@.drop_last() =~= old(self).topics@);
            lemma_wf_push(*old(self), *self);
        }
        Ok(id)
    }

    /// The topic that `topic_id` names in the stream that `stream_id` names.
    pub fn find_topic(&self, system: &System, client_id: u32, stream_id: &Identifier,
        topic_id: &Identifier) -> (r:
        Result<&Topic, EngineError>)
        requires
            system.wf(),
        ensures
            match self.access_fails(*system, client_id, *stream_id, *topic_id,
                Operation::GetTopic) {
                Some(e) => r == Err::<&Topic, EngineError>(e),
                None => r matches Ok(t) && *t == self.topics_seq()[topic_index(
                    self.topics_seq(),
                    stream_id_of(self.streams_seq(), *stream_id),
                    *topic_id,
                )],
            },
    {
        let (_, _, ti) = self.access(system, client_id, stream_id, topic_id, Operation::GetTopic)?;
        Ok(&self.topics[ti])
    }

    /// The topics of the stream that `stream_id` names, in creation order.
    pub fn find_topics(&self, system: &System, client_id: u32,
        stream_id: &Identifier) -> (r: Result<
        Vec<&Topic>,
        EngineError,
    >)
        requires
            system.wf(),
        ensures
            ({
                let caller = caller_of(system.clients(), client_id);
                let sid = stream_id_of(self.streams_seq(), *stream_id);
                if caller == 0 {
                    r == Err::<Vec<&Topic>, EngineError>(EngineError::NotAuthenticated)
                } else if !has_stream(self.streams_seq(), *stream_id) {
                    r == Err::<Vec<&Topic>, EngineError>(EngineError::ResourceNotFound)
                } else if !user_allowed(system.users_seq(), caller, Operation::GetTopics, sid) {
                    r == Err::<Vec<&Topic>, EngineError>(EngineError::PermissionDenied)
                } else {
                    r matches Ok(v)
                        && v@.map_values(|t: &Topic| *t)
                            == self.topics_seq().filter(|t: Topic| t.sid() == sid)
                }
            }),
    {
        let caller = self.ensure_authenticated(system, client_id)?;
        let si = match self.stream_index(stream_id) {
            Some(i) => i,
            None => return Err(EngineError::ResourceNotFound),
        };
        let sid = self.streams[si].stream_id;
        proof {
            lemma_first_stream(self.streams@, *stream_id, si as int);
        }
        system.permit(caller, Operation::GetTopics, sid)?;
        let mut out: Vec<&Topic> = Vec::new();
        let mut i: usize = 0;
        while i < self.topics.len()
            invariant
                i <= self.topics@.len(),
                out@.map_values(|t: &Topic| *t)
                    == self.topics@.take(i as int).filter(|t: Topic| t.sid() == sid),
            decreases self.topics@.len() - i,
        {
            proof {
                assert(self.topics@.take(i + 1).drop_last() =~= self.topics@.take(i as int));
                reveal(Seq::filter);
            }
            let ghost before = out@;
            if self.topics[i].stream_id() == sid {
                out.push(&self.topics[i]);
                proof {
                    assert(out@.map_values(|t: &Topic| *t) =~= before.map_values(|t: &Topic| *t).push(self.topics@[i as int]));
                }
            }
            i = i + 1;
        }
        proof {
            assert(self.topics@.take(self.topics@.len() as int) =~= self.topics@);
        }
        Ok(out)
    }

    fn name_taken_by_other(&self, stream_id: u32, name: &String, except: usize) -> (r: bool)
        ensures
            r == exists|j: int|
                0 <= j < self.topics@.len() && j != except && (#[trigger] self.topics@[j]).sid()
                    == stream_id && self.topics@[j].name_view() == name@,
    {
        let mut i: usize = 0;
        while i < self.topics.len()
            invariant
                i <= self.topics@.len(),
                forall|j: int|
                    0 <= j < i && j != except ==> !((#[trigger] self.topics@[j]).sid() == stream_id
                        && self.topics@[j].name_view() == name@),
            decreases self.topics@.len() - i,
        {
            if i != except && self.topics[i].stream_id() == stream_id
                && *self.topics[i].name() == *name {
                return true;
            }
            i = i + 1;
        }
        false
    }

    /// Changes a topic's mutable attributes and returns the normalized
    /// message expiry and size limit, which the caller records.
    pub fn update_topic(
        &mut self,
        system: &System,
        client_id: u32,
        stream_id: &Identifier,
        topic_id: &Identifier,
        name: String,
        message_expiry: Option<u32>,
        compression_algorithm: CompressionAlgorithm,
        max_topic_size: Option<u64>,
        replication_factor: Option<u8>,
    ) -> (r: Result<(Option<u32>, Option<u64>), EngineError>)
        requires
            old(self).wf(),
            system.wf(),
        ensures
            final(self).wf(),
            final(self).streams_seq() == old(self).streams_seq(),
            final(self).table() == old(self).table(),
            final(self).shards() == old(self).shards(),
            final(self).tracker() == old(self).tracker(),
            match old(self).access_fails(*system, client_id, *stream_id, *topic_id,
                Operation::UpdateTopic) {
                Some(e) => r == Err::<(Option<u32>, Option<u64>), EngineError>(e)
                    && final(self).topics_seq() == old(self).topics_seq(),
                None => {
                    let sid = stream_id_of(old(self).streams_seq(), *stream_id);
                    let i = topic_index(old(self).topics_seq(), sid, *topic_id);
                    let before = old(self).topics_seq()[i];
                    let after = final(self).topics_seq()[i];
                    if exists|j: int|
                        0 <= j < old(self).topics_seq().len() && j != i
                            && (#[trigger] old(self).topics_seq()[j]).sid()
                            == sid && old(self).topics_seq()[j].name_view() == lowercase_of(name@) {
                        r == Err::<(Option<u32>, Option<u64>),
                            EngineError>(EngineError::TopicAlreadyExists)
                            && final(self).topics_seq() == old(self).topics_seq()
                    } else {
                        &&& r == Ok::<(Option<u32>, Option<u64>),
                            EngineError>((normalized(message_expiry),
                                normalized_size(max_topic_size)))
                        &&& only_topic_changed(old(self).topics_seq(), final(self).topics_seq(), i)
                        &&& after.tid() == before.tid()
                        &&& after.sid() == before.sid()
                        &&& after.parts() == before.parts()
                        &&& after.name_view() == lowercase_of(name@)
                        &&& after.expiry() == normalized(message_expiry)
                        &&& after.size_limit() == normalized_size(max_topic_size)
                        &&& after.compression() == compression_algorithm
                        &&& after.replication() == normalized_replication(replication_factor)
                    }
                },
            },
    {
        let (_, sid, ti) = self.access(system, client_id, stream_id, topic_id,
            Operation::UpdateTopic)?;
        let name = to_lowercase(name.as_str());
        if self.name_taken_by_other(sid, &name, ti) {
            return Err(EngineError::TopicAlreadyExists);
        }
        let mut topic = self.topics.remove(ti);
        topic.update(name, message_expiry, compression_algorithm, max_topic_size,
            replication_factor);
        let result = (topic.message_expiry(), topic.max_topic_size());
        self.topics.insert(ti, topic);
        proof {
            assert(forall|j: int| 0 <= j < old(self).topics@.len()
                && j != ti ==> self.topics@[j] == old(self).topics@[j]);
            lemma_wf_update(*old(self), *self, ti as int);
        }
        Ok(result)
    }

    /// Removes a topic and its routing rows; returns the removed topic.
    pub fn delete_topic(&mut self, system: &mut System, client_id: u32, stream_id: &Identifier,
        topic_id: &Identifier) -> (r:
        Result<Topic, EngineError>)
        requires
            old(self).wf(),
            old(system).wf(),
        ensures
            final(system).wf(),
            final(system).users_seq() == old(system).users_seq(),
            final(system).next_id() == old(system).next_id(),
            final(system).clients() == old(system).clients(),
            final(self).wf(),
            final(self).streams_seq() == old(self).streams_seq(),
            final(self).shards() == old(self).shards(),
            (final(self).tracker() is Some) == (old(self).tracker() is Some),
            final(self).tracker() matches Some(t)
                ==> t.limit() == old(self).tracker()->Some_0.limit(),
            match old(self).access_fails(*old(system), client_id, *stream_id, *topic_id,
                Operation::DeleteTopic) {
                Some(e) => r == Err::<Topic, EngineError>(e)
                    && final(self).topics_seq() == old(self).topics_seq()
                        && final(self).tracker() == old(self).tracker()
                    && final(self).table() == old(self).table()
                    && final(system).groups() == old(system).groups(),
                None => {
                    let sid = stream_id_of(old(self).streams_seq(), *stream_id);
                    let i = topic_index(old(self).topics_seq(), sid, *topic_id);
                    let t = old(self).topics_seq()[i];
                    &&& r == Ok::<Topic, EngineError>(t)
                    &&& final(self).topics_seq() == old(self).topics_seq().remove(i)
                    &&& forall|j: int|
                        0 <= j < final(self).topics_seq().len() && (#[trigger] final(self).topics_seq()[j]).sid()
                            == sid ==> final(self).topics_seq()[j].tid() != t.tid()
                            && final(self).topics_seq()[j].name_view() != t.name_view()
                    &&& final(self).table() == rows_without_topic(old(self).table(), sid, t.tid())
                    &&& final(system).groups() == without_topic_groups(old(system).groups(), sid, t.tid())
                },
            },
    {
        let (_, sid, ti) = self.access(system, client_id, stream_id, topic_id,
            Operation::DeleteTopic)?;
        let topic = self.topics.remove(ti);
        let tid = topic.topic_id();
        let bytes = topic.size_bytes();
        proof {
            lemma_topic_bytes_bounded(old(self).topics@, ti as int);
            if old(self).memory_tracker is Some {
                old(self).memory_tracker->Some_0.counts_fit();
                assert(bytes == parts_bytes(old(self).topics@[ti as int].parts()));
            }
        }
        let tracker = self.memory_tracker.take();
        match tracker {
            Some(mut t) => {
                t.decrement_used_memory(bytes);
                self.memory_tracker = Some(t);
            },
            None => {
                self.memory_tracker = None;
            },
        }
        proof {
            if self.memory_tracker is Some {
                assert(self.memory_tracker->Some_0.used() == topics_bytes(self.topics@));
            }
        }
        let ghost rows = self.shard_table@;
        let mut kept: Vec<ShardRecord> = Vec::new();
        let mut k: usize = 0;
        while k < self.shard_table.len()
            invariant
                k <= self.shard_table@.len(),
                self.shard_table@ == rows,
                kept@ == rows_without_topic(rows.take(k as int), sid, tid),
            decreases self.shard_table@.len() - k,
        {
            let row = self.shard_table[k];
            proof {
                assert(rows.take(k + 1).drop_last() =~= rows.take(k as int));
                reveal(Seq::filter);
            }
            if !(row.namespace.stream_id == sid && row.namespace.topic_id == tid) {
                kept.push(row);
            }
            k = k + 1;
        }
        proof {
            assert(rows.take(rows.len() as int) =~= rows);
        }
        system.delete_consumer_groups_for_topic(sid, tid);
        self.shard_table = kept;
        proof {
            assert forall|j: int| 0 <= j < self.topics_seq().len() implies (#[trigger] self.topics_seq()[j]).wf() by {
                if j < ti {
                    assert(self.topics@[j] == old(self).topics@[j]);
                } else {
                    assert(self.topics@[j] == old(self).topics@[j + 1]);
                }
                assert(old(self).topics_seq()[j].wf());
                assert(old(self).topics_seq()[j + 1].wf());
            }
        }
        proof {
            assert forall|j: int|
                0 <= j < self.topics@.len() && (#[trigger] self.topics@[j]).sid() == sid implies self.topics@[j].tid()
                    != old(self).topics@[ti as int].tid() && self.topics@[j].name_view()
                    != old(self).topics@[ti as int].name_view() by {
                if j < ti {
                    assert(self.topics@[j] == old(self).topics_seq()[j]);
                    assert(old(self).topics_seq()[j].sid() == old(self).topics_seq()[ti as int].sid());
                } else {
                    assert(self.topics@[j] == old(self).topics_seq()[j + 1]);
                    assert(old(self).topics_seq()[j + 1].sid() == old(self).topics_seq()[ti as int].sid());
                }
            }
        }
        Ok(topic)
    }

    /// Drops all messages of a topic; its partitions and configuration stay.
    pub fn purge_topic(&mut self, system: &System, client_id: u32, stream_id: &Identifier,
        topic_id: &Identifier) -> (r:
        Result<(), EngineError>)
        requires
            old(self).wf(),
            system.wf(),
        ensures
            final(self).wf(),
            final(self).streams_seq() == old(self).streams_seq(),
            final(self).table() == old(self).table(),
            final(self).shards() == old(self).shards(),
            (final(self).tracker() is Some) == (old(self).tracker() is Some),
            final(self).tracker() matches Some(t)
                ==> t.limit() == old(self).tracker()->Some_0.limit(),
            match old(self).access_fails(*system, client_id, *stream_id, *topic_id,
                Operation::PurgeTopic) {
                Some(e) => r == Err::<(), EngineError>(e)
                    && final(self).topics_seq() == old(self).topics_seq()
                        && final(self).tracker() == old(self).tracker(),
                None => {
                    let sid = stream_id_of(old(self).streams_seq(), *stream_id);
                    let i = topic_index(old(self).topics_seq(), sid, *topic_id);
                    let before = old(self).topics_seq()[i];
                    let after = final(self).topics_seq()[i];
                    &&& r is Ok
                    &&& only_topic_changed(old(self).topics_seq(), final(self).topics_seq(), i)
                    &&& after.same_config(before)
                    &&& after.parts().len() == before.parts().len()
                    &&& forall|k: int| 0 <= k < after.parts().len()
                        ==> (#[trigger] after.parts()[k]).log().len() == 0
                },
            },
    {
        let (_, _, ti) = self.access(system, client_id, stream_id, topic_id,
            Operation::PurgeTopic)?;
        let mut topic = self.topics.remove(ti);
        let bytes = topic.size_bytes();
        proof {
            lemma_topic_bytes_bounded(old(self).topics@, ti as int);
            if old(self).memory_tracker is Some {
                old(self).memory_tracker->Some_0.counts_fit();
                assert(bytes == parts_bytes(old(self).topics@[ti as int].parts()));
            }
        }
        topic.purge();
        proof {
            lemma_parts_bytes_empty_tail(topic.parts(), 0);
            assert(topic.parts().take(0) =~= Seq::<Partition>::empty());
        }
        let ghost purged = topic;
        self.topics.insert(ti, topic);
        proof {
            assert(self.topics@[ti as int] == purged);
            assert(parts_bytes(purged.parts()) == 0);
        }
        let tracker = self.memory_tracker.take();
        match tracker {
            Some(mut t) => {
                t.decrement_used_memory(bytes);
                self.memory_tracker = Some(t);
            },
            None => {
                self.memory_tracker = None;
            },
        }
        proof {
            assert(forall|j: int| 0 <= j < old(self).topics@.len()
                && j != ti ==> self.topics@[j] == old(self).topics@[j]);
            lemma_wf_update(*old(self), *self, ti as int);
        }
        Ok(())
    }

    /// Adds `partitions_count` partitions after a topic's last one and routes
    /// each to its shard; returns the new partition ids.
    pub fn create_partitions(
        &mut self,
        system: &System,
        client_id: u32,
        stream_id: &Identifier,
        topic_id: &Identifier,
        partitions_count: u32,
    ) -> (r: Result<Vec<u32>, EngineError>)
        requires
            old(self).wf(),
            system.wf(),
        ensures
            final(self).wf(),
            final(self).streams_seq() == old(self).streams_seq(),
            final(self).shards() == old(self).shards(),
            final(self).tracker() == old(self).tracker(),
            match old(self).access_fails(*system, client_id, *stream_id, *topic_id,
                Operation::CreatePartitions) {
                Some(e) => r == Err::<Vec<u32>, EngineError>(e)
                    && final(self).topics_seq() == old(self).topics_seq()
                    && final(self).table() == old(self).table(),
                None => {
                    let sid = stream_id_of(old(self).streams_seq(), *stream_id);
                    let i = topic_index(old(self).topics_seq(), sid, *topic_id);
                    let before = old(self).topics_seq()[i];
                    let after = final(self).topics_seq()[i];
                    let first = (before.parts().len() + 1) as u32;
                    if before.parts().len() + partitions_count > u32::MAX {
                        r == Err::<Vec<u32>, EngineError>(EngineError::TooManyPartitions)
                            && final(self).topics_seq() == old(self).topics_seq()
                            && final(self).table() == old(self).table()
                    } else {
                        &&& r matches Ok(ids) && ids@ == id_range(first, partitions_count)
                        &&& only_topic_changed(old(self).topics_seq(), final(self).topics_seq(), i)
                        &&& after.same_config(before)
                        &&& after.parts().len() == before.parts().len() + partitions_count
                        &&& after.parts().take(before.parts().len() as int) == before.parts()
                        &&& final(self).table() == old(self).table() + shard_rows(
                            sid,
                            before.tid(),
                            first,
                            partitions_count,
                            old(self).shards(),
                        )
                    }
                },
            },
    {
        let (_, sid, ti) = self.access(system, client_id, stream_id, topic_id,
            Operation::CreatePartitions)?;
        let mut topic = self.topics.remove(ti);
        let first = (topic.get_partitions_count() as u64 + 1) as u32;
        let ghost before_parts = topic.parts();
        let added = topic.add_partitions(partitions_count);
        proof {
            if added is Ok {
                lemma_parts_bytes_empty_tail(topic.parts(), before_parts.len() as int);
            }
        }
        let tid = topic.topic_id();
        self.topics.insert(ti, topic);
        proof {
            assert(forall|j: int| 0 <= j < old(self).topics@.len()
                && j != ti ==> self.topics@[j] == old(self).topics@[j]);
            lemma_wf_update(*old(self), *self, ti as int);
        }
        match added {
            Err(e) => {
                proof {
                    assert(self.topics@ =~= old(self).topics@);
                }
                Err(e)
            },
            Ok(ids) => {
                self.push_shard_rows(sid, tid, &ids, first, partitions_count);
                Ok(ids)
            },
        }
    }

    /// The bytes a batch accounts for, stopping at `u64::MAX`.
    pub fn batch_size_bytes(messages: &Vec<Message>) -> (r: u64)
        ensures
            r == if batch_size(messages@) <= u64::MAX {
                batch_size(messages@)
            } else {
                u64::MAX as nat
            },
    {
        let mut total: u64 = 0;
        let mut i: usize = 0;
        while i < messages.len()
            invariant
                i <= messages@.len(),
                total == if batch_size(messages@.take(i as int)) <= u64::MAX {
                    batch_size(messages@.take(i as int))
                } else {
                    u64::MAX as nat
                },
            decreases messages@.len() - i,
        {
            proof {
                assert(messages@.take(i + 1).drop_last() =~= messages@.take(i as int));
            }
            let size = (messages[i].payload.len() as u64).saturating_add(20);
            total = total.saturating_add(size);
            i = i + 1;
        }
        proof {
            assert(messages@.take(messages@.len() as int) =~= messages@);
        }
        total
    }

    /// Evicts cached messages, oldest first within a partition, taking each
    /// time the first partition in directory order that still caches any,
    /// until `batch` more bytes fit under the ceiling or nothing is cached.
    /// The logs keep every message.
    pub fn clean_cache(&mut self, batch: u64)
        requires
            old(self).wf(),
        ensures
            final(self).wf(),
            final(self).streams_seq() == old(self).streams_seq(),
            final(self).table() == old(self).table(),
            final(self).shards() == old(self).shards(),
            all_same_logs(final(self).topics_seq(), old(self).topics_seq()),
            old(self).tracker() is None ==> final(self).tracker() == old(self).tracker(),
            old(self).tracker() matches Some(t0) ==> (final(self).tracker() matches Some(t)
                && t.limit() == t0.limit() && t.used() <= t0.used() && (t.used() + batch
                <= t.limit() || t.used() == 0)),
    {
        loop
            invariant
                self.wf(),
                self.streams@ == old(self).streams@,
                self.shard_table@ == old(self).shard_table@,
                self.shards_count == old(self).shards_count,
                all_same_logs(self.topics@, old(self).topics@),
                old(self).tracker() is None ==> self.tracker() == old(self).tracker(),
                old(self).tracker() matches Some(t0) ==> (self.tracker() matches Some(t)
                    && t.limit() == t0.limit() && t.used() <= t0.used()),
            ensures
                old(self).tracker() matches Some(t0) ==> (self.tracker() matches Some(t) && (
                t.used() + batch <= t.limit() || t.used() == 0)),
            decreases self.cache_used(),
        {
            let fits = match &self.memory_tracker {
                Some(t) => t.will_fit_into_cache(batch),
                None => true,
            };
            if fits {
                break;
            }
            let mut ti: usize = 0;
            let mut found: Option<(usize, usize)> = None;
            while ti < self.topics.len()
                invariant_except_break
                    found is None,
                invariant
                    self.wf(),
                    ti <= self.topics@.len(),
                    forall|j: int| 0 <= j < ti ==> parts_bytes((#[trigger] self.topics@[j]).parts()) == 0,
                    found matches Some(v) ==> v.0 < self.topics@.len() && v.1 < self.topics@[v.0 as int].parts().len()
                        && self.topics@[v.0 as int].parts()[v.1 as int].cached()
                        < self.topics@[v.0 as int].parts()[v.1 as int].log().len(),
                ensures
                    found is None ==> forall|j: int|
                        0 <= j < self.topics@.len() ==> parts_bytes((#[trigger] self.topics@[j]).parts()) == 0,
                decreases self.topics@.len() - ti,
            {
                assert(self.topics_seq()[ti as int].wf());
                match self.topics[ti].find_cached() {
                    Some(k) => {
                        found = Some((ti, k));
                        break;
                    },
                    None => {
                        ti = ti + 1;
                    },
                }
            }
            match found {
                None => {
                    proof {
                        let f = |t: Topic| parts_bytes(t.parts());
                        assert forall|j: int| 0 <= j < self.topics@.len() implies f(#[trigger] self.topics@[j]) == 0 by {
                            assert(parts_bytes(self.topics@[j].parts()) == 0);
                        }
                        lemma_sum_zero_tail(self.topics@, f, 0);
                        assert(self.topics@.take(0) =~= Seq::<Topic>::empty());
                    }
                    break;
                },
                Some((ti, k)) => {
                    let ghost before = *self;
                    proof {
                        lemma_topic_bytes_bounded(self.topics@, ti as int);
                        self.memory_tracker->Some_0.counts_fit();
                        assert(self.topics@[ti as int].wf());
                    }
                    let mut topic = self.topics.remove(ti);
                    let size = topic.evict_oldest(k);
                    self.topics.insert(ti, topic);
                    let tracker = self.memory_tracker.take();
                    match tracker {
                        Some(mut t) => {
                            t.decrement_used_memory(size);
                            self.memory_tracker = Some(t);
                        },
                        None => {
                            self.memory_tracker = None;
                        },
                    }
                    proof {
                        assert(forall|j: int|
                            0 <= j < before.topics@.len() && j != ti ==> self.topics@[j] == before.topics@[j]);
                        lemma_wf_update(before, *self, ti as int);
                        lemma_same_logs_step(self.topics@, before.topics@, old(self).topics@, ti as int);
                    }
                },
            }
        }
    }

    /// Appends a batch to the partition that `partitioning` selects, stamped
    /// with `timestamp`, and accounts its bytes in the cache tracker. When the
    /// batch does not fit under the ceiling, the cache is cleaned first; the
    /// append goes ahead either way. Returns the partition id.
    pub fn append_messages(
        &mut self,
        system: &System,
        client_id: u32,
        stream_id: &Identifier,
        topic_id: &Identifier,
        partitioning: &Partitioning,
        messages: Vec<Message>,
        timestamp: u64,
    ) -> (r: Result<u32, EngineError>)
        requires
            old(self).wf(),
            system.wf(),
        ensures
            final(self).wf(),
            final(self).streams_seq() == old(self).streams_seq(),
            final(self).table() == old(self).table(),
            final(self).shards() == old(self).shards(),
            r is Err ==> final(self).topics_seq() == old(self).topics_seq()
                && final(self).tracker() == old(self).tracker(),
            match old(self).access_fails(*system, client_id, *stream_id, *topic_id,
                Operation::AppendMessages) {
                Some(e) => r == Err::<u32, EngineError>(e),
                None => {
                    let sid = stream_id_of(old(self).streams_seq(), *stream_id);
                    let ti = topic_index(old(self).topics_seq(), sid, *topic_id);
                    let before = old(self).topics_seq()[ti];
                    let after = final(self).topics_seq()[ti];
                    let len = before.parts().len();
                    let pi = target_index(*partitioning, len, before.next());
                    let batch = batch_size(messages@);
                    if old(self).tracker() matches Some(t) && (batch >= u64::MAX
                        || t.used() + batch > u64::MAX) {
                        r == Err::<u32, EngineError>(EngineError::InternalError)
                    } else if len == 0 {
                        r == Err::<u32, EngineError>(
                            EngineError::NoPartitions(before.tid(), before.sid()),
                        )
                    } else if !(0 <= pi < len) {
                        r == Err::<u32, EngineError>(EngineError::ResourceNotFound)
                    } else if before.parts()[pi].log().len() + messages@.len() > u64::MAX {
                        r == Err::<u32, EngineError>(EngineError::InternalError)
                    } else {
                        &&& r == Ok::<u32, EngineError>((pi + 1) as u32)
                        &&& final(self).topics_seq().len() == old(self).topics_seq().len()
                        &&& forall|j: int| 0 <= j < old(self).topics_seq().len() && j != ti
                            ==> same_logs(final(self).topics_seq()[j], old(self).topics_seq()[j])
                        &&& after.same_config(before)
                        &&& after.parts().len() == len
                        &&& log_appended(before.parts()[pi].log(), after.parts()[pi].log(),
                            messages@, timestamp)
                        &&& after.parts()[pi].offsets() == before.parts()[pi].offsets()
                        &&& forall|k: int| 0 <= k < len && k != pi ==> (#[trigger] after.parts()[k]).log()
                            == before.parts()[k].log() && after.parts()[k].offsets()
                            == before.parts()[k].offsets()
                        &&& match old(self).tracker() {
                            None => final(self).tracker() is None
                                && only_topic_changed(old(self).topics_seq(), final(self).topics_seq(), ti)
                                && forall|k: int| 0 <= k < len && k != pi ==> after.parts()[k] == before.parts()[k],
                            Some(t0) => final(self).tracker() matches Some(t) && t.limit() == t0.limit()
                                && if t0.used() + batch <= t0.limit() {
                                t.used() == t0.used() + batch
                                    && only_topic_changed(old(self).topics_seq(), final(self).topics_seq(), ti)
                                    && forall|k: int| 0 <= k < len && k != pi ==> after.parts()[k] == before.parts()[k]
                            } else {
                                t.used() <= t0.used() + batch && (t.used() <= t.limit() || t.used() == batch)
                            },
                        }
                    }
                },
            },
    {
        let (_, _, ti) = self.access(system, client_id, stream_id, topic_id,
            Operation::AppendMessages)?;
        let batch = Self::batch_size_bytes(&messages);
        match &self.memory_tracker {
            Some(t) => {
                if batch == u64::MAX || t.usage_bytes() > u64::MAX - batch {
                    return Err(EngineError::InternalError);
                }
            },
            None => {},
        }
        proof {
            assert(self.topics@[ti as int].wf());
        }
        let idx = self.topics[ti].target_partition(partitioning, messages.len())?;
        let fits = match &self.memory_tracker {
            Some(t) => t.will_fit_into_cache(batch),
            None => true,
        };
        if !fits {
            self.clean_cache(batch);
        }
        let ghost mid = *self;
        proof {
            if fits {
                assert(mid.topics@ == old(self).topics@);
            }
            assert(same_logs(mid.topics@[ti as int], old(self).topics@[ti as int]));
            assert(self.topics@[ti as int].wf());
            assert(mid.topics@[ti as int].parts()[idx as int].log() == old(self).topics@[ti as int].parts()[idx as int].log());
        }
        let ghost msgs = messages@;
        let mut topic = self.topics.remove(ti);
        let pid = topic.append_to(idx, partitioning, messages, timestamp);
        self.topics.insert(ti, topic);
        let tracker = self.memory_tracker.take();
        match tracker {
            Some(mut t) => {
                t.increment_used_memory(batch);
                self.memory_tracker = Some(t);
            },
            None => {
                self.memory_tracker = None;
            },
        }
        proof {
            assert(forall|j: int|
                0 <= j < mid.topics@.len() && j != ti ==> self.topics@[j] == mid.topics@[j]);
            lemma_wf_update(mid, *self, ti as int);
        }
        Ok(pid)
    }

    /// Polls up to `args.count` messages from one partition of a topic. With
    /// `auto_commit`, the offset of the last returned message is stored for
    /// the consumer.
    pub fn poll_messages(
        &mut self,
        system: &System,
        client_id: u32,
        partition_id: u32,
        consumer: PollingConsumer,
        stream_id: &Identifier,
        topic_id: &Identifier,
        args: PollingArgs,
    ) -> (r: Result<Vec<PolledMessage>, EngineError>)
        requires
            old(self).wf(),
            system.wf(),
        ensures
            final(self).wf(),
            final(self).streams_seq() == old(self).streams_seq(),
            final(self).table() == old(self).table(),
            final(self).shards() == old(self).shards(),
            final(self).tracker() == old(self).tracker(),
            caller_of(system.clients(), client_id) == 0
                ==> r == Err::<Vec<PolledMessage>, EngineError>(EngineError::NotAuthenticated)
                && final(self).topics_seq() == old(self).topics_seq(),
            caller_of(system.clients(), client_id) != 0
                && args.count == 0
                    ==> r == Err::<Vec<PolledMessage>,
                        EngineError>(EngineError::InvalidMessagesCount)
                && final(self).topics_seq() == old(self).topics_seq(),
            caller_of(system.clients(), client_id) != 0
                && args.count != 0
                    ==> match old(self).access_fails(*system, client_id, *stream_id, *topic_id,
                        Operation::PollMessages) {
                Some(e) => r == Err::<Vec<PolledMessage>, EngineError>(e)
                    && final(self).topics_seq() == old(self).topics_seq(),
                None => {
                    let sid = stream_id_of(old(self).streams_seq(), *stream_id);
                    let ti = topic_index(old(self).topics_seq(), sid, *topic_id);
                    let before = old(self).topics_seq()[ti];
                    let after = final(self).topics_seq()[ti];
                    let pi = partition_id - 1;
                    if before.parts().len() == 0 {
                        r == Err::<Vec<PolledMessage>,
                            EngineError>(EngineError::NoPartitions(before.tid(), before.sid()))
                            && final(self).topics_seq() == old(self).topics_seq()
                    } else if !(1 <= partition_id <= before.parts().len()) {
                        r == Err::<Vec<PolledMessage>, EngineError>(EngineError::ResourceNotFound)
                            && final(self).topics_seq() == old(self).topics_seq()
                    } else {
                        let expected = polled(before.parts()[pi].log(), args.strategy, args.count,
                            before.parts()[pi].stored_offset(consumer));
                        &&& r matches Ok(v) && mviews(v@) == expected
                        &&& only_topic_changed(old(self).topics_seq(), final(self).topics_seq(), ti)
                        &&& after.same_config(before)
                        &&& after.parts().len() == before.parts().len()
                        &&& forall|j: int| 0 <= j < before.parts().len()
                            && j != pi ==> after.parts()[j] == before.parts()[j]
                        &&& after.parts()[pi].log() == before.parts()[pi].log()
                        &&& if args.auto_commit && expected.len() > 0 {
                            after.parts()[pi].stored_offset(consumer) == Some(expected.last().1)
                        } else {
                            after.parts()[pi] == before.parts()[pi]
                        }
                    }
                },
            },
    {
        self.ensure_authenticated(system, client_id)?;
        if args.count == 0 {
            return Err(EngineError::InvalidMessagesCount);
        }
        let (_, _, ti) = self.access(system, client_id, stream_id, topic_id,
            Operation::PollMessages)?;
        if !self.topics[ti].has_partitions() {
            return Err(EngineError::NoPartitions(self.topics[ti].topic_id(),
                self.topics[ti].stream_id()));
        }
        let polled_messages = self.topics[ti].get_messages(consumer, partition_id, args.strategy,
            args.count)?;
        if polled_messages.len() == 0 || !args.auto_commit {
            proof {
                assert(only_topic_changed(old(self).topics@, self.topics@, ti as int));
            }
            return Ok(polled_messages);
        }
        let offset = polled_messages[polled_messages.len() - 1].offset;
        proof {
            assert(mviews(polled_messages@).last().1 == offset);
        }
        let mut topic = self.topics.remove(ti);
        let ghost before_parts = topic.parts();
        let stored = topic.store_consumer_offset(consumer, partition_id, offset);
        proof {
            lemma_parts_bytes_one_changed(before_parts, topic.parts(), partition_id - 1);
        }
        self.topics.insert(ti, topic);
        proof {
            assert(stored is Ok);
            assert(forall|j: int| 0 <= j < old(self).topics@.len()
                && j != ti ==> self.topics@[j] == old(self).topics@[j]);
            lemma_wf_update(*old(self), *self, ti as int);
        }
        Ok(polled_messages)
    }

    /// Resolves a topic for `op` without changing anything: the caller, the
    /// stream id and the topic's position.
    pub fn locate(
        &self,
        system: &System,
        client_id: u32,
        stream_id: &Identifier,
        topic_id: &Identifier,
        op: Operation,
    ) -> (r: Result<(u32, u32, usize), EngineError>)
        requires
            system.wf(),
        ensures
            match self.access_fails(*system, client_id, *stream_id, *topic_id, op) {
                Some(e) => r == Err::<(u32, u32, usize), EngineError>(e),
                None => r matches Ok(v) && v.0 == caller_of(system.clients(), client_id) && v.1
                    == stream_id_of(self.streams_seq(), *stream_id) && v.2 == topic_index(
                    self.topics_seq(),
                    v.1,
                    *topic_id,
                ) && 0 <= v.2 < self.topics_seq().len(),
            },
    {
        self.access(system, client_id, stream_id, topic_id, op)
    }

    pub fn topic_id_at(&self, i: usize) -> (r: u32)
        requires
            i < self.topics_seq().len(),
        ensures
            r == self.topics_seq()[i as int].tid(),
    {
        self.topics[i].topic_id()
    }
}

} // verus!
