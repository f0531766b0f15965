use vstd::prelude::*;
use std::collections::HashMap;
use crate::sums::{lemma_sum_prefix_monotone, lemma_sum_split, sum_of};

verus! {

broadcast use vstd::std_specs::hash::group_hash_axioms;

/// The delivery state of a message.
#[derive(Clone, Copy, Debug, PartialEq, Eq, Structural)]
pub enum MessageState {
    Available,
    Unavailable,
    Poisoned,
    MarkedForDeletion,
}

/// A message handed in for appending. `headers` holds the encoded header map.
#[derive(Debug)]
pub struct Message {
    pub id: u128,
    pub state: MessageState,
    pub checksum: u32,
    pub headers: Vec<u8>,
    pub payload: Vec<u8>,
}

/// A message as stored in a partition and returned by a poll.
#[derive(Debug)]
pub struct PolledMessage {
    pub id: u128,
    pub state: MessageState,
    pub offset: u64,
    pub timestamp: u64,
    pub checksum: u32,
    pub headers: Vec<u8>,
    pub payload: Vec<u8>,
}

impl PolledMessage {
    /// The payload length in bytes.
    pub fn length(&self) -> (r: usize)
        ensures
            r == self.payload@.len(),
    {
        self.payload.len()
    }
}

/// A stored message as a value: id, offset, timestamp, payload, checksum,
/// state, headers.
pub type MessageView = (u128, u64, u64, Seq<u8>, u32, MessageState, Seq<u8>);

pub open spec fn mview(m: PolledMessage) -> MessageView {
    (m.id, m.offset, m.timestamp, m.payload@, m.checksum, m.state, m.headers@)
}

pub open spec fn mviews(s: Seq<PolledMessage>) -> Seq<MessageView> {
    s.map_values(|m: PolledMessage| mview(m))
}

/// What `m` becomes when stored at `offset` with `timestamp`.
pub open spec fn appended_view(m: Message, offset: u64, timestamp: u64) -> MessageView {
    (m.id, offset, timestamp, m.payload@, m.checksum, m.state, m.headers@)
}

/// `new` is `old` followed by `messages`, in order, at the next offsets and
/// stamped with `timestamp`.
pub open spec fn log_appended(
    old: Seq<PolledMessage>,
    new: Seq<PolledMessage>,
    messages: Seq<Message>,
    timestamp: u64,
) -> bool {
    &&& new.len() == old.len() + messages.len()
    &&& new.take(old.len() as int) == old
    &&& forall|k: int|
        0 <= k < messages.len()
            ==> mview(#[trigger] new[old.len() + k])
                == appended_view(messages[k], ((old.len() + k)) as u64, timestamp)
}

/// Bytes that a message accounts for: its id, a length word, its payload.
pub open spec fn message_size(payload_len: nat) -> nat {
    20 + payload_len
}

/// Bytes that the messages of a log account for.
pub open spec fn log_bytes(log: Seq<PolledMessage>) -> nat {
    sum_of(log, |m: PolledMessage| message_size(m.payload@.len()))
}

/// Bytes that a batch accounts for.
pub open spec fn batch_size(messages: Seq<Message>) -> nat {
    sum_of(messages, |m: Message| message_size(m.payload@.len()))
}

/// `a` capped at `u64::MAX`.
pub open spec fn capped(a: nat) -> u64 {
    if a <= u64::MAX {
        a as u64
    } else {
        u64::MAX
    }
}

proof fn lemma_append_bytes_prefix(
    before: Seq<PolledMessage>,
    after: Seq<PolledMessage>,
    messages: Seq<Message>,
    timestamp: u64,
    k: int,
)
    requires
        log_appended(before, after, messages, timestamp),
        0 <= k <= messages.len(),
    ensures
        log_bytes(after.take(before.len() + k)) == log_bytes(before) + batch_size(messages.take(k)),
    decreases k,
{
    let n = before.len() as int;
    if k == 0 {
        assert(after.take(n) =~= before);
        assert(messages.take(0) =~= Seq::<Message>::empty());
    } else {
        lemma_append_bytes_prefix(before, after, messages, timestamp, k - 1);
        assert(after.take(n + k).drop_last() =~= after.take(n + k - 1));
        assert(messages.take(k).drop_last() =~= messages.take(k - 1));
        assert(mview(after[n + (k - 1)])
            == appended_view(messages[k - 1], ((n + (k - 1))) as u64, timestamp));
    }
}

/// An append adds exactly the batch's bytes to the log's.
pub proof fn lemma_append_bytes(
    before: Seq<PolledMessage>,
    after: Seq<PolledMessage>,
    messages: Seq<Message>,
    timestamp: u64,
)
    requires
        log_appended(before, after, messages, timestamp),
    ensures
        log_bytes(after) == log_bytes(before) + batch_size(messages),
{
    lemma_append_bytes_prefix(before, after, messages, timestamp, messages.len() as int);
    assert(after.take((before.len() + messages.len()) as int) =~= after);
    assert(messages.take(messages.len() as int) =~= messages);
}

/// An append adds exactly the batch's bytes to the cached bytes, whatever
/// prefix of the old log was evicted.
pub proof fn lemma_append_cache_bytes(
    before: Seq<PolledMessage>,
    after: Seq<PolledMessage>,
    messages: Seq<Message>,
    timestamp: u64,
    cached: int,
)
    requires
        log_appended(before, after, messages, timestamp),
        0 <= cached <= before.len(),
    ensures
        log_bytes(after.skip(cached)) == log_bytes(before.skip(cached)) + batch_size(messages),
{
    let f = |m: PolledMessage| message_size(m.payload@.len());
    lemma_append_bytes(before, after, messages, timestamp);
    lemma_sum_split(before, f, cached);
    lemma_sum_split(after, f, cached);
    assert(after.take(cached) =~= before.take(cached)) by {
        assert(after.take(before.len() as int) == before);
        assert forall|i: int| 0 <= i < cached implies after.take(cached)[i]
            == before.take(cached)[i] by {
            assert(after[i] == after.take(before.len() as int)[i]);
        }
    }
}

/// Where a poll starts reading.
#[derive(Clone, Copy, Debug, PartialEq, Eq, Structural)]
pub enum PollingStrategy {
    Offset(u64),
    Timestamp(u64),
    First,
    Last,
    Next,
}

/// Who polls: a single consumer or a consumer group, by id.
#[derive(Clone, Copy, Debug, PartialEq, Eq, Structural)]
pub enum PollingConsumer {
    Consumer(u32),
    ConsumerGroup(u32),
}

/// The key under which a consumer's offset is stored.
pub open spec fn consumer_key(c: PollingConsumer) -> u64 {
    match c {
        PollingConsumer::Consumer(id) => id as u64,
        PollingConsumer::ConsumerGroup(id) => (4294967296 + id as u64) as u64,
    }
}

fn consumer_key_exec(c: PollingConsumer) -> (r: u64)
    ensures
        r == consumer_key(c),
{
    match c {
        PollingConsumer::Consumer(id) => id as u64,
        PollingConsumer::ConsumerGroup(id) => 4294967296 + id as u64,
    }
}

/// The first index at or after `i` whose timestamp is at least `t`, or the length.
pub open spec fn first_at_or_after(log: Seq<PolledMessage>, t: u64, i: int) -> int
    decreases log.len() - i,
{
    if i >= log.len() || i < 0 {
        log.len() as int
    } else if log[i].timestamp >= t {
        i
    } else {
        first_at_or_after(log, t, i + 1)
    }
}

pub open spec fn min_int(a: int, b: int) -> int {
    if a < b {
        a
    } else {
        b
    }
}

/// The index where a poll with `strategy` starts, given the consumer's stored offset.
pub open spec fn poll_start(
    log: Seq<PolledMessage>,
    strategy: PollingStrategy,
    count: u32,
    stored: Option<u64>,
) -> int {
    match strategy {
        PollingStrategy::Offset(n) => min_int(n as int, log.len() as int),
        PollingStrategy::Timestamp(t) => first_at_or_after(log, t, 0),
        PollingStrategy::First => 0,
        PollingStrategy::Last => if log.len() > count {
            log.len() - count
        } else {
            0
        },
        PollingStrategy::Next => match stored {
            Some(o) => min_int(o + 1, log.len() as int),
            None => 0,
        },
    }
}

/// What a poll returns: up to `count` consecutive messages from the start.
pub open spec fn polled(
    log: Seq<PolledMessage>,
    strategy: PollingStrategy,
    count: u32,
    stored: Option<u64>,
) -> Seq<MessageView> {
    let start = poll_start(log, strategy, count, stored);
    mviews(log.subrange(start, min_int(start + count, log.len() as int)))
}

/// One partition of a topic: its message log and the consumers' offsets.
#[derive(Debug)]
pub struct Partition {
    partition_id: u32,
    messages: Vec<PolledMessage>,
    cached_from: usize,
    consumer_offsets: HashMap<u64, u64>,
}

fn copy_message(m: &PolledMessage) -> (r: PolledMessage)
    ensures
        mview(r) == mview(*m),
{
    PolledMessage {
        id: m.id,
        state: m.state,
        offset: m.offset,
        timestamp: m.timestamp,
        checksum: m.checksum,
        headers: m.headers.clone(),
        payload: m.payload.clone(),
    }
}

impl Partition {
    pub closed spec fn id(&self) -> u32 {
        self.partition_id
    }

    pub fn partition_id(&self) -> (r: u32)
        ensures
            r == self.id(),
    {
        self.partition_id
    }

    pub closed spec fn log(&self) -> Seq<PolledMessage> {
        self.messages@
    }

    /// Messages before this position are evicted from the in-memory cache;
    /// they stay in the log.
    pub closed spec fn cached(&self) -> nat {
        self.cached_from as nat
    }

    /// Bytes of the messages still held in the cache.
    pub open spec fn cache_bytes(&self) -> nat {
        log_bytes(self.log().skip(self.cached() as int))
    }

    pub closed spec fn offsets(&self) -> Map<u64, u64> {
        self.consumer_offsets@
    }

    /// The offset stored for consumer `c`, if any.
    pub open spec fn stored_offset(&self, c: PollingConsumer) -> Option<u64> {
        if self.offsets().contains_key(consumer_key(c)) {
            Some(self.offsets()[consumer_key(c)])
        } else {
            None
        }
    }

    /// Each message's offset is its position in the log.
    pub open spec fn wf(&self) -> bool {
        &&& forall|i: int| 0 <= i < self.log().len() ==> (#[trigger] self.log()[i]).offset == i
        &&& self.log().len() <= u64::MAX
        &&& self.cached() <= self.log().len()
    }

    pub fn new(partition_id: u32) -> (r: Partition)
        ensures
            r.wf(),
            r.id() == partition_id,
            r.log().len() == 0,
            r.offsets() == Map::<u64, u64>::empty(),
    {
        Partition { partition_id, messages: Vec::new(), cached_from: 0,
            consumer_offsets: HashMap::new() }
    }

    /// Bytes of the cached messages, capped at `u64::MAX`.
    pub fn size_bytes(&self) -> (r: u64)
        requires
            self.wf(),
        ensures
            r == capped(self.cache_bytes()),
    {
        let ghost rest = self.messages@.skip(self.cached_from as int);
        let mut total: u64 = 0;
        let mut i: usize = self.cached_from;
        while i < self.messages.len()
            invariant
                self.cached_from <= i <= self.messages@.len(),
                rest == self.messages@.skip(self.cached_from as int),
                total == capped(log_bytes(rest.take(i - self.cached_from))),
            decreases self.messages@.len() - i,
        {
            proof {
                lemma_sum_prefix_monotone(
                    rest,
                    |m: PolledMessage| message_size(m.payload@.len()),
                    i - self.cached_from,
                );
                assert(rest[i - self.cached_from] == self.messages@[i as int]);
            }
            let size = (self.messages[i].payload.len() as u64).saturating_add(20);
            total = total.saturating_add(size);
            i = i + 1;
        }
        proof {
            assert(rest.take(rest.len() as int) =~= rest);
        }
        total
    }

    /// Whether any message is still cached.
    pub fn has_cached(&self) -> (r: bool)
        ensures
            r == (self.cached() < self.log().len()),
    {
        self.cached_from < self.messages.len()
    }

    /// Evicts the oldest cached message from the cache and returns its size;
    /// the log keeps it.
    pub fn evict_oldest(&mut self) -> (r: u64)
        requires
            old(self).wf(),
            old(self).cached() < old(self).log().len(),
        ensures
            final(self).wf(),
            final(self).id() == old(self).id(),
            final(self).log() == old(self).log(),
            final(self).offsets() == old(self).offsets(),
            final(self).cached() == old(self).cached() + 1,
            final(self).cache_bytes() + message_size(
                old(self).log()[old(self).cached() as int].payload@.len(),
            ) == old(self).cache_bytes(),
            r == capped(message_size(old(self).log()[old(self).cached() as int].payload@.len())),
    {
        let n = self.messages.len();
        assert(self.cached_from < n);
        let size = (self.messages[self.cached_from].payload.len() as u64).saturating_add(20);
        proof {
            let c = self.cached_from as int;
            let t = self.messages@.skip(c);
            let f = |m: PolledMessage| message_size(m.payload@.len());
            lemma_sum_split(t, f, 1);
            assert(t.skip(1) =~= self.messages@.skip(c + 1));
            assert(t.take(1).drop_last() =~= Seq::<PolledMessage>::empty());
            assert(sum_of(Seq::<PolledMessage>::empty(), f) == 0);
            assert(t.take(1).last() == self.messages@[c]);
            assert(sum_of(t.take(1), f) == f(self.messages@[c]));
            assert(log_bytes(t) == sum_of(t, f));
            assert(log_bytes(self.messages@.skip(c + 1)) == sum_of(self.messages@.skip(c + 1), f));
        }
        self.cached_from = self.cached_from + 1;
        size
    }

    pub fn messages_count(&self) -> (r: u64)
        requires
            self.wf(),
        ensures
            r == self.log().len(),
    {
        self.messages.len() as u64
    }

    /// Appends `messages` in order, giving them the next offsets and `timestamp`.
    pub fn append_messages(&mut self, messages: Vec<Message>, timestamp: u64) -> (r: Result<
        (),
        crate::error::EngineError,
    >)
        requires
            old(self).wf(),
        ensures
            final(self).wf(),
            final(self).id() == old(self).id(),
            final(self).offsets() == old(self).offsets(),
            final(self).cached() == old(self).cached(),
            old(self).log().len() + messages@.len() > u64::MAX ==> r
                == Err::<(), crate::error::EngineError>(crate::error::EngineError::InternalError)
                && final(self).log() == old(self).log(),
            old(self).log().len() + messages@.len() <= u64::MAX ==> r is Ok && log_appended(
                old(self).log(),
                final(self).log(),
                messages@,
                timestamp,
            ),
    {
        if messages.len() as u64 > u64::MAX - self.messages.len() as u64 {
            return Err(crate::error::EngineError::InternalError);
        }
        let ghost start = self.messages@;
        let ghost input = messages@;
        let mut messages = messages;
        let mut k: usize = 0;
        let n = messages.len();
        while k < n
            invariant
                n == input.len(),
                messages@ == input.skip(k as int),
                self.partition_id == old(self).partition_id,
                self.consumer_offsets@ == old(self).consumer_offsets@,
                self.cached_from == old(self).cached_from,
                old(self).cached_from <= start.len(),
                k <= n,
                start.len() + n <= u64::MAX,
                self.messages@.len() == start.len() + k,
                self.messages@.take(start.len() as int) == start,
                forall|i: int| 0 <= i < self.messages@.len()
                    ==> (#[trigger] self.messages@[i]).offset == i,
                forall|j: int|
                    0 <= j < k ==> mview(#[trigger] self.messages@[start.len() + j])
                        == appended_view(input[j], ((start.len() + j)) as u64, timestamp),
            decreases n - k,
        {
            let m = messages.remove(0);
            proof {
                assert(m == input[k as int]);
                assert(messages@ =~= input.skip(k + 1));
            }
            let offset = self.messages.len() as u64;
            self.messages.push(
                PolledMessage {
                    id: m.id,
                    state: m.state,
                    offset,
                    timestamp,
                    checksum: m.checksum,
                    headers: m.headers,
                    payload: m.payload,
                },
            );
            proof {
                assert(self.messages@.take(start.len() as int) =~= start);
            }
            k = k + 1;
        }
        Ok(())
    }

    /// Up to `count` consecutive messages, from where `strategy` says.
    pub fn get_messages(&self, consumer: PollingConsumer, strategy: PollingStrategy,
        count: u32) -> (r:
        Vec<PolledMessage>)
        requires
            self.wf(),
        ensures
            mviews(r@) == polled(self.log(), strategy, count, self.stored_offset(consumer)),
    {
        let len = self.messages.len();
        let start: usize = match strategy {
            PollingStrategy::Offset(n) => if (n as u128) < (len as u128) {
                n as usize
            } else {
                len
            },
            PollingStrategy::Timestamp(t) => {
                let mut i: usize = 0;
                while i < len && self.messages[i].timestamp < t
                    invariant
                        i <= len,
                        len == self.log().len(),
                        first_at_or_after(self.log(), t, 0) == first_at_or_after(
                            self.log(),
                            t,
                            i as int,
                        ),
                    decreases len - i,
                {
                    i = i + 1;
                }
                i
            },
            PollingStrategy::First => 0,
            PollingStrategy::Last => if len > count as usize {
                len - count as usize
            } else {
                0
            },
            PollingStrategy::Next => match self.consumer_offsets.get(&consumer_key_exec(consumer)) {
                Some(o) => if (*o as u128) + 1 < (len as u128) {
                    (*o + 1) as usize
                } else {
                    len
                },
                None => 0,
            },
        };
        assert(start == poll_start(self.log(), strategy, count, self.stored_offset(consumer)));
        let end: usize = if (start as u128) + (count as u128) < (len as u128) {
            start + count as usize
        } else {
            len
        };
        let mut out: Vec<PolledMessage> = Vec::new();
        let mut i: usize = start;
        while i < end
            invariant
                start <= i <= end,
                end <= len,
                len == self.log().len(),
                out@.len() == i - start,
                forall|j: int|
                    0 <= j < out@.len() ==> mview(#[trigger] out@[j]) == mview(
                        self.log()[start + j],
                    ),
            decreases end - i,
        {
            let m = copy_message(&self.messages[i]);
            out.push(m);
            i = i + 1;
        }
        assert(mviews(out@) =~= mviews(self.log().subrange(start as int, end as int)));
        out
    }

    /// Records `offset` for `consumer`; a later store replaces an earlier one.
    pub fn store_consumer_offset(&mut self, consumer: PollingConsumer, offset: u64)
        requires
            old(self).wf(),
        ensures
            final(self).wf(),
            final(self).id() == old(self).id(),
            final(self).log() == old(self).log(),
            final(self).cached() == old(self).cached(),
            final(self).offsets() == old(self).offsets().insert(consumer_key(consumer), offset),
    {
        self.consumer_offsets.insert(consumer_key_exec(consumer), offset);
    }

    /// Drops every message and stored offset; offsets start again from 0.
    pub fn purge(&mut self)
        ensures
            final(self).wf(),
            final(self).id() == old(self).id(),
            final(self).log().len() == 0,
            final(self).offsets() == Map::<u64, u64>::empty(),
    {
        self.messages = Vec::new();
        self.cached_from = 0;
        self.consumer_offsets = HashMap::new();
    }
}

proof fn lemma_first_in_range(log: Seq<PolledMessage>, t: u64, i: int)
    requires
        0 <= i <= log.len(),
    ensures
        i <= first_at_or_after(log, t, i) <= log.len(),
    decreases log.len() - i,
{
    if i < log.len() && log[i].timestamp < t {
        lemma_first_in_range(log, t, i + 1);
    }
}

/// After a non-empty batch is appended, a poll from the end returns, as its
/// last message, the one at the last offset that the append assigned.
pub proof fn last_poll_sees_last_append(
    before: Seq<PolledMessage>,
    after: Seq<PolledMessage>,
    messages: Seq<Message>,
    timestamp: u64,
    count: u32,
    stored: Option<u64>,
)
    requires
        log_appended(before, after, messages, timestamp),
        messages.len() > 0,
        count > 0,
    ensures
        polled(after, PollingStrategy::Last, count, stored).len() > 0,
        polled(after, PollingStrategy::Last, count, stored).last().1
            == (before.len() + messages.len()
            - 1) as u64,
{
    let start = poll_start(after, PollingStrategy::Last, count, stored);
    let sub = after.subrange(start, min_int(start + count, after.len() as int));
    assert(min_int(start + count, after.len() as int) == after.len());
    assert(sub.last() == after[after.len() - 1]);
    let k = messages.len() - 1;
    assert(mview(after[before.len() + k])
        == appended_view(messages[k], ((before.len() + k)) as u64, timestamp));
}

/// The offsets that one poll of a well-formed partition returns are
/// consecutive: each is one more than the one before it.
pub proof fn polled_offsets_are_consecutive(
    p: Partition,
    strategy: PollingStrategy,
    count: u32,
    stored: Option<u64>,
)
    requires
        p.wf(),
    ensures
        forall|k: int|
            0 <= k < polled(p.log(), strategy, count, stored).len() - 1 ==> (#[trigger] polled(
                p.log(),
                strategy,
                count,
                stored,
            )[k + 1]).1 == polled(p.log(), strategy, count, stored)[k].1 + 1,
{
    let log = p.log();
    let start = poll_start(log, strategy, count, stored);
    if let PollingStrategy::Timestamp(t) = strategy {
        lemma_first_in_range(log, t, 0);
    }
    assert(0 <= start <= log.len());
    let end = min_int(start + count, log.len() as int);
    let v = polled(log, strategy, count, stored);
    assert forall|k: int| 0 <= k < v.len() - 1 implies (#[trigger] v[k + 1]).1 == v[k].1 + 1 by {
        assert(v[k] == mview(log[start + k]));
        assert(v[k + 1] == mview(log[start + k + 1]));
        assert(log[start + k].offset == start + k);
        assert(log[start + k + 1].offset == start + k + 1);
    }
}

} // verus!
