use vstd::prelude::*;

verus! {

/// The four little-endian bytes of `x`.
pub open spec fn le_bytes(x: u32) -> Seq<u8> {
    seq![
        (x % 256) as u8,
        ((x / 256) % 256) as u8,
        ((x / 65536) % 256) as u8,
        ((x / 16777216) % 256) as u8,
    ]
}

/// The (stream, topic, partition) triple that keys shard routing.
#[derive(Clone, Copy, Debug, PartialEq, Eq, Structural)]
pub struct ResourceNamespace {
    pub stream_id: u32,
    pub topic_id: u32,
    pub partition_id: u32,
}

/// The bytes that are hashed for a namespace: its three ids, little-endian, in order.
pub open spec fn namespace_bytes(ns: ResourceNamespace) -> Seq<u8> {
    le_bytes(ns.stream_id) + le_bytes(ns.topic_id) + le_bytes(ns.partition_id)
}

/// The 64-bit xxHash of `data` with seed 0.
pub uninterp spec fn xxh64_seed0(data: Seq<u8>) -> u64;

/// Relies on twox_hash::XxHash64::oneshot: the digest depends on the seed and the bytes alone.
#[verifier::external_body]
pub(crate) fn xxh64(data: &Vec<u8>) -> (r: u64)
    ensures
        r == xxh64_seed0(data@),
{
    twox_hash::XxHash64::oneshot(0, data.as_slice())
}

/// The shard that owns the partition whose namespace hashes to `hash`.
pub open spec fn shard_of_hash(hash: u64, shards_count: u16) -> u16
    recommends
        shards_count > 0,
{
    (hash % (shards_count as u64)) as u16
}

/// The shard that owns a namespace, among `shards_count` live shards.
pub open spec fn shard_of(ns: ResourceNamespace, shards_count: u16) -> u16 {
    shard_of_hash(xxh64_seed0(namespace_bytes(ns)), shards_count)
}

fn push_le_bytes(out: &mut Vec<u8>, x: u32)
    ensures
        final(out)@ == old(out)@ + le_bytes(x),
{
    out.push((x % 256) as u8);
    out.push(((x / 256) % 256) as u8);
    out.push(((x / 65536) % 256) as u8);
    out.push(((x / 16777216) % 256) as u8);
    assert(final(out)@ =~= old(out)@ + le_bytes(x));
}

impl ResourceNamespace {
    pub fn new(stream_id: u32, topic_id: u32, partition_id: u32) -> (r: ResourceNamespace)
        ensures
            r == (ResourceNamespace { stream_id, topic_id, partition_id }),
    {
        ResourceNamespace { stream_id, topic_id, partition_id }
    }

    pub fn as_bytes(&self) -> (r: Vec<u8>)
        ensures
            r@ == namespace_bytes(*self),
    {
        let mut out: Vec<u8> = Vec::new();
        push_le_bytes(&mut out, self.stream_id);
        push_le_bytes(&mut out, self.topic_id);
        push_le_bytes(&mut out, self.partition_id);
        assert(out@ =~= namespace_bytes(*self));
        out
    }

    pub fn generate_hash(&self) -> (r: u64)
        ensures
            r == xxh64_seed0(namespace_bytes(*self)),
    {
        xxh64(&self.as_bytes())
    }
}

/// The shard for a namespace hash: the hash modulo the number of live shards.
pub fn shard_for_hash(hash: u64, shards_count: u16) -> (r: u16)
    requires
        shards_count > 0,
    ensures
        r == shard_of_hash(hash, shards_count),
        r < shards_count,
{
    (hash % (shards_count as u64)) as u16
}

/// Routes a namespace to its shard.
pub fn shard_for(ns: &ResourceNamespace, shards_count: u16) -> (r: u16)
    requires
        shards_count > 0,
    ensures
        r == shard_of(*ns, shards_count),
        r < shards_count,
{
    shard_for_hash(ns.generate_hash(), shards_count)
}

/// Shard placement depends on nothing but the namespace triple and the number
/// of live shards: equal inputs give the same shard, and the shard is one of
/// the live ones.
pub proof fn shard_placement_is_pure(
    a: ResourceNamespace,
    b: ResourceNamespace,
    shards_count: u16,
)
    requires
        a.stream_id == b.stream_id,
        a.topic_id == b.topic_id,
        a.partition_id == b.partition_id,
        shards_count > 0,
    ensures
        shard_of(a, shards_count) == shard_of(b, shards_count),
        shard_of(a, shards_count) < shards_count,
{
    assert(a == b);
}

} // verus!
