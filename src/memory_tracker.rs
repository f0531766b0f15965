use vstd::prelude::*;

verus! {

/// Configuration of the message cache: whether it is used, and its ceiling in bytes.
#[derive(Clone, Copy, Debug)]
pub struct CacheConfig {
    pub enabled: bool,
    pub size: u64,
}

/// Accounting of the bytes held by the in-memory message caches against a ceiling.
#[derive(Debug)]
pub struct CacheMemoryTracker {
    used_memory_bytes: u64,
    limit_bytes: u64,
}

impl CacheMemoryTracker {
    /// Bytes currently accounted as cached.
    pub closed spec fn used(&self) -> nat {
        self.used_memory_bytes as nat
    }

    /// The configured ceiling in bytes.
    pub closed spec fn limit(&self) -> nat {
        self.limit_bytes as nat
    }

    /// Both counts fit in 64 bits.
    pub proof fn counts_fit(&self)
        ensures
            self.used() <= u64::MAX,
            self.limit() <= u64::MAX,
    {
    }

    /// A tracker exists only when the cache is enabled; it starts empty.
    pub fn initialize(config: &CacheConfig) -> (r: Option<CacheMemoryTracker>)
        ensures
            r is Some <==> config.enabled,
            r matches Some(t) ==> t.used() == 0 && t.limit() == config.size,
    {
        if config.enabled {
            Some(CacheMemoryTracker::new(config.size))
        } else {
            None
        }
    }

    pub fn new(limit: u64) -> (r: CacheMemoryTracker)
        ensures
            r.used() == 0,
            r.limit() == limit,
    {
        CacheMemoryTracker { used_memory_bytes: 0, limit_bytes: limit }
    }

    /// Adds `message_size` bytes; the count stops at `u64::MAX`.
    pub fn increment_used_memory(&mut self, message_size: u64)
        ensures
            final(self).used() == if old(self).used() + message_size <= u64::MAX {
                (old(self).used() + message_size) as nat
            } else {
                u64::MAX as nat
            },
            final(self).limit() == old(self).limit(),
    {
        self.used_memory_bytes = self.used_memory_bytes.saturating_add(message_size);
    }

    /// Removes `message_size` bytes; the count never goes below zero.
    pub fn decrement_used_memory(&mut self, message_size: u64)
        ensures
            final(self).used() == if old(self).used() >= message_size {
                (old(self).used() - message_size) as nat
            } else {
                0
            },
            final(self).limit() == old(self).limit(),
    {
        self.used_memory_bytes = self.used_memory_bytes.saturating_sub(message_size);
    }

    pub fn usage_bytes(&self) -> (r: u64)
        ensures
            r == self.used(),
    {
        self.used_memory_bytes
    }

    pub fn limit_bytes(&self) -> (r: u64)
        ensures
            r == self.limit(),
    {
        self.limit_bytes
    }

    /// Whether `requested_size` more bytes stay within the ceiling.
    pub fn will_fit_into_cache(&self, requested_size: u64) -> (r: bool)
        ensures
            r == (self.used() + requested_size <= self.limit()),
    {
        requested_size <= self.limit_bytes
            && self.used_memory_bytes <= self.limit_bytes - requested_size
    }
}

} // verus!
