//! Shard health: the latency of a shard, read from a snapshot of what the
//! shard manager knows.

use vstd::prelude::*;

verus! {

/// A duration: whole seconds, and nanoseconds below one second.
#[derive(Clone, Copy, Debug, PartialEq, Eq)]
pub struct Latency {
    secs: u64,
    nanos: u32,
}

/// What the shard manager knows of one shard.
#[derive(Clone, Copy, Debug, PartialEq, Eq)]
pub struct ShardStatus {
    pub shard_id: u64,
    /// The latency last measured; `None` while none has been.
    pub latency: Option<Latency>,
}

/// The answer to a question about the latency of a shard.
#[derive(Clone, Copy, Debug, PartialEq, Eq)]
pub enum ShardLatency {
    /// The latency last measured.
    Known(Latency),
    /// The shard is there, but no latency has been measured.
    Unknown,
    /// There is no such shard.
    NotFound,
}

impl Latency {
    /// The nanoseconds stay below one second.
    #[verifier::type_invariant]
    pub closed spec fn wf(&self) -> bool {
        self.nanos < 1_000_000_000
    }

    /// The whole seconds.
    pub closed spec fn seconds(&self) -> u64 {
        self.secs
    }

    /// The nanoseconds beyond the whole seconds.
    pub closed spec fn nanoseconds(&self) -> u32 {
        self.nanos
    }

    /// The latency of `secs` seconds and `nanos` nanoseconds; `None` where
    /// `nanos` is a second or more.
    pub fn new(secs: u64, nanos: u32) -> (l: Option<Latency>)
        ensures
            l is Some <==> nanos < 1_000_000_000,
            l matches Some(latency) ==> latency.wf() && latency.seconds() == secs
                && latency.nanoseconds() == nanos,
    {
        if nanos < 1_000_000_000 {
            Some(Latency { secs, nanos })
        } else {
            None
        }
    }

    /// The whole seconds.
    pub fn secs(&self) -> (s: u64)
        ensures
            s == self.seconds(),
    {
        self.secs
    }

    /// The nanoseconds beyond the whole seconds, always below one second.
    pub fn subsec_nanos(&self) -> (n: u32)
        ensures
            n == self.nanoseconds(),
            n < 1_000_000_000,
    {
        proof {
            use_type_invariant(self);
        }
        self.nanos
    }
}

/// What the first entry for `shard_id` in `shards` says.
pub open spec fn latency_of(shards: Seq<ShardStatus>, shard_id: u64) -> ShardLatency
    decreases shards.len(),
{
    if shards.len() == 0 {
        ShardLatency::NotFound
    } else if shards[0].shard_id == shard_id {
        match shards[0].latency {
            Some(l) => ShardLatency::Known(l),
            None => ShardLatency::Unknown,
        }
    } else {
        latency_of(shards.drop_first(), shard_id)
    }
}

/// A shard is not found exactly if no entry is for it.
pub proof fn lemma_not_found(shards: Seq<ShardStatus>, shard_id: u64)
    ensures
        latency_of(shards, shard_id) is NotFound <==> forall|i: int|
            0 <= i < shards.len() ==> (#[trigger] shards[i]).shard_id != shard_id,
    decreases shards.len(),
{
    if shards.len() > 0 {
        let rest = shards.drop_first();
        lemma_not_found(rest, shard_id);
        if shards[0].shard_id != shard_id {
            if latency_of(rest, shard_id) is NotFound {
                assert forall|i: int| 0 <= i < shards.len() implies (#[trigger] shards[i]).shard_id
                    != shard_id by {
                    if i > 0 {
                        assert(rest[i - 1].shard_id != shard_id);
                    }
                }
            } else {
                let i = choose|i: int| 0 <= i < rest.len() && (#[trigger] rest[i]).shard_id == shard_id;
                assert(shards[i + 1].shard_id == shard_id);
            }
        }
    }
}

/// The latency of shard `shard_id` as `shards` has it. Nothing is changed.
pub fn latency(shards: &Vec<ShardStatus>, shard_id: u64) -> (r: ShardLatency)
    ensures
        r == latency_of(shards@, shard_id),
{
    let mut i: usize = 0;
    assert(shards@.skip(0) =~= shards@);
    while i < shards.len()
        invariant
            i <= shards.len(),
            latency_of(shards@, shard_id) == latency_of(shards@.skip(i as int), shard_id),
        decreases shards.len() - i,
    {
        if shards[i].shard_id == shard_id {
            return match shards[i].latency {
                Some(l) => ShardLatency::Known(l),
                None => ShardLatency::Unknown,
            };
        }
        assert(shards@.skip(i as int).drop_first() =~= shards@.skip(i + 1));
        i += 1;
    }
    ShardLatency::NotFound
}

} // verus!
