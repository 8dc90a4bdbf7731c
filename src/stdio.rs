use vstd::prelude::*;

use crate::format::StreamKey;
use crate::sequence::{lookup, CounterModel, SequenceCounters};

verus! {

/// The sequence numbers of the messages printed per stream, all on shard 0.
pub struct Producers {
    sequences: SequenceCounters,
}

impl Producers {
    /// The counters, by stream key and shard.
    pub closed spec fn sequences(&self) -> Seq<CounterModel> {
        self.sequences@
    }

    /// No stream has printed anything.
    pub fn new() -> (r: Producers)
        ensures
            forall|k: Seq<u8>, s: u64| lookup(r.sequences(), k, s) == 0,
    {
        Producers { sequences: SequenceCounters::new() }
    }

    /// The sequence number of the next message of `stream`, which is then
    /// advanced by one; other streams keep theirs.
    pub fn append(&mut self, stream: &StreamKey) -> (r: u64)
        requires
            lookup(old(self).sequences(), stream@, 0) < u64::MAX,
        ensures
            r == lookup(old(self).sequences(), stream@, 0),
            forall|k: Seq<u8>, s: u64| #[trigger]
                lookup(final(self).sequences(), k, s) == if k == stream@ && s == 0 {
                    (r + 1) as u64
                } else {
                    lookup(old(self).sequences(), k, s)
                },
    {
        match self.sequences.assign(stream, 0) {
            Some(n) => n,
            None => 0,
        }
    }
}

} // verus!
