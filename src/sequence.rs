use vstd::prelude::*;

use crate::codec::{checksum, push_bytes, push_u32, push_u64, u32_be};
use crate::format::{
    beacon_body, beacon_bytes, beacon_entries_bytes, beacon_entry_bytes, beacon_head, BeaconEntry,
    StreamKey, BEACON_MAGIC,
};

verus! {

/// One counter: the stream key's bytes, the shard, and the next number to hand out.
pub type CounterModel = (Seq<u8>, u64, u64);

/// Whether counter `c` belongs to `key` and `shard`.
pub open spec fn belongs(c: CounterModel, key: Seq<u8>, shard: u64) -> bool {
    c.0 == key && c.1 == shard
}

/// The next sequence number of `key` and `shard`: that of the last counter
/// that belongs to them, or 0 when none does.
pub open spec fn lookup(cs: Seq<CounterModel>, key: Seq<u8>, shard: u64) -> u64
    decreases cs.len(),
{
    if cs.len() == 0 {
        0
    } else if belongs(cs.last(), key, shard) {
        cs.last().2
    } else {
        lookup(cs.drop_last(), key, shard)
    }
}

/// How many times `(key, shard)` occurs in `ks`.
pub open spec fn occurrences(ks: Seq<(Seq<u8>, u64)>, key: Seq<u8>, shard: u64) -> nat
    decreases ks.len(),
{
    if ks.len() == 0 {
        0
    } else {
        occurrences(ks.drop_last(), key, shard) + if ks.last() == (key, shard) {
            1nat
        } else {
            0nat
        }
    }
}

/// What a beacon says of a counter: its key, its shard, and the last number
/// it handed out (one less than the next).
pub open spec fn last_written(c: CounterModel) -> BeaconEntry {
    (c.0, c.1, if c.2 > 0 { (c.2 - 1) as u64 } else { 0 })
}

/// The beacon entries of a list of counters.
pub open spec fn beacon_entries(cs: Seq<CounterModel>) -> Seq<BeaconEntry> {
    cs.map_values(|c: CounterModel| last_written(c))
}

struct Counter {
    key: StreamKey,
    shard: u64,
    next: u64,
}

/// Sequence numbers per stream key and shard, each starting at 0. The
/// counters are a list searched by key and shard, so that every lookup is
/// proved: std's hashed and ordered maps are specified for plain integer keys,
/// and these keys are byte strings paired with a shard.
pub struct SequenceCounters {
    counters: Vec<Counter>,
}

impl View for SequenceCounters {
    type V = Seq<CounterModel>;

    closed spec fn view(&self) -> Seq<CounterModel> {
        self.counters@.map_values(|c: Counter| (c.key@, c.shard, c.next))
    }
}

proof fn lemma_lookup_none(cs: Seq<CounterModel>, key: Seq<u8>, shard: u64)
    requires
        forall|j: int| 0 <= j < cs.len() ==> !belongs(#[trigger] cs[j], key, shard),
    ensures
        lookup(cs, key, shard) == 0,
    decreases cs.len(),
{
    if cs.len() > 0 {
        assert(!belongs(cs[cs.len() - 1], key, shard));
        lemma_lookup_none(cs.drop_last(), key, shard);
    }
}

proof fn lemma_lookup_last_match(cs: Seq<CounterModel>, i: int, key: Seq<u8>, shard: u64)
    requires
        0 <= i < cs.len(),
        belongs(cs[i], key, shard),
        forall|j: int| i < j < cs.len() ==> !belongs(#[trigger] cs[j], key, shard),
    ensures
        lookup(cs, key, shard) == cs[i].2,
    decreases cs.len(),
{
    if i < cs.len() - 1 {
        assert(!belongs(cs[cs.len() - 1], key, shard));
        lemma_lookup_last_match(cs.drop_last(), i, key, shard);
    }
}

proof fn lemma_lookup_update(cs: Seq<CounterModel>, i: int, c: CounterModel, key: Seq<u8>, shard: u64)
    requires
        0 <= i < cs.len(),
        belongs(cs[i], c.0, c.1),
        forall|j: int| i < j < cs.len() ==> !belongs(#[trigger] cs[j], c.0, c.1),
    ensures
        lookup(cs.update(i, c), key, shard) == if belongs(c, key, shard) {
            c.2
        } else {
            lookup(cs, key, shard)
        },
    decreases cs.len(),
{
    let u = cs.update(i, c);
    if i == cs.len() - 1 {
        assert(u.drop_last() =~= cs.drop_last());
    } else {
        assert(u.drop_last() =~= cs.drop_last().update(i, c));
        assert(!belongs(cs[cs.len() - 1], c.0, c.1));
        lemma_lookup_update(cs.drop_last(), i, c, key, shard);
    }
}

impl SequenceCounters {
    /// No counters: every stream and shard starts at 0.
    pub fn new() -> (r: SequenceCounters)
        ensures
            forall|key: Seq<u8>, shard: u64| lookup(r@, key, shard) == 0,
    {
        let r = SequenceCounters { counters: Vec::new() };
        assert forall|key: Seq<u8>, shard: u64| lookup(r@, key, shard) == 0 by {
            assert(r@.len() == 0);
        }
        r
    }

    /// The number that the next message of `key` and `shard` gets.
    pub fn current(&self, key: &StreamKey, shard: u64) -> (r: u64)
        ensures
            r == lookup(self@, key@, shard),
    {
        match self.find(key, shard) {
            Some(i) => self.counters[i].next,
            None => 0,
        }
    }

    fn find(&self, key: &StreamKey, shard: u64) -> (r: Option<usize>)
        ensures
            match r {
                Some(i) => i < self@.len() && belongs(self@[i as int], key@, shard) && (forall|j: int|
                    i < j < self@.len() ==> !belongs(#[trigger] self@[j], key@, shard)) && lookup(
                    self@,
                    key@,
                    shard,
                ) == self@[i as int].2,
                None => lookup(self@, key@, shard) == 0,
            },
    {
        let mut i: usize = self.counters.len();
        while i > 0
            invariant
                i <= self@.len(),
                self@.len() == self.counters@.len(),
                forall|j: int| i <= j < self@.len() ==> !belongs(#[trigger] self@[j], key@, shard),
            decreases i,
        {
            let c = &self.counters[i - 1];
            if c.shard == shard && c.key.same(key) {
                proof {
                    lemma_lookup_last_match(self@, i - 1, key@, shard);
                }
                return Some(i - 1);
            }
            assert(!belongs(self@[i - 1], key@, shard));
            i = i - 1;
        }
        proof {
            lemma_lookup_none(self@, key@, shard);
        }
        None
    }

    /// Hands out the next sequence number of `key` and `shard` and advances it
    /// by one; every other counter stays. `None`, with nothing changed, when the
    /// counter is exhausted.
    pub fn assign(&mut self, key: &StreamKey, shard: u64) -> (r: Option<u64>)
        ensures
            lookup(old(self)@, key@, shard) == u64::MAX ==> r is None && final(self)@ == old(
                self,
            )@,
            lookup(old(self)@, key@, shard) < u64::MAX ==> r == Some(
                lookup(old(self)@, key@, shard),
            ),
            r is Some ==> forall|k: Seq<u8>, s: u64| #[trigger]
                lookup(final(self)@, k, s) == if k == key@ && s == shard {
                    (lookup(old(self)@, k, s) + 1) as u64
                } else {
                    lookup(old(self)@, k, s)
                },
    {
        match self.find(key, shard) {
            Some(i) => {
                let n = self.counters[i].next;
                if n == u64::MAX {
                    return None;
                }
                let ghost before = self@;
                let c = Counter { key: key.copied(), shard, next: n + 1 };
                self.counters.set(i, c);
                assert(self@ =~= before.update(i as int, (key@, shard, (n + 1) as u64)));
                proof {
                    assert forall|k: Seq<u8>, s: u64| #[trigger]
                        lookup(self@, k, s) == if k == key@ && s == shard {
                            (lookup(before, k, s) + 1) as u64
                        } else {
                            lookup(before, k, s)
                        } by {
                        lemma_lookup_update(before, i as int, (key@, shard, (n + 1) as u64), k, s);
                    }
                }
                Some(n)
            },
            None => {
                let ghost before = self@;
                self.counters.push(Counter { key: key.copied(), shard, next: 1 });
                assert(self@ =~= before.push((key@, shard, 1u64)));
                assert(self@.drop_last() =~= before);
                Some(0)
            },
        }
    }

    /// Appends a beacon frame that lists every counter, oldest first.
    pub fn encode_beacon(&self, out: &mut Vec<u8>)
        ensures
            final(out)@ == old(out)@ + beacon_bytes(beacon_entries(self@)),
    {
        let mut body: Vec<u8> = Vec::new();
        push_u32(&mut body, #[verifier::truncate] (self.counters.len() as u32));
        let ghost start = body@;
        assert(start == u32_be(self@.len() as u32));
        let mut i: usize = 0;
        while i < self.counters.len()
            invariant
                i <= self@.len(),
                self@.len() == self.counters@.len(),
                start == u32_be(self@.len() as u32),
                body@ == start + beacon_entries_bytes(beacon_entries(self@).subrange(0, i as int)),
            decreases self@.len() - i,
        {
            let c = &self.counters[i];
            let key = c.key.as_bytes();
            let ghost before = body@;
            body.push(key.len() as u8);
            push_bytes(&mut body, key);
            push_u64(&mut body, c.shard);
            let last = if c.next > 0 {
                c.next - 1
            } else {
                0
            };
            push_u64(&mut body, last);
            assert(self@[i as int] == (key@, c.shard, c.next));
            assert(beacon_entries(self@)[i as int] == last_written(self@[i as int]));
            assert(body@ =~= before + beacon_entry_bytes(beacon_entries(self@)[i as int]));
            assert(beacon_entries(self@).subrange(0, i + 1).drop_last() =~= beacon_entries(
                self@,
            ).subrange(0, i as int));
            i = i + 1;
        }
        assert(beacon_entries(self@).subrange(0, i as int) =~= beacon_entries(self@));
        assert(body@ =~= beacon_body(beacon_entries(self@)));
        let mut frame: Vec<u8> = Vec::new();
        push_u32(&mut frame, BEACON_MAGIC);
        push_u32(&mut frame, #[verifier::truncate] (body.len() as u32));
        push_bytes(&mut frame, body.as_slice());
        assert(frame@ =~= beacon_head(beacon_entries(self@)));
        let crc = checksum(frame.as_slice(), 0, frame.len());
        assert(frame@.subrange(0, frame@.len() as int) =~= frame@);
        push_u32(&mut frame, crc);
        push_bytes(out, frame.as_slice());
    }
}

/// Sequence numbers have no gaps: if every counter stands at the number of
/// earlier messages of its stream and shard (as it does at the start, when all
/// are 0), then the next message gets exactly that number, and afterwards
/// every counter again stands at the number of messages so far. By induction,
/// the messages of each stream and shard are numbered 0, 1, 2, and so on.
pub proof fn lemma_sequence_gapless(
    before: Seq<CounterModel>,
    after: Seq<CounterModel>,
    sent: Seq<(Seq<u8>, u64)>,
    key: Seq<u8>,
    shard: u64,
    r: u64,
)
    requires
        forall|k: Seq<u8>, s: u64| lookup(before, k, s) == occurrences(sent, k, s),
        r == lookup(before, key, shard),
        r < u64::MAX,
        forall|k: Seq<u8>, s: u64| #[trigger]
            lookup(after, k, s) == if k == key && s == shard {
                (lookup(before, k, s) + 1) as u64
            } else {
                lookup(before, k, s)
            },
    ensures
        r == occurrences(sent, key, shard),
        forall|k: Seq<u8>, s: u64| lookup(after, k, s) == occurrences(sent.push((key, shard)), k, s),
{
    assert forall|k: Seq<u8>, s: u64| lookup(after, k, s) == occurrences(
        sent.push((key, shard)),
        k,
        s,
    ) by {
        assert(sent.push((key, shard)).drop_last() =~= sent);
        assert(lookup(before, k, s) == occurrences(sent, k, s));
    }
}

/// Over a writer's whole life: take the counters before each message
/// (`states[i]` before message `i`, starting with no counters), where each
/// message of `sent` gets the number its counter stands at and only that
/// counter goes up by one, as `SequenceCounters::assign` and `Writer::send`
/// state. Then every message gets the number of earlier messages of its
/// stream and shard: each stream and shard is numbered 0, 1, 2, ... without gaps.
pub proof fn lemma_numbers_of_run(
    states: Seq<Seq<CounterModel>>,
    sent: Seq<(Seq<u8>, u64)>,
    numbers: Seq<u64>,
)
    requires
        states.len() == sent.len() + 1,
        numbers.len() == sent.len(),
        forall|k: Seq<u8>, s: u64| lookup(states[0], k, s) == 0,
        forall|i: int| 0 <= i < sent.len() ==> #[trigger] numbers[i] == lookup(states[i], sent[i].0, sent[i].1)
            && numbers[i] < u64::MAX,
        forall|i: int, k: Seq<u8>, s: u64| 0 <= i < sent.len() ==> #[trigger] lookup(states[i + 1], k, s) == if k == sent[i].0 && s == sent[i].1 {
                (lookup(states[i], k, s) + 1) as u64
            } else {
                lookup(states[i], k, s)
            },
    ensures
        forall|i: int| 0 <= i < sent.len() ==> #[trigger] numbers[i] == occurrences(sent.take(i), sent[i].0, sent[i].1),
{
    assert forall|i: int| 0 <= i < sent.len() implies #[trigger] numbers[i] == occurrences(sent.take(i), sent[i].0, sent[i].1) by {
        lemma_run_prefix(states, sent, numbers, i);
        assert(numbers[i] == lookup(states[i], sent[i].0, sent[i].1));
    }
}

proof fn lemma_run_prefix(
    states: Seq<Seq<CounterModel>>,
    sent: Seq<(Seq<u8>, u64)>,
    numbers: Seq<u64>,
    j: int,
)
    requires
        states.len() == sent.len() + 1,
        numbers.len() == sent.len(),
        forall|k: Seq<u8>, s: u64| lookup(states[0], k, s) == 0,
        forall|i: int| 0 <= i < sent.len() ==> #[trigger] numbers[i] == lookup(states[i], sent[i].0, sent[i].1)
            && numbers[i] < u64::MAX,
        forall|i: int, k: Seq<u8>, s: u64| 0 <= i < sent.len() ==> #[trigger] lookup(states[i + 1], k, s) == if k == sent[i].0 && s == sent[i].1 {
                (lookup(states[i], k, s) + 1) as u64
            } else {
                lookup(states[i], k, s)
            },
        0 <= j <= sent.len(),
    ensures
        forall|k: Seq<u8>, s: u64| #[trigger] lookup(states[j], k, s) == occurrences(sent.take(j), k, s),
    decreases j,
{
    if j == 0 {
        assert forall|k: Seq<u8>, s: u64| #[trigger] lookup(states[j], k, s) == occurrences(sent.take(j), k, s) by {
            assert(sent.take(0).len() == 0);
        }
    } else {
        let i = j - 1;
        lemma_run_prefix(states, sent, numbers, i);
        assert(sent.take(j) =~= sent.take(i).push(sent[i]));
        assert(numbers[i] == lookup(states[i], sent[i].0, sent[i].1));
        assert forall|k: Seq<u8>, s: u64| #[trigger] lookup(states[j], k, s) == occurrences(sent.take(j), k, s) by {
            assert(lookup(states[i + 1], k, s) == if k == sent[i].0 && s == sent[i].1 {
                (lookup(states[i], k, s) + 1) as u64
            } else {
                lookup(states[i], k, s)
            });
            assert(sent.take(i).push(sent[i]).drop_last() =~= sent.take(i));
            assert(lookup(states[i], k, s) == occurrences(sent.take(i), k, s));
        }
    }
}

} // verus!
