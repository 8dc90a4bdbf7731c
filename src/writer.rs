use vstd::prelude::*;

use crate::error::{FileErr, FormatErr};
use crate::format::{
    beacon_bytes, encode_header, encode_record, header_bytes, record_bytes, valid_key,
    FileHeader, MessageHeader, RecordModel, StreamKey, Timestamp, MAX_PAYLOAD_LEN,
};
use crate::sequence::{beacon_entries, lookup, CounterModel, SequenceCounters};
use crate::sink::SYNC_MARKER;

verus! {

/// The decisions of the one writer task of a file: sequence numbers, frames,
/// flush markers, beacons, and the end of its life at the first error.
pub struct Writer {
    counters: SequenceCounters,
    marker: u32,
    offset: u64,
    beacon_interval: u32,
    dead: bool,
}

/// `off` moved on by `len` bytes, stopping at the largest `u64`.
pub open spec fn advance(off: u64, len: nat) -> u64 {
    if off + len <= u64::MAX {
        (off + len) as u64
    } else {
        u64::MAX
    }
}

/// Whether a beacon follows a record of `len` bytes written at `off`: when
/// beacons are enabled and a multiple of `interval` falls within the record
/// or at its end.
pub open spec fn beacon_due(off: u64, len: nat, interval: u32) -> bool {
    interval > 0 && off / (interval as u64) < advance(off, len) / (interval as u64)
}

/// The record that a message becomes.
pub open spec fn message_model(h: MessageHeader, payload: Seq<u8>) -> RecordModel {
    RecordModel {
        key: h.stream_key@,
        shard_id: h.shard_id,
        sequence: h.sequence,
        timestamp: h.timestamp,
        payload,
    }
}

impl Writer {
    /// The sequence counters.
    pub closed spec fn counters(&self) -> Seq<CounterModel> {
        self.counters@
    }

    /// The marker of the next flush.
    pub closed spec fn marker(&self) -> u32 {
        self.marker
    }

    /// Bytes handed to the sink so far, header included.
    pub closed spec fn offset(&self) -> u64 {
        self.offset
    }

    /// Bytes between beacons; 0 when there are none.
    pub closed spec fn beacon_interval(&self) -> u32 {
        self.beacon_interval
    }

    /// Whether the writer has met an error or ended.
    pub closed spec fn is_dead(&self) -> bool {
        self.dead
    }

    /// A writer for a file that already holds `file_size` bytes, with a beacon
    /// every `beacon_interval` bytes (none when it is 0).
    pub fn new(file_size: u64, beacon_interval: u32) -> (r: Writer)
        ensures
            forall|k: Seq<u8>, s: u64| lookup(r.counters(), k, s) == 0,
            r.marker() == 0,
            r.offset() == file_size,
            r.beacon_interval() == beacon_interval,
            !r.is_dead(),
    {
        Writer {
            counters: SequenceCounters::new(),
            marker: 0,
            offset: file_size,
            beacon_interval,
            dead: false,
        }
    }

    /// The header to write first: one only when the file is empty.
    pub fn header(&mut self, created: Timestamp) -> (r: Option<Vec<u8>>)
        ensures
            old(self).offset() == 0 ==> (r matches Some(v) && v@ == header_bytes(
                (FileHeader { beacon_interval: old(self).beacon_interval(), created_at_ms: created.millis }),
            )),
            old(self).offset() != 0 ==> r is None,
            final(self).offset() == if old(self).offset() == 0 {
                v_len(r)
            } else {
                old(self).offset()
            },
            final(self).counters() == old(self).counters(),
            final(self).marker() == old(self).marker(),
            final(self).beacon_interval() == old(self).beacon_interval(),
            final(self).is_dead() == old(self).is_dead(),
    {
        if self.offset != 0 {
            return None;
        }
        let h = encode_header(
            &FileHeader { beacon_interval: self.beacon_interval, created_at_ms: created.millis },
        );
        self.offset = h.len() as u64;
        Some(h)
    }

    /// Turns a message into a frame: assigns the next sequence number of its
    /// stream and shard and stamps it with `now`; a beacon listing every
    /// counter follows the record when it reaches a beacon boundary. A dead writer answers
    /// `TaskDead`; a payload too large for a frame is refused with
    /// `OversizeRecord` at the current offset; a stream whose numbers are
    /// exhausted is refused with `FileLimitExceeded`. Only a frame changes the
    /// counters.
    pub fn send(&mut self, key: &StreamKey, shard: u64, now: Timestamp, payload: &[u8]) -> (r:
        Result<(MessageHeader, Vec<u8>), FileErr>)
        ensures
            old(self).is_dead() ==> r == Err::<(MessageHeader, Vec<u8>), FileErr>(
                FileErr::TaskDead("producer"),
            ),
            !old(self).is_dead() && payload@.len() > MAX_PAYLOAD_LEN ==> r == Err::<
                (MessageHeader, Vec<u8>),
                FileErr,
            >(FileErr::FormatErr(FormatErr::OversizeRecord(old(self).offset()))),
            !old(self).is_dead() && payload@.len() <= MAX_PAYLOAD_LEN && lookup(old(self).counters(), key@, shard) == u64::MAX
                ==> r == Err::<(MessageHeader, Vec<u8>), FileErr>(FileErr::FileLimitExceeded),
            !old(self).is_dead() && payload@.len() <= MAX_PAYLOAD_LEN && lookup(old(self).counters(), key@, shard) < u64::MAX
                ==> (r matches Ok((h, frame)) && h.stream_key@ == key@ && h.shard_id == shard
                && h.sequence == lookup(old(self).counters(), key@, shard) && h.timestamp == now
                && frame@ == record_bytes(message_model(h, payload@)) + if beacon_due(
                    old(self).offset(),
                    record_bytes(message_model(h, payload@)).len(),
                    old(self).beacon_interval(),
                ) {
                    beacon_bytes(beacon_entries(final(self).counters()))
                } else {
                    Seq::empty()
                } && final(self).offset() == advance(old(self).offset(), frame@.len())
                && valid_key(key@)
                && forall|k: Seq<u8>, s: u64| #[trigger] lookup(final(self).counters(), k, s) == if k == key@ && s == shard {
                    (lookup(old(self).counters(), k, s) + 1) as u64
                } else {
                    lookup(old(self).counters(), k, s)
                }),
            r is Err ==> final(self).counters() == old(self).counters(),
            final(self).marker() == old(self).marker(),
            final(self).beacon_interval() == old(self).beacon_interval(),
            final(self).is_dead() == old(self).is_dead(),
    {
        if self.dead {
            return Err(FileErr::TaskDead("producer"));
        }
        if payload.len() > MAX_PAYLOAD_LEN {
            return Err(FileErr::FormatErr(FormatErr::OversizeRecord(self.offset)));
        }
        let sequence = match self.counters.assign(key, shard) {
            Some(n) => n,
            None => {
                return Err(FileErr::FileLimitExceeded);
            },
        };
        let header = MessageHeader { stream_key: key.copied(), shard_id: shard, sequence, timestamp: now };
        let mut frame: Vec<u8> = Vec::new();
        encode_record(&mut frame, &header, payload);
        let ghost record = frame@;
        assert(record =~= record_bytes(message_model(header, payload@)));
        let before = self.offset;
        let len = frame.len() as u64;
        let after = if before <= u64::MAX - len {
            before + len
        } else {
            u64::MAX
        };
        let iv = self.beacon_interval as u64;
        if iv > 0 && before / iv < after / iv {
            self.counters.encode_beacon(&mut frame);
        } else {
            assert(frame@ =~= record + Seq::<u8>::empty());
        }
        let total = frame.len() as u64;
        self.offset = if before <= u64::MAX - total {
            before + total
        } else {
            u64::MAX
        };
        Ok((header, frame))
    }

    /// Takes in what the sink answered; its first error ends the writer. Returns
    /// the answer for the current request, and whether the task goes on: once
    /// the writer is dead it exits, after answering the requests already
    /// queued with `TaskDead` (which `send`, `flush` and `end` of a dead
    /// writer give) and leaving the registry.
    pub fn sink_result(&mut self, result: Result<(), FileErr>) -> (r: (Result<(), FileErr>, Next))
        ensures
            r.0 == result,
            r.1 == (if final(self).is_dead() { Next::Exit } else { Next::Continue }),
            final(self).is_dead() == (old(self).is_dead() || result is Err),
            final(self).counters() == old(self).counters(),
            final(self).marker() == old(self).marker(),
            final(self).offset() == old(self).offset(),
            final(self).beacon_interval() == old(self).beacon_interval(),
    {
        if result.is_err() {
            self.dead = true;
        }
        let next = if self.dead {
            Next::Exit
        } else {
            Next::Continue
        };
        (result, next)
    }

    /// The marker for the next flush, after which markers go on increasing
    /// and skip the one reserved for a full sync. A dead writer answers `TaskDead`.
    pub fn flush(&mut self) -> (r: Result<u32, FileErr>)
        ensures
            old(self).is_dead() ==> r == Err::<u32, FileErr>(FileErr::TaskDead("producer"))
                && final(self).marker() == old(self).marker(),
            !old(self).is_dead() ==> r == Ok::<u32, FileErr>(old(self).marker()),
            !old(self).is_dead() ==> final(self).marker() == if old(self).marker() + 1 >= SYNC_MARKER {
                0
            } else {
                old(self).marker() + 1
            },
            old(self).marker() < SYNC_MARKER ==> final(self).marker() < SYNC_MARKER,
            final(self).counters() == old(self).counters(),
            final(self).is_dead() == old(self).is_dead(),
            final(self).offset() == old(self).offset(),
    {
        if self.dead {
            return Err(FileErr::TaskDead("producer"));
        }
        let m = self.marker;
        self.marker = if m >= SYNC_MARKER - 1 {
            0
        } else {
            m + 1
        };
        Ok(m)
    }

    /// Ends the writer: after the final flush and sync, nothing more is taken.
    /// A dead writer answers `TaskDead`.
    pub fn end(&mut self) -> (r: Result<(), FileErr>)
        ensures
            old(self).is_dead() <==> r is Err,
            r is Err ==> r == Err::<(), FileErr>(FileErr::TaskDead("producer")),
            final(self).is_dead(),
            final(self).counters() == old(self).counters(),
            final(self).offset() == old(self).offset(),
    {
        if self.dead {
            return Err(FileErr::TaskDead("producer"));
        }
        self.dead = true;
        Ok(())
    }
}

/// Whether a writer task goes on after a request.
#[derive(Debug, Clone, Copy, PartialEq, Eq, Structural)]
pub enum Next {
    Continue,
    /// Answer what is queued with `TaskDead`, leave the registry, and stop.
    Exit,
}

/// The length of a header, if there is one.
pub open spec fn v_len(h: Option<Vec<u8>>) -> u64 {
    match h {
        Some(v) => v@.len() as u64,
        None => 0,
    }
}

} // verus!
