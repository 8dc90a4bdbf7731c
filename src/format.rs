use vstd::prelude::*;

use crate::codec::{
    be32_at, be64_at, checksum, crc32c, lemma_be32_round_trip, lemma_be64_round_trip,
    lemma_be_inverse32, lemma_be_inverse64, push_u32,
    push_u64, read_u32, read_u64, u32_be, u64_be,
};
use crate::error::{FileErr, FormatErr, HeaderErr};
use vstd::string::StringSliceAdditionalSpecFns;

verus! {

/// The longest stream key, in bytes.
pub const MAX_STREAM_KEY_LEN: usize = 249;

/// The largest value of a frame's length field.
pub const MAX_FRAME_LEN: u32 = 1_073_741_824;

/// The largest payload a record can carry: the longest frame, less its fixed
/// fields and the longest key.
pub const MAX_PAYLOAD_LEN: usize = 1_073_741_538;

/// Bytes of a frame after its length field that do not depend on the key or payload:
/// key length, shard, sequence, millis, nanos, payload length and checksum.
pub const FRAME_FIXED_LEN: u32 = 37;

/// A byte of the stream key alphabet `[A-Za-z0-9_.-]`.
pub open spec fn is_key_byte(b: u8) -> bool {
    (0x41 <= b && b <= 0x5a) || (0x61 <= b && b <= 0x7a) || (0x30 <= b && b <= 0x39) || b == 0x5f
        || b == 0x2e || b == 0x2d
}

/// A well-formed stream key: one to 249 bytes of the key alphabet.
pub open spec fn valid_key(s: Seq<u8>) -> bool {
    1 <= s.len() <= MAX_STREAM_KEY_LEN && forall|i: int| 0 <= i < s.len() ==> is_key_byte(#[trigger] s[i])
}

fn key_byte(b: u8) -> (r: bool)
    ensures
        r == is_key_byte(b),
{
    (0x41 <= b && b <= 0x5a) || (0x61 <= b && b <= 0x7a) || (0x30 <= b && b <= 0x39) || b == 0x5f
        || b == 0x2e || b == 0x2d
}

/// Whether `buf[start..end]` is a well-formed stream key.
pub fn check_key(buf: &[u8], start: usize, end: usize) -> (r: bool)
    requires
        start <= end <= buf@.len(),
    ensures
        r == valid_key(buf@.subrange(start as int, end as int)),
{
    if end - start < 1 || end - start > MAX_STREAM_KEY_LEN {
        return false;
    }
    let mut i: usize = start;
    while i < end
        invariant
            start <= i <= end <= buf@.len(),
            forall|j: int| start <= j < i ==> is_key_byte(#[trigger] buf@[j]),
        decreases end - i,
    {
        if !key_byte(buf[i]) {
            assert(!is_key_byte(buf@.subrange(start as int, end as int)[i - start]));
            return false;
        }
        i = i + 1;
    }
    assert forall|j: int| 0 <= j < end - start implies is_key_byte(
        #[trigger] buf@.subrange(start as int, end as int)[j],
    ) by {
        assert(is_key_byte(buf@[start + j]));
    }
    true
}

/// Why a stream key was refused.
#[derive(Debug, Clone, Copy, PartialEq, Eq, Structural)]
pub enum StreamKeyErr {
    /// Empty, or longer than 249 bytes.
    InvalidLength,
    /// Holds a character outside `[A-Za-z0-9_.-]`.
    InvalidCharacter,
}

/// The name of a logical stream; always a well-formed key.
#[derive(Debug, PartialEq, Eq)]
pub struct StreamKey {
    name: Vec<u8>,
}

impl View for StreamKey {
    type V = Seq<u8>;

    closed spec fn view(&self) -> Seq<u8> {
        self.name@
    }
}

impl StreamKey {
    #[verifier::type_invariant]
    spec fn inv(&self) -> bool {
        valid_key(self.name@)
    }

    /// Validates `name` against the key grammar.
    pub fn new(name: &str) -> (r: Result<StreamKey, StreamKeyErr>)
        ensures
            match r {
                Ok(k) => k@ == name.spec_bytes() && valid_key(k@),
                Err(StreamKeyErr::InvalidLength) => !(1 <= name.spec_bytes().len()
                    <= MAX_STREAM_KEY_LEN),
                Err(StreamKeyErr::InvalidCharacter) => 1 <= name.spec_bytes().len()
                    <= MAX_STREAM_KEY_LEN && !valid_key(name.spec_bytes()),
            },
    {
        let bytes = name.as_bytes();
        Self::from_bytes(bytes)
    }

    /// Validates `bytes` against the key grammar.
    pub fn from_bytes(bytes: &[u8]) -> (r: Result<StreamKey, StreamKeyErr>)
        ensures
            match r {
                Ok(k) => k@ == bytes@ && valid_key(k@),
                Err(StreamKeyErr::InvalidLength) => !(1 <= bytes@.len() <= MAX_STREAM_KEY_LEN),
                Err(StreamKeyErr::InvalidCharacter) => 1 <= bytes@.len() <= MAX_STREAM_KEY_LEN
                    && !valid_key(bytes@),
            },
    {
        if bytes.len() < 1 || bytes.len() > MAX_STREAM_KEY_LEN {
            return Err(StreamKeyErr::InvalidLength);
        }
        if !check_key(bytes, 0, bytes.len()) {
            assert(bytes@.subrange(0, bytes@.len() as int) =~= bytes@);
            return Err(StreamKeyErr::InvalidCharacter);
        }
        assert(bytes@.subrange(0, bytes@.len() as int) =~= bytes@);
        let mut name: Vec<u8> = Vec::new();
        let mut i: usize = 0;
        while i < bytes.len()
            invariant
                i <= bytes@.len(),
                name@ == bytes@.subrange(0, i as int),
            decreases bytes@.len() - i,
        {
            name.push(bytes[i]);
            i = i + 1;
            assert(name@ =~= bytes@.subrange(0, i as int));
        }
        assert(name@ =~= bytes@);
        Ok(StreamKey { name })
    }

    /// The key's bytes.
    pub fn as_bytes(&self) -> (r: &[u8])
        ensures
            r@ == self@,
            valid_key(self@),
    {
        proof {
            use_type_invariant(self);
        }
        self.name.as_slice()
    }

    /// A second key with the same name.
    pub fn copied(&self) -> (r: StreamKey)
        ensures
            r@ == self@,
    {
        proof {
            use_type_invariant(self);
        }
        StreamKey { name: self.name.clone() }
    }

    /// Whether two keys name the same stream.
    pub fn same(&self, other: &StreamKey) -> (r: bool)
        ensures
            r == (self@ == other@),
    {
        let a = self.name.as_slice();
        let b = other.name.as_slice();
        if a.len() != b.len() {
            return false;
        }
        let mut i: usize = 0;
        while i < a.len()
            invariant
                a@ == self@,
                b@ == other@,
                a@.len() == b@.len(),
                i <= a@.len(),
                a@.subrange(0, i as int) == b@.subrange(0, i as int),
            decreases a@.len() - i,
        {
            if a[i] != b[i] {
                return false;
            }
            assert(a@.subrange(0, i + 1) =~= a@.subrange(0, i as int).push(a@[i as int]));
            assert(b@.subrange(0, i + 1) =~= b@.subrange(0, i as int).push(b@[i as int]));
            i = i + 1;
        }
        assert(a@ =~= a@.subrange(0, i as int));
        assert(b@ =~= b@.subrange(0, i as int));
        true
    }
}

/// A UTC instant: milliseconds since the epoch and the nanoseconds beyond them.
#[derive(Debug, Clone, Copy, PartialEq, Eq, Structural)]
pub struct Timestamp {
    pub millis: i64,
    pub nanos: u32,
}

/// The metadata the writer assigns to a message.
#[derive(Debug, PartialEq, Eq)]
pub struct MessageHeader {
    pub stream_key: StreamKey,
    pub shard_id: u64,
    pub sequence: u64,
    pub timestamp: Timestamp,
}

/// A message as it stands in a file.
#[derive(Debug, PartialEq, Eq)]
pub struct Record {
    pub header: MessageHeader,
    pub payload: Vec<u8>,
}

/// What a record holds, as plain values.
pub struct RecordModel {
    pub key: Seq<u8>,
    pub shard_id: u64,
    pub sequence: u64,
    pub timestamp: Timestamp,
    pub payload: Seq<u8>,
}

impl View for Record {
    type V = RecordModel;

    open spec fn view(&self) -> RecordModel {
        RecordModel {
            key: self.header.stream_key@,
            shard_id: self.header.shard_id,
            sequence: self.header.sequence,
            timestamp: self.header.timestamp,
            payload: self.payload@,
        }
    }
}

/// A record that can be written: a valid key and a payload within bounds.
pub open spec fn encodable(m: RecordModel) -> bool {
    valid_key(m.key) && m.payload.len() <= MAX_PAYLOAD_LEN
}

/// The value of a frame's length field: the bytes that follow it.
pub open spec fn frame_len(m: RecordModel) -> u32 {
    (FRAME_FIXED_LEN + m.key.len() + m.payload.len()) as u32
}

/// The length field and the fields the checksum covers.
pub open spec fn frame_head(m: RecordModel) -> Seq<u8> {
    u32_be(frame_len(m)) + seq![m.key.len() as u8] + m.key + u64_be(m.shard_id) + u64_be(
        m.sequence,
    ) + u64_be(m.timestamp.millis as u64) + u32_be(m.timestamp.nanos) + u32_be(
        m.payload.len() as u32,
    ) + m.payload
}

/// The bytes of a record frame: its head, then the CRC-32C of the head.
pub open spec fn record_bytes(m: RecordModel) -> Seq<u8> {
    frame_head(m) + u32_be(crc32c(frame_head(m)))
}

/// Appends the frame of a record with header `h` and payload `payload`.
pub fn encode_record(out: &mut Vec<u8>, h: &MessageHeader, payload: &[u8])
    requires
        payload@.len() <= MAX_PAYLOAD_LEN,
    ensures
        final(out)@ == old(out)@ + record_bytes(
            RecordModel {
                key: h.stream_key@,
                shard_id: h.shard_id,
                sequence: h.sequence,
                timestamp: h.timestamp,
                payload: payload@,
            },
        ),
        valid_key(h.stream_key@),
{
    let ghost m = RecordModel {
        key: h.stream_key@,
        shard_id: h.shard_id,
        sequence: h.sequence,
        timestamp: h.timestamp,
        payload: payload@,
    };
    let key = h.stream_key.as_bytes();
    let mut frame: Vec<u8> = Vec::new();
    let flen: u32 = FRAME_FIXED_LEN + key.len() as u32 + payload.len() as u32;
    push_u32(&mut frame, flen);
    frame.push(key.len() as u8);
    let mut i: usize = 0;
    while i < key.len()
        invariant
            i <= key@.len(),
            frame@ == u32_be(flen) + seq![key@.len() as u8] + key@.subrange(0, i as int),
        decreases key@.len() - i,
    {
        frame.push(key[i]);
        i = i + 1;
        assert(frame@ =~= u32_be(flen) + seq![key@.len() as u8] + key@.subrange(0, i as int));
    }
    assert(key@.subrange(0, key@.len() as int) =~= key@);
    push_u64(&mut frame, h.shard_id);
    push_u64(&mut frame, h.sequence);
    push_u64(&mut frame, h.timestamp.millis as u64);
    push_u32(&mut frame, h.timestamp.nanos);
    push_u32(&mut frame, payload.len() as u32);
    let ghost before = frame@;
    let mut j: usize = 0;
    while j < payload.len()
        invariant
            j <= payload@.len(),
            frame@ == before + payload@.subrange(0, j as int),
        decreases payload@.len() - j,
    {
        frame.push(payload[j]);
        j = j + 1;
        assert(frame@ =~= before + payload@.subrange(0, j as int));
    }
    assert(payload@.subrange(0, payload@.len() as int) =~= payload@);
    assert(frame@ =~= frame_head(m));
    let crc = checksum(frame.as_slice(), 0, frame.len());
    assert(frame@.subrange(0, frame@.len() as int) =~= frame@);
    push_u32(&mut frame, crc);
    let ghost start = out@;
    let mut k: usize = 0;
    while k < frame.len()
        invariant
            k <= frame@.len(),
            frame@ == record_bytes(m),
            out@ == start + frame@.subrange(0, k as int),
        decreases frame@.len() - k,
    {
        out.push(frame[k]);
        k = k + 1;
        assert(out@ =~= start + frame@.subrange(0, k as int));
    }
    assert(frame@.subrange(0, frame@.len() as int) =~= frame@);
}

/// Why a frame could not be read.
#[derive(Debug, Clone, Copy, PartialEq, Eq, Structural)]
pub enum Corruption {
    Truncated,
    ChecksumMismatch,
    InvalidStreamKey,
    OversizeRecord,
}

/// The error for a frame with `c` that starts at byte `offset`.
pub open spec fn format_err(c: Corruption, offset: u64) -> FormatErr {
    match c {
        Corruption::Truncated => FormatErr::Truncated(offset),
        Corruption::ChecksumMismatch => FormatErr::ChecksumMismatch(offset),
        Corruption::InvalidStreamKey => FormatErr::InvalidStreamKey(offset),
        Corruption::OversizeRecord => FormatErr::OversizeRecord(offset),
    }
}

/// What the bytes at the start of a buffer hold.
pub enum Frame {
    /// A record, and the number of bytes its frame takes.
    Complete(RecordModel, nat),
    /// A beacon, and the number of bytes its frame takes.
    Beacon(nat),
    /// The start of a frame whose end has not been written yet.
    Incomplete,
    Corrupt(Corruption),
}

/// Stands where a record frame has its length, and marks a beacon frame.
pub const BEACON_MAGIC: u32 = 4_294_967_295;

/// What a beacon says of one stream and shard: the key's bytes, the shard,
/// and the last sequence number written to them.
pub type BeaconEntry = (Seq<u8>, u64, u64);

/// The bytes of one beacon entry.
pub open spec fn beacon_entry_bytes(e: BeaconEntry) -> Seq<u8> {
    seq![e.0.len() as u8] + e.0 + u64_be(e.1) + u64_be(e.2)
}

/// The bytes of beacon entries, one after another.
pub open spec fn beacon_entries_bytes(es: Seq<BeaconEntry>) -> Seq<u8>
    decreases es.len(),
{
    if es.len() == 0 {
        Seq::empty()
    } else {
        beacon_entries_bytes(es.drop_last()) + beacon_entry_bytes(es.last())
    }
}

/// The body of a beacon: the number of entries, then the entries.
pub open spec fn beacon_body(es: Seq<BeaconEntry>) -> Seq<u8> {
    u32_be(es.len() as u32) + beacon_entries_bytes(es)
}

/// The magic, the body length and the body of a beacon.
pub open spec fn beacon_head(es: Seq<BeaconEntry>) -> Seq<u8> {
    u32_be(BEACON_MAGIC) + u32_be(beacon_body(es).len() as u32) + beacon_body(es)
}

/// The bytes of a beacon frame: its head, then the CRC-32C of the head.
pub open spec fn beacon_bytes(es: Seq<BeaconEntry>) -> Seq<u8> {
    beacon_head(es) + u32_be(crc32c(beacon_head(es)))
}

/// Reads the beacon frame at the start of `s`, which starts with `BEACON_MAGIC`:
/// `u32 magic | u32 body_len | body | u32 crc32c`.
pub open spec fn parse_beacon(s: Seq<u8>) -> Frame {
    if s.len() < 8 {
        Frame::Incomplete
    } else {
        let bl = be32_at(s, 4) as int;
        if bl > MAX_FRAME_LEN {
            Frame::Corrupt(Corruption::OversizeRecord)
        } else if s.len() < 12 + bl {
            Frame::Incomplete
        } else if be32_at(s, 8 + bl) != crc32c(s.subrange(0, 8 + bl)) {
            Frame::Corrupt(Corruption::ChecksumMismatch)
        } else {
            Frame::Beacon((12 + bl) as nat)
        }
    }
}

/// Reads the frame at the start of `s`.
///
/// Layout: `u32 frame_len | u8 key_len | key | u64 shard | u64 seq | i64 millis |
/// u32 nanos | u32 payload_len | payload | u32 crc32c`, integers big-endian; the
/// checksum covers every byte before it, and `frame_len` counts every byte after it.
/// A frame that starts with `BEACON_MAGIC` in place of a length is a beacon.
#[verifier::opaque]
pub open spec fn parse_frame(s: Seq<u8>) -> Frame {
    if s.len() < 4 {
        Frame::Incomplete
    } else {
        let fl = be32_at(s, 0) as int;
        if fl == BEACON_MAGIC {
            parse_beacon(s)
        } else if fl > MAX_FRAME_LEN {
            Frame::Corrupt(Corruption::OversizeRecord)
        } else if fl < FRAME_FIXED_LEN + 1 {
            Frame::Corrupt(Corruption::Truncated)
        } else if s.len() < 4 + fl {
            Frame::Incomplete
        } else {
            let end = 4 + fl;
            let kl = s[4] as int;
            let p = 5 + kl;
            if be32_at(s, end - 4) != crc32c(s.subrange(0, end - 4)) {
                Frame::Corrupt(Corruption::ChecksumMismatch)
            } else if p + 36 > end {
                Frame::Corrupt(Corruption::Truncated)
            } else if p + 36 + be32_at(s, p + 28) != end {
                Frame::Corrupt(Corruption::Truncated)
            } else if !valid_key(s.subrange(5, p)) {
                Frame::Corrupt(Corruption::InvalidStreamKey)
            } else {
                Frame::Complete(
                    RecordModel {
                        key: s.subrange(5, p),
                        shard_id: be64_at(s, p),
                        sequence: be64_at(s, p + 8),
                        timestamp: Timestamp {
                            millis: be64_at(s, p + 16) as i64,
                            nanos: be32_at(s, p + 24),
                        },
                        payload: s.subrange(p + 32, end - 4),
                    },
                    end as nat,
                )
            }
        }
    }
}

fn copy_range(buf: &[u8], start: usize, end: usize) -> (r: Vec<u8>)
    requires
        start <= end <= buf@.len(),
    ensures
        r@ == buf@.subrange(start as int, end as int),
{
    let mut v: Vec<u8> = Vec::new();
    let mut i: usize = start;
    while i < end
        invariant
            start <= i <= end <= buf@.len(),
            v@ == buf@.subrange(start as int, i as int),
        decreases end - i,
    {
        v.push(buf[i]);
        i = i + 1;
        assert(v@ =~= buf@.subrange(start as int, i as int));
    }
    v
}

/// Checks the beacon frame that starts at `offset` and returns the offset just
/// past it.
fn skip_beacon(buf: &[u8], offset: usize) -> (r: Result<usize, FileErr>)
    requires
        offset + 4 <= buf@.len(),
    ensures
        match parse_beacon(buf@.subrange(offset as int, buf@.len() as int)) {
            Frame::Beacon(n) => r == Ok::<usize, FileErr>((offset + n) as usize) && offset < offset
                + n <= buf@.len(),
            Frame::Incomplete => r == Err::<usize, FileErr>(FileErr::NotEnoughBytes),
            Frame::Corrupt(c) => r == Err::<usize, FileErr>(
                FileErr::FormatErr(format_err(c, offset as u64)),
            ),
            _ => false,
        },
{
    let ghost s = buf@.subrange(offset as int, buf@.len() as int);
    let rest = buf.len() - offset;
    let at = offset as u64;
    if rest < 8 {
        return Err(FileErr::NotEnoughBytes);
    }
    let bl = read_u32(buf, offset + 4);
    assert(bl == be32_at(s, 4));
    if bl > MAX_FRAME_LEN {
        return Err(FileErr::FormatErr(FormatErr::OversizeRecord(at)));
    }
    let bl = bl as usize;
    if rest < 12 + bl {
        return Err(FileErr::NotEnoughBytes);
    }
    let stored = read_u32(buf, offset + 8 + bl);
    assert(stored == be32_at(s, 8 + bl));
    let crc = checksum(buf, offset, offset + 8 + bl);
    assert(buf@.subrange(offset as int, offset + 8 + bl) =~= s.subrange(0, 8 + bl));
    if stored != crc {
        return Err(FileErr::FormatErr(FormatErr::ChecksumMismatch(at)));
    }
    Ok(offset + 12 + bl)
}

/// Reads the frame that starts at `offset`. On success, returns the record it
/// holds, or `None` for a beacon, which a reader passes over, and the offset
/// just past the frame. `NotEnoughBytes` says that the frame runs past the end
/// of `buf`; a `FormatErr` carries `offset`.
#[verifier::rlimit(100)]
pub fn decode_record(buf: &[u8], offset: usize) -> (r: Result<(Option<Record>, usize), FileErr>)
    requires
        offset <= buf@.len(),
    ensures
        match parse_frame(buf@.subrange(offset as int, buf@.len() as int)) {
            Frame::Complete(m, n) => r matches Ok((Some(rec), next)) && rec@ == m && next == offset + n
                && offset < next <= buf@.len(),
            Frame::Beacon(n) => r matches Ok((None, next)) && next == offset + n
                && offset < next <= buf@.len(),
            Frame::Incomplete => r == Err::<(Option<Record>, usize), FileErr>(FileErr::NotEnoughBytes),
            Frame::Corrupt(c) => r == Err::<(Option<Record>, usize), FileErr>(
                FileErr::FormatErr(format_err(c, offset as u64)),
            ),
        },
{
    reveal(parse_frame);
    let ghost s = buf@.subrange(offset as int, buf@.len() as int);
    let rest = buf.len() - offset;
    let at = offset as u64;
    if rest < 4 {
        return Err(FileErr::NotEnoughBytes);
    }
    let fl = read_u32(buf, offset);
    assert(fl == be32_at(s, 0));
    if fl == BEACON_MAGIC {
        return match skip_beacon(buf, offset) {
            Ok(next) => Ok((None, next)),
            Err(e) => Err(e),
        };
    }
    if fl > MAX_FRAME_LEN {
        return Err(FileErr::FormatErr(FormatErr::OversizeRecord(at)));
    }
    if fl < FRAME_FIXED_LEN + 1 {
        return Err(FileErr::FormatErr(FormatErr::Truncated(at)));
    }
    let fl = fl as usize;
    if rest < 4 + fl {
        return Err(FileErr::NotEnoughBytes);
    }
    let end = offset + 4 + fl;
    let kl = buf[offset + 4] as usize;
    let stored = read_u32(buf, end - 4);
    assert(stored == be32_at(s, 4 + fl - 4));
    let crc = checksum(buf, offset, end - 4);
    assert(buf@.subrange(offset as int, end - 4) =~= s.subrange(0, 4 + fl - 4));
    if stored != crc {
        return Err(FileErr::FormatErr(FormatErr::ChecksumMismatch(at)));
    }
    if 5 + kl + 36 > 4 + fl {
        return Err(FileErr::FormatErr(FormatErr::Truncated(at)));
    }
    let p = offset + 5 + kl;
    let pl = read_u32(buf, p + 28);
    assert(pl == be32_at(s, 5 + kl + 28));
    if (5 + kl + 36) as u64 + pl as u64 != (4 + fl) as u64 {
        return Err(FileErr::FormatErr(FormatErr::Truncated(at)));
    }
    let ok = check_key(buf, offset + 5, p);
    assert(buf@.subrange(offset + 5, p as int) =~= s.subrange(5, 5 + kl));
    if !ok {
        return Err(FileErr::FormatErr(FormatErr::InvalidStreamKey(at)));
    }
    let key_bytes = copy_range(buf, offset + 5, p);
    let stream_key = match StreamKey::from_bytes(key_bytes.as_slice()) {
        Ok(k) => k,
        Err(_) => {
            return Err(FileErr::FormatErr(FormatErr::InvalidStreamKey(at)));
        },
    };
    let shard_id = read_u64(buf, p);
    let sequence = read_u64(buf, p + 8);
    let millis = #[verifier::truncate] (read_u64(buf, p + 16) as i64);
    let nanos = read_u32(buf, p + 24);
    assert(shard_id == be64_at(s, 5 + kl));
    assert(sequence == be64_at(s, 5 + kl + 8));
    assert(millis == be64_at(s, 5 + kl + 16) as i64);
    assert(nanos == be32_at(s, 5 + kl + 24));
    let payload = copy_range(buf, p + 32, end - 4);
    assert(buf@.subrange(p + 32, end - 4) =~= s.subrange(5 + kl + 32, 4 + fl - 4));
    let header = MessageHeader {
        stream_key,
        shard_id,
        sequence,
        timestamp: Timestamp { millis, nanos },
    };
    Ok((Some(Record { header, payload }), end))
}

/// The frame of a record is read back as that record, whatever follows it, and
/// its checksum matches.
#[verifier::rlimit(80)]
pub proof fn lemma_record_round_trip(m: RecordModel, rest: Seq<u8>)
    requires
        encodable(m),
    ensures
        parse_frame(record_bytes(m) + rest) == Frame::Complete(m, record_bytes(m).len()),
        record_bytes(m).len() == 4 + frame_len(m),
{
    reveal(parse_frame);
    let h = frame_head(m);
    let e = record_bytes(m);
    let s = e + rest;
    let k = m.key.len() as int;
    let pl = m.payload.len() as int;
    let fl = frame_len(m) as int;
    let p = 5 + k;
    assert(fl == 37 + k + pl);
    assert(h.len() == fl);
    assert(e.len() == fl + 4);
    assert(s.subrange(0, 4) =~= u32_be(frame_len(m)));
    lemma_be32_round_trip(frame_len(m), s, 0);
    assert(s[4] == k as u8);
    assert(s.subrange(0, fl) =~= h);
    assert(s.subrange(fl, fl + 4) =~= u32_be(crc32c(h)));
    lemma_be32_round_trip(crc32c(h), s, fl);
    assert(s.subrange(5, p) =~= m.key);
    assert(s.subrange(p, p + 8) =~= u64_be(m.shard_id));
    lemma_be64_round_trip(m.shard_id, s, p);
    assert(s.subrange(p + 8, p + 16) =~= u64_be(m.sequence));
    lemma_be64_round_trip(m.sequence, s, p + 8);
    assert(s.subrange(p + 16, p + 24) =~= u64_be(m.timestamp.millis as u64));
    lemma_be64_round_trip(m.timestamp.millis as u64, s, p + 16);
    assert(s.subrange(p + 24, p + 28) =~= u32_be(m.timestamp.nanos));
    lemma_be32_round_trip(m.timestamp.nanos, s, p + 24);
    assert(s.subrange(p + 28, p + 32) =~= u32_be(pl as u32));
    lemma_be32_round_trip(pl as u32, s, p + 28);
    assert(s.subrange(p + 32, fl) =~= m.payload);
    let ms = m.timestamp.millis;
    assert((ms as u64) as i64 == ms) by (bit_vector);
    match parse_frame(s) {
        Frame::Complete(r, n) => {
            assert(r.key == m.key);
            assert(r.payload == m.payload);
            assert(r.timestamp == m.timestamp);
            assert(n == e.len());
        },
        _ => {
            assert(false);
        },
    }
}

/// A frame cut short before its last byte reads as incomplete: never as a
/// record, never as corruption.
pub proof fn lemma_record_prefix(m: RecordModel, t: int)
    requires
        encodable(m),
        0 <= t < record_bytes(m).len(),
    ensures
        parse_frame(record_bytes(m).subrange(0, t)) == Frame::Incomplete,
{
    reveal(parse_frame);
    let e = record_bytes(m);
    let s = e.subrange(0, t);
    if t >= 4 {
        assert(s.subrange(0, 4) =~= u32_be(frame_len(m)));
        lemma_be32_round_trip(frame_len(m), s, 0);
        assert(e.len() == 4 + frame_len(m));
    }
}

/// The size of the file header.
pub const HEADER_SIZE: usize = 128;

/// The format version this library writes and reads.
pub const FORMAT_VERSION: u8 = 1;

/// Bytes between the creation time and the header checksum.
pub const HEADER_RESERVED_LEN: usize = 107;

/// The file magic, `SEAS`.
pub open spec fn magic() -> Seq<u8> {
    seq![0x53u8, 0x45u8, 0x41u8, 0x53u8]
}

/// File-scope metadata, written once at offset 0.
#[derive(Debug, Clone, Copy, PartialEq, Eq, Structural)]
pub struct FileHeader {
    /// Bytes between beacons; 0 when beacons are disabled.
    pub beacon_interval: u32,
    pub created_at_ms: i64,
}

/// The header's fields before its checksum.
pub open spec fn header_head(h: FileHeader) -> Seq<u8> {
    magic() + seq![FORMAT_VERSION] + u32_be(h.beacon_interval) + u64_be(h.created_at_ms as u64)
        + Seq::new(HEADER_RESERVED_LEN as nat, |i: int| 0u8)
}

/// The bytes of a file header: magic, version, beacon interval, creation time,
/// reserved zeros, and the CRC-32C of all of these.
pub open spec fn header_bytes(h: FileHeader) -> Seq<u8> {
    header_head(h) + u32_be(crc32c(header_head(h)))
}

/// Reads the file header at the start of `s`.
pub open spec fn parse_header(s: Seq<u8>) -> Result<FileHeader, HeaderErr> {
    if s.len() < HEADER_SIZE {
        Err(HeaderErr::Truncated(s.len() as u64))
    } else if s.subrange(0, 4) != magic() {
        Err(HeaderErr::BadMagic(0))
    } else if s[4] != FORMAT_VERSION {
        Err(HeaderErr::UnsupportedVersion(4))
    } else if be32_at(s, 124) != crc32c(s.subrange(0, 124)) {
        Err(HeaderErr::ChecksumMismatch(124))
    } else {
        Ok(FileHeader { beacon_interval: be32_at(s, 5), created_at_ms: be64_at(s, 9) as i64 })
    }
}

/// The bytes of `h`.
pub fn encode_header(h: &FileHeader) -> (r: Vec<u8>)
    ensures
        r@ == header_bytes(*h),
{
    let mut out: Vec<u8> = Vec::new();
    out.push(0x53);
    out.push(0x45);
    out.push(0x41);
    out.push(0x53);
    out.push(FORMAT_VERSION);
    push_u32(&mut out, h.beacon_interval);
    push_u64(&mut out, h.created_at_ms as u64);
    let ghost before = out@;
    let mut i: usize = 0;
    while i < HEADER_RESERVED_LEN
        invariant
            i <= HEADER_RESERVED_LEN,
            out@ == before + Seq::new(i as nat, |j: int| 0u8),
        decreases HEADER_RESERVED_LEN - i,
    {
        out.push(0);
        i = i + 1;
        assert(out@ =~= before + Seq::new(i as nat, |j: int| 0u8));
    }
    assert(out@ =~= header_head(*h));
    let crc = checksum(out.as_slice(), 0, out.len());
    assert(out@.subrange(0, out@.len() as int) =~= out@);
    push_u32(&mut out, crc);
    out
}

/// Reads the file header at the start of `buf`.
pub fn decode_header(buf: &[u8]) -> (r: Result<FileHeader, HeaderErr>)
    ensures
        r == parse_header(buf@),
{
    if buf.len() < HEADER_SIZE {
        return Err(HeaderErr::Truncated(buf.len() as u64));
    }
    if buf[0] != 0x53 || buf[1] != 0x45 || buf[2] != 0x41 || buf[3] != 0x53 {
        assert(buf@.subrange(0, 4) != magic()) by {
            assert(buf@.subrange(0, 4)[0] == buf@[0]);
            assert(buf@.subrange(0, 4)[1] == buf@[1]);
            assert(buf@.subrange(0, 4)[2] == buf@[2]);
            assert(buf@.subrange(0, 4)[3] == buf@[3]);
        }
        return Err(HeaderErr::BadMagic(0));
    }
    assert(buf@.subrange(0, 4) =~= magic());
    if buf[4] != FORMAT_VERSION {
        return Err(HeaderErr::UnsupportedVersion(4));
    }
    if read_u32(buf, 124) != checksum(buf, 0, 124) {
        return Err(HeaderErr::ChecksumMismatch(124));
    }
    let beacon_interval = read_u32(buf, 5);
    let created_at_ms = #[verifier::truncate] (read_u64(buf, 9) as i64);
    Ok(FileHeader { beacon_interval, created_at_ms })
}

/// A header is read back as itself.
pub proof fn lemma_header_round_trip(h: FileHeader, rest: Seq<u8>)
    ensures
        parse_header(header_bytes(h) + rest) == Ok::<FileHeader, HeaderErr>(h),
        header_bytes(h).len() == HEADER_SIZE,
{
    let hh = header_head(h);
    let s = header_bytes(h) + rest;
    assert(hh.len() == 124);
    assert(s.subrange(0, 4) =~= magic());
    assert(s.subrange(0, 124) =~= hh);
    assert(s.subrange(124, 128) =~= u32_be(crc32c(hh)));
    lemma_be32_round_trip(crc32c(hh), s, 124);
    assert(s.subrange(5, 9) =~= u32_be(h.beacon_interval));
    lemma_be32_round_trip(h.beacon_interval, s, 5);
    assert(s.subrange(9, 17) =~= u64_be(h.created_at_ms as u64));
    lemma_be64_round_trip(h.created_at_ms as u64, s, 9);
    let ms = h.created_at_ms;
    assert((ms as u64) as i64 == ms) by (bit_vector);
}

/// How a scan of frames stopped.
pub enum Tail {
    /// At the end of the bytes, after the last complete frame.
    End,
    /// At a frame whose end has not been written yet.
    Partial,
    /// At a corrupt frame.
    Corrupt(Corruption),
}

/// The records that can be read, one frame after another, from the start of
/// `s`, and why reading stopped.
pub open spec fn scan(s: Seq<u8>) -> (Seq<RecordModel>, Tail)
    decreases s.len(),
{
    if s.len() == 0 {
        (Seq::empty(), Tail::End)
    } else {
        match parse_frame(s) {
            Frame::Complete(m, n) => if 0 < n <= s.len() {
                let r = scan(s.subrange(n as int, s.len() as int));
                (seq![m] + r.0, r.1)
            } else {
                (Seq::empty(), Tail::End)
            },
            Frame::Beacon(n) => if 0 < n <= s.len() {
                scan(s.subrange(n as int, s.len() as int))
            } else {
                (Seq::empty(), Tail::End)
            },
            Frame::Incomplete => (Seq::empty(), Tail::Partial),
            Frame::Corrupt(c) => (Seq::empty(), Tail::Corrupt(c)),
        }
    }
}

/// The views of `v`.
pub open spec fn views(v: Seq<Record>) -> Seq<RecordModel> {
    v.map_values(|r: Record| r@)
}

/// Reads records from `offset` on until the bytes end or a frame cannot be
/// read, passing over beacons. Returns the records, the offset where reading stopped, and `Ok` at the
/// end of the bytes, `NotEnoughBytes` at a partial frame or a `FormatErr` at a
/// corrupt one.
pub fn read_records(buf: &[u8], offset: usize) -> (r: (Vec<Record>, usize, Result<(), FileErr>))
    requires
        offset <= buf@.len(),
    ensures
        offset <= r.1 <= buf@.len(),
        views(r.0@) == scan(buf@.subrange(offset as int, buf@.len() as int)).0,
        match scan(buf@.subrange(offset as int, buf@.len() as int)).1 {
            Tail::End => r.2 == Ok::<(), FileErr>(()) && r.1 == buf@.len(),
            Tail::Partial => r.2 == Err::<(), FileErr>(FileErr::NotEnoughBytes),
            Tail::Corrupt(c) => r.2 == Err::<(), FileErr>(
                FileErr::FormatErr(format_err(c, r.1 as u64)),
            ),
        },
{
    let ghost whole = buf@.subrange(offset as int, buf@.len() as int);
    let mut records: Vec<Record> = Vec::new();
    let mut at: usize = offset;
    loop
        invariant
            offset <= at <= buf@.len(),
            whole == buf@.subrange(offset as int, buf@.len() as int),
            scan(whole) == (views(records@) + scan(buf@.subrange(at as int, buf@.len() as int)).0,
            scan(buf@.subrange(at as int, buf@.len() as int)).1),
        decreases buf@.len() - at,
    {
        let ghost s = buf@.subrange(at as int, buf@.len() as int);
        if at == buf.len() {
            assert(views(records@) + Seq::<RecordModel>::empty() =~= views(records@));
            return (records, at, Ok(()));
        }
        match decode_record(buf, at) {
            Ok((None, next)) => {
                proof {
                    lemma_scan_skip(buf@, at as int, next as int);
                }
                at = next;
            },
            Ok((Some(rec), next)) => {
                proof {
                    lemma_scan_step(buf@, offset as int, at as int, next as int, views(records@), rec@, whole);
                }
                let ghost before = views(records@);
                let ghost m = rec@;
                records.push(rec);
                assert(views(records@) =~= before.push(m));
                at = next;
            },
            Err(e) => {
                assert(views(records@) + Seq::<RecordModel>::empty() =~= views(records@));
                return (records, at, Err(e));
            },
        }
    }
}

/// One more complete frame read by the scanner.
proof fn lemma_scan_step(b: Seq<u8>, offset: int, at: int, next: int, done: Seq<RecordModel>, m: RecordModel, whole: Seq<u8>)
    requires
        0 <= offset <= at < next <= b.len(),
        whole == b.subrange(offset, b.len() as int),
        parse_frame(b.subrange(at, b.len() as int)) == Frame::Complete(m, (next - at) as nat),
        scan(whole) == (done + scan(b.subrange(at, b.len() as int)).0, scan(b.subrange(at, b.len() as int)).1),
    ensures
        scan(whole) == (done.push(m) + scan(b.subrange(next, b.len() as int)).0, scan(b.subrange(next, b.len() as int)).1),
{
    let s = b.subrange(at, b.len() as int);
    let n = (next - at) as nat;
    lemma_frame_bytes(s, m, n);
    assert(s.subrange(n as int, s.len() as int) =~= b.subrange(next, b.len() as int));
    let r = scan(b.subrange(next, b.len() as int));
    assert(scan(s) == (seq![m] + r.0, r.1));
    assert(done + (seq![m] + r.0) =~= done.push(m) + r.0);
}

/// A beacon passed over by the scanner.
proof fn lemma_scan_skip(b: Seq<u8>, at: int, next: int)
    requires
        0 <= at < next <= b.len(),
        parse_frame(b.subrange(at, b.len() as int)) == Frame::Beacon((next - at) as nat),
    ensures
        scan(b.subrange(at, b.len() as int)) == scan(b.subrange(next, b.len() as int)),
{
    let s = b.subrange(at, b.len() as int);
    let n = (next - at) as nat;
    assert(s.subrange(n as int, s.len() as int) =~= b.subrange(next, b.len() as int));
}

/// A complete frame is the bytes of the record it holds.
pub proof fn lemma_frame_bytes(s: Seq<u8>, m: RecordModel, n: nat)
    requires
        parse_frame(s) == Frame::Complete(m, n),
    ensures
        0 < n <= s.len(),
        s.subrange(0, n as int) == record_bytes(m),
{
    reveal(parse_frame);
    let fl = be32_at(s, 0) as int;
    let kl = s[4] as int;
    let p = 5 + kl;
    let e = record_bytes(m);
    assert(n == 4 + fl);
    assert(fl == FRAME_FIXED_LEN + m.key.len() + m.payload.len());
    lemma_be_inverse32(s, 0);
    lemma_be_inverse32(s, p + 24);
    lemma_be_inverse32(s, p + 28);
    lemma_be_inverse32(s, n - 4);
    lemma_be_inverse64(s, p);
    lemma_be_inverse64(s, p + 8);
    lemma_be_inverse64(s, p + 16);
    let ms = be64_at(s, p + 16);
    assert(((ms as i64) as u64) == ms) by (bit_vector);
    assert(s.subrange(0, n - 4) =~= frame_head(m));
    assert(s.subrange(0, n as int) =~= e);
}

/// A frame of a log: a record or a beacon.
pub enum Item {
    Rec(RecordModel),
    Mark(Seq<BeaconEntry>),
}

/// The bytes of a frame.
pub open spec fn item_bytes(i: Item) -> Seq<u8> {
    match i {
        Item::Rec(m) => record_bytes(m),
        Item::Mark(es) => beacon_bytes(es),
    }
}

/// A frame that reads back: a record that can be written, or a beacon whose
/// body fits a frame.
pub open spec fn item_ok(i: Item) -> bool {
    match i {
        Item::Rec(m) => encodable(m),
        Item::Mark(es) => beacon_body(es).len() <= MAX_FRAME_LEN,
    }
}

/// The bytes of frames written one after another.
pub open spec fn items_bytes(is: Seq<Item>) -> Seq<u8>
    decreases is.len(),
{
    if is.len() == 0 {
        Seq::empty()
    } else {
        item_bytes(is[0]) + items_bytes(is.drop_first())
    }
}

/// The records among the frames, in order.
pub open spec fn records_of(is: Seq<Item>) -> Seq<RecordModel>
    decreases is.len(),
{
    if is.len() == 0 {
        Seq::empty()
    } else {
        match is[0] {
            Item::Rec(m) => seq![m] + records_of(is.drop_first()),
            Item::Mark(_) => records_of(is.drop_first()),
        }
    }
}

/// Every frame of `is` reads back.
pub open spec fn all_ok(is: Seq<Item>) -> bool {
    forall|i: int| 0 <= i < is.len() ==> item_ok(#[trigger] is[i])
}

/// A beacon frame reads back as a beacon of its length, whatever follows it.
pub proof fn lemma_beacon_round_trip(es: Seq<BeaconEntry>, rest: Seq<u8>)
    requires
        beacon_body(es).len() <= MAX_FRAME_LEN,
    ensures
        parse_frame(beacon_bytes(es) + rest) == Frame::Beacon(beacon_bytes(es).len()),
{
    reveal(parse_frame);
    let h = beacon_head(es);
    let bl = beacon_body(es).len() as int;
    let s = beacon_bytes(es) + rest;
    assert(h.len() == 8 + bl);
    assert(s.subrange(0, 4) =~= u32_be(BEACON_MAGIC));
    lemma_be32_round_trip(BEACON_MAGIC, s, 0);
    assert(s.subrange(4, 8) =~= u32_be(bl as u32));
    lemma_be32_round_trip(bl as u32, s, 4);
    assert(s.subrange(0, 8 + bl) =~= h);
    assert(s.subrange(8 + bl, 12 + bl) =~= u32_be(crc32c(h)));
    lemma_be32_round_trip(crc32c(h), s, 8 + bl);
}

/// A beacon frame cut short reads as incomplete.
pub proof fn lemma_beacon_prefix(es: Seq<BeaconEntry>, t: int)
    requires
        beacon_body(es).len() <= MAX_FRAME_LEN,
        0 <= t < beacon_bytes(es).len(),
    ensures
        parse_frame(beacon_bytes(es).subrange(0, t)) == Frame::Incomplete,
{
    reveal(parse_frame);
    let e = beacon_bytes(es);
    let s = e.subrange(0, t);
    let bl = beacon_body(es).len() as int;
    assert(e.len() == 12 + bl);
    if t >= 4 {
        assert(s.subrange(0, 4) =~= u32_be(BEACON_MAGIC));
        lemma_be32_round_trip(BEACON_MAGIC, s, 0);
    }
    if t >= 8 {
        assert(s.subrange(4, 8) =~= u32_be(bl as u32));
        lemma_be32_round_trip(bl as u32, s, 4);
    }
}

proof fn lemma_item_cons(i: Item, is: Seq<Item>)
    ensures
        items_bytes(seq![i] + is) == item_bytes(i) + items_bytes(is),
        records_of(seq![i] + is) == match i {
            Item::Rec(m) => seq![m] + records_of(is),
            Item::Mark(_) => records_of(is),
        },
{
    assert((seq![i] + is)[0] == i);
    assert((seq![i] + is).drop_first() =~= is);
}

/// Reading records from any prefix of a run of frames returns the records of
/// every frame that lies wholly within the prefix, in order, and then stops:
/// at the end when the prefix ends on a frame boundary, else at a partial
/// frame. It never reports corruption and never drops a complete record.
pub proof fn lemma_truncated_read(is: Seq<Item>, t: int)
    requires
        all_ok(is),
        0 <= t <= items_bytes(is).len(),
    ensures
        exists|k: int| #![trigger is.take(k)] 0 <= k <= is.len() && {
            let (rs, tail) = scan(items_bytes(is).subrange(0, t));
            &&& rs == records_of(is.take(k))
            &&& items_bytes(is.take(k)).len() <= t
            &&& match tail {
                Tail::End => items_bytes(is.take(k)).len() == t,
                Tail::Partial => k < is.len() && t < items_bytes(is.take(k + 1)).len(),
                Tail::Corrupt(_) => false,
            }
        },
    decreases is.len(),
{
    let b = items_bytes(is);
    let pre = b.subrange(0, t);
    assert(is.take(0) =~= Seq::<Item>::empty());
    if t == 0 {
        assert(pre.len() == 0);
        assert(records_of(is.take(0)) == Seq::<RecordModel>::empty());
    } else {
        assert(is.len() > 0);
        let i0 = is[0];
        assert(item_ok(i0));
        let e0 = item_bytes(i0);
        let rest = items_bytes(is.drop_first());
        assert(b == e0 + rest);
        assert(is.take(1) =~= seq![i0] + Seq::<Item>::empty());
        lemma_item_cons(i0, Seq::<Item>::empty());
        if t < e0.len() {
            assert(pre =~= e0.subrange(0, t));
            match i0 {
                Item::Rec(m) => lemma_record_prefix(m, t),
                Item::Mark(es) => lemma_beacon_prefix(es, t),
            }
            assert(scan(pre).0 == records_of(is.take(0)));
        } else {
            let t2 = t - e0.len();
            let pre2 = rest.subrange(0, t2);
            assert(pre =~= e0 + pre2);
            match i0 {
                Item::Rec(m) => {
                    lemma_record_round_trip(m, pre2);
                    lemma_frame_bytes(pre, m, e0.len());
                },
                Item::Mark(es) => lemma_beacon_round_trip(es, pre2),
            }
            assert(pre.subrange(e0.len() as int, pre.len() as int) =~= pre2);
            let is2 = is.drop_first();
            assert(all_ok(is2)) by {
                assert forall|j: int| 0 <= j < is2.len() implies item_ok(#[trigger] is2[j]) by {
                    assert(is2[j] == is[j + 1]);
                }
            }
            lemma_truncated_read(is2, t2);
            let k2 = choose|k: int| #![trigger is2.take(k)] 0 <= k <= is2.len() && {
                let (rs, tail) = scan(items_bytes(is2).subrange(0, t2));
                &&& rs == records_of(is2.take(k))
                &&& items_bytes(is2.take(k)).len() <= t2
                &&& match tail {
                    Tail::End => items_bytes(is2.take(k)).len() == t2,
                    Tail::Partial => k < is2.len() && t2 < items_bytes(is2.take(k + 1)).len(),
                    Tail::Corrupt(_) => false,
                }
            };
            let k = k2 + 1;
            assert(is.take(k) =~= seq![i0] + is2.take(k2));
            lemma_item_cons(i0, is2.take(k2));
            if k2 < is2.len() {
                assert(is.take(k + 1) =~= seq![i0] + is2.take(k2 + 1));
                lemma_item_cons(i0, is2.take(k2 + 1));
            }
            let (rs2, tail2) = scan(pre2);
            match i0 {
                Item::Rec(m) => {
                    assert(scan(pre) == (seq![m] + rs2, tail2));
                },
                Item::Mark(_) => {
                    assert(scan(pre) == (rs2, tail2));
                },
            }
            assert(is.take(k) == seq![i0] + is2.take(k2));
        }
    }
}

/// Reading any prefix of a well-formed file: shorter than the header, it reads
/// as a truncated header; otherwise the header reads back, and the frames
/// after it read as `lemma_truncated_read` says.
pub proof fn lemma_truncated_file(h: FileHeader, is: Seq<Item>, t: int)
    requires
        0 <= t <= HEADER_SIZE + items_bytes(is).len(),
    ensures
        ({
            let file = header_bytes(h) + items_bytes(is);
            let prefix = file.subrange(0, t);
            &&& t < HEADER_SIZE ==> parse_header(prefix) == Err::<FileHeader, HeaderErr>(
                HeaderErr::Truncated(t as u64),
            )
            &&& t >= HEADER_SIZE ==> parse_header(prefix) == Ok::<FileHeader, HeaderErr>(h)
                && prefix.subrange(HEADER_SIZE as int, t) == items_bytes(is).subrange(
                0,
                t - HEADER_SIZE,
            )
        }),
{
    let file = header_bytes(h) + items_bytes(is);
    let prefix = file.subrange(0, t);
    lemma_header_round_trip(h, Seq::<u8>::empty());
    if t >= HEADER_SIZE {
        let rest = items_bytes(is).subrange(0, t - HEADER_SIZE);
        assert(prefix =~= header_bytes(h) + rest);
        lemma_header_round_trip(h, rest);
        assert(prefix.subrange(HEADER_SIZE as int, t) =~= rest);
    }
}

} // verus!
