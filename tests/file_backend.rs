use sea_streamer_file::bytes::Bytes;
use sea_streamer_file::codec::checksum;
use sea_streamer_file::dispatcher::{FileId, Registry, Release, UriErr};
use sea_streamer_file::reader::{tail_step, TailStep};
use sea_streamer_file::error::{FileErr, FormatErr, HeaderErr, IoErrorKind};
use sea_streamer_file::format::{
    decode_header, decode_record, encode_header, read_records, FileHeader, Record, StreamKey,
    StreamKeyErr, Timestamp, HEADER_SIZE,
};
use sea_streamer_file::producer::{reply_outcome, send_outcome, FileProducer, StreamErr};
use sea_streamer_file::sink::{flush_progress, stored_error, FileEvent, Progress, SinkState, SinkUpdate, SYNC_MARKER};
use sea_streamer_file::writer::{Next, Writer};

fn key(s: &str) -> StreamKey {
    StreamKey::new(s).unwrap()
}

fn ts(ms: i64) -> Timestamp {
    Timestamp { millis: ms, nanos: 0 }
}

fn only_send_sync<C: Send + Sync>(_: C) {}

#[allow(dead_code)]
fn ensure_send_sync(p: FileProducer) {
    only_send_sync(p);
}

#[test]
fn producer_is_send_sync() {
    let p = FileProducer::new(FileId::new("/tmp/t0"));
    ensure_send_sync(p);
}

/// Writes a file from `(stream, payload)` pairs and returns its bytes.
fn write_file(messages: &[(&str, &str)]) -> Vec<u8> {
    let mut w = Writer::new(0, 0);
    let mut file = w.header(ts(1_000)).unwrap();
    for (i, (s, p)) in messages.iter().enumerate() {
        let (_, frame) = w.send(&key(s), 0, ts(2_000 + i as i64), p.as_bytes()).unwrap();
        file.extend_from_slice(&frame);
    }
    file
}

fn read_all(file: &[u8]) -> Vec<Record> {
    assert!(decode_header(file).is_ok());
    let (records, at, end) = read_records(file, HEADER_SIZE);
    assert!(end.is_ok());
    assert_eq!(at, file.len());
    records
}

#[test]
fn basic_append() {
    let file = write_file(&[("x", "a"), ("x", "b"), ("x", "c")]);
    let header = decode_header(&file).unwrap();
    assert_eq!(header, FileHeader { beacon_interval: 0, created_at_ms: 1_000 });
    let records = read_all(&file);
    assert_eq!(records.len(), 3);
    for (i, (r, p)) in records.iter().zip(["a", "b", "c"]).enumerate() {
        assert_eq!(r.header.stream_key.as_bytes(), b"x");
        assert_eq!(r.header.shard_id, 0);
        assert_eq!(r.header.sequence, i as u64);
        assert_eq!(r.payload, p.as_bytes());
    }
}

#[test]
fn two_streams_interleaved() {
    let file = write_file(&[("x", "1"), ("y", "10"), ("x", "2"), ("y", "20")]);
    let records = read_all(&file);
    let got: Vec<(Vec<u8>, u64, Vec<u8>)> = records
        .iter()
        .map(|r| (r.header.stream_key.as_bytes().to_vec(), r.header.sequence, r.payload.clone()))
        .collect();
    assert_eq!(
        got,
        vec![
            (b"x".to_vec(), 0, b"1".to_vec()),
            (b"y".to_vec(), 0, b"10".to_vec()),
            (b"x".to_vec(), 1, b"2".to_vec()),
            (b"y".to_vec(), 1, b"20".to_vec()),
        ]
    );
}

#[test]
fn quota_truncates_last_record() {
    let mut w = Writer::new(0, 0);
    let header = w.header(ts(0)).unwrap();
    let frames: Vec<Vec<u8>> =
        (0..3).map(|_| w.send(&key("x"), 0, ts(5), b"hi").unwrap().1).collect();
    let quota = (header.len() + frames[0].len() * 2 + 10) as u64;
    let mut sink = SinkState::new(quota, 0).unwrap();
    let mut file = sink.accept(Bytes::Bytes(header)).unwrap().into_vec();
    for f in &frames[..2] {
        file.extend(sink.accept(Bytes::Bytes(f.clone())).unwrap().into_vec());
        assert!(sink.check().is_ok());
    }
    let last = sink.accept(Bytes::Bytes(frames[2].clone())).unwrap().into_vec();
    assert_eq!(last.len(), 10);
    file.extend(last);
    assert!(matches!(sink.check(), Err(FileErr::FileLimitExceeded)));
    assert_eq!(file.len() as u64, quota);
    assert_eq!(sink.size(), quota);
    let (records, at, end) = read_records(&file, HEADER_SIZE);
    assert_eq!(records.len(), 2);
    assert_eq!(at, file.len() - 10);
    assert!(matches!(end, Err(FileErr::NotEnoughBytes)));
    // the sink stays ended
    assert!(matches!(sink.accept(Bytes::Bytes(vec![1])), Err(FileErr::FileLimitExceeded)));
}

#[test]
fn file_removal_ends_the_writer() {
    let mut sink = SinkState::new(1 << 20, 0).unwrap();
    let mut w = Writer::new(0, 0);
    let _ = w.header(ts(0)).unwrap();
    let (_, frame) = w.send(&key("x"), 0, ts(1), b"a").unwrap();
    assert!(sink.accept(Bytes::Bytes(frame)).is_ok());
    sink.observe(Some(FileEvent::Remove));
    let err = sink.check();
    assert!(matches!(err, Err(FileErr::FileRemoved)));
    let (answer, next) = w.sink_result(err);
    assert!(matches!(answer, Err(FileErr::FileRemoved)));
    assert_eq!(next, Next::Exit);
    assert!(matches!(w.send(&key("x"), 0, ts(2), b"b"), Err(FileErr::TaskDead("producer"))));
    assert!(matches!(w.flush(), Err(FileErr::TaskDead("producer"))));
    assert!(matches!(w.end(), Err(FileErr::TaskDead("producer"))));
    assert!(matches!(send_outcome(None), Err(StreamErr::Backend(FileErr::ProducerEnded))));
}

#[test]
fn concurrent_producers_share_one_writer() {
    let id = FileId::new("/tmp/t5");
    let mut registry = Registry::new();
    let spawned: Vec<bool> = (0..4).map(|_| registry.open(&id).unwrap()).collect();
    assert_eq!(spawned, vec![true, false, false, false]);
    assert_eq!(registry.handles(&id), 4);
    let mut w = Writer::new(0, 0);
    let mut file = w.header(ts(0)).unwrap();
    for i in 0..1000 {
        for h in 0..4 {
            let payload = format!("{h}-{i}");
            let (_, frame) = w.send(&key("s"), 0, ts(i), payload.as_bytes()).unwrap();
            file.extend(frame);
        }
    }
    let records = read_all(&file);
    assert_eq!(records.len(), 4000);
    let mut next = [0u64; 4];
    for (n, r) in records.iter().enumerate() {
        assert_eq!(r.header.sequence, n as u64);
        let text = String::from_utf8(r.payload.clone()).unwrap();
        let (h, i) = text.split_once('-').unwrap();
        let h: usize = h.parse().unwrap();
        assert_eq!(i.parse::<u64>().unwrap(), next[h]);
        next[h] += 1;
    }
    assert_eq!(next, [1000; 4]);
    for n in 0..3 {
        assert_eq!(registry.release(&id), Release::Kept);
        assert_eq!(registry.handles(&id), 3 - n);
    }
    assert_eq!(registry.release(&id), Release::Retired);
    assert_eq!(registry.handles(&id), 0);
}

#[test]
fn reader_tailing() {
    let mut w = Writer::new(0, 0);
    let mut file = w.header(ts(0)).unwrap();
    file.extend(w.send(&key("x"), 0, ts(1), b"first").unwrap().1);
    let (records, at, end) = read_records(&file, HEADER_SIZE);
    assert_eq!(records.len(), 1);
    assert_eq!(records[0].payload, b"first");
    assert!(end.is_ok());
    assert!(matches!(
        tail_step(at as u64, file.len() as u64, None),
        TailStep::Wait
    ));
    file.extend(w.send(&key("x"), 0, ts(2), b"second").unwrap().1);
    assert!(matches!(
        tail_step(at as u64, file.len() as u64, Some(FileEvent::Modify)),
        TailStep::Read
    ));
    let (records, at2, end) = read_records(&file, at);
    assert_eq!(records.len(), 1);
    assert_eq!(records[0].payload, b"second");
    assert_eq!(records[0].header.sequence, 1);
    assert_eq!(at2, file.len());
    assert!(end.is_ok());
}

#[test]
fn round_trip_record() {
    let mut w = Writer::new(0, 0);
    let _ = w.header(ts(0));
    let payload: Vec<u8> = (0..=255).collect();
    let (h, frame) = w.send(&key("a.B-9_z"), 0, Timestamp { millis: -5, nanos: 999_999 }, &payload).unwrap();
    let (rec, next) = decode_record(&frame, 0).unwrap();
    let rec = rec.unwrap();
    assert_eq!(next, frame.len());
    assert_eq!(rec.header, h);
    assert_eq!(rec.payload, payload);
    assert_eq!(rec.header.timestamp, Timestamp { millis: -5, nanos: 999_999 });
    let crc = u32::from_be_bytes(frame[frame.len() - 4..].try_into().unwrap());
    assert_eq!(crc, checksum(&frame, 0, frame.len() - 4));
}

#[test]
fn every_prefix_reads_complete_records_then_waits() {
    let file = write_file(&[("x", "a"), ("yy", "bcd"), ("x", "")]);
    let body = &file[HEADER_SIZE..];
    let mut bounds = vec![0];
    let (all, _, _) = read_records(&file, HEADER_SIZE);
    let mut at = 0;
    for r in &all {
        let (_, next) = decode_record(body, at).unwrap();
        assert_eq!(r.payload, decode_record(body, at).unwrap().0.unwrap().payload);
        at = next;
        bounds.push(at);
    }
    for t in 0..=body.len() {
        let (records, stop, end) = read_records(&body[..t], 0);
        let complete = bounds.iter().filter(|b| **b <= t).count() - 1;
        assert_eq!(records.len(), complete);
        assert_eq!(stop, bounds[complete]);
        if bounds.contains(&t) {
            assert!(end.is_ok());
        } else {
            assert!(matches!(end, Err(FileErr::NotEnoughBytes)));
        }
    }
}

#[test]
fn corrupt_frame_is_reported() {
    let file = write_file(&[("x", "abc")]);
    let mut bad = file.clone();
    let n = bad.len();
    bad[n - 6] ^= 0xff;
    let (records, at, end) = read_records(&bad, HEADER_SIZE);
    assert!(records.is_empty());
    assert_eq!(at, HEADER_SIZE);
    assert!(matches!(end, Err(FileErr::FormatErr(FormatErr::ChecksumMismatch(128)))));
    let mut huge = file[..HEADER_SIZE].to_vec();
    huge.extend([0x7f, 0xff, 0xff, 0xff]);
    assert!(matches!(decode_record(&huge, HEADER_SIZE), Err(FileErr::FormatErr(FormatErr::OversizeRecord(128)))));
    let mut tiny = vec![0, 0, 0, 3];
    tiny.extend([0; 3]);
    assert!(matches!(decode_record(&tiny, 0), Err(FileErr::FormatErr(FormatErr::Truncated(0)))));
}

#[test]
fn header_errors() {
    let h = encode_header(&FileHeader { beacon_interval: 7, created_at_ms: 42 });
    assert_eq!(h.len(), HEADER_SIZE);
    assert_eq!(&h[..4], b"SEAS");
    assert_eq!(&h[5..9], &[0, 0, 0, 7]);
    assert_eq!(decode_header(&h), Ok(FileHeader { beacon_interval: 7, created_at_ms: 42 }));
    assert_eq!(decode_header(&h[..100]), Err(HeaderErr::Truncated(100)));
    let mut m = h.clone();
    m[0] = b'X';
    assert_eq!(decode_header(&m), Err(HeaderErr::BadMagic(0)));
    let mut v = h.clone();
    v[4] = 2;
    assert_eq!(decode_header(&v), Err(HeaderErr::UnsupportedVersion(4)));
    let mut c = h.clone();
    c[20] = 1;
    assert_eq!(decode_header(&c), Err(HeaderErr::ChecksumMismatch(124)));
}

#[test]
fn crc32c_check_value() {
    assert_eq!(checksum(b"123456789", 0, 9), 0xE306_9283);
    assert_eq!(checksum(b"", 0, 0), 0);
}

#[test]
fn stream_key_grammar() {
    assert!(StreamKey::new("abc.DEF-09_").is_ok());
    assert_eq!(StreamKey::new("").unwrap_err(), StreamKeyErr::InvalidLength);
    assert_eq!(StreamKey::new(&"a".repeat(250)).unwrap_err(), StreamKeyErr::InvalidLength);
    assert!(StreamKey::new(&"a".repeat(249)).is_ok());
    assert_eq!(StreamKey::new("a b").unwrap_err(), StreamKeyErr::InvalidCharacter);
    assert_eq!(StreamKey::new("é").unwrap_err(), StreamKeyErr::InvalidCharacter);
}

#[test]
fn sequence_numbers_have_no_gaps() {
    let mut w = Writer::new(0, 0);
    let _ = w.header(ts(0));
    let mut seen = std::collections::HashMap::new();
    for (i, s) in ["a", "b", "a", "c", "a", "b"].iter().enumerate() {
        let shard = (i % 2) as u64;
        let (h, _) = w.send(&key(s), shard, ts(0), b"p").unwrap();
        let n = seen.entry((s.to_string(), shard)).or_insert(0u64);
        assert_eq!(h.sequence, *n);
        *n += 1;
    }
}

#[test]
fn quota_is_never_exceeded() {
    let mut sink = SinkState::new(20, 5).unwrap();
    let mut size = 5u64;
    for n in [4usize, 6, 0, 7, 3] {
        match sink.accept(Bytes::Bytes(vec![0; n])) {
            Ok(b) => size += b.len() as u64,
            Err(_) => {}
        }
        assert!(sink.size() <= 20);
        assert_eq!(sink.size(), size);
    }
    assert_eq!(size, 20);
    assert!(matches!(SinkState::new(4, 5), Err(FileErr::FileLimitExceeded)));
}

#[test]
fn dropping_twice_is_harmless() {
    let id = FileId::new("/tmp/t6");
    let mut registry = Registry::new();
    assert_eq!(registry.open(&id), Ok(true));
    assert_eq!(registry.release(&id), Release::Retired);
    assert_eq!(registry.release(&id), Release::Unknown);
    assert_eq!(registry.release(&FileId::new("/tmp/other")), Release::Unknown);
    assert!(!registry.end(&id));
    assert_eq!(registry.open(&id), Ok(true));
    assert!(registry.end(&id));
    assert_eq!(registry.handles(&id), 0);
}

#[test]
fn errors_stay_latched() {
    let mut sink = SinkState::new(100, 0).unwrap();
    sink.fail(FileErr::IoError(IoErrorKind::WriteZero));
    sink.observe(Some(FileEvent::Remove));
    assert!(matches!(sink.check(), Err(FileErr::IoError(IoErrorKind::WriteZero))));
    assert!(matches!(sink.check(), Err(FileErr::DuplicateIoError)));
    assert!(matches!(sink.accept(Bytes::Bytes(vec![1])), Err(FileErr::DuplicateIoError)));
    assert_eq!(sink.size(), 0);
}

#[test]
fn watcher_events() {
    let mut s = SinkState::new(10, 0).unwrap();
    s.observe(Some(FileEvent::Modify));
    assert!(s.check().is_ok());
    s.observe(Some(FileEvent::Error("boom".to_string())));
    assert!(matches!(s.check(), Err(FileErr::WatchError(m)) if m == "boom"));
    let mut r = SinkState::new(10, 0).unwrap();
    r.observe(Some(FileEvent::Rewatch));
    assert!(matches!(r.check(), Err(FileErr::TaskDead("watcher"))));
    let mut g = SinkState::new(10, 0).unwrap();
    g.observe(None);
    assert!(matches!(g.check(), Err(FileErr::TaskDead("watcher"))));
}

#[test]
fn take_leaves_duplicate() {
    let mut e = FileErr::IoError(IoErrorKind::NotFound);
    assert!(matches!(e.take(), FileErr::IoError(IoErrorKind::NotFound)));
    assert!(matches!(e, FileErr::DuplicateIoError));
    let mut w = FileErr::WatchError("x".to_string());
    assert!(matches!(w.take(), FileErr::WatchError(m) if m == "x"));
    assert!(matches!(w, FileErr::WatchError(m) if m == "x"));
    let mut t = FileErr::TaskDead("sink");
    assert!(matches!(t.take(), FileErr::TaskDead("sink")));
    assert!(matches!(t, FileErr::TaskDead("sink")));
}

#[test]
fn flush_receipts() {
    assert!(matches!(flush_progress(3, Some(SinkUpdate::Receipt(3))), Progress::Done(Ok(()))));
    assert!(matches!(flush_progress(3, Some(SinkUpdate::Receipt(2))), Progress::Wait));
    assert!(matches!(flush_progress(3, Some(SinkUpdate::FileErr(FileErr::FileRemoved))), Progress::Done(Err(FileErr::FileRemoved))));
    assert!(matches!(flush_progress(SYNC_MARKER, None), Progress::Done(Err(FileErr::TaskDead("sink")))));
    let mut pending = vec![SinkUpdate::Receipt(1), SinkUpdate::FileErr(FileErr::FileLimitExceeded), SinkUpdate::FileErr(FileErr::FileRemoved)];
    assert!(matches!(stored_error(&mut pending), FileErr::FileLimitExceeded));
    let mut none = vec![SinkUpdate::Receipt(1)];
    assert!(matches!(stored_error(&mut none), FileErr::TaskDead("sink")));
}

#[test]
fn flush_markers_skip_sync_marker() {
    let mut w = Writer::new(10, 0);
    assert!(w.header(ts(0)).is_none());
    assert_eq!(w.flush(), Ok(0));
    assert_eq!(w.flush(), Ok(1));
    assert!(w.end().is_ok());
    assert!(matches!(w.flush(), Err(FileErr::TaskDead("producer"))));
}

#[test]
fn oversize_payload_is_refused() {
    let mut w = Writer::new(0, 0);
    let _ = w.header(ts(0));
    let big = vec![0u8; 1_073_741_539];
    assert!(matches!(w.send(&key("x"), 0, ts(0), &big), Err(FileErr::FormatErr(FormatErr::OversizeRecord(128)))));
    let (h, _) = w.send(&key("x"), 0, ts(0), b"ok").unwrap();
    assert_eq!(h.sequence, 0);
}

#[test]
fn anchoring() {
    let mut p = FileProducer::new(FileId::new("/tmp/t7"));
    assert_eq!(p.file_id().path(), "/tmp/t7");
    assert!(matches!(p.anchored(), Err(StreamErr::NotAnchored)));
    assert!(p.anchor(key("x")).is_ok());
    assert!(matches!(p.anchor(key("y")), Err(StreamErr::AlreadyAnchored)));
    assert_eq!(p.anchored().unwrap().as_bytes(), b"x");
}

#[test]
fn reply_outcomes() {
    assert!(reply_outcome(true, Some(Ok(()))).is_ok());
    assert!(matches!(reply_outcome(false, Some(Ok(()))), Err(StreamErr::Backend(FileErr::ProducerEnded))));
    assert!(matches!(reply_outcome(true, None), Err(StreamErr::Backend(FileErr::ProducerEnded))));
    assert!(matches!(reply_outcome(true, Some(Err(FileErr::FileRemoved))), Err(StreamErr::Backend(FileErr::FileRemoved))));
    let mut w = Writer::new(0, 0);
    let (h, _) = w.send(&key("x"), 2, ts(9), b"p").unwrap();
    let back = send_outcome(Some(Ok(h))).unwrap();
    assert_eq!(back.shard_id, 2);
    assert!(matches!(send_outcome(Some(Err(FileErr::NotEnoughBytes))), Err(StreamErr::Backend(FileErr::NotEnoughBytes))));
}

#[test]
fn bytes_fragments() {
    let mut b = Bytes::Fragments(vec![vec![1, 2], vec![], vec![3, 4, 5]]);
    assert_eq!(b.len(), 5);
    let head = b.pop(3);
    assert_eq!(head.into_vec(), vec![1, 2, 3]);
    assert_eq!(b.len(), 2);
    assert_eq!(b.into_vec(), vec![4, 5]);
    let mut c = Bytes::Bytes(vec![9, 8]);
    assert_eq!(c.pop(2).into_vec(), vec![9, 8]);
    assert_eq!(c.into_vec(), Vec::<u8>::new());
}

#[test]
fn beacons_are_written_and_passed_over() {
    let mut w = Writer::new(0, 200);
    let mut file = w.header(ts(0)).unwrap();
    assert_eq!(decode_header(&file).unwrap().beacon_interval, 200);
    let mut plain = HEADER_SIZE;
    let mut beacons = 0;
    for i in 0..20u64 {
        let s = if i % 2 == 0 { "x" } else { "y" };
        let before = file.len();
        let (h, frame) = w.send(&key(s), 0, ts(0), b"0123456789").unwrap();
        assert_eq!(h.sequence, i / 2);
        let record_len = 41 + 1 + 10;
        plain += record_len;
        if frame.len() > record_len {
            beacons += 1;
            assert!((before + record_len) / 200 > before / 200);
            // magic, then the body length, then two entries
            assert_eq!(&frame[record_len..record_len + 4], &[0xff; 4]);
            assert_eq!(&frame[record_len + 8..record_len + 12], &[0, 0, 0, 2]);
            // the entry of `x` holds the last number written to it
            let x_last = &frame[record_len + 12 + 1 + 1 + 8..record_len + 12 + 1 + 1 + 16];
            assert_eq!(u64::from_be_bytes(x_last.try_into().unwrap()), i / 2);
        }
        file.extend(frame);
    }
    assert!(beacons > 0);
    assert!(file.len() > plain);
    let records = read_all(&file);
    assert_eq!(records.len(), 20);
    let mut bad = file.clone();
    let first_beacon = (0..bad.len() - 4).find(|i| bad[*i..*i + 4] == [0xff; 4]).unwrap();
    bad[first_beacon + 14] ^= 1;
    let (records, at, end) = read_records(&bad, HEADER_SIZE);
    assert_eq!(at, first_beacon);
    assert!(records.len() < 20);
    assert!(matches!(end, Err(FileErr::FormatErr(FormatErr::ChecksumMismatch(_)))));
    let (_, _, end) = read_records(&file[..first_beacon + 6], HEADER_SIZE);
    assert!(matches!(end, Err(FileErr::NotEnoughBytes)));
}

#[test]
fn file_uris() {
    let id = FileId::from_uri("file:///tmp/t1").unwrap();
    assert_eq!(id.path(), "/tmp/t1");
    assert_eq!(id.to_uri(), "file:///tmp/t1");
    assert_eq!(FileId::from_uri("file://rel/path?x=1&y").unwrap().path(), "rel/path");
    assert_eq!(FileId::from_uri("file://é/ü").unwrap().path(), "é/ü");
    assert_eq!(FileId::from_uri("kafka://host").unwrap_err(), UriErr::NotFileScheme);
    assert_eq!(FileId::from_uri("file:/").unwrap_err(), UriErr::NotFileScheme);
    assert_eq!(FileId::from_uri("file://").unwrap_err(), UriErr::EmptyPath);
    assert_eq!(FileId::from_uri("file://?q").unwrap_err(), UriErr::EmptyPath);
    assert!(FileId::new("/a").same(&FileId::from_uri("file:///a").unwrap()));
}

#[test]
fn tailing_steps() {
    assert!(matches!(tail_step(10, 10, None), TailStep::Wait));
    assert!(matches!(tail_step(10, 12, Some(FileEvent::Modify)), TailStep::Read));
    assert!(matches!(tail_step(10, 12, Some(FileEvent::Rewatch)), TailStep::Read));
    assert!(matches!(tail_step(10, 4, Some(FileEvent::Modify)), TailStep::Stop(FileErr::FormatErr(FormatErr::Truncated(10)))));
    assert!(matches!(tail_step(10, 12, Some(FileEvent::Remove)), TailStep::Stop(FileErr::FileRemoved)));
    assert!(matches!(tail_step(0, 0, Some(FileEvent::Error("e".to_string()))), TailStep::Stop(FileErr::WatchError(_))));
}

#[test]
fn file_ids_are_normalized() {
    assert_eq!(FileId::new("/tmp//t1").path(), "/tmp/t1");
    assert_eq!(FileId::new("/tmp/t1/").path(), "/tmp/t1");
    assert_eq!(FileId::new("a///b//").path(), "a/b");
    assert_eq!(FileId::new("/").path(), "/");
    assert_eq!(FileId::new("///").path(), "/");
    assert_eq!(FileId::new("").path(), "");
    assert!(FileId::new("/tmp//t1").same(&FileId::new("/tmp/t1/")));
    assert_eq!(FileId::from_uri("file:///tmp//t1/?q").unwrap().path(), "/tmp/t1");
    let mut registry = Registry::new();
    assert_eq!(registry.open(&FileId::new("/tmp//t9")), Ok(true));
    assert_eq!(registry.open(&FileId::new("/tmp/t9")), Ok(false));
}

#[test]
fn cloned_handles_share_file_and_anchor() {
    let mut p = FileProducer::new(FileId::new("/tmp/t8"));
    let q = p.clone();
    assert!(matches!(q.anchored(), Err(StreamErr::NotAnchored)));
    p.anchor(key("x")).unwrap();
    let r = p.clone();
    assert_eq!(r.file_id().path(), "/tmp/t8");
    assert_eq!(r.anchored().unwrap().as_bytes(), b"x");
}

#[test]
fn writer_goes_on_after_success() {
    let mut w = Writer::new(0, 0);
    assert_eq!(w.sink_result(Ok(())).1, Next::Continue);
    assert_eq!(w.sink_result(Err(FileErr::FileLimitExceeded)).1, Next::Exit);
    assert_eq!(w.sink_result(Ok(())).1, Next::Exit);
}
