use sea_streamer_file::duration::{parse_duration, DurationErr, Period};
use sea_streamer_file::format::StreamKey;
use sea_streamer_file::kafka::{CompressionType, KafkaProducerOptionKey, KafkaProducerOptions};
use sea_streamer_file::stdio::Producers;

#[test]
fn durations() {
    assert_eq!(parse_duration("100ms"), Ok(Period { secs: 0, nanos: 100_000_000 }));
    assert_eq!(parse_duration("1500ms"), Ok(Period { secs: 1, nanos: 500_000_000 }));
    assert_eq!(parse_duration("1s"), Ok(Period { secs: 1, nanos: 0 }));
    assert_eq!(parse_duration("+2s"), Ok(Period { secs: 2, nanos: 0 }));
    assert_eq!(parse_duration("5m"), Ok(Period { secs: 300, nanos: 0 }));
    assert_eq!(parse_duration("5h"), Err(DurationErr::UnknownUnit));
    assert_eq!(parse_duration(""), Err(DurationErr::UnknownUnit));
    assert_eq!(parse_duration("s"), Err(DurationErr::InvalidNumber));
    assert_eq!(parse_duration("-1s"), Err(DurationErr::InvalidNumber));
    assert_eq!(parse_duration("1.5s"), Err(DurationErr::InvalidNumber));
    assert_eq!(parse_duration("18446744073709551615s"), Ok(Period { secs: u64::MAX, nanos: 0 }));
    assert_eq!(parse_duration("18446744073709551616s"), Err(DurationErr::InvalidNumber));
    assert_eq!(parse_duration("307445734561825861m"), Err(DurationErr::Overflow));
    assert_eq!(parse_duration("307445734561825860m"), Ok(Period { secs: 18446744073709551600, nanos: 0 }));
}

#[test]
fn compression_names() {
    assert_eq!(CompressionType::default(), CompressionType::Uncompressed);
    let names: Vec<&str> = [
        CompressionType::Uncompressed,
        CompressionType::Gzip,
        CompressionType::Snappy,
        CompressionType::Lz4,
        CompressionType::Zstd,
    ]
    .iter()
    .map(|c| c.as_str())
    .collect();
    assert_eq!(names, vec!["none", "gzip", "snappy", "lz4", "zstd"]);
    assert_eq!(KafkaProducerOptionKey::CompressionType.as_str(), "compression.type");
}

#[test]
fn producer_options() {
    let mut o = KafkaProducerOptions::default();
    assert!(o.compression_type().is_none());
    assert!(o.make_client_config().is_empty());
    o.add_custom_option("linger.ms".to_string(), "5".to_string())
        .set_compression_type(CompressionType::Zstd);
    o.add_custom_option("acks".to_string(), "all".to_string());
    assert_eq!(o.compression_type(), Some(&CompressionType::Zstd));
    assert_eq!(
        o.custom_options().to_vec(),
        vec![("linger.ms".to_string(), "5".to_string()), ("acks".to_string(), "all".to_string())]
    );
    assert_eq!(
        o.make_client_config(),
        vec![
            ("compression.type".to_string(), "zstd".to_string()),
            ("linger.ms".to_string(), "5".to_string()),
            ("acks".to_string(), "all".to_string()),
        ]
    );
}

#[test]
fn stdio_sequence_per_stream() {
    let mut p = Producers::new();
    let a = StreamKey::new("a").unwrap();
    let b = StreamKey::new("b").unwrap();
    assert_eq!(p.append(&a), 0);
    assert_eq!(p.append(&a), 1);
    assert_eq!(p.append(&b), 0);
    assert_eq!(p.append(&a), 2);
    assert_eq!(p.append(&b), 1);
}
