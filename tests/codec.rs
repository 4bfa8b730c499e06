use inspector::codec::{encode_frame, frame_len, next_frame, FrameRead, WireError};
use inspector::{Claims, Kind, Level, Record, SourceProcess, TraceId};

fn sample_record() -> Record {
    Record {
        kind: Kind::Event,
        timestamp: 1_700_000_000_123,
        level: Some(Level::Info),
        source: Some("app::module".to_string()),
        message: "hello".to_string(),
        trace: Some(TraceId { span: Some(7), parent: None }),
        fields: "{}".to_string(),
    }
}

fn same_record(a: &Record, b: &Record) -> bool {
    a.kind == b.kind
        && a.timestamp == b.timestamp
        && a.level == b.level
        && a.source == b.source
        && a.message == b.message
        && a.trace == b.trace
        && a.fields == b.fields
}

#[test]
fn record_round_trips() {
    let r = sample_record();
    let bytes = r.encode();
    let back = Record::decode(&bytes).expect("decodes");
    assert!(same_record(&r, &back));
}

#[test]
fn record_round_trips_with_extremes() {
    let r = Record {
        kind: Kind::Span,
        timestamp: i64::MIN,
        level: None,
        source: None,
        message: "ünïcødé ✓".to_string(),
        trace: Some(TraceId { span: Some(u64::MAX), parent: Some(0) }),
        fields: String::new(),
    };
    let back = Record::decode(&r.encode()).expect("decodes");
    assert!(same_record(&r, &back));
    let r2 = Record { timestamp: i64::MAX, ..r };
    let back2 = Record::decode(&r2.encode()).expect("decodes");
    assert!(same_record(&r2, &back2));
}

#[test]
fn record_encoding_matches_postcard() {
    let r = sample_record();
    let tuple = (
        0u32,
        1_700_000_000_123i64,
        Some(2u32),
        Some("app::module".to_string()),
        "hello".to_string(),
        Some((Some(7u64), None::<u64>)),
        "{}".to_string(),
    );
    let expected = postcard::to_allocvec(&tuple).expect("serializes");
    assert_eq!(r.encode(), expected);
}

#[test]
fn claims_round_trip_and_match_postcard() {
    let c = Claims {
        hostname: "h".to_string(),
        display_name: None,
        source: Some(SourceProcess { pid: 42, name: "p".to_string(), start: 1000 }),
    };
    let bytes = c.encode();
    let expected = postcard::to_allocvec(&(
        "h".to_string(),
        None::<String>,
        Some((42u32, "p".to_string(), 1000u64)),
    ))
    .expect("serializes");
    assert_eq!(bytes, expected);
    let back = Claims::decode(&bytes).expect("decodes");
    assert_eq!(back.hostname, "h");
    assert_eq!(back.display_name, None);
    let p = back.source.expect("source");
    assert_eq!((p.pid, p.name.as_str(), p.start), (42, "p", 1000));
}

#[test]
fn decode_rejects_malformed_payloads() {
    assert_eq!(Record::decode(&[]).err(), Some(WireError::Malformed));
    // Kind 2 does not exist.
    assert_eq!(Record::decode(&[2, 0, 0, 0, 0, 0, 0]).err(), Some(WireError::Malformed));
    // A string whose length runs past the end.
    assert_eq!(Claims::decode(&[5, b'a']).err(), Some(WireError::Malformed));
    // Invalid UTF-8.
    assert_eq!(Claims::decode(&[1, 0xff, 0, 0]).err(), Some(WireError::Malformed));
    // An option tag other than 0 or 1.
    assert_eq!(Claims::decode(&[0, 2]).err(), Some(WireError::Malformed));
    // A varint that never ends.
    assert_eq!(Record::decode(&[0x80, 0x80]).err(), Some(WireError::Malformed));
}

#[test]
fn frame_prefixes_big_endian_length() {
    let f = encode_frame(&[1, 2, 3]).expect("fits");
    assert_eq!(f, vec![0, 0, 0, 3, 1, 2, 3]);
    assert_eq!(frame_len(&[0, 0, 1, 2]), 258);
    assert_eq!(frame_len(&[0x12, 0x34, 0x56, 0x78]), 0x1234_5678);
}

#[test]
fn frames_read_back_in_order() {
    let mut stream = encode_frame(b"ab").expect("fits");
    stream.extend(encode_frame(b"").expect("fits"));
    stream.extend(encode_frame(b"xyz").expect("fits"));
    let mut pos = 0;
    let mut payloads = Vec::new();
    loop {
        match next_frame(&stream, pos) {
            FrameRead::Frame { start, end } => {
                payloads.push(stream[start..end].to_vec());
                pos = end;
            }
            FrameRead::End => break,
            FrameRead::Truncated => panic!("truncated"),
        }
    }
    assert_eq!(payloads, vec![b"ab".to_vec(), Vec::new(), b"xyz".to_vec()]);
}

#[test]
fn eof_before_header_is_clean_and_short_payload_is_truncated() {
    assert_eq!(next_frame(&[], 0), FrameRead::End);
    assert_eq!(next_frame(&[0, 0, 0], 0), FrameRead::End);
    assert_eq!(next_frame(&[0, 0, 0, 5, 1, 2], 0), FrameRead::Truncated);
}

#[test]
fn record_frame_round_trip() {
    let r = sample_record();
    let framed = encode_frame(&r.encode()).expect("fits");
    match next_frame(&framed, 0) {
        FrameRead::Frame { start, end } => {
            let back = Record::decode(&framed[start..end]).expect("decodes");
            assert!(same_record(&r, &back));
            assert_eq!(end, framed.len());
        }
        other => panic!("unexpected {:?}", other),
    }
}
