use inspector::config::{KeySource, ReaderConfig, DEFAULT_KEY_PATH};
use inspector::debounce::{Debounce, Throttle};
use inspector::layer::{layer_disabled, same_text, DropMarks, DROP_TARGET};
use inspector::tap::{normalize_epoch, to_content, Format, JsonLine, JsonScalar, Parser, TapError};
use inspector::{get_sources, now, Kind, Level, Process, Record, SourceProcess};

#[test]
fn drop_target_suppresses_its_subtree() {
    let mut marks = DropMarks::new();
    // A span of the collector itself, and a child of it.
    assert!(!marks.on_new_span(1, None, DROP_TARGET));
    assert!(!marks.on_new_span(2, Some(1), "iroh::socket"));
    // A log line inside the child produces nothing.
    assert!(!marks.on_event(Some(2)));

    // A normal span tree of depth three: every span and the event record.
    assert!(marks.on_new_span(10, None, "app"));
    assert!(marks.on_new_span(11, Some(10), "app::inner"));
    assert!(marks.on_new_span(12, Some(11), "app::inner::leaf"));
    let mut produced = Vec::new();
    if marks.on_event(Some(12)) {
        produced.push(Record::from_event(
            Some(12),
            Level::Info,
            "app::inner::leaf".to_string(),
            Some("testing...".to_string()),
            "{}".to_string(),
            5,
        ));
    }
    assert_eq!(produced.len(), 1);
    let t = produced[0].trace.expect("trace");
    assert_eq!(t.parent, Some(12));
    assert_eq!(t.span, None);
    assert_eq!(produced[0].message, "testing...");
    assert_eq!(produced[0].kind, Kind::Event);

    // Events outside any span are kept; closing a span drops its marker.
    assert!(marks.on_event(None));
    marks.on_close(2);
    assert!(marks.on_event(Some(2)));
    assert!(!marks.on_event(Some(1)));
}

#[test]
fn span_records_carry_their_ids() {
    let r = Record::from_span(
        7,
        Some(3),
        Level::Debug,
        "app".to_string(),
        "work".to_string(),
        "{\"a\":1}".to_string(),
        9,
    );
    assert_eq!(r.kind, Kind::Span);
    assert_eq!(r.message, "work");
    assert_eq!(r.source.as_deref(), Some("app"));
    let t = r.trace.expect("trace");
    assert_eq!((t.span, t.parent), (Some(7), Some(3)));
    let e = Record::from_event(None, Level::Warn, "x".to_string(), None, "{}".to_string(), 1);
    assert_eq!(e.message, "");
}

#[test]
fn layer_is_disabled_without_remote_or_receiver() {
    assert!(layer_disabled(false, false));
    assert!(layer_disabled(true, true));
    assert!(!layer_disabled(true, false));
    assert!(same_text("inspector::drop", DROP_TARGET));
    assert!(!same_text("inspector::dro", DROP_TARGET));
}

#[test]
fn debounce_fires_once_per_window() {
    let mut d = Debounce::default();
    assert_eq!(d.max_ms, 100);
    assert!(!d.ready(0));
    d.trigger(1000);
    d.trigger(1050);
    assert_eq!(d.deadline, Some(1100));
    assert!(!d.ready(1099));
    assert!(d.ready(1100));
    assert!(!d.ready(1200));
    d.trigger(u64::MAX - 10);
    assert_eq!(d.deadline, Some(u64::MAX));
}

#[test]
fn throttle_runs_at_most_once_per_window() {
    let mut t = Throttle::new(100, 0);
    assert!(!t.throttled(50));
    assert!(t.throttled(100));
    assert!(!t.throttled(150));
    assert!(t.throttled(250));
    assert_eq!(t.last_run_ms, 250);
}

#[test]
fn key_source_paths() {
    assert_eq!(KeySource::DefaultFile.path(), Some(DEFAULT_KEY_PATH));
    let f = KeySource::File { path: "/tmp/k".to_string() };
    assert_eq!(f.path(), Some("/tmp/k"));
    assert_eq!(KeySource::Env { var: "K".to_string() }.path(), None);
    assert!(matches!(ReaderConfig::default().key, KeySource::DefaultFile));
}

#[test]
fn epoch_units_are_normalized_to_millis() {
    assert_eq!(normalize_epoch(1_700_000_000), 1_700_000_000_000);
    assert_eq!(normalize_epoch(1_700_000_000_123), 1_700_000_000_123);
    assert_eq!(normalize_epoch(1_700_000_000_123_456), 1_700_000_000_123);
    assert_eq!(normalize_epoch(1_700_000_000_123_456_789), 1_700_000_000_123);
    assert_eq!(normalize_epoch(-1_700_000_000_123_456), -1_700_000_000_123);
    assert_eq!(normalize_epoch(0), 0);
    assert_eq!(normalize_epoch(i64::MIN), i64::MIN / 1_000_000);
}

#[test]
fn line_content_strips_carriage_returns() {
    assert_eq!(to_content(b"abc\r\n"), "abc");
    assert_eq!(to_content(b"abc\r"), "abc");
    assert_eq!(to_content(b"abc"), "abc");
    assert_eq!(to_content(b"abc\n"), "abc\n");
    assert_eq!(to_content(&[0x61, 0xff]), "a\u{fffd}");
}

#[test]
fn level_names_and_numbers() {
    assert_eq!(Level::parse_name("  WARNING "), Some(Level::Warn));
    assert_eq!(Level::parse_name("fatal"), Some(Level::Error));
    assert_eq!(Level::parse_name("Trc"), Some(Level::Trace));
    assert_eq!(Level::parse_name("verbose"), None);
    assert_eq!("Information".parse::<Level>(), Ok(Level::Info));
    assert_eq!("7".parse::<Level>(), Err(()));
    assert_eq!(Level::try_from_i64(30), Some(Level::Info));
    assert_eq!(Level::try_from_i64(5), Some(Level::Off));
    assert_eq!(Level::try_from_i64(6), None);
    assert_eq!(Level::try_from_u64(u64::MAX), None);
    assert_eq!(Level::try_from_u64(50), Some(Level::Error));
}

fn entry(k: &str, v: JsonScalar) -> (String, JsonScalar) {
    (k.to_string(), v)
}

#[test]
fn text_lines_become_records() {
    let p = Parser::new(Format::Auto, Some("svc".to_string()));
    let r = p.to_record(b"plain words\r\n", None, 42).expect("text");
    assert_eq!(r.message, "plain words");
    assert_eq!(r.fields, "{}");
    assert_eq!(r.source.as_deref(), Some("svc"));
    assert_eq!(r.timestamp, 42);
    assert_eq!(r.level, None);
    assert!(!p.reads_json(b"   plain"));
    assert!(p.reads_json(b"  {\"a\":1}"));
    assert!(p.reads_json(b"\t[1]"));
}

#[test]
fn json_lines_pick_the_usual_keys() {
    let p = Parser::new(Format::Json, Some("svc".to_string()));
    let line = b"{\"msg\":\"hi\",\"severity\":\"ERROR\",\"ts\":1700000000,\"target\":\"t\"}";
    let parsed = JsonLine {
        entries: vec![
            entry("msg", JsonScalar::Str("hi".to_string())),
            entry("severity", JsonScalar::Str("ERROR".to_string())),
            entry("ts", JsonScalar::Int(1_700_000_000)),
            entry("target", JsonScalar::Str("t".to_string())),
        ],
        fields_message: None,
    };
    let r = p.to_record(line, Some(&parsed), 1).expect("json");
    assert_eq!(r.message, "hi");
    assert_eq!(r.level, Some(Level::Error));
    assert_eq!(r.timestamp, 1_700_000_000_000);
    assert_eq!(r.source.as_deref(), Some("t"));
    assert_eq!(r.fields.as_bytes(), &line[..]);

    let parsed = JsonLine {
        entries: vec![
            entry("level", JsonScalar::Str("40".to_string())),
            entry("time", JsonScalar::Str("2023-11-14T22:13:20Z".to_string())),
        ],
        fields_message: Some(JsonScalar::Str("nested".to_string())),
    };
    let r = p.to_record(b"{}", Some(&parsed), 1).expect("json");
    assert_eq!(r.message, "nested");
    assert_eq!(r.level, Some(Level::Warn));
    assert_eq!(r.timestamp, 1_700_000_000_000);
    assert_eq!(r.source.as_deref(), Some("svc"));

    let parsed = JsonLine {
        entries: vec![
            entry("message", JsonScalar::Int(3)),
            entry("timestamp", JsonScalar::Float(None)),
            entry("level", JsonScalar::UInt(20)),
        ],
        fields_message: None,
    };
    let r = p.to_record(b"{\"message\":3}", Some(&parsed), 9).expect("json");
    assert_eq!(r.message, "{\"message\":3}");

    let parsed = JsonLine {
        entries: vec![entry("ts", JsonScalar::Str("Tue, 14 Nov 2023 22:13:20 +0000".to_string()))],
        fields_message: None,
    };
    let dated = p.to_record(b"{}", Some(&parsed), 1).expect("json");
    assert_eq!(dated.timestamp, 1_700_000_000_000);
    assert_eq!(r.message, "{\"message\":3}");
    assert_eq!(r.timestamp, 9);
    assert_eq!(r.level, Some(Level::Debug));

    assert_eq!(p.to_record(b"not json", None, 0).err(), Some(TapError::NotJson));
}

#[test]
fn clock_and_sources() {
    assert!(now() > 1_600_000_000_000);
    assert!(inspector::api::now_ms() >= 1_600_000_000_000);
    assert!(matches!(get_sources(), Ok(None)));
    let s = SourceProcess::from_pid(7);
    assert_eq!((s.pid, s.name.as_str(), s.start), (7, "unknown", 0));
    let p = Process { pid: 1, name: "n".to_string(), hostname: "h".to_string(), start: 2 };
    let c = p.claims(Some("d".to_string()));
    assert_eq!(c.hostname, "h");
    assert_eq!(c.display_name.as_deref(), Some("d"));
    assert_eq!(c.source.map(|s| s.pid), Some(1));
}

#[test]
fn test_disabled() {
    // No remote configured: the layer does nothing.
    assert!(layer_disabled(false, false));
}

#[test]
fn test_garbage_collection() {
    // The driver went away and dropped its receiver: the layer stops.
    let mut e: inspector::emitter::Emitter<Record> = inspector::emitter::Emitter::new(10);
    assert!(!layer_disabled(true, e.is_closed()));
    e.close_receiver();
    assert!(layer_disabled(true, e.is_closed()));
}

#[test]
fn test_logging() {
    let mut marks = DropMarks::new();
    let mut dropped_spans = 0;
    let mut spans = 0;
    for (id, parent, target) in [
        (1u64, None, DROP_TARGET),
        (2, Some(1), "iroh::socket"),
        (3, Some(2), "iroh::socket::remote_state"),
        (4, None, "app"),
    ] {
        if marks.on_new_span(id, parent, target) {
            spans += 1;
        } else {
            dropped_spans += 1;
        }
    }
    assert!(dropped_spans > 0, "No spans were dropped");
    assert!(spans > 0, "No spans were recorded");
    assert!(!marks.on_event(Some(3)), "events of dropped spans are dropped");
    assert!(marks.on_event(Some(4)), "events of other spans are recorded");
}
