use inspector::codec::encode_frame;
use inspector::session::{next_input, read_handshake, HandshakeError, Session, SessionInput};
use inspector::sink::{DisconnectReason, Identity, Response, ResponseEvent, SinkOpts, ALPN};
use inspector::store::{retention_cutoff, SessionRow, Store};
use inspector::{Claims, Kind, Level, Record, SourceProcess, TraceId};

fn claims() -> Claims {
    Claims {
        hostname: "h".to_string(),
        display_name: None,
        source: Some(SourceProcess { pid: 42, name: "p".to_string(), start: 1000 }),
    }
}

fn identity() -> Identity<Claims> {
    Identity { observed: "writer-1".to_string(), assertion: claims() }
}

fn hello(ts: i64) -> Record {
    Record {
        kind: Kind::Event,
        timestamp: ts,
        level: Some(Level::Info),
        source: None,
        message: "hello".to_string(),
        trace: None,
        fields: "{}".to_string(),
    }
}

fn run_session(inputs: Vec<SessionInput<Record>>, id: u128) -> Vec<Response<Claims, Record>> {
    let (mut s, first) = Session::start(id, identity(), 100);
    let mut out = vec![first];
    let mut now = 100;
    for input in inputs {
        now += 10;
        out.extend(s.step(input, now));
        if !s.is_open() {
            break;
        }
    }
    out
}

#[test]
fn session_connect_data_disconnect() {
    let out = run_session(vec![SessionInput::Frame(hello(5)), SessionInput::End], 9);
    assert_eq!(out.len(), 3);
    assert!(matches!(out[0].event, ResponseEvent::Connect));
    assert!(matches!(&out[1].event, ResponseEvent::Data(r) if r.message == "hello"));
    assert!(matches!(out[2].event, ResponseEvent::Disconnect(DisconnectReason::Graceful)));
    assert!(out.iter().all(|r| r.session_id == 9));
    assert!(out.windows(2).all(|w| w[0].received_at <= w[1].received_at));
}

#[test]
fn test_heartbeat_does_not_cancel_stream_progress() {
    let inputs = vec![
        SessionInput::Tick,
        SessionInput::Tick,
        SessionInput::Frame(hello(7)),
        SessionInput::End,
    ];
    let out = run_session(inputs, 1);
    let kinds: Vec<&str> = out.iter().map(|r| r.event.name()).collect();
    assert_eq!(kinds, vec!["Connect", "Heartbeat", "Heartbeat", "Data", "Disconnect"]);
}

#[test]
fn transport_error_ends_the_session() {
    let out = run_session(
        vec![SessionInput::Failure("bad frame".to_string()), SessionInput::Tick],
        2,
    );
    assert_eq!(out.len(), 3);
    assert!(matches!(&out[1].event, ResponseEvent::Error(e) if e == "bad frame"));
    assert!(matches!(out[2].event, ResponseEvent::Disconnect(DisconnectReason::TransportError)));
}

#[test]
fn clock_going_back_does_not_reorder_stamps() {
    let (mut s, first) = Session::<Record>::start(3, identity(), 500);
    assert_eq!(first.received_at, 500);
    let r = s.step(SessionInput::Tick, 400);
    assert_eq!(r[0].received_at, 500);
    let r = s.step(SessionInput::Tick, 600);
    assert_eq!(r[0].received_at, 600);
}

#[test]
fn labels_name_event_and_reason() {
    let e: ResponseEvent<u16> = ResponseEvent::Disconnect(DisconnectReason::ServerShutdown);
    assert_eq!(e.labels(), vec![("event", "Disconnect"), ("reason", "server_shutdown")]);
    let e: ResponseEvent<u16> = ResponseEvent::Data(1);
    assert_eq!(e.labels(), vec![("event", "Data")]);
    assert_eq!(DisconnectReason::Graceful.code(), 0);
    assert_eq!(DisconnectReason::TransportError.code(), 4);
    assert_eq!(ALPN, "inspector/sink/0");
    assert_eq!(SinkOpts::default().buffer_size, 10);
}

#[test]
fn store_persists_a_whole_session() {
    let mut store = Store::new();
    for r in run_session(vec![SessionInput::Frame(hello(5)), SessionInput::End], 77) {
        store.insert(&r).expect("stored");
    }
    let ids = store.identities();
    assert_eq!(ids.len(), 1);
    assert_eq!(ids[0].writer_id, "writer-1");
    assert_eq!(ids[0].pid, Some(42));
    assert_eq!(ids[0].process_name.as_deref(), Some("p"));
    assert_eq!(ids[0].hostname, "h");
    assert_eq!(ids[0].start_ms, Some(1000));
    let sessions = store.sessions();
    assert_eq!(sessions.len(), 1);
    assert_eq!(sessions[0].session_id, 77);
    assert_eq!(sessions[0].identity_pk, ids[0].pk);
    assert_eq!(sessions[0].connected_at, 100);
    assert_eq!(sessions[0].last_seen_at, 120);
    assert_eq!(sessions[0].disconnected_at, Some(120));
    assert_eq!(sessions[0].reason, Some(0));
    let records = store.records();
    assert_eq!(records.len(), 1);
    assert_eq!(records[0].params.identity_pk, ids[0].pk);
    assert_eq!(records[0].params.message, "hello");
    assert_eq!(records[0].params.level, Some(2));
    assert_eq!(records[0].params.kind, 0);
    assert_eq!(records[0].params.received_ms, 110);
}

#[test]
fn same_claims_and_session_twice_gives_one_row_each() {
    let mut store = Store::new();
    let (mut s, first) = Session::<Record>::start(5, identity(), 10);
    store.insert(&first).unwrap();
    for r in s.step(SessionInput::Tick, 20) {
        store.insert(&r).unwrap();
    }
    let first_seen = store.sessions()[0].last_seen_at;
    for r in s.step(SessionInput::Tick, 30) {
        store.insert(&r).unwrap();
    }
    assert_eq!(store.identities().len(), 1);
    assert_eq!(store.sessions().len(), 1);
    assert!(store.sessions()[0].last_seen_at >= first_seen);
    assert_eq!(store.sessions()[0].last_seen_at, 30);
    assert_eq!(store.sessions()[0].disconnected_at, None);

    // Another session of the same writer shares the identity row.
    let (_, other) = Session::<Record>::start(6, identity(), 40);
    store.insert(&other).unwrap();
    assert_eq!(store.identities().len(), 1);
    assert_eq!(store.sessions().len(), 2);
}

#[test]
fn records_reference_the_identity_of_their_claims() {
    let mut store = Store::new();
    let other = Identity {
        observed: "writer-2".to_string(),
        assertion: Claims { hostname: "h2".to_string(), display_name: Some("d".to_string()), source: None },
    };
    let (mut a, fa) = Session::start(1, identity(), 1);
    let (mut b, fb) = Session::start(2, other, 1);
    store.insert(&fa).unwrap();
    store.insert(&fb).unwrap();
    for r in b.step(SessionInput::Frame(hello(1)), 2) {
        store.insert(&r).unwrap();
    }
    for r in a.step(SessionInput::Frame(hello(2)), 3) {
        store.insert(&r).unwrap();
    }
    let ids = store.identities();
    assert_eq!(ids.len(), 2);
    let recs = store.records();
    assert_eq!(recs[0].params.identity_pk, ids[1].pk);
    assert_eq!(ids[1].hostname, "h2");
    assert_eq!(ids[1].pid, None);
    assert_eq!(recs[1].params.identity_pk, ids[0].pk);
}

#[test]
fn startup_recovery_closes_open_sessions_only() {
    let mut store = Store::new();
    let (mut a, fa) = Session::<Record>::start(1, identity(), 1000);
    store.insert(&fa).unwrap();
    let (mut b, fb) = Session::<Record>::start(2, identity(), 1000);
    store.insert(&fb).unwrap();
    for r in a.step(SessionInput::Tick, 1500) {
        store.insert(&r).unwrap();
    }
    for r in b.step(SessionInput::End, 1200) {
        store.insert(&r).unwrap();
    }
    let closed = store.close_open_sessions();
    assert_eq!(closed, 1);
    let s = store.sessions();
    assert_eq!(
        s[0],
        SessionRow {
            session_id: 1,
            identity_pk: 1,
            connected_at: 1000,
            last_seen_at: 1500,
            disconnected_at: Some(1500),
            reason: Some(2),
        }
    );
    assert_eq!(s[1].disconnected_at, Some(1200));
    assert_eq!(s[1].reason, Some(0));
    assert!(s.iter().all(|r| r.disconnected_at.is_some()));
    assert_eq!(store.close_open_sessions(), 0);
}

#[test]
fn retention_deletes_only_old_records() {
    let now = 10_000_000;
    let hour = 3_600_000;
    let mut store = Store::new();
    let (mut s, first) = Session::start(1, identity(), now);
    store.insert(&first).unwrap();
    for r in s.step(SessionInput::Frame(hello(now - hour / 2)), now) {
        store.insert(&r).unwrap();
    }
    for r in s.step(SessionInput::Frame(hello(now - 2 * hour)), now) {
        store.insert(&r).unwrap();
    }
    let cutoff = retention_cutoff(now, hour);
    assert_eq!(cutoff, now - hour);
    assert_eq!(store.delete_records_before(cutoff), 1);
    assert_eq!(store.records().len(), 1);
    assert_eq!(store.records()[0].params.ts_ms, now - hour / 2);
    assert_eq!(store.identities().len(), 1);
    assert_eq!(store.sessions().len(), 1);
    assert_eq!(retention_cutoff(i64::MIN + 5, 10), i64::MIN);
}

#[test]
fn trace_ids_reach_the_record_row() {
    let mut store = Store::new();
    let (mut s, first) = Session::start(1, identity(), 1);
    store.insert(&first).unwrap();
    let mut r = hello(3);
    r.trace = Some(TraceId { span: Some(11), parent: Some(10) });
    for resp in s.step(SessionInput::Frame(r), 2) {
        store.insert(&resp).unwrap();
    }
    let row = &store.records()[0].params;
    assert_eq!(row.span_id, Some(11));
    assert_eq!(row.parent_id, Some(10));
}

#[test]
fn stream_bytes_drive_a_session() {
    let mut bytes = encode_frame(&claims().encode()).unwrap();
    bytes.extend(encode_frame(&hello(1).encode()).unwrap());
    let (c, mut pos) = read_handshake(&bytes).expect("handshake");
    assert_eq!(c.hostname, "h");
    let (input, next) = next_input(&bytes, pos);
    assert!(matches!(&input, SessionInput::Frame(r) if r.message == "hello"));
    pos = next;
    let (input, _) = next_input(&bytes, pos);
    assert!(matches!(input, SessionInput::End));

    assert_eq!(read_handshake(&[0, 0]).err(), Some(HandshakeError::Missing));
    assert_eq!(read_handshake(&[0, 0, 0, 9, 1]).err(), Some(HandshakeError::Malformed));
    assert_eq!(read_handshake(&[0, 0, 0, 1, 7]).err(), Some(HandshakeError::Malformed));
    let garbage = encode_frame(&[9, 9]).unwrap();
    assert!(matches!(next_input(&garbage, 0).0, SessionInput::Failure(_)));
    assert!(matches!(next_input(&[0, 0, 0, 3], 0).0, SessionInput::Failure(_)));
}

#[test]
fn fresh_sessions_get_distinct_ids() {
    let (a, ca) = Session::<Record>::begin(identity(), 1);
    let (b, cb) = Session::<Record>::begin(identity(), 1);
    assert_ne!(a.id(), b.id());
    assert_eq!(ca.session_id, a.id());
    assert_eq!(cb.session_id, b.id());
}
