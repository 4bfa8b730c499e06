use inspector::driver::{
    classify, ConnectFailure, Driver, DriverAction, DriverEvent, DriverState, ErrorClass,
};
use inspector::emitter::{Emitter, Received};
use inspector::sink::EmitterOpts;

#[test]
fn emitter_delivers_in_order_without_loss_below_capacity() {
    let mut e: Emitter<u16> = Emitter::new(4);
    for i in 0..3 {
        assert_eq!(e.send(i).ok(), Some(1));
    }
    assert_eq!(e.len(), 3);
    for i in 0..3 {
        assert!(matches!(e.recv(), Received::Item(x) if x == i));
    }
    assert!(matches!(e.recv(), Received::Empty));
    assert!(e.is_empty());
}

#[test]
fn emitter_overfill_counts_exactly_the_dropped() {
    // Buffer 1, three sends: two are dropped and the newest is kept.
    let mut e: Emitter<u16> = Emitter::new(1);
    for i in 0..3 {
        assert!(e.send(i).is_ok());
    }
    assert_eq!(e.len(), 1);
    assert!(matches!(e.recv(), Received::Lagged(2)));
    assert!(matches!(e.recv(), Received::Item(2)));
    assert!(matches!(e.recv(), Received::Empty));

    // Buffer 3, ten sends: max(0, 10 - 3) = 7 dropped.
    let mut e: Emitter<u32> = Emitter::new(3);
    for i in 0..10 {
        assert!(e.send(i).is_ok());
    }
    assert!(matches!(e.recv(), Received::Lagged(7)));
    for i in 7..10 {
        assert!(matches!(e.recv(), Received::Item(x) if x == i));
    }
}

#[test]
fn emitter_close_semantics() {
    let mut e: Emitter<u8> = Emitter::new(2);
    assert!(e.send(1).is_ok());
    e.close_sender();
    assert!(matches!(e.recv(), Received::Item(1)));
    assert!(matches!(e.recv(), Received::Closed));

    let mut e: Emitter<u8> = Emitter::new(2);
    assert!(!e.is_closed());
    e.close_receiver();
    assert!(e.is_closed());
    assert_eq!(e.send(9).err(), Some(9));
}

#[test]
fn connect_errors_are_classified() {
    assert_eq!(classify(ConnectFailure::Timeout), ErrorClass::Transient);
    assert_eq!(classify(ConnectFailure::NoAddress), ErrorClass::Transient);
    assert_eq!(classify(ConnectFailure::Other), ErrorClass::Transient);
    assert_eq!(classify(ConnectFailure::StreamOpen), ErrorClass::Transient);
    assert_eq!(classify(ConnectFailure::InternalConsistency), ErrorClass::Permanent);
}

#[test]
fn driver_reconnects_and_counts_lag() {
    let mut d = Driver::new();
    assert_eq!(d.state(), DriverState::Disconnected);
    // The reader is offline: a transient failure, then a retry.
    assert_eq!(d.step(DriverEvent::RetryTick), DriverAction::Connect);
    assert_eq!(d.step(DriverEvent::ConnectFailed(ConnectFailure::Timeout)), DriverAction::Wait);
    assert_eq!(d.state(), DriverState::Disconnected);
    assert_eq!(d.step(DriverEvent::RetryTick), DriverAction::Connect);
    assert_eq!(d.step(DriverEvent::ConnectSucceeded), DriverAction::SendHandshake);
    assert_eq!(d.counters().connected, 1);
    assert_eq!(d.step(DriverEvent::HandshakeWritten(true)), DriverAction::Wait);
    assert!(d.is_connected());
    assert_eq!(d.step(DriverEvent::Lagged(2)), DriverAction::Wait);
    assert_eq!(d.step(DriverEvent::RecordReady), DriverAction::Emit);
    assert_eq!(d.step(DriverEvent::RecordWritten(true)), DriverAction::Wait);
    let c = d.counters();
    assert_eq!(c.reconnect, 2);
    assert_eq!(c.connect, 1);
    assert_eq!(c.error_connect_timeout, 1);
    assert_eq!(c.lagged, 2);
    assert_eq!(c.sent, 1);
    assert_eq!(c.emit, 2);
    // The peer stops the stream: disconnected, and the next tick reconnects.
    assert_eq!(d.step(DriverEvent::StreamStopped), DriverAction::Wait);
    assert_eq!(d.counters().connected, 0);
    assert_eq!(d.counters().disconnected, 1);
    assert_eq!(d.step(DriverEvent::RetryTick), DriverAction::Connect);
}

#[test]
fn driver_stops_on_permanent_errors_and_closes_gracefully() {
    let mut d = Driver::new();
    d.step(DriverEvent::RetryTick);
    let a = d.step(DriverEvent::ConnectFailed(ConnectFailure::InternalConsistency));
    assert_eq!(a, DriverAction::Exit);
    assert_eq!(d.state(), DriverState::Stopped);
    assert_eq!(d.counters().error_connect_connect, 1);
    // A stopped driver ignores further ticks.
    assert_eq!(d.step(DriverEvent::RetryTick), DriverAction::Wait);

    let mut d = Driver::new();
    d.step(DriverEvent::RetryTick);
    d.step(DriverEvent::ConnectSucceeded);
    assert_eq!(d.step(DriverEvent::HandshakeWritten(false)), DriverAction::Exit);
    assert_eq!(d.counters().error_emit, 1);

    let mut d = Driver::new();
    d.step(DriverEvent::RetryTick);
    d.step(DriverEvent::ConnectSucceeded);
    d.step(DriverEvent::HandshakeWritten(true));
    assert_eq!(d.step(DriverEvent::RecordWritten(false)), DriverAction::Wait);
    assert_eq!(d.counters().error_send, 1);
    assert_eq!(d.counters().sent, 1);
    assert_eq!(d.counters().connected, 0);
    assert_eq!(d.state(), DriverState::Disconnected);
    d.step(DriverEvent::RetryTick);
    d.step(DriverEvent::ConnectSucceeded);
    d.step(DriverEvent::HandshakeWritten(true));
    assert_eq!(d.step(DriverEvent::EmitterClosed), DriverAction::Finish);
    assert_eq!(d.state(), DriverState::Stopped);
}

#[test]
fn overfill_reaches_the_lag_counter() {
    let mut e: Emitter<u16> = Emitter::new(1);
    let mut d = Driver::new();
    d.step(DriverEvent::RetryTick);
    d.step(DriverEvent::ConnectSucceeded);
    d.step(DriverEvent::HandshakeWritten(true));
    for i in 0..3 {
        e.send(i).unwrap();
    }
    loop {
        match e.recv() {
            Received::Lagged(n) => {
                d.step(DriverEvent::Lagged(n));
            }
            Received::Item(_) => {
                d.step(DriverEvent::RecordReady);
                d.step(DriverEvent::RecordWritten(true));
            }
            Received::Empty | Received::Closed => break,
        }
    }
    assert_eq!(d.counters().lagged, 2);
    assert_eq!(d.counters().sent, 1);
}

#[test]
fn emitter_defaults() {
    let o = EmitterOpts::default();
    assert_eq!(o.buffer_size, 10_000);
    assert_eq!(o.connect_timeout_ms, 5_000);
    assert_eq!(o.retry_interval_ms, 10_000);
}

#[test]
fn test_reconnect() {
    // The reader cannot be reached: the driver keeps retrying and never stops.
    let mut d = Driver::new();
    for _ in 0..5 {
        assert_eq!(d.step(DriverEvent::RetryTick), DriverAction::Connect);
        assert_eq!(d.step(DriverEvent::ConnectFailed(ConnectFailure::NoAddress)), DriverAction::Wait);
    }
    assert_eq!(d.state(), DriverState::Disconnected);
    assert_eq!(d.counters().reconnect, 5);
    assert_eq!(d.counters().error_connect_connect, 5);
}

#[test]
fn sink_test_client() {
    // Buffer 1, the reader offline while 0 and 1 are sent: 1 is delivered
    // after the reconnect and one item is counted as lagged.
    let mut e: Emitter<u16> = Emitter::new(1);
    let mut d = Driver::new();
    e.send(0).unwrap();
    e.send(1).unwrap();
    assert_eq!(e.len(), 1);
    d.step(DriverEvent::RetryTick);
    d.step(DriverEvent::ConnectSucceeded);
    d.step(DriverEvent::HandshakeWritten(true));
    assert_eq!(d.counters().connected, 1);
    let mut delivered = Vec::new();
    loop {
        match e.recv() {
            Received::Lagged(n) => {
                d.step(DriverEvent::Lagged(n));
            }
            Received::Item(x) => {
                d.step(DriverEvent::RecordReady);
                d.step(DriverEvent::RecordWritten(true));
                delivered.push(x);
            }
            Received::Empty | Received::Closed => break,
        }
    }
    assert_eq!(delivered, vec![1]);
    assert_eq!(d.counters().lagged, 1);
}
