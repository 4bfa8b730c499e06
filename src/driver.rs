//! The writer's connection driver, as a state machine. The caller performs
//! each action (connecting, writing the handshake or a record, finishing the
//! stream) and reports the outcome back as an event; the machine decides
//! what comes next and keeps the driver's counters.
use vstd::prelude::*;

use crate::emitter::{lemma_overfill_counts_lag, overfill, send_all, EmitterModel};

verus! {

#[derive(Debug, Clone, Copy, PartialEq, Eq, Structural)]
pub enum DriverState {
    /// No usable stream; the next retry tick starts a connect.
    Disconnected,
    /// A connect attempt is under way.
    Connecting,
    /// The transport is up; the handshake frame is being written.
    Handshaking,
    /// Records flow.
    Connected,
    /// The driver has exited.
    Stopped,
}

/// Why a connect attempt failed, as the transport reported it.
#[derive(Debug, Clone, Copy, PartialEq, Eq, Structural)]
pub enum ConnectFailure {
    /// The attempt ran past the connect timeout.
    Timeout,
    /// The peer's address is not known yet.
    NoAddress,
    /// The transport's internal state is inconsistent.
    InternalConsistency,
    /// Any other failure to connect.
    Other,
    /// The connection came up but the stream could not be opened.
    StreamOpen,
}

#[derive(Debug, Clone, Copy, PartialEq, Eq, Structural)]
pub enum ErrorClass {
    /// Retry after the retry interval.
    Transient,
    /// Stop the driver.
    Permanent,
}

pub open spec fn spec_classify(f: ConnectFailure) -> ErrorClass {
    match f {
        ConnectFailure::InternalConsistency => ErrorClass::Permanent,
        _ => ErrorClass::Transient,
    }
}

/// Only an inconsistent transport stops the driver; every other failure to
/// connect is retried.
pub fn classify(f: ConnectFailure) -> (r: ErrorClass)
    ensures
        r == spec_classify(f),
{
    match f {
        ConnectFailure::InternalConsistency => ErrorClass::Permanent,
        _ => ErrorClass::Transient,
    }
}

/// An outcome reported to the driver.
#[derive(Debug, Clone, Copy, PartialEq, Eq, Structural)]
pub enum DriverEvent {
    /// The retry interval ticked.
    RetryTick,
    /// The connection and its stream are open.
    ConnectSucceeded,
    ConnectFailed(ConnectFailure),
    /// Writing the handshake frame succeeded or failed.
    HandshakeWritten(bool),
    /// The peer stopped the stream.
    StreamStopped,
    /// The emitter handed over a record.
    RecordReady,
    /// Writing a record frame succeeded or failed; a failed write leaves
    /// the stream unusable.
    RecordWritten(bool),
    /// The emitter dropped this many records.
    Lagged(u64),
    /// The emitter's sender is gone.
    EmitterClosed,
}

/// What the caller does next.
#[derive(Debug, Clone, Copy, PartialEq, Eq, Structural)]
pub enum DriverAction {
    /// Wait for the next event.
    Wait,
    /// Open a connection and a stream, bounded by the connect timeout.
    Connect,
    /// Write the handshake frame.
    SendHandshake,
    /// Encode and write the record just received.
    Emit,
    /// Finish the stream, wait up to five seconds for the peer to stop it,
    /// close the endpoint and exit.
    Finish,
    /// Close the endpoint and exit.
    Exit,
}

/// The driver's observable counters and its connected gauge.
#[derive(Debug, Clone, Copy, PartialEq, Eq, Structural)]
pub struct DriverCounters {
    pub reconnect: u64,
    pub connect: u64,
    pub connected: u64,
    pub disconnected: u64,
    pub lagged: u64,
    pub sent: u64,
    pub emit: u64,
    pub error_connect_timeout: u64,
    pub error_connect_connect: u64,
    pub error_stream_open: u64,
    pub error_emit: u64,
    pub error_send: u64,
}

pub open spec fn inc(n: u64) -> u64 {
    if n < u64::MAX {
        (n + 1) as u64
    } else {
        n
    }
}

pub open spec fn add_sat(n: u64, k: u64) -> u64 {
    if n + k <= u64::MAX {
        (n + k) as u64
    } else {
        u64::MAX
    }
}

fn bump(n: u64) -> (r: u64)
    ensures
        r == inc(n),
{
    if n < u64::MAX {
        n + 1
    } else {
        n
    }
}

pub fn add_saturating(n: u64, k: u64) -> (r: u64)
    ensures
        r == add_sat(n, k),
{
    if n <= u64::MAX - k {
        n + k
    } else {
        u64::MAX
    }
}

/// The next state, the action, and the counters after `e` in state `s`.
/// Events that do not fit the state change nothing.
pub open spec fn transition(s: DriverState, c: DriverCounters, e: DriverEvent) -> (
    DriverState,
    DriverAction,
    DriverCounters,
) {
    match (s, e) {
        (DriverState::Disconnected, DriverEvent::RetryTick) => (
            DriverState::Connecting,
            DriverAction::Connect,
            DriverCounters { reconnect: inc(c.reconnect), ..c },
        ),
        (DriverState::Connecting, DriverEvent::ConnectSucceeded) => (
            DriverState::Handshaking,
            DriverAction::SendHandshake,
            DriverCounters { connect: inc(c.connect), connected: 1, ..c },
        ),
        (DriverState::Connecting, DriverEvent::ConnectFailed(f)) => {
            let c2 = match f {
                ConnectFailure::Timeout => DriverCounters {
                    error_connect_timeout: inc(c.error_connect_timeout),
                    ..c
                },
                ConnectFailure::StreamOpen => DriverCounters {
                    error_stream_open: inc(c.error_stream_open),
                    ..c
                },
                _ => DriverCounters { error_connect_connect: inc(c.error_connect_connect), ..c },
            };
            if spec_classify(f) == ErrorClass::Permanent {
                (DriverState::Stopped, DriverAction::Exit, c2)
            } else {
                (DriverState::Disconnected, DriverAction::Wait, c2)
            }
        },
        (DriverState::Handshaking, DriverEvent::HandshakeWritten(ok)) => if ok {
            (DriverState::Connected, DriverAction::Wait, DriverCounters { emit: inc(c.emit), ..c })
        } else {
            (
                DriverState::Stopped,
                DriverAction::Exit,
                DriverCounters { error_emit: inc(c.error_emit), ..c },
            )
        },
        (DriverState::Connected, DriverEvent::StreamStopped) => (
            DriverState::Disconnected,
            DriverAction::Wait,
            DriverCounters { connected: 0, disconnected: inc(c.disconnected), ..c },
        ),
        (DriverState::Connected, DriverEvent::RecordReady) => (
            DriverState::Connected,
            DriverAction::Emit,
            c,
        ),
        (DriverState::Connected, DriverEvent::RecordWritten(ok)) => if ok {
            (
                DriverState::Connected,
                DriverAction::Wait,
                DriverCounters { emit: inc(c.emit), sent: inc(c.sent), ..c },
            )
        } else {
            (
                DriverState::Disconnected,
                DriverAction::Wait,
                DriverCounters {
                    error_send: inc(c.error_send),
                    sent: inc(c.sent),
                    connected: 0,
                    ..c
                },
            )
        },
        (DriverState::Connected, DriverEvent::Lagged(n)) => (
            DriverState::Connected,
            DriverAction::Wait,
            DriverCounters { lagged: add_sat(c.lagged, n), ..c },
        ),
        (DriverState::Connected, DriverEvent::EmitterClosed) => (
            DriverState::Stopped,
            DriverAction::Finish,
            c,
        ),
        _ => (s, DriverAction::Wait, c),
    }
}

pub struct Driver {
    state: DriverState,
    counters: DriverCounters,
}

impl Driver {
    pub closed spec fn spec_state(&self) -> DriverState {
        self.state
    }

    pub closed spec fn spec_counters(&self) -> DriverCounters {
        self.counters
    }

    /// A driver that has not connected yet, with all counters at zero.
    pub fn new() -> (r: Driver)
        ensures
            r.spec_state() == DriverState::Disconnected,
            r.spec_counters() == (DriverCounters {
                reconnect: 0,
                connect: 0,
                connected: 0,
                disconnected: 0,
                lagged: 0,
                sent: 0,
                emit: 0,
                error_connect_timeout: 0,
                error_connect_connect: 0,
                error_stream_open: 0,
                error_emit: 0,
                error_send: 0,
            }),
    {
        Driver {
            state: DriverState::Disconnected,
            counters: DriverCounters {
                reconnect: 0,
                connect: 0,
                connected: 0,
                disconnected: 0,
                lagged: 0,
                sent: 0,
                emit: 0,
                error_connect_timeout: 0,
                error_connect_connect: 0,
                error_stream_open: 0,
                error_emit: 0,
                error_send: 0,
            },
        }
    }

    pub fn state(&self) -> (r: DriverState)
        ensures
            r == self.spec_state(),
    {
        self.state
    }

    pub fn counters(&self) -> (r: DriverCounters)
        ensures
            r == self.spec_counters(),
    {
        self.counters
    }

    pub fn is_connected(&self) -> (r: bool)
        ensures
            r == (self.spec_state() == DriverState::Connected),
    {
        self.state == DriverState::Connected
    }

    /// Takes one reported outcome and says what to do next.
    pub fn step(&mut self, e: DriverEvent) -> (r: DriverAction)
        ensures
            (final(self).spec_state(), r, final(self).spec_counters()) == transition(
                old(self).spec_state(),
                old(self).spec_counters(),
                e,
            ),
    {
        let c = self.counters;
        match (self.state, e) {
            (DriverState::Disconnected, DriverEvent::RetryTick) => {
                self.state = DriverState::Connecting;
                self.counters = DriverCounters { reconnect: bump(c.reconnect), ..c };
                DriverAction::Connect
            },
            (DriverState::Connecting, DriverEvent::ConnectSucceeded) => {
                self.state = DriverState::Handshaking;
                self.counters = DriverCounters { connect: bump(c.connect), connected: 1, ..c };
                DriverAction::SendHandshake
            },
            (DriverState::Connecting, DriverEvent::ConnectFailed(f)) => {
                self.counters = match f {
                    ConnectFailure::Timeout => DriverCounters {
                        error_connect_timeout: bump(c.error_connect_timeout),
                        ..c
                    },
                    ConnectFailure::StreamOpen => DriverCounters {
                        error_stream_open: bump(c.error_stream_open),
                        ..c
                    },
                    _ => DriverCounters {
                        error_connect_connect: bump(c.error_connect_connect),
                        ..c
                    },
                };
                match classify(f) {
                    ErrorClass::Permanent => {
                        self.state = DriverState::Stopped;
                        DriverAction::Exit
                    },
                    ErrorClass::Transient => {
                        self.state = DriverState::Disconnected;
                        DriverAction::Wait
                    },
                }
            },
            (DriverState::Handshaking, DriverEvent::HandshakeWritten(ok)) => {
                if ok {
                    self.state = DriverState::Connected;
                    self.counters = DriverCounters { emit: bump(c.emit), ..c };
                    DriverAction::Wait
                } else {
                    self.state = DriverState::Stopped;
                    self.counters = DriverCounters { error_emit: bump(c.error_emit), ..c };
                    DriverAction::Exit
                }
            },
            (DriverState::Connected, DriverEvent::StreamStopped) => {
                self.state = DriverState::Disconnected;
                self.counters = DriverCounters {
                    connected: 0,
                    disconnected: bump(c.disconnected),
                    ..c
                };
                DriverAction::Wait
            },
            (DriverState::Connected, DriverEvent::RecordReady) => DriverAction::Emit,
            (DriverState::Connected, DriverEvent::RecordWritten(ok)) => {
                if ok {
                    self.counters = DriverCounters { emit: bump(c.emit), sent: bump(c.sent), ..c };
                } else {
                    self.state = DriverState::Disconnected;
                    self.counters = DriverCounters {
                        error_send: bump(c.error_send),
                        sent: bump(c.sent),
                        connected: 0,
                        ..c
                    };
                }
                DriverAction::Wait
            },
            (DriverState::Connected, DriverEvent::Lagged(n)) => {
                self.counters = DriverCounters { lagged: add_saturating(c.lagged, n), ..c };
                DriverAction::Wait
            },
            (DriverState::Connected, DriverEvent::EmitterClosed) => {
                self.state = DriverState::Stopped;
                DriverAction::Finish
            },
            _ => DriverAction::Wait,
        }
    }
}

/// Overfilling the emitter while the driver is connected: after `n` sends
/// into an empty channel of capacity `b`, the lag that the receiver reports
/// raises the driver's lag counter from zero to exactly `max(0, n - b)`.
pub proof fn lemma_overfill_reaches_lag_counter<T>(
    m: EmitterModel<T>,
    items: Seq<T>,
    c: DriverCounters,
)
    requires
        m.capacity > 0,
        m.items.len() == 0,
        m.lagged == 0,
        m.receiver_open,
        items.len() <= u64::MAX,
        c.lagged == 0,
    ensures
        ({
            let reported = send_all(m, items).lagged as u64;
            let (s, _, c2) = transition(DriverState::Connected, c, DriverEvent::Lagged(reported));
            c2.lagged == overfill(items.len(), m.capacity) && s == DriverState::Connected
        }),
{
    lemma_overfill_counts_lag(m, items);
}

} // verus!
