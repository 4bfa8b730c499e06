use vstd::prelude::*;

use crate::api::{Claims, ClaimsModel};

verus! {

/// Protocol identifier negotiated by the transport; the trailing number is
/// the wire version.
pub const ALPN: &'static str = "inspector/sink/0";

/// Why a session ended. The numbering is stable: the store keeps it.
#[derive(Debug, Clone, Copy, PartialEq, Eq, Structural)]
pub enum DisconnectReason {
    Graceful,
    Timeout,
    ServerShutdown,
    CrashRecovery,
    TransportError,
}

impl DisconnectReason {
    pub open spec fn index(self) -> int {
        match self {
            DisconnectReason::Graceful => 0,
            DisconnectReason::Timeout => 1,
            DisconnectReason::ServerShutdown => 2,
            DisconnectReason::CrashRecovery => 3,
            DisconnectReason::TransportError => 4,
        }
    }

    pub open spec fn spec_label(self) -> Seq<char> {
        match self {
            DisconnectReason::Graceful => "graceful"@,
            DisconnectReason::Timeout => "timeout"@,
            DisconnectReason::ServerShutdown => "server_shutdown"@,
            DisconnectReason::CrashRecovery => "crash_recovery"@,
            DisconnectReason::TransportError => "transport_error"@,
        }
    }

    pub fn code(&self) -> (r: i64)
        ensures
            r == self.index(),
    {
        match self {
            DisconnectReason::Graceful => 0,
            DisconnectReason::Timeout => 1,
            DisconnectReason::ServerShutdown => 2,
            DisconnectReason::CrashRecovery => 3,
            DisconnectReason::TransportError => 4,
        }
    }

    /// The reason's name in snake case, as metrics label it.
    pub fn label(&self) -> (r: &'static str)
        ensures
            r@ == self.spec_label(),
    {
        proof {
            reveal_strlit("graceful");
            reveal_strlit("timeout");
            reveal_strlit("server_shutdown");
            reveal_strlit("crash_recovery");
            reveal_strlit("transport_error");
        }
        match self {
            DisconnectReason::Graceful => "graceful",
            DisconnectReason::Timeout => "timeout",
            DisconnectReason::ServerShutdown => "server_shutdown",
            DisconnectReason::CrashRecovery => "crash_recovery",
            DisconnectReason::TransportError => "transport_error",
        }
    }

    pub fn labels(&self) -> (r: Vec<(&'static str, &'static str)>)
        ensures
            r@.len() == 1,
            r@[0].0@ == "reason"@,
            r@[0].1@ == self.spec_label(),
    {
        proof {
            reveal_strlit("reason");
        }
        let mut r = Vec::new();
        r.push(("reason", self.label()));
        r
    }
}

/// What the reader observes on a session.
#[derive(Debug)]
pub enum ResponseEvent<T> {
    Connect,
    Heartbeat,
    Error(String),
    Disconnect(DisconnectReason),
    Data(T),
}

impl<T> ResponseEvent<T> {
    pub open spec fn spec_name(&self) -> Seq<char> {
        match self {
            ResponseEvent::Connect => "Connect"@,
            ResponseEvent::Heartbeat => "Heartbeat"@,
            ResponseEvent::Error(_) => "Error"@,
            ResponseEvent::Disconnect(_) => "Disconnect"@,
            ResponseEvent::Data(_) => "Data"@,
        }
    }

    /// The variant's name, as metrics label it.
    pub fn name(&self) -> (r: &'static str)
        ensures
            r@ == self.spec_name(),
    {
        proof {
            reveal_strlit("Connect");
            reveal_strlit("Heartbeat");
            reveal_strlit("Error");
            reveal_strlit("Disconnect");
            reveal_strlit("Data");
        }
        match self {
            ResponseEvent::Connect => "Connect",
            ResponseEvent::Heartbeat => "Heartbeat",
            ResponseEvent::Error(_) => "Error",
            ResponseEvent::Disconnect(_) => "Disconnect",
            ResponseEvent::Data(_) => "Data",
        }
    }

    /// Metric labels: the event's name, and for a disconnect its reason.
    pub fn labels(&self) -> (r: Vec<(&'static str, &'static str)>)
        ensures
            r@[0].0@ == "event"@,
            r@[0].1@ == self.spec_name(),
            (r@.len() == 2 && r@[1].0@ == "reason"@ && (self matches ResponseEvent::Disconnect(
                reason,
            ) && r@[1].1@ == reason.spec_label())) || (r@.len() == 1
                && !(self is Disconnect)),
    {
        proof {
            reveal_strlit("event");
        }
        let mut r = Vec::new();
        r.push(("event", self.name()));
        if let ResponseEvent::Disconnect(reason) = self {
            let mut more = reason.labels();
            r.append(&mut more);
        }
        r
    }
}

/// Who sent a stream: the writer's public identity as the transport saw
/// it (in its text form), and the claims it made about itself.
#[derive(Debug)]
pub struct Identity<T> {
    pub observed: String,
    pub assertion: T,
}

impl Identity<Claims> {
    pub open spec fn model(&self) -> (Seq<char>, ClaimsModel) {
        (self.observed@, self.assertion@)
    }

    pub fn duplicate(&self) -> (r: Identity<Claims>)
        ensures
            r.model() == self.model(),
    {
        Identity { observed: self.observed.clone(), assertion: self.assertion.clone() }
    }
}

/// One event of one session, as handed to the application.
#[derive(Debug)]
pub struct Response<Assertion, Body> {
    pub session_id: u128,
    pub identity: Identity<Assertion>,
    pub received_at: i64,
    pub event: ResponseEvent<Body>,
}

/// Options of the reader's sink: the depth of the channel between
/// sessions and the application.
#[derive(Debug, Clone, Copy)]
pub struct SinkOpts {
    pub buffer_size: usize,
}

impl Default for SinkOpts {
    fn default() -> (r: SinkOpts)
        ensures
            r.buffer_size == 10,
    {
        SinkOpts { buffer_size: 10 }
    }
}

/// Options of the writer side: the emitter channel's capacity, and the
/// driver's connect timeout and retry interval in milliseconds.
#[derive(Debug, Clone, Copy)]
pub struct EmitterOpts {
    pub buffer_size: usize,
    pub connect_timeout_ms: u64,
    pub retry_interval_ms: u64,
}

impl Default for EmitterOpts {
    fn default() -> (r: EmitterOpts)
        ensures
            r.buffer_size == 10_000,
            r.connect_timeout_ms == 5_000,
            r.retry_interval_ms == 10_000,
    {
        EmitterOpts { buffer_size: 10_000, connect_timeout_ms: 5_000, retry_interval_ms: 10_000 }
    }
}

} // verus!
