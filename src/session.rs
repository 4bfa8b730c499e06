//! The reader's session machine: one per accepted stream. It announces
//! the session, turns heartbeat ticks and decoded frames into events, and
//! ends with exactly one disconnect. Reading the stream and running the
//! heartbeat timer is the caller's part; it hands each outcome to `step`.
use vstd::prelude::*;

use crate::api::{Claims, Record};
use crate::codec::{next_frame, next_frame_at, parse_claims, parse_record, FrameRead};
use crate::sink::{DisconnectReason, Identity, Response, ResponseEvent};

verus! {

/// What the stream or the heartbeat timer produced.
#[derive(Debug)]
pub enum SessionInput<B> {
    /// The heartbeat interval elapsed.
    Tick,
    /// A payload frame was decoded.
    Frame(B),
    /// The stream ended cleanly between frames.
    End,
    /// Reading or decoding failed; the text says how.
    Failure(String),
}

/// Relies on `uuid::Uuid::new_v4`: a random version-4 UUID, as an integer.
#[verifier::external_body]
fn new_session_id() -> (r: u128) {
    uuid::Uuid::new_v4().as_u128()
}

pub struct Session<B> {
    id: u128,
    identity: Identity<Claims>,
    open: bool,
    last_received: i64,
    /// Every event emitted so far, in order.
    log: Ghost<Seq<ResponseEvent<B>>>,
}

pub open spec fn events_of<B>(rs: Seq<Response<Claims, B>>) -> Seq<ResponseEvent<B>> {
    rs.map_values(|r: Response<Claims, B>| r.event)
}

/// Every response belongs to the session, comes from its writer, and is
/// stamped no earlier than `since`, in nondecreasing order.
pub open spec fn stamped<B>(
    rs: Seq<Response<Claims, B>>,
    id: u128,
    identity: Identity<Claims>,
    since: i64,
) -> bool {
    &&& forall|i: int| 0 <= i < rs.len() ==> #[trigger] rs[i].session_id == id
    &&& forall|i: int| 0 <= i < rs.len() ==> (#[trigger] rs[i].identity).model() == identity.model()
    &&& forall|i: int| 0 <= i < rs.len() ==> since <= #[trigger] rs[i].received_at
    &&& forall|i: int, j: int| 0 <= i < j < rs.len() ==> rs[i].received_at <= rs[j].received_at
}

/// The shape of a session's events: a connect first and never again, and
/// a disconnect only as the last event, present exactly when `closed`.
pub open spec fn well_ordered<B>(log: Seq<ResponseEvent<B>>, closed: bool) -> bool {
    &&& log.len() >= 1
    &&& log[0] is Connect
    &&& forall|i: int| 0 < i < log.len() ==> !(#[trigger] log[i] is Connect)
    &&& forall|i: int| 0 <= i < log.len() - 1 ==> !(#[trigger] log[i] is Disconnect)
    &&& (closed <==> log.last() is Disconnect)
}

impl<B> Session<B> {
    /// Every event the session has emitted, in order.
    pub closed spec fn events(&self) -> Seq<ResponseEvent<B>> {
        self.log@
    }

    pub closed spec fn spec_id(&self) -> u128 {
        self.id
    }

    pub closed spec fn spec_identity(&self) -> Identity<Claims> {
        self.identity
    }

    pub closed spec fn spec_open(&self) -> bool {
        self.open
    }

    pub closed spec fn spec_last(&self) -> i64 {
        self.last_received
    }

    pub open spec fn wf(&self) -> bool {
        well_ordered(self.events(), !self.spec_open())
    }

    fn respond(&self, event: ResponseEvent<B>, at: i64) -> (r: Response<Claims, B>)
        ensures
            r.session_id == self.id,
            r.identity.model() == self.identity.model(),
            r.received_at == at,
            r.event == event,
    {
        Response { session_id: self.id, identity: self.identity.duplicate(), received_at: at, event }
    }

    /// Opens a session: the returned response is its `Connect`, stamped
    /// with `now`.
    pub fn start(id: u128, identity: Identity<Claims>, now: i64) -> (r: (
        Session<B>,
        Response<Claims, B>,
    ))
        ensures
            r.0.wf(),
            r.0.spec_open(),
            r.0.spec_id() == id,
            r.0.spec_identity() == identity,
            r.0.spec_last() == now,
            r.0.events() == seq![r.1.event],
            r.1.event is Connect,
            stamped(seq![r.1], id, identity, now),
    {
        let s = Session { id, identity, open: true, last_received: now, log: Ghost(Seq::empty()) };
        let connect = s.respond(ResponseEvent::Connect, now);
        let ghost first = seq![connect.event];
        let s = Session { log: Ghost(first), ..s };
        (s, connect)
    }

    /// Opens a session under a fresh random id.
    pub fn begin(identity: Identity<Claims>, now: i64) -> (r: (Session<B>, Response<Claims, B>))
        ensures
            r.0.wf(),
            r.0.spec_open(),
            r.0.spec_identity() == identity,
            r.0.spec_last() == now,
            r.0.events() == seq![r.1.event],
            r.1.event is Connect,
            stamped(seq![r.1], r.0.spec_id(), identity, now),
    {
        Session::start(new_session_id(), identity, now)
    }

    pub fn id(&self) -> (r: u128)
        ensures
            r == self.spec_id(),
    {
        self.id
    }

    pub fn is_open(&self) -> (r: bool)
        ensures
            r == self.spec_open(),
    {
        self.open
    }

    /// Handles one input of an open session, at reader time `now`. A tick
    /// gives a heartbeat and a frame its data; a clean end gives a graceful
    /// disconnect; a failure gives the error and then a transport-error
    /// disconnect. Responses are stamped with `now`, or with the session's
    /// last stamp if the clock went back.
    pub fn step(&mut self, input: SessionInput<B>, now: i64) -> (r: Vec<Response<Claims, B>>)
        requires
            old(self).wf(),
            old(self).spec_open(),
        ensures
            final(self).wf(),
            final(self).spec_id() == old(self).spec_id(),
            final(self).spec_identity() == old(self).spec_identity(),
            final(self).events() == old(self).events() + events_of(r@),
            stamped(r@, old(self).spec_id(), old(self).spec_identity(), old(self).spec_last()),
            final(self).spec_last() == if now > old(self).spec_last() {
                now
            } else {
                old(self).spec_last()
            },
            r@.len() > 0 ==> r@.last().received_at == final(self).spec_last(),
            match input {
                SessionInput::Tick => events_of(r@) == seq![ResponseEvent::<B>::Heartbeat]
                    && final(self).spec_open(),
                SessionInput::Frame(b) => events_of(r@) == seq![ResponseEvent::Data(b)]
                    && final(self).spec_open(),
                SessionInput::End => events_of(r@) == seq![
                    ResponseEvent::<B>::Disconnect(DisconnectReason::Graceful),
                ] && !final(self).spec_open(),
                SessionInput::Failure(e) => events_of(r@) == seq![
                    ResponseEvent::<B>::Error(e),
                    ResponseEvent::<B>::Disconnect(DisconnectReason::TransportError),
                ] && !final(self).spec_open(),
            },
    {
        let at = if now > self.last_received {
            now
        } else {
            self.last_received
        };
        self.last_received = at;
        let mut r: Vec<Response<Claims, B>> = Vec::new();
        match input {
            SessionInput::Tick => {
                r.push(self.respond(ResponseEvent::Heartbeat, at));
            },
            SessionInput::Frame(b) => {
                r.push(self.respond(ResponseEvent::Data(b), at));
            },
            SessionInput::End => {
                r.push(self.respond(ResponseEvent::Disconnect(DisconnectReason::Graceful), at));
                self.open = false;
            },
            SessionInput::Failure(e) => {
                r.push(self.respond(ResponseEvent::Error(e), at));
                r.push(
                    self.respond(ResponseEvent::Disconnect(DisconnectReason::TransportError), at),
                );
                self.open = false;
            },
        }
        let ghost before = self.log@;
        let ghost after = before + events_of(r@);
        self.log = Ghost(after);
        assert(events_of(r@).len() == r@.len());
        assert forall|i: int| 0 < i < self.log@.len() implies !(#[trigger] self.log@[i] is Connect) by {
            if i >= before.len() {
                assert(self.log@[i] == r@[i - before.len()].event);
            }
        }
        assert forall|i: int| 0 <= i < self.log@.len() - 1 implies !(
        #[trigger] self.log@[i] is Disconnect) by {
            if i >= before.len() {
                assert(self.log@[i] == r@[i - before.len()].event);
            }
        }
        r
    }
}

/// A session that has ended began with its connect, ended with its
/// disconnect, and had neither in between.
pub proof fn lemma_session_trace<B>(s: Session<B>)
    requires
        s.wf(),
        !s.spec_open(),
    ensures
        s.events()[0] is Connect,
        s.events().last() is Disconnect,
        forall|i: int| 0 < i < s.events().len() - 1 ==> !(#[trigger] s.events()[i] is Connect) && !(
        s.events()[i] is Disconnect),
        s.events().len() >= 2,
{
}

/// Why a stream's handshake could not be read.
#[derive(Debug, Clone, Copy, PartialEq, Eq, Structural)]
pub enum HandshakeError {
    /// The stream ended before a complete handshake frame header.
    Missing,
    /// The handshake frame was cut short or does not decode as claims.
    Malformed,
}

/// Reads the handshake frame at the start of a stream's bytes: the
/// writer's claims, and the position after the frame.
pub fn read_handshake(buf: &[u8]) -> (r: Result<(Claims, usize), HandshakeError>)
    ensures
        r == Err::<(Claims, usize), HandshakeError>(HandshakeError::Missing) <==> next_frame_at(buf@, 0) is End,
        r matches Ok((c, end)) ==> match next_frame_at(buf@, 0) {
            FrameRead::Frame { start, end: e } => end == e && match parse_claims(
                buf@.subrange(start as int, e as int),
            ) {
                Some((m, _)) => c@ == m,
                None => false,
            },
            _ => false,
        },
        r matches Err(HandshakeError::Malformed) ==> (next_frame_at(buf@, 0) is Truncated || (
        next_frame_at(buf@, 0) matches FrameRead::Frame { start, end }
            && parse_claims(buf@.subrange(start as int, end as int)) is None)),
{
    match next_frame(buf, 0) {
        FrameRead::End => Err(HandshakeError::Missing),
        FrameRead::Truncated => Err(HandshakeError::Malformed),
        FrameRead::Frame { start, end } => match Claims::decode(&buf[start..end]) {
            Ok(c) => Ok((c, end)),
            Err(_) => Err(HandshakeError::Malformed),
        },
    }
}

/// The session input that the bytes at `pos` give, and the position after
/// them: a clean end, a decoded record, or a failure for a cut-short frame
/// or one that does not decode.
pub fn next_input(buf: &[u8], pos: usize) -> (r: (SessionInput<Record>, usize))
    requires
        pos <= buf@.len(),
    ensures
        pos <= r.1 <= buf@.len(),
        r.0 is End <==> next_frame_at(buf@, pos as int) is End,
        r.0 matches SessionInput::Frame(x) ==> match next_frame_at(buf@, pos as int) {
            FrameRead::Frame { start, end } => r.1 == end && match parse_record(
                buf@.subrange(start as int, end as int),
            ) {
                Some((m, _)) => x@ == m,
                None => false,
            },
            _ => false,
        },
        r.0 is Failure ==> next_frame_at(buf@, pos as int) is Truncated || (next_frame_at(
            buf@,
            pos as int,
        ) matches FrameRead::Frame { start, end } && parse_record(
            buf@.subrange(start as int, end as int),
        ) is None),
        !(r.0 is Tick),
{
    match next_frame(buf, pos) {
        FrameRead::End => (SessionInput::End, pos),
        FrameRead::Truncated => (SessionInput::Failure("frame cut short".to_string()), buf.len()),
        FrameRead::Frame { start, end } => match Record::decode(&buf[start..end]) {
            Ok(x) => (SessionInput::Frame(x), end),
            Err(_) => (SessionInput::Failure("frame does not decode".to_string()), end),
        },
    }
}

} // verus!
