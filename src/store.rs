//! The record store: identities, sessions and records, kept in the order
//! identity, session, record for every event. Rows live in memory here; the
//! parameter structs are what a SQL backend binds for the same statements.
use vstd::prelude::*;

use crate::api::{opt_seq, clone_opt_string, Claims, ClaimsModel, Record};
use crate::sink::{DisconnectReason, Identity, Response, ResponseEvent};

verus! {

/// The natural key of an identity row: everything but its surrogate key and
/// display name. A missing value matches only a missing value.
pub struct IdentityKey {
    pub writer_id: Seq<char>,
    pub pid: Option<i64>,
    pub process_name: Option<Seq<char>>,
    pub hostname: Seq<char>,
    pub start_ms: Option<i64>,
}

/// The key that a stream's claims give, for the writer seen as `writer`.
pub open spec fn claims_key(writer: Seq<char>, c: ClaimsModel) -> IdentityKey {
    IdentityKey {
        writer_id: writer,
        pid: match c.source {
            Some(p) => Some(p.pid as i64),
            None => None,
        },
        process_name: match c.source {
            Some(p) => Some(p.name),
            None => None,
        },
        hostname: c.hostname,
        start_ms: match c.source {
            Some(p) => Some(p.start as i64),
            None => None,
        },
    }
}

pub struct IdentityRow {
    pub pk: i64,
    pub writer_id: String,
    pub display_name: Option<String>,
    pub pid: Option<i64>,
    pub process_name: Option<String>,
    pub hostname: String,
    pub start_ms: Option<i64>,
}

pub struct IdentityRowModel {
    pub pk: i64,
    pub key: IdentityKey,
    pub display_name: Option<Seq<char>>,
}

impl View for IdentityRow {
    type V = IdentityRowModel;

    open spec fn view(&self) -> IdentityRowModel {
        IdentityRowModel {
            pk: self.pk,
            key: IdentityKey {
                writer_id: self.writer_id@,
                pid: self.pid,
                process_name: opt_seq(self.process_name),
                hostname: self.hostname@,
                start_ms: self.start_ms,
            },
            display_name: opt_seq(self.display_name),
        }
    }
}

/// Values bound to the identity insert.
pub struct IdentityInsertParams {
    pub writer_id: String,
    pub display_name: Option<String>,
    pub pid: Option<i64>,
    pub process_name: Option<String>,
    pub hostname: String,
    pub start_ms: Option<i64>,
}

impl IdentityInsertParams {
    pub open spec fn key(&self) -> IdentityKey {
        IdentityKey {
            writer_id: self.writer_id@,
            pid: self.pid,
            process_name: opt_seq(self.process_name),
            hostname: self.hostname@,
            start_ms: self.start_ms,
        }
    }

    /// The identity insert's values for a stream of `identity`, whose writer
    /// the transport knows as `writer_id`.
    pub fn from_identity(writer_id: &str, identity: &Identity<Claims>) -> (r: IdentityInsertParams)
        ensures
            r.key() == claims_key(writer_id@, identity.assertion@),
            opt_seq(r.display_name) == identity.assertion@.display_name,
    {
        let c = &identity.assertion;
        let (pid, process_name, start_ms) = match &c.source {
            Some(p) => (Some(p.pid as i64), Some(p.name.clone()), Some(p.start as i64)),
            None => (None, None, None),
        };
        IdentityInsertParams {
            writer_id: writer_id.to_string(),
            display_name: clone_opt_string(&c.display_name),
            pid,
            process_name,
            hostname: c.hostname.clone(),
            start_ms,
        }
    }
}

/// Values bound to the identity lookup.
pub struct IdentitySelectParams {
    pub writer_id: String,
    pub pid: Option<i64>,
    pub process_name: Option<String>,
    pub hostname: String,
    pub start_ms: Option<i64>,
}

impl IdentitySelectParams {
    pub open spec fn key(&self) -> IdentityKey {
        IdentityKey {
            writer_id: self.writer_id@,
            pid: self.pid,
            process_name: opt_seq(self.process_name),
            hostname: self.hostname@,
            start_ms: self.start_ms,
        }
    }

    pub fn from_identity(writer_id: &str, identity: &Identity<Claims>) -> (r: IdentitySelectParams)
        ensures
            r.key() == claims_key(writer_id@, identity.assertion@),
    {
        let c = &identity.assertion;
        let (pid, process_name, start_ms) = match &c.source {
            Some(p) => (Some(p.pid as i64), Some(p.name.clone()), Some(p.start as i64)),
            None => (None, None, None),
        };
        IdentitySelectParams {
            writer_id: writer_id.to_string(),
            pid,
            process_name,
            hostname: c.hostname.clone(),
            start_ms,
        }
    }
}

/// Values bound to the record insert.
pub struct InsertRecordParams {
    pub identity_pk: i64,
    pub kind: i64,
    pub ts_ms: i64,
    pub received_ms: i64,
    pub span_id: Option<i64>,
    pub parent_id: Option<i64>,
    pub source: Option<String>,
    pub level: Option<i64>,
    pub message: String,
    pub fields_json: String,
}

pub struct RecordRowModel {
    pub id: i64,
    pub identity_pk: i64,
    pub kind: i64,
    pub ts_ms: i64,
    pub received_ms: i64,
    pub span_id: Option<i64>,
    pub parent_id: Option<i64>,
    pub source: Option<Seq<char>>,
    pub level: Option<i64>,
    pub message: Seq<char>,
    pub fields_json: Seq<char>,
}

/// The row that a record gives, under identity `pk`, received at `at`.
pub open spec fn record_row(id: i64, pk: i64, at: i64, r: crate::api::RecordModel) -> RecordRowModel {
    RecordRowModel {
        id,
        identity_pk: pk,
        kind: r.kind.index() as i64,
        ts_ms: r.timestamp,
        received_ms: at,
        span_id: match r.trace {
            Some(t) => match t.span {
                Some(s) => Some(s as i64),
                None => None,
            },
            None => None,
        },
        parent_id: match r.trace {
            Some(t) => match t.parent {
                Some(s) => Some(s as i64),
                None => None,
            },
            None => None,
        },
        source: r.source,
        level: match r.level {
            Some(l) => Some(l.index() as i64),
            None => None,
        },
        message: r.message,
        fields_json: r.fields,
    }
}

impl InsertRecordParams {
    /// The record insert's values for `body`, under identity `identity_pk`,
    /// received at `received_ms`.
    pub fn from_record(identity_pk: i64, received_ms: i64, body: &Record) -> (r: InsertRecordParams)
        ensures
            forall|id: i64| #[trigger] r.row(id) == record_row(id, identity_pk, received_ms, body@),
    {
        let (span_id, parent_id) = match body.trace {
            Some(t) => (
                match t.span {
                    Some(s) => Some(s as i64),
                    None => None,
                },
                match t.parent {
                    Some(s) => Some(s as i64),
                    None => None,
                },
            ),
            None => (None, None),
        };
        InsertRecordParams {
            identity_pk,
            kind: body.kind.code() as i64,
            ts_ms: body.timestamp,
            received_ms,
            span_id,
            parent_id,
            source: clone_opt_string(&body.source),
            level: match body.level {
                Some(l) => Some(l.code() as i64),
                None => None,
            },
            message: body.message.clone(),
            fields_json: body.fields.clone(),
        }
    }

    pub open spec fn row(&self, id: i64) -> RecordRowModel {
        RecordRowModel {
            id,
            identity_pk: self.identity_pk,
            kind: self.kind,
            ts_ms: self.ts_ms,
            received_ms: self.received_ms,
            span_id: self.span_id,
            parent_id: self.parent_id,
            source: opt_seq(self.source),
            level: self.level,
            message: self.message@,
            fields_json: self.fields_json@,
        }
    }
}

pub struct RecordRow {
    pub id: i64,
    pub params: InsertRecordParams,
}

impl View for RecordRow {
    type V = RecordRowModel;

    open spec fn view(&self) -> RecordRowModel {
        self.params.row(self.id)
    }
}

/// A session row. `disconnected_at` is absent while the session is
/// believed open.
#[derive(Debug, Clone, Copy, PartialEq, Eq, Structural)]
pub struct SessionRow {
    pub session_id: u128,
    pub identity_pk: i64,
    pub connected_at: i64,
    pub last_seen_at: i64,
    pub disconnected_at: Option<i64>,
    pub reason: Option<i64>,
}

/// Why the store refused a write.
#[derive(Debug, Clone, Copy, PartialEq, Eq, Structural)]
pub enum StoreError {
    /// No surrogate key is left for a new row.
    Full,
}

pub struct StoreModel {
    pub identities: Seq<IdentityRowModel>,
    pub sessions: Seq<SessionRow>,
    pub records: Seq<RecordRowModel>,
}

pub struct Store {
    identities: Vec<IdentityRow>,
    sessions: Vec<SessionRow>,
    records: Vec<RecordRow>,
    next_record_id: i64,
}

pub open spec fn has_key(ids: Seq<IdentityRowModel>, key: IdentityKey) -> bool {
    exists|i: int| 0 <= i < ids.len() && (#[trigger] ids[i]).key == key
}

pub open spec fn has_session(ss: Seq<SessionRow>, id: u128) -> bool {
    exists|i: int| 0 <= i < ss.len() && (#[trigger] ss[i]).session_id == id
}

pub open spec fn pk_valid(ids: Seq<IdentityRowModel>, pk: i64) -> bool {
    1 <= pk <= ids.len()
}

/// The identity rows after an insert-or-ignore of `key`.
pub open spec fn identity_inserted(
    before: Seq<IdentityRowModel>,
    after: Seq<IdentityRowModel>,
    key: IdentityKey,
    display_name: Option<Seq<char>>,
) -> bool {
    if has_key(before, key) {
        after == before
    } else {
        after == before.push(
            IdentityRowModel { pk: (before.len() + 1) as i64, key, display_name },
        )
    }
}

/// A session row updated by a later event: its last sighting moves
/// forward, and a disconnect, once set, stays.
pub open spec fn session_touched(
    row: SessionRow,
    at: i64,
    disconnect: Option<(i64, i64)>,
) -> SessionRow {
    SessionRow {
        last_seen_at: if at > row.last_seen_at {
            at
        } else {
            row.last_seen_at
        },
        disconnected_at: match disconnect {
            Some((d, _)) => Some(d),
            None => row.disconnected_at,
        },
        reason: match disconnect {
            Some((_, r)) => Some(r),
            None => row.reason,
        },
        ..row
    }
}

/// The session rows after an upsert on `id`.
pub open spec fn session_upserted(
    before: Seq<SessionRow>,
    after: Seq<SessionRow>,
    id: u128,
    pk: i64,
    at: i64,
    disconnect: Option<(i64, i64)>,
) -> bool {
    if has_session(before, id) {
        exists|i: int|
            0 <= i < before.len() && (#[trigger] before[i]).session_id == id && after
                == before.update(i, session_touched(before[i], at, disconnect))
    } else {
        after == before.push(
            SessionRow {
                session_id: id,
                identity_pk: pk,
                connected_at: at,
                last_seen_at: at,
                disconnected_at: match disconnect {
                    Some((d, _)) => Some(d),
                    None => None,
                },
                reason: match disconnect {
                    Some((_, r)) => Some(r),
                    None => None,
                },
            },
        )
    }
}

/// What the disconnect columns receive for an event.
pub open spec fn disconnect_of<B>(e: ResponseEvent<B>, at: i64) -> Option<(i64, i64)> {
    match e {
        ResponseEvent::Disconnect(r) => Some((at, r.index() as i64)),
        _ => None,
    }
}

/// The row's natural key, and its uniqueness.
pub open spec fn identities_wf(ids: Seq<IdentityRowModel>) -> bool {
    &&& forall|i: int| 0 <= i < ids.len() ==> (#[trigger] ids[i]).pk == i + 1
    &&& forall|i: int, j: int|
        0 <= i < j < ids.len() ==> (#[trigger] ids[i]).key != (#[trigger] ids[j]).key
}

impl Store {
    pub closed spec fn spec_view(&self) -> StoreModel {
        StoreModel {
            identities: self.identities@.map_values(|r: IdentityRow| r@),
            sessions: self.sessions@,
            records: self.records@.map_values(|r: RecordRow| r@),
        }
    }

    /// Identity keys are unique and numbered from 1; session ids are
    /// unique; every session and record refers to an existing identity.
    pub open spec fn wf(&self) -> bool {
        let m = self.spec_view();
        &&& identities_wf(m.identities)
        &&& forall|i: int, j: int|
            0 <= i < j < m.sessions.len() ==> (#[trigger] m.sessions[i]).session_id != (
            #[trigger] m.sessions[j]).session_id
        &&& forall|i: int|
            0 <= i < m.sessions.len() ==> pk_valid(m.identities, (#[trigger] m.sessions[i]).identity_pk)
        &&& forall|i: int|
            0 <= i < m.records.len() ==> pk_valid(m.identities, (#[trigger] m.records[i]).identity_pk)
    }

    pub fn new() -> (r: Store)
        ensures
            r.wf(),
            r.spec_view().identities.len() == 0,
            r.spec_view().sessions.len() == 0,
            r.spec_view().records.len() == 0,
    {
        let r = Store {
            identities: Vec::new(),
            sessions: Vec::new(),
            records: Vec::new(),
            next_record_id: 1,
        };
        assert(r.spec_view().identities =~= Seq::empty());
        assert(r.spec_view().records =~= Seq::empty());
        r
    }
}


fn opt_str_eq(a: &Option<String>, b: &Option<String>) -> (r: bool)
    ensures
        r == (opt_seq(*a) == opt_seq(*b)),
{
    match (a, b) {
        (Some(x), Some(y)) => x.eq(y),
        (None, None) => true,
        _ => false,
    }
}

fn opt_i64_eq(a: Option<i64>, b: Option<i64>) -> (r: bool)
    ensures
        r == (a == b),
{
    match (a, b) {
        (Some(x), Some(y)) => x == y,
        (None, None) => true,
        _ => false,
    }
}

impl IdentityRow {
    fn matches(&self, p: &IdentitySelectParams) -> (r: bool)
        ensures
            r == (self@.key == p.key()),
    {
        self.writer_id == p.writer_id && opt_i64_eq(self.pid, p.pid) && opt_str_eq(
            &self.process_name,
            &p.process_name,
        ) && self.hostname == p.hostname && opt_i64_eq(self.start_ms, p.start_ms)
    }
}

impl Store {
    pub closed spec fn spec_next_record_id(&self) -> i64 {
        self.next_record_id
    }

    fn find_identity(&self, p: &IdentitySelectParams) -> (r: Option<usize>)
        ensures
            r matches Some(i) ==> i < self.spec_view().identities.len()
                && self.spec_view().identities[i as int].key == p.key(),
            r is None <==> !has_key(self.spec_view().identities, p.key()),
    {
        let ghost ids = self.spec_view().identities;
        let mut i: usize = 0;
        while i < self.identities.len()
            invariant
                i <= self.identities@.len(),
                ids == self.spec_view().identities,
                forall|j: int| 0 <= j < i ==> (#[trigger] ids[j]).key != p.key(),
            decreases self.identities@.len() - i,
        {
            if self.identities[i].matches(p) {
                return Some(i);
            }
            i = i + 1;
        }
        None
    }

    /// The surrogate key of the identity whose natural key the parameters
    /// give, if there is one.
    pub fn identity_pk(&self, p: &IdentitySelectParams) -> (r: Option<i64>)
        requires
            self.wf(),
        ensures
            r is None <==> !has_key(self.spec_view().identities, p.key()),
            r matches Some(pk) ==> pk_valid(self.spec_view().identities, pk)
                && self.spec_view().identities[pk - 1].key == p.key(),
    {
        match self.find_identity(p) {
            Some(i) => Some(self.identities[i].pk),
            None => None,
        }
    }

    /// Inserts an identity row unless one with the same natural key is
    /// there already; the display name does not take part in the key.
    pub fn insert_identity(&mut self, p: IdentityInsertParams) -> (r: Result<(), StoreError>)
        requires
            old(self).wf(),
        ensures
            final(self).wf(),
            final(self).spec_view().sessions == old(self).spec_view().sessions,
            final(self).spec_view().records == old(self).spec_view().records,
            final(self).spec_next_record_id() == old(self).spec_next_record_id(),
            r is Err ==> final(self).spec_view() == old(self).spec_view(),
            r is Err <==> !has_key(old(self).spec_view().identities, p.key())
                && old(self).spec_view().identities.len() >= i64::MAX - 1,
            r is Ok ==> identity_inserted(
                old(self).spec_view().identities,
                final(self).spec_view().identities,
                p.key(),
                opt_seq(p.display_name),
            ),
    {
        let q = IdentitySelectParams {
            writer_id: p.writer_id.clone(),
            pid: p.pid,
            process_name: clone_opt_string(&p.process_name),
            hostname: p.hostname.clone(),
            start_ms: p.start_ms,
        };
        assert(q.key() == p.key());
        if self.find_identity(&q).is_some() {
            return Ok(());
        }
        if self.identities.len() as u64 >= (i64::MAX - 1) as u64 {
            return Err(StoreError::Full);
        }
        let ghost before = self.spec_view();
        let row = IdentityRow {
            pk: (self.identities.len() as u64 + 1) as i64,
            writer_id: p.writer_id,
            display_name: p.display_name,
            pid: p.pid,
            process_name: p.process_name,
            hostname: p.hostname,
            start_ms: p.start_ms,
        };
        self.identities.push(row);
        let ghost after = self.spec_view();
        assert(after.identities =~= before.identities.push(row@));
        assert(after.sessions == before.sessions);
        assert(after.records =~= before.records);
        assert forall|i: int, j: int|
            0 <= i < j < after.identities.len() implies (#[trigger] after.identities[i]).key != (
            #[trigger] after.identities[j]).key by {
            if j == after.identities.len() - 1 {
                assert(before.identities[i] == after.identities[i]);
            }
        }
        Ok(())
    }

    /// Inserts a session row, or updates the one with the same id: its last
    /// sighting moves forward to `received_at`, and `disconnect` (time and
    /// reason) is written when given, never cleared.
    pub fn upsert_session(
        &mut self,
        session_id: u128,
        identity_pk: i64,
        received_at: i64,
        disconnect: Option<(i64, i64)>,
    )
        requires
            old(self).wf(),
            pk_valid(old(self).spec_view().identities, identity_pk),
        ensures
            final(self).wf(),
            final(self).spec_view().identities == old(self).spec_view().identities,
            final(self).spec_view().records == old(self).spec_view().records,
            final(self).spec_next_record_id() == old(self).spec_next_record_id(),
            session_upserted(
                old(self).spec_view().sessions,
                final(self).spec_view().sessions,
                session_id,
                identity_pk,
                received_at,
                disconnect,
            ),
    {
        let ghost before = self.spec_view();
        let mut i: usize = 0;
        while i < self.sessions.len()
            invariant
                i <= self.sessions@.len(),
                self.spec_view() == before,
                before == old(self).spec_view(),
                self.next_record_id == old(self).next_record_id,
                pk_valid(before.identities, identity_pk),
                self.wf(),
                forall|j: int| 0 <= j < i ==> (#[trigger] before.sessions[j]).session_id != session_id,
            decreases self.sessions@.len() - i,
        {
            if self.sessions[i].session_id == session_id {
                let row = self.sessions[i];
                let last = if received_at > row.last_seen_at {
                    received_at
                } else {
                    row.last_seen_at
                };
                let updated = match disconnect {
                    Some((d, reason)) => SessionRow {
                        last_seen_at: last,
                        disconnected_at: Some(d),
                        reason: Some(reason),
                        ..row
                    },
                    None => SessionRow { last_seen_at: last, ..row },
                };
                self.sessions.set(i, updated);
                let ghost after = self.spec_view();
                assert(updated == session_touched(before.sessions[i as int], received_at, disconnect));
                assert(after.sessions =~= before.sessions.update(i as int, updated));
                assert(after.identities =~= before.identities);
                assert(after.records =~= before.records);
                assert forall|a: int, b: int|
                    0 <= a < b < after.sessions.len() implies (#[trigger] after.sessions[a]).session_id
                    != (#[trigger] after.sessions[b]).session_id by {
                    assert(after.sessions[a].session_id == before.sessions[a].session_id);
                    assert(after.sessions[b].session_id == before.sessions[b].session_id);
                }
                return;
            }
            i = i + 1;
        }
        let (disconnected_at, reason) = match disconnect {
            Some((d, r)) => (Some(d), Some(r)),
            None => (None, None),
        };
        self.sessions.push(
            SessionRow {
                session_id,
                identity_pk,
                connected_at: received_at,
                last_seen_at: received_at,
                disconnected_at,
                reason,
            },
        );
        let ghost after = self.spec_view();
        assert(after.identities =~= before.identities);
        assert(after.records =~= before.records);
    }

    /// Appends a record row under the next record id, which it returns.
    pub fn insert_record(&mut self, p: InsertRecordParams) -> (r: Result<i64, StoreError>)
        requires
            old(self).wf(),
            pk_valid(old(self).spec_view().identities, p.identity_pk),
        ensures
            final(self).wf(),
            final(self).spec_view().identities == old(self).spec_view().identities,
            final(self).spec_view().sessions == old(self).spec_view().sessions,
            r is Err <==> old(self).spec_next_record_id() == i64::MAX,
            r is Err ==> final(self).spec_view() == old(self).spec_view(),
            r matches Ok(id) ==> id == old(self).spec_next_record_id()
                && final(self).spec_view().records == old(self).spec_view().records.push(p.row(id)),
    {
        if self.next_record_id == i64::MAX {
            return Err(StoreError::Full);
        }
        let id = self.next_record_id;
        let ghost before = self.spec_view();
        let row = RecordRow { id, params: p };
        self.records.push(row);
        self.next_record_id = id + 1;
        let ghost after = self.spec_view();
        assert(after.records =~= before.records.push(row@));
        assert(after.identities == before.identities);
        Ok(id)
    }
}


/// How many sessions are still believed open.
pub open spec fn open_count(ss: Seq<SessionRow>) -> nat
    decreases ss.len(),
{
    if ss.len() == 0 {
        0
    } else {
        open_count(ss.drop_last()) + if ss.last().disconnected_at is None {
            1nat
        } else {
            0nat
        }
    }
}

/// A session row as startup recovery leaves it: one still open is closed
/// at its last sighting, for a server shutdown.
pub open spec fn recovered(row: SessionRow) -> SessionRow {
    if row.disconnected_at is None {
        SessionRow {
            disconnected_at: Some(row.last_seen_at),
            reason: Some(DisconnectReason::ServerShutdown.index() as i64),
            ..row
        }
    } else {
        row
    }
}

/// The records that a sweep with this cutoff keeps, in order.
pub open spec fn kept(rs: Seq<RecordRowModel>, cutoff: i64) -> Seq<RecordRowModel>
    decreases rs.len(),
{
    if rs.len() == 0 {
        rs
    } else if rs.last().ts_ms >= cutoff {
        kept(rs.drop_last(), cutoff).push(rs.last())
    } else {
        kept(rs.drop_last(), cutoff)
    }
}

pub proof fn lemma_kept_refs(rs: Seq<RecordRowModel>, cutoff: i64, ids: Seq<IdentityRowModel>)
    requires
        forall|i: int| 0 <= i < rs.len() ==> pk_valid(ids, (#[trigger] rs[i]).identity_pk),
    ensures
        forall|i: int|
            0 <= i < kept(rs, cutoff).len() ==> pk_valid(ids, (#[trigger] kept(rs, cutoff)[i]).identity_pk),
        kept(rs, cutoff).len() <= rs.len(),
        forall|i: int| 0 <= i < kept(rs, cutoff).len() ==> (#[trigger] kept(rs, cutoff)[i]).ts_ms >= cutoff,
    decreases rs.len(),
{
    if rs.len() > 0 {
        let p = rs.drop_last();
        assert forall|i: int| 0 <= i < p.len() implies pk_valid(ids, (#[trigger] p[i]).identity_pk) by {
            assert(p[i] == rs[i]);
        }
        lemma_kept_refs(p, cutoff, ids);
    }
}

impl RecordRow {
    pub fn duplicate(&self) -> (r: RecordRow)
        ensures
            r@ == self@,
    {
        RecordRow {
            id: self.id,
            params: InsertRecordParams {
                identity_pk: self.params.identity_pk,
                kind: self.params.kind,
                ts_ms: self.params.ts_ms,
                received_ms: self.params.received_ms,
                span_id: self.params.span_id,
                parent_id: self.params.parent_id,
                source: clone_opt_string(&self.params.source),
                level: self.params.level,
                message: self.params.message.clone(),
                fields_json: self.params.fields_json.clone(),
            },
        }
    }
}

/// The retention sweep's cutoff: `now_ms - retention_ms`, or the smallest
/// time there is if that lies further back.
pub fn retention_cutoff(now_ms: i64, retention_ms: i64) -> (r: i64)
    requires
        retention_ms >= 0,
    ensures
        r == if now_ms - retention_ms >= i64::MIN {
            now_ms - retention_ms
        } else {
            i64::MIN as int
        },
{
    if now_ms >= i64::MIN + retention_ms {
        now_ms - retention_ms
    } else {
        i64::MIN
    }
}

impl Store {
    pub fn identities(&self) -> (r: &[IdentityRow])
        ensures
            r@.map_values(|x: IdentityRow| x@) == self.spec_view().identities,
    {
        self.identities.as_slice()
    }

    pub fn sessions(&self) -> (r: &[SessionRow])
        ensures
            r@ == self.spec_view().sessions,
    {
        self.sessions.as_slice()
    }

    pub fn records(&self) -> (r: &[RecordRow])
        ensures
            r@.map_values(|x: RecordRow| x@) == self.spec_view().records,
    {
        self.records.as_slice()
    }

    /// Persists one event of a session, in the order identity, session,
    /// record: the writer's identity is inserted unless known, the session
    /// row is created or touched under that identity, and the data of a
    /// `Data` event becomes a record row under that same identity.
    pub fn insert(&mut self, resp: &Response<Claims, Record>) -> (r: Result<(), StoreError>)
        requires
            old(self).wf(),
        ensures
            final(self).wf(),
            r is Err <==> (!has_key(
                old(self).spec_view().identities,
                claims_key(resp.identity.observed@, resp.identity.assertion@),
            ) && old(self).spec_view().identities.len() >= i64::MAX - 1) || (
            resp.event is Data && old(self).spec_next_record_id() == i64::MAX),
            r is Ok ==> identity_inserted(
                old(self).spec_view().identities,
                final(self).spec_view().identities,
                claims_key(resp.identity.observed@, resp.identity.assertion@),
                resp.identity.assertion@.display_name,
            ),
            r is Ok ==> exists|pk: i64|
                {
                    &&& pk_valid(final(self).spec_view().identities, pk)
                    &&& (#[trigger] final(self).spec_view().identities[pk - 1]).key == claims_key(
                        resp.identity.observed@,
                        resp.identity.assertion@,
                    )
                    &&& session_upserted(
                        old(self).spec_view().sessions,
                        final(self).spec_view().sessions,
                        resp.session_id,
                        pk,
                        resp.received_at,
                        disconnect_of(resp.event, resp.received_at),
                    )
                    &&& match resp.event {
                        ResponseEvent::Data(b) => final(self).spec_view().records == old(self).spec_view().records.push(
                            record_row(old(self).spec_next_record_id(), pk, resp.received_at, b@),
                        ),
                        _ => final(self).spec_view().records == old(self).spec_view().records,
                    }
                },
    {
        let writer = resp.identity.observed.as_str();
        let ghost key = claims_key(resp.identity.observed@, resp.identity.assertion@);
        let params = IdentityInsertParams::from_identity(writer, &resp.identity);
        if let Err(e) = self.insert_identity(params) {
            return Err(e);
        }
        let ghost ids = self.spec_view().identities;
        proof {
            if !has_key(old(self).spec_view().identities, key) {
                assert(ids.last().key == key);
                assert(has_key(ids, key));
            }
        }
        let select = IdentitySelectParams::from_identity(writer, &resp.identity);
        let pk = match self.identity_pk(&select) {
            Some(pk) => pk,
            None => return Err(StoreError::Full),
        };
        let at = resp.received_at;
        let disconnect = match &resp.event {
            ResponseEvent::Disconnect(reason) => Some((at, reason.code())),
            _ => None,
        };
        self.upsert_session(resp.session_id, pk, at, disconnect);
        if let ResponseEvent::Data(body) = &resp.event {
            let params = InsertRecordParams::from_record(pk, at, body);
            assert(params.row(0).identity_pk == pk);
            if let Err(e) = self.insert_record(params) {
                return Err(e);
            }
        }
        assert(self.spec_view().identities[pk - 1].key == key);
        Ok(())
    }

    /// Startup recovery: every session still believed open is closed at its
    /// last sighting, for a server shutdown. Returns how many were closed.
    pub fn close_open_sessions(&mut self) -> (r: u64)
        requires
            old(self).wf(),
        ensures
            final(self).wf(),
            final(self).spec_view().identities == old(self).spec_view().identities,
            final(self).spec_view().records == old(self).spec_view().records,
            final(self).spec_view().sessions == old(self).spec_view().sessions.map_values(
                |row: SessionRow| recovered(row),
            ),
            forall|i: int|
                0 <= i < final(self).spec_view().sessions.len() ==> (
                #[trigger] final(self).spec_view().sessions[i]).disconnected_at is Some,
            r == open_count(old(self).spec_view().sessions),
    {
        let ghost before = self.spec_view();
        let mut count: u64 = 0;
        let mut i: usize = 0;
        while i < self.sessions.len()
            invariant
                before == old(self).spec_view(),
                i <= self.sessions@.len(),
                self.sessions@.len() == before.sessions.len(),
                self.spec_view().identities == before.identities,
                self.spec_view().records == before.records,
                forall|j: int| 0 <= j < i ==> #[trigger] self.sessions@[j] == recovered(before.sessions[j]),
                forall|j: int| i <= j < self.sessions@.len() ==> #[trigger] self.sessions@[j] == before.sessions[j],
                count == open_count(before.sessions.take(i as int)),
                count <= i,
            decreases self.sessions@.len() - i,
        {
            let row = self.sessions[i];
            assert(before.sessions.take(i + 1 as int).drop_last() =~= before.sessions.take(i as int));
            if row.disconnected_at.is_none() {
                self.sessions.set(
                    i,
                    SessionRow {
                        disconnected_at: Some(row.last_seen_at),
                        reason: Some(DisconnectReason::ServerShutdown.code()),
                        ..row
                    },
                );
                count = count + 1;
            }
            i = i + 1;
        }
        let ghost after = self.spec_view();
        assert(after.sessions =~= before.sessions.map_values(|row: SessionRow| recovered(row)));
        assert(before.sessions.take(i as int) =~= before.sessions);
        assert(after.identities =~= before.identities);
        assert(after.records =~= before.records);
        count
    }

    /// The retention sweep: deletes every record with `ts_ms < cutoff` and
    /// returns how many went. Identities and sessions are left alone.
    pub fn delete_records_before(&mut self, cutoff: i64) -> (r: u64)
        requires
            old(self).wf(),
        ensures
            final(self).wf(),
            final(self).spec_view().identities == old(self).spec_view().identities,
            final(self).spec_view().sessions == old(self).spec_view().sessions,
            final(self).spec_view().records == kept(old(self).spec_view().records, cutoff),
            r == old(self).spec_view().records.len() - kept(old(self).spec_view().records, cutoff).len(),
    {
        let ghost before = self.spec_view();
        let mut out: Vec<RecordRow> = Vec::new();
        let mut i: usize = 0;
        while i < self.records.len()
            invariant
                i <= self.records@.len(),
                self.spec_view() == before,
                out@.map_values(|x: RecordRow| x@) == kept(before.records.take(i as int), cutoff),
            decreases self.records@.len() - i,
        {
            assert(before.records.take(i + 1 as int).drop_last() =~= before.records.take(i as int));
            if self.records[i].params.ts_ms >= cutoff {
                let row = self.records[i].duplicate();
                out.push(row);
            }
            assert(out@.map_values(|x: RecordRow| x@) =~= kept(before.records.take(i + 1 as int), cutoff));
            i = i + 1;
        }
        assert(before.records.take(i as int) =~= before.records);
        proof {
            lemma_kept_refs(before.records, cutoff, before.identities);
        }
        assert(out@.len() == out@.map_values(|x: RecordRow| x@).len());
        let removed = self.records.len() - out.len();
        self.records = out;
        let ghost after = self.spec_view();
        assert(after.identities =~= before.identities);
        removed as u64
    }
}


pub open spec fn sessions_unique(ss: Seq<SessionRow>) -> bool {
    forall|i: int, j: int|
        0 <= i < j < ss.len() ==> (#[trigger] ss[i]).session_id != (#[trigger] ss[j]).session_id
}

pub open spec fn exactly_one_key(ids: Seq<IdentityRowModel>, key: IdentityKey) -> bool {
    exists|i: int|
        0 <= i < ids.len() && (#[trigger] ids[i]).key == key && forall|j: int|
            0 <= j < ids.len() && (#[trigger] ids[j]).key == key ==> j == i
}

pub open spec fn exactly_one_session(ss: Seq<SessionRow>, id: u128) -> bool {
    exists|i: int|
        0 <= i < ss.len() && (#[trigger] ss[i]).session_id == id && forall|j: int|
            0 <= j < ss.len() && (#[trigger] ss[j]).session_id == id ==> j == i
}

pub proof fn lemma_identity_inserted_wf(
    before: Seq<IdentityRowModel>,
    after: Seq<IdentityRowModel>,
    key: IdentityKey,
    d: Option<Seq<char>>,
)
    requires
        identities_wf(before),
        before.len() < i64::MAX,
        identity_inserted(before, after, key, d),
    ensures
        identities_wf(after),
        has_key(after, key),
{
    if !has_key(before, key) {
        assert(after[after.len() - 1].key == key);
        assert forall|i: int, j: int|
            0 <= i < j < after.len() implies (#[trigger] after[i]).key != (#[trigger] after[j]).key by {
            if j == after.len() - 1 {
                assert(after[i] == before[i]);
            }
        }
    }
}

pub proof fn lemma_session_upserted_unique(
    before: Seq<SessionRow>,
    after: Seq<SessionRow>,
    id: u128,
    pk: i64,
    at: i64,
    x: Option<(i64, i64)>,
)
    requires
        sessions_unique(before),
        session_upserted(before, after, id, pk, at, x),
    ensures
        sessions_unique(after),
        exactly_one_session(after, id),
        has_session(before, id) ==> after.len() == before.len(),
        forall|i: int, j: int|
            0 <= i < before.len() && 0 <= j < after.len() && (#[trigger] before[i]).session_id == id
                && (#[trigger] after[j]).session_id == id ==> after[j].last_seen_at
                >= before[i].last_seen_at,
        forall|j: int|
            0 <= j < after.len() && (#[trigger] after[j]).session_id == id ==> after[j].last_seen_at
                >= at,
{
    if has_session(before, id) {
        let k = choose|k: int|
            0 <= k < before.len() && (#[trigger] before[k]).session_id == id && after == before.update(
                k,
                session_touched(before[k], at, x),
            );
        assert forall|i: int, j: int|
            0 <= i < j < after.len() implies (#[trigger] after[i]).session_id != (
            #[trigger] after[j]).session_id by {
            assert(after[i].session_id == before[i].session_id);
            assert(after[j].session_id == before[j].session_id);
        }
        assert forall|j: int| 0 <= j < after.len() && (#[trigger] after[j]).session_id == id implies j
            == k by {
            assert(after[j].session_id == before[j].session_id);
        }
        assert(after[k].session_id == id);
    } else {
        let n = before.len() as int;
        assert forall|i: int, j: int|
            0 <= i < j < after.len() implies (#[trigger] after[i]).session_id != (
            #[trigger] after[j]).session_id by {
            if j == n {
                assert(after[i] == before[i]);
            }
        }
        assert forall|j: int| 0 <= j < after.len() && (#[trigger] after[j]).session_id == id implies j
            == n by {
            if j < n {
                assert(after[j] == before[j]);
            }
        }
        assert(after[n].session_id == id);
    }
}

/// Inserting two events that carry the same claims and the same session id
/// leaves exactly one identity row for those claims and exactly one session
/// row for that id; the second insert adds neither, and the session row's
/// last sighting does not move back.
pub proof fn lemma_insert_same_session_twice(
    m0: StoreModel,
    m1: StoreModel,
    m2: StoreModel,
    key: IdentityKey,
    d1: Option<Seq<char>>,
    d2: Option<Seq<char>>,
    id: u128,
    pk1: i64,
    pk2: i64,
    at1: i64,
    at2: i64,
    x1: Option<(i64, i64)>,
    x2: Option<(i64, i64)>,
)
    requires
        identities_wf(m0.identities),
        m0.identities.len() < i64::MAX,
        sessions_unique(m0.sessions),
        identity_inserted(m0.identities, m1.identities, key, d1),
        identity_inserted(m1.identities, m2.identities, key, d2),
        session_upserted(m0.sessions, m1.sessions, id, pk1, at1, x1),
        session_upserted(m1.sessions, m2.sessions, id, pk2, at2, x2),
    ensures
        m2.identities == m1.identities,
        exactly_one_key(m2.identities, key),
        m2.sessions.len() == m1.sessions.len(),
        exactly_one_session(m2.sessions, id),
        forall|i: int, j: int|
            0 <= i < m1.sessions.len() && 0 <= j < m2.sessions.len() && (
            #[trigger] m1.sessions[i]).session_id == id && (#[trigger] m2.sessions[j]).session_id
                == id ==> m2.sessions[j].last_seen_at >= m1.sessions[i].last_seen_at,
{
    lemma_identity_inserted_wf(m0.identities, m1.identities, key, d1);
    let ids = m2.identities;
    let i = choose|i: int| 0 <= i < ids.len() && (#[trigger] ids[i]).key == key;
    assert forall|j: int| 0 <= j < ids.len() && (#[trigger] ids[j]).key == key implies j == i by {
        if j < i {
            assert(ids[j].key != ids[i].key);
        } else if i < j {
            assert(ids[i].key != ids[j].key);
        }
    }
    lemma_session_upserted_unique(m0.sessions, m1.sessions, id, pk1, at1, x1);
    let k = choose|k: int| 0 <= k < m1.sessions.len() && (#[trigger] m1.sessions[k]).session_id == id;
    assert(has_session(m1.sessions, id));
    lemma_session_upserted_unique(m1.sessions, m2.sessions, id, pk2, at2, x2);
}

} // verus!
