//! The tracing layer's decisions. Spans and events that the collector's
//! own machinery produces carry a drop marker: a span gets it when its
//! target is the drop target or its parent has it, and neither such a span
//! nor an event inside it becomes a record. Without this, sending a record
//! would trace, and the trace would be sent, without end.
use vstd::prelude::*;
use vstd::utf8::*;

use crate::api::{Kind, Level, Record, RecordModel, TraceId};

verus! {

/// The target that marks the collector's own spans.
pub const DROP_TARGET: &'static str = "inspector::drop";

/// Whether two strings are the same text.
pub fn same_text(a: &str, b: &str) -> (r: bool)
    ensures
        r == (a@ == b@),
{
    let x = a.as_bytes();
    let y = b.as_bytes();
    proof {
        encode_utf8_decode_utf8(a@);
        encode_utf8_decode_utf8(b@);
        assert(x@ == encode_utf8(a@));
        assert(y@ == encode_utf8(b@));
    }
    if x.len() != y.len() {
        return false;
    }
    let mut i: usize = 0;
    while i < x.len()
        invariant
            i <= x@.len(),
            x@.len() == y@.len(),
            x@ == encode_utf8(a@),
            y@ == encode_utf8(b@),
            forall|j: int| 0 <= j < i ==> x@[j] == y@[j],
        decreases x@.len() - i,
    {
        if x[i] != y[i] {
            assert(x@[i as int] != y@[i as int]);
            return false;
        }
        i = i + 1;
    }
    assert(x@ =~= y@);
    true
}

/// The layer does nothing when no remote is configured, or when the
/// emitter has no receiver left.
pub fn layer_disabled(remote_configured: bool, emitter_closed: bool) -> (r: bool)
    ensures
        r == (!remote_configured || emitter_closed),
{
    !remote_configured || emitter_closed
}

/// The spans that carry the drop marker.
pub struct DropMarks {
    marked: Vec<u64>,
}

impl DropMarks {
    pub closed spec fn spec_marked(&self) -> Set<u64> {
        self.marked@.to_set()
    }

    pub fn new() -> (r: DropMarks)
        ensures
            r.spec_marked() == Set::<u64>::empty(),
    {
        let r = DropMarks { marked: Vec::new() };
        assert(r.marked@.to_set() =~= Set::<u64>::empty());
        r
    }

    pub fn is_marked(&self, id: u64) -> (r: bool)
        ensures
            r == self.spec_marked().contains(id),
    {
        let mut i: usize = 0;
        while i < self.marked.len()
            invariant
                i <= self.marked@.len(),
                forall|j: int| 0 <= j < i ==> self.marked@[j] != id,
            decreases self.marked@.len() - i,
        {
            if self.marked[i] == id {
                assert(self.marked@.contains(id));
                return true;
            }
            i = i + 1;
        }
        false
    }

    /// A new span `id` with this parent and target. It is marked when its
    /// target is the drop target or its parent is marked; the result says
    /// whether it becomes a record, which is exactly when it is not marked.
    pub fn on_new_span(&mut self, id: u64, parent: Option<u64>, target: &str) -> (record: bool)
        ensures
            record == !(target@ == DROP_TARGET@ || (parent matches Some(p) && old(
                self,
            ).spec_marked().contains(p))),
            final(self).spec_marked() == if record {
                old(self).spec_marked()
            } else {
                old(self).spec_marked().insert(id)
            },
    {
        let parent_marked = match parent {
            Some(p) => self.is_marked(p),
            None => false,
        };
        if same_text(target, DROP_TARGET) || parent_marked {
            let ghost before = self.marked@;
            self.marked.push(id);
            assert(self.marked@ =~= before + seq![id]);
            proof {
                Seq::<u64>::lemma_to_set_insert_commutes(before, id);
            }
            false
        } else {
            true
        }
    }

    /// An event inside the span `current`, if any: it becomes a record
    /// unless that span is marked.
    pub fn on_event(&self, current: Option<u64>) -> (record: bool)
        ensures
            record == !(current matches Some(s) && self.spec_marked().contains(s)),
    {
        match current {
            Some(s) => !self.is_marked(s),
            None => true,
        }
    }

    /// The span `id` closed; its marker goes with it.
    pub fn on_close(&mut self, id: u64)
        ensures
            final(self).spec_marked() == old(self).spec_marked().remove(id),
    {
        let ghost before = self.marked@;
        let mut kept: Vec<u64> = Vec::new();
        let mut i: usize = 0;
        while i < self.marked.len()
            invariant
                i <= self.marked@.len(),
                self.marked@ == before,
                kept@.to_set() == before.take(i as int).to_set().remove(id),
            decreases self.marked@.len() - i,
        {
            let x = self.marked[i];
            assert(before.take(i + 1 as int) =~= before.take(i as int) + seq![x]);
            proof {
                Seq::<u64>::lemma_to_set_insert_commutes(before.take(i as int), x);
            }
            if x != id {
                let ghost k = kept@;
                kept.push(x);
                assert(kept@ =~= k + seq![x]);
                proof {
                    Seq::<u64>::lemma_to_set_insert_commutes(k, x);
                }
                assert(kept@.to_set() =~= before.take(i + 1 as int).to_set().remove(id));
            } else {
                assert(kept@.to_set() =~= before.take(i + 1 as int).to_set().remove(id));
            }
            i = i + 1;
        }
        assert(before.take(i as int) =~= before);
        self.marked = kept;
    }
}

impl Record {
    /// The record of a new span: its name is the message, its target the
    /// source, and its trace holds its own id and its parent's.
    pub fn from_span(
        id: u64,
        parent: Option<u64>,
        level: Level,
        target: String,
        name: String,
        fields: String,
        timestamp: i64,
    ) -> (r: Record)
        ensures
            r@ == (RecordModel {
                kind: Kind::Span,
                timestamp,
                level: Some(level),
                source: Some(target@),
                message: name@,
                trace: Some(TraceId { span: Some(id), parent }),
                fields: fields@,
            }),
    {
        Record {
            kind: Kind::Span,
            timestamp,
            level: Some(level),
            source: Some(target),
            message: name,
            trace: Some(TraceId { span: Some(id), parent }),
            fields,
        }
    }

    /// The record of an event: its message field is the message (empty
    /// when it has none), and its trace holds the span it happened in.
    pub fn from_event(
        parent: Option<u64>,
        level: Level,
        target: String,
        message: Option<String>,
        fields: String,
        timestamp: i64,
    ) -> (r: Record)
        ensures
            r@ == (RecordModel {
                kind: Kind::Event,
                timestamp,
                level: Some(level),
                source: Some(target@),
                message: match message {
                    Some(m) => m@,
                    None => Seq::empty(),
                },
                trace: Some(TraceId { span: None, parent }),
                fields: fields@,
            }),
    {
        let message = match message {
            Some(m) => m,
            None => String::new(),
        };
        Record {
            kind: Kind::Event,
            timestamp,
            level: Some(level),
            source: Some(target),
            message,
            trace: Some(TraceId { span: None, parent }),
            fields,
        }
    }
}

} // verus!
