//! Turning lines of a process's output into records: plain text as it
//! stands, or JSON log lines with their message, target, level and time
//! picked out of the usual keys.
use vstd::prelude::*;
use vstd::utf8::*;

use crate::api::{clone_opt_string, opt_seq, Kind, Level, Record, RecordModel};
use crate::layer::same_text;

verus! {

/// How lines are read.
#[derive(Debug, Clone, Copy, PartialEq, Eq, Structural)]
pub enum Format {
    Text,
    Json,
    /// JSON when the first non-blank byte opens an object or an array, text
    /// otherwise.
    Auto,
}

/// Why a line gave no record.
#[derive(Debug, Clone, Copy, PartialEq, Eq, Structural)]
pub enum TapError {
    /// The line was to be read as JSON and is not a JSON object.
    NotJson,
}

/// A JSON value as far as a record needs it. A number that is neither an
/// `i64` nor a `u64` is held rounded, when it is finite and fits an `i64`.
#[derive(Debug)]
pub enum JsonScalar {
    Str(String),
    Int(i64),
    UInt(u64),
    Float(Option<i64>),
    Other,
}

/// The members of a JSON log line's top-level object, and the `message`
/// member of its `fields` object when it has one.
#[derive(Debug)]
pub struct JsonLine {
    pub entries: Vec<(String, JsonScalar)>,
    pub fields_message: Option<JsonScalar>,
}

pub open spec fn is_blank(b: u8) -> bool {
    b == 0x20 || b == 0x09 || b == 0x0a || b == 0x0c || b == 0x0d
}

pub open spec fn ends_with(s: Seq<u8>, tail: Seq<u8>) -> bool {
    s.len() >= tail.len() && s.subrange(s.len() - tail.len(), s.len() as int) == tail
}

/// A line's content: a trailing "\r\n" or "\r" is cut off; a line that
/// ends in a bare "\n" is kept whole.
pub open spec fn content_bytes(s: Seq<u8>) -> Seq<u8> {
    if ends_with(s, seq![0x0du8, 0x0au8]) {
        s.subrange(0, s.len() - 2)
    } else if ends_with(s, seq![0x0au8]) {
        s
    } else if ends_with(s, seq![0x0du8]) {
        s.subrange(0, s.len() - 1)
    } else {
        s
    }
}

pub proof fn lemma_ends_with_2(s: Seq<u8>, a: u8, b: u8)
    ensures
        ends_with(s, seq![a, b]) <==> (s.len() >= 2 && s[s.len() - 2] == a && s[s.len() - 1] == b),
{
    if s.len() >= 2 {
        let t = s.subrange(s.len() - 2, s.len() as int);
        if t == seq![a, b] {
            assert(t[0] == a && t[1] == b);
        }
        if s[s.len() - 2] == a && s[s.len() - 1] == b {
            assert(t =~= seq![a, b]);
        }
    }
}

pub proof fn lemma_ends_with_1(s: Seq<u8>, a: u8)
    ensures
        ends_with(s, seq![a]) <==> (s.len() >= 1 && s[s.len() - 1] == a),
{
    if s.len() >= 1 {
        let t = s.subrange(s.len() - 1, s.len() as int);
        if t == seq![a] {
            assert(t[0] == a);
        }
        if s[s.len() - 1] == a {
            assert(t =~= seq![a]);
        }
    }
}

/// The text `String::from_utf8_lossy` makes of some bytes.
pub uninterp spec fn lossy_text(b: Seq<u8>) -> Seq<char>;

/// Relies on `String::from_utf8_lossy`: valid UTF-8 comes back as the text
/// it encodes; other bytes give a replacement character.
#[verifier::external_body]
fn lossy_string(b: &[u8]) -> (r: String)
    ensures
        r@ == lossy_text(b@),
        valid_utf8(b@) ==> r@ == decode_utf8(b@),
{
    String::from_utf8_lossy(b).into_owned()
}

/// The text of a line, without a trailing "\r\n" or "\r".
pub fn to_content(line: &[u8]) -> (r: String)
    ensures
        r@ == lossy_text(content_bytes(line@)),
{
    let n = line.len();
    let cut: usize = if n >= 2 && line[n - 2] == 0x0d && line[n - 1] == 0x0a {
        2
    } else if n >= 1 && line[n - 1] == 0x0a {
        0
    } else if n >= 1 && line[n - 1] == 0x0d {
        1
    } else {
        0
    };
    proof {
        lemma_ends_with_2(line@, 0x0d, 0x0a);
        lemma_ends_with_1(line@, 0x0a);
        lemma_ends_with_1(line@, 0x0d);
    }
    let body = &line[0..n - cut];
    assert(body@ =~= content_bytes(line@));
    lossy_string(body)
}

pub open spec fn magnitude(raw: i64) -> nat {
    if raw >= 0 {
        raw as nat
    } else {
        (-raw) as nat
    }
}

/// `raw / d`, rounded toward zero.
pub open spec fn scaled_down(raw: i64, d: nat) -> int {
    if raw >= 0 {
        raw as int / d as int
    } else {
        -((-raw) / d as int)
    }
}

/// Reads a Unix time in seconds, milliseconds, microseconds or
/// nanoseconds as milliseconds, telling the unit by the magnitude.
pub open spec fn spec_normalize_epoch(raw: i64) -> int {
    let m = magnitude(raw);
    if m >= 1_000_000_000_000_000_000 {
        scaled_down(raw, 1_000_000)
    } else if m >= 1_000_000_000_000_000 {
        scaled_down(raw, 1_000)
    } else if m >= 1_000_000_000_000 {
        raw as int
    } else {
        raw * 1000
    }
}

fn divide_toward_zero(raw: i64, d: u64) -> (r: i64)
    requires
        d >= 1000,
    ensures
        r == scaled_down(raw, d as nat),
{
    if raw >= 0 {
        (raw as u64 / d) as i64
    } else {
        let m: u64 = ((-(raw + 1)) as u64) + 1;
        let q = m / d;
        assert(q <= m / 1000) by (nonlinear_arith)
            requires
                q == m / d,
                d >= 1000,
        ;
        -(q as i64)
    }
}

pub fn normalize_epoch(raw: i64) -> (r: i64)
    ensures
        r == spec_normalize_epoch(raw),
{
    let m: u64 = if raw >= 0 {
        raw as u64
    } else {
        ((-(raw + 1)) as u64) + 1
    };
    if m >= 1_000_000_000_000_000_000 {
        divide_toward_zero(raw, 1_000_000)
    } else if m >= 1_000_000_000_000_000 {
        divide_toward_zero(raw, 1_000)
    } else if m >= 1_000_000_000_000 {
        raw
    } else {
        raw * 1000
    }
}

/// `c` with an ASCII capital letter made small.
pub open spec fn lower_char(c: char) -> char {
    if 'A' <= c && c <= 'Z' {
        ((c as u32) + 32) as char
    } else {
        c
    }
}

pub open spec fn ascii_lower(s: Seq<char>) -> Seq<char> {
    Seq::new(s.len(), |i: int| lower_char(s[i]))
}

/// Relies on `str::to_ascii_lowercase`: ASCII capitals become small
/// letters, every other character stays.
#[verifier::external_body]
fn to_ascii_lower(s: &str) -> (r: String)
    ensures
        r@ == ascii_lower(s@),
{
    s.to_ascii_lowercase()
}

/// The text `str::trim` leaves of `s`.
pub uninterp spec fn trimmed(s: Seq<char>) -> Seq<char>;

/// Relies on `str::trim`: the text without leading and trailing
/// whitespace.
#[verifier::external_body]
fn trim_text(s: &str) -> (r: String)
    ensures
        r@ == trimmed(s@),
{
    s.trim().to_string()
}

/// What `str::parse::<i64>` makes of `s`.
pub uninterp spec fn parsed_i64(s: Seq<char>) -> Option<i64>;

/// Relies on `str::parse::<i64>`.
#[verifier::external_body]
fn parse_i64(s: &str) -> (r: Option<i64>)
    ensures
        r == parsed_i64(s@),
{
    s.parse::<i64>().ok()
}

/// The Unix time in milliseconds of an RFC 3339 date and time, as chrono
/// reads it.
pub uninterp spec fn rfc3339_millis(s: Seq<char>) -> Option<i64>;

/// Relies on chrono's `DateTime::parse_from_rfc3339` and
/// `timestamp_millis`.
#[verifier::external_body]
fn parse_rfc3339(s: &str) -> (r: Option<i64>)
    ensures
        r == rfc3339_millis(s@),
{
    chrono::DateTime::parse_from_rfc3339(s).ok().map(|t| t.timestamp_millis())
}

/// The Unix time in milliseconds of an RFC 2822 date and time, as chrono
/// reads it.
pub uninterp spec fn rfc2822_millis(s: Seq<char>) -> Option<i64>;

/// Relies on chrono's `DateTime::parse_from_rfc2822` and
/// `timestamp_millis`.
#[verifier::external_body]
fn parse_rfc2822(s: &str) -> (r: Option<i64>)
    ensures
        r == rfc2822_millis(s@),
{
    chrono::DateTime::parse_from_rfc2822(s).ok().map(|t| t.timestamp_millis())
}

/// The level a lowercase name stands for.
pub open spec fn level_name(t: Seq<char>) -> Option<Level> {
    if t == "trace"@ || t == "trc"@ {
        Some(Level::Trace)
    } else if t == "debug"@ || t == "dbg"@ {
        Some(Level::Debug)
    } else if t == "info"@ || t == "information"@ {
        Some(Level::Info)
    } else if t == "warn"@ || t == "warning"@ {
        Some(Level::Warn)
    } else if t == "error"@ || t == "err"@ || t == "fatal"@ || t == "critical"@ {
        Some(Level::Error)
    } else if t == "off"@ {
        Some(Level::Off)
    } else {
        None
    }
}

impl Level {
    /// The level a name gives, in any case and with blanks around it.
    pub fn parse_name(s: &str) -> (r: Option<Level>)
        ensures
            r == level_name(ascii_lower(trimmed(s@))),
    {
        let t = trim_text(s);
        let l = to_ascii_lower(t.as_str());
        let l = l.as_str();
        proof {
            reveal_strlit("trace");
            reveal_strlit("trc");
            reveal_strlit("debug");
            reveal_strlit("dbg");
            reveal_strlit("info");
            reveal_strlit("information");
            reveal_strlit("warn");
            reveal_strlit("warning");
            reveal_strlit("error");
            reveal_strlit("err");
            reveal_strlit("fatal");
            reveal_strlit("critical");
            reveal_strlit("off");
        }
        if same_text(l, "trace") || same_text(l, "trc") {
            Some(Level::Trace)
        } else if same_text(l, "debug") || same_text(l, "dbg") {
            Some(Level::Debug)
        } else if same_text(l, "info") || same_text(l, "information") {
            Some(Level::Info)
        } else if same_text(l, "warn") || same_text(l, "warning") {
            Some(Level::Warn)
        } else if same_text(l, "error") || same_text(l, "err") || same_text(l, "fatal")
            || same_text(l, "critical") {
            Some(Level::Error)
        } else if same_text(l, "off") {
            Some(Level::Off)
        } else {
            None
        }
    }
}

impl std::str::FromStr for Level {
    type Err = ();

    fn from_str(s: &str) -> Result<Level, ()> {
        match Level::parse_name(s) {
            Some(l) => Ok(l),
            None => Err(()),
        }
    }
}

/// The first member named `key`.
pub open spec fn lookup(es: Seq<(String, JsonScalar)>, key: Seq<char>) -> Option<JsonScalar>
    decreases es.len(),
{
    if es.len() == 0 {
        None
    } else if es[0].0@ == key {
        Some(es[0].1)
    } else {
        lookup(es.drop_first(), key)
    }
}

pub open spec fn or_else(a: Option<JsonScalar>, b: Option<JsonScalar>) -> Option<JsonScalar> {
    if a is Some {
        a
    } else {
        b
    }
}

pub open spec fn text_of(v: Option<JsonScalar>) -> Option<Seq<char>> {
    match v {
        Some(JsonScalar::Str(s)) => Some(s@),
        _ => None,
    }
}

/// The level a JSON value names: a level name, or a number given as text
/// or as a number.
pub open spec fn level_of_value(v: Option<JsonScalar>) -> Option<Level> {
    match v {
        Some(JsonScalar::Str(s)) => match level_name(ascii_lower(trimmed(s@))) {
            Some(l) => Some(l),
            None => match parsed_i64(s@) {
                Some(n) => Level::numbered(n as int),
                None => None,
            },
        },
        Some(JsonScalar::Int(i)) => Level::numbered(i as int),
        Some(JsonScalar::UInt(u)) => Level::numbered(u as int),
        _ => None,
    }
}

/// The time in milliseconds a JSON value gives: an epoch number in any
/// unit, or an RFC 3339 or RFC 2822 date.
pub open spec fn time_of_value(v: Option<JsonScalar>) -> Option<int> {
    match v {
        Some(JsonScalar::Int(i)) => Some(spec_normalize_epoch(i)),
        Some(JsonScalar::UInt(u)) => if u <= i64::MAX {
            Some(spec_normalize_epoch(u as i64))
        } else {
            None
        },
        Some(JsonScalar::Float(Some(f))) => Some(spec_normalize_epoch(f)),
        Some(JsonScalar::Str(s)) => match rfc3339_millis(s@) {
            Some(t) => Some(t as int),
            None => match rfc2822_millis(s@) {
                Some(t) => Some(t as int),
                None => None,
            },
        },
        _ => None,
    }
}

impl JsonLine {
    pub fn get(&self, key: &str) -> (r: Option<&JsonScalar>)
        ensures
            match r {
                Some(v) => lookup(self.entries@, key@) == Some(*v),
                None => lookup(self.entries@, key@) is None,
            },
    {
        let mut i: usize = 0;
        assert(self.entries@.skip(0) =~= self.entries@);
        while i < self.entries.len()
            invariant
                i <= self.entries@.len(),
                lookup(self.entries@, key@) == lookup(self.entries@.skip(i as int), key@),
            decreases self.entries@.len() - i,
        {
            let ghost rest = self.entries@.skip(i as int);
            assert(rest[0] == self.entries@[i as int]);
            assert(rest.drop_first() =~= self.entries@.skip(i + 1 as int));
            if same_text(self.entries[i].0.as_str(), key) {
                return Some(&self.entries[i].1);
            }
            i = i + 1;
        }
        None
    }

    pub open spec fn spec_message(&self) -> Option<JsonScalar> {
        or_else(
            lookup(self.entries@, "message"@),
            or_else(
                lookup(self.entries@, "msg"@),
                or_else(lookup(self.entries@, "body"@), self.fields_message),
            ),
        )
    }

    pub open spec fn spec_level(&self) -> Option<JsonScalar> {
        or_else(
            lookup(self.entries@, "level"@),
            or_else(
                lookup(self.entries@, "severity"@),
                or_else(lookup(self.entries@, "severity_text"@), lookup(self.entries@, "log.level"@)),
            ),
        )
    }

    pub open spec fn spec_time(&self) -> Option<JsonScalar> {
        or_else(
            lookup(self.entries@, "timestamp"@),
            or_else(lookup(self.entries@, "time"@), lookup(self.entries@, "ts"@)),
        )
    }

    /// The first of `message`, `msg`, `body` and `fields.message` that is
    /// present, when it is a string.
    pub fn message(&self) -> (r: Option<String>)
        ensures
            opt_seq(r) == text_of(self.spec_message()),
    {
        let v = match self.get("message") {
            Some(v) => Some(v),
            None => match self.get("msg") {
                Some(v) => Some(v),
                None => match self.get("body") {
                    Some(v) => Some(v),
                    None => self.fields_message.as_ref(),
                },
            },
        };
        match v {
            Some(JsonScalar::Str(s)) => Some(s.clone()),
            _ => None,
        }
    }

    /// The `target` member, when it is a string.
    pub fn source(&self) -> (r: Option<String>)
        ensures
            opt_seq(r) == text_of(lookup(self.entries@, "target"@)),
    {
        match self.get("target") {
            Some(JsonScalar::Str(s)) => Some(s.clone()),
            _ => None,
        }
    }

    /// The level named by the first of `level`, `severity`,
    /// `severity_text` and `log.level` that is present.
    pub fn level(&self) -> (r: Option<Level>)
        ensures
            r == level_of_value(self.spec_level()),
    {
        let v = match self.get("level") {
            Some(v) => Some(v),
            None => match self.get("severity") {
                Some(v) => Some(v),
                None => match self.get("severity_text") {
                    Some(v) => Some(v),
                    None => self.get("log.level"),
                },
            },
        };
        match v {
            Some(JsonScalar::Str(s)) => match Level::parse_name(s.as_str()) {
                Some(l) => Some(l),
                None => match parse_i64(s.as_str()) {
                    Some(n) => Level::try_from_i64(n),
                    None => None,
                },
            },
            Some(JsonScalar::Int(i)) => Level::try_from_i64(*i),
            Some(JsonScalar::UInt(u)) => Level::try_from_u64(*u),
            _ => None,
        }
    }

    /// The time given by the first of `timestamp`, `time` and `ts` that is
    /// present.
    pub fn timestamp(&self) -> (r: Option<i64>)
        ensures
            match r {
                Some(t) => time_of_value(self.spec_time()) == Some(t as int),
                None => time_of_value(self.spec_time()) is None,
            },
    {
        let v = match self.get("timestamp") {
            Some(v) => Some(v),
            None => match self.get("time") {
                Some(v) => Some(v),
                None => self.get("ts"),
            },
        };
        match v {
            Some(JsonScalar::Int(i)) => Some(normalize_epoch(*i)),
            Some(JsonScalar::UInt(u)) => if *u <= i64::MAX as u64 {
                Some(normalize_epoch(*u as i64))
            } else {
                None
            },
            Some(JsonScalar::Float(Some(f))) => Some(normalize_epoch(*f)),
            Some(JsonScalar::Str(s)) => match parse_rfc3339(s.as_str()) {
                Some(t) => Some(t),
                None => parse_rfc2822(s.as_str()),
            },
            _ => None,
        }
    }
}

pub open spec fn first_non_blank(s: Seq<u8>) -> Option<u8>
    decreases s.len(),
{
    if s.len() == 0 {
        None
    } else if !is_blank(s[0]) {
        Some(s[0])
    } else {
        first_non_blank(s.drop_first())
    }
}

/// Reads lines in one format, naming a source for records that name none.
#[derive(Debug)]
pub struct Parser {
    pub format: Format,
    pub source: Option<String>,
}

impl Parser {
    pub fn new(format: Format, source: Option<String>) -> (r: Parser)
        ensures
            r.format == format,
            opt_seq(r.source) == opt_seq(source),
    {
        Parser { format, source }
    }

    pub open spec fn spec_reads_json(&self, line: Seq<u8>) -> bool {
        match self.format {
            Format::Text => false,
            Format::Json => true,
            Format::Auto => first_non_blank(line) == Some(0x7bu8) || first_non_blank(line) == Some(
                0x5bu8,
            ),
        }
    }

    /// Whether the line is to be read as JSON.
    pub fn reads_json(&self, line: &[u8]) -> (r: bool)
        ensures
            r == self.spec_reads_json(line@),
    {
        match self.format {
            Format::Text => false,
            Format::Json => true,
            Format::Auto => {
                let mut i: usize = 0;
                assert(line@.skip(0) =~= line@);
                while i < line.len() && (line[i] == 0x20 || line[i] == 0x09 || line[i] == 0x0a
                    || line[i] == 0x0c || line[i] == 0x0d)
                    invariant
                        i <= line@.len(),
                        first_non_blank(line@) == first_non_blank(line@.skip(i as int)),
                    decreases line@.len() - i,
                {
                    assert(line@.skip(i as int).drop_first() =~= line@.skip(i + 1 as int));
                    i = i + 1;
                }
                if i == line.len() {
                    assert(line@.skip(i as int).len() == 0);
                    false
                } else {
                    assert(line@.skip(i as int)[0] == line@[i as int]);
                    line[i] == 0x7b || line[i] == 0x5b
                }
            },
        }
    }

    /// A text line: its content is the message, with no level, the parser's
    /// source, the time `now`, and empty fields.
    pub open spec fn text_record(&self, line: Seq<u8>, now: i64) -> RecordModel {
        RecordModel {
            kind: Kind::Event,
            timestamp: now,
            level: None,
            source: opt_seq(self.source),
            message: lossy_text(content_bytes(line)),
            trace: None,
            fields: "{}"@,
        }
    }

    pub fn as_text(&self, line: &[u8], now: i64) -> (r: Record)
        ensures
            r@ == self.text_record(line@, now),
    {
        proof {
            reveal_strlit("{}");
        }
        Record {
            kind: Kind::Event,
            timestamp: now,
            level: None,
            source: clone_opt_string(&self.source),
            message: to_content(line),
            trace: None,
            fields: "{}".to_string(),
        }
    }

    /// A JSON line: message, target, level and time come from its members,
    /// falling back to the line's content, the parser's source, no level
    /// and `now`; the whole line is kept as the fields.
    pub open spec fn json_record(&self, line: Seq<u8>, parsed: &JsonLine, now: i64) -> RecordModel {
        RecordModel {
            kind: Kind::Event,
            timestamp: match time_of_value(parsed.spec_time()) {
                Some(t) => t as i64,
                None => now,
            },
            level: level_of_value(parsed.spec_level()),
            source: match text_of(lookup(parsed.entries@, "target"@)) {
                Some(t) => Some(t),
                None => opt_seq(self.source),
            },
            message: match text_of(parsed.spec_message()) {
                Some(m) => m,
                None => lossy_text(content_bytes(line)),
            },
            trace: None,
            fields: lossy_text(content_bytes(line)),
        }
    }

    pub fn as_json(&self, line: &[u8], parsed: &JsonLine, now: i64) -> (r: Record)
        ensures
            r@ == self.json_record(line@, parsed, now),
    {
        let message = match parsed.message() {
            Some(m) => m,
            None => to_content(line),
        };
        let source = match parsed.source() {
            Some(t) => Some(t),
            None => clone_opt_string(&self.source),
        };
        let timestamp = match parsed.timestamp() {
            Some(t) => t,
            None => now,
        };
        Record {
            kind: Kind::Event,
            timestamp,
            level: parsed.level(),
            source,
            message,
            trace: None,
            fields: to_content(line),
        }
    }

    /// The record of one line. `parsed` is the line read as a JSON object,
    /// or none when it is not one; a line to be read as JSON needs it.
    pub fn to_record(&self, line: &[u8], parsed: Option<&JsonLine>, now: i64) -> (r: Result<
        Record,
        TapError,
    >)
        ensures
            !self.spec_reads_json(line@) ==> (r matches Ok(x) && x@ == self.text_record(line@, now)),
            self.spec_reads_json(line@) ==> match parsed {
                Some(p) => r matches Ok(x) && x@ == self.json_record(line@, p, now),
                None => r == Err::<Record, TapError>(TapError::NotJson),
            },
    {
        if !self.reads_json(line) {
            return Ok(self.as_text(line, now));
        }
        match parsed {
            Some(p) => Ok(self.as_json(line, p, now)),
            None => Err(TapError::NotJson),
        }
    }
}

} // verus!
