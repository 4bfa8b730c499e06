use vstd::prelude::*;

verus! {

/// Whether a record stands for a point event or for a span.
#[derive(Debug, Clone, Copy, PartialEq, Eq, Structural)]
pub enum Kind {
    Event,
    Span,
}

impl Kind {
    /// The variant's position, which both the wire and the store use.
    pub open spec fn index(self) -> nat {
        match self {
            Kind::Event => 0,
            Kind::Span => 1,
        }
    }

    pub fn code(&self) -> (r: u8)
        ensures
            r as nat == self.index(),
    {
        match self {
            Kind::Event => 0,
            Kind::Span => 1,
        }
    }

    pub fn from_code(code: u64) -> (r: Option<Kind>)
        ensures
            r matches Some(k) ==> k.index() == code,
            r is None <==> code > 1,
    {
        if code == 0 {
            Some(Kind::Event)
        } else if code == 1 {
            Some(Kind::Span)
        } else {
            None
        }
    }
}

/// Severity of a record.
#[derive(Debug, Clone, Copy, PartialEq, Eq, Structural)]
pub enum Level {
    Trace,
    Debug,
    Info,
    Warn,
    Error,
    Off,
}

impl Level {
    /// The variant's position, which both the wire and the store use.
    pub open spec fn index(self) -> nat {
        match self {
            Level::Trace => 0,
            Level::Debug => 1,
            Level::Info => 2,
            Level::Warn => 3,
            Level::Error => 4,
            Level::Off => 5,
        }
    }

    /// The level that a numeric severity names: a position, or the
    /// tens-based scale that several log formats use (10 for trace up to 50
    /// for error).
    pub open spec fn numbered(n: int) -> Option<Level> {
        if n == 0 || n == 10 {
            Some(Level::Trace)
        } else if n == 1 || n == 20 {
            Some(Level::Debug)
        } else if n == 2 || n == 30 {
            Some(Level::Info)
        } else if n == 3 || n == 40 {
            Some(Level::Warn)
        } else if n == 4 || n == 50 {
            Some(Level::Error)
        } else if n == 5 {
            Some(Level::Off)
        } else {
            None
        }
    }

    pub fn code(&self) -> (r: u8)
        ensures
            r as nat == self.index(),
    {
        match self {
            Level::Trace => 0,
            Level::Debug => 1,
            Level::Info => 2,
            Level::Warn => 3,
            Level::Error => 4,
            Level::Off => 5,
        }
    }

    pub fn from_code(code: u64) -> (r: Option<Level>)
        ensures
            r matches Some(l) ==> l.index() == code,
            r is None <==> code > 5,
    {
        if code <= 5 {
            Level::try_from_i64(code as i64)
        } else {
            None
        }
    }

    pub fn try_from_i64(level: i64) -> (r: Option<Level>)
        ensures
            r == Level::numbered(level as int),
    {
        if level == 0 || level == 10 {
            Some(Level::Trace)
        } else if level == 1 || level == 20 {
            Some(Level::Debug)
        } else if level == 2 || level == 30 {
            Some(Level::Info)
        } else if level == 3 || level == 40 {
            Some(Level::Warn)
        } else if level == 4 || level == 50 {
            Some(Level::Error)
        } else if level == 5 {
            Some(Level::Off)
        } else {
            None
        }
    }

    pub fn try_from_u64(level: u64) -> (r: Option<Level>)
        ensures
            r == Level::numbered(level as int),
    {
        if level <= i64::MAX as u64 {
            Level::try_from_i64(level as i64)
        } else {
            None
        }
    }
}

/// The process that writes records: its id, executable name and start
/// time in milliseconds.
#[derive(Debug)]
pub struct SourceProcess {
    pub pid: u32,
    pub name: String,
    pub start: u64,
}

pub struct SourceProcessModel {
    pub pid: u32,
    pub name: Seq<char>,
    pub start: u64,
}

impl View for SourceProcess {
    type V = SourceProcessModel;

    open spec fn view(&self) -> SourceProcessModel {
        SourceProcessModel { pid: self.pid, name: self.name@, start: self.start }
    }
}

impl Clone for SourceProcess {
    fn clone(&self) -> (r: Self)
        ensures
            r@ == self@,
    {
        SourceProcess { pid: self.pid, name: self.name.clone(), start: self.start }
    }
}

impl SourceProcess {
    /// A process known only by name, with the given start time.
    pub fn named(name: String, start: u64) -> (r: SourceProcess)
        ensures
            r@ == (SourceProcessModel { pid: 0, name: name@, start }),
    {
        SourceProcess { pid: 0, name, start }
    }

    /// A process known only by id: its name is unknown and its start is 0.
    pub fn from_pid(pid: u32) -> (r: SourceProcess)
        ensures
            r@ == (SourceProcessModel { pid, name: "unknown"@, start: 0 }),
    {
        let name = "unknown".to_string();
        proof {
            reveal_strlit("unknown");
        }
        SourceProcess { pid, name, start: 0 }
    }
}

pub open spec fn opt_seq(o: Option<String>) -> Option<Seq<char>> {
    match o {
        Some(s) => Some(s@),
        None => None,
    }
}

pub fn clone_opt_string(o: &Option<String>) -> (r: Option<String>)
    ensures
        opt_seq(r) == opt_seq(*o),
{
    match o {
        Some(s) => Some(s.clone()),
        None => None,
    }
}

/// What a writer asserts about itself; the first frame of every stream.
#[derive(Debug)]
pub struct Claims {
    pub hostname: String,
    pub display_name: Option<String>,
    pub source: Option<SourceProcess>,
}

pub struct ClaimsModel {
    pub hostname: Seq<char>,
    pub display_name: Option<Seq<char>>,
    pub source: Option<SourceProcessModel>,
}

impl View for Claims {
    type V = ClaimsModel;

    open spec fn view(&self) -> ClaimsModel {
        ClaimsModel {
            hostname: self.hostname@,
            display_name: opt_seq(self.display_name),
            source: match self.source {
                Some(p) => Some(p@),
                None => None,
            },
        }
    }
}

impl Clone for Claims {
    fn clone(&self) -> (r: Self)
        ensures
            r@ == self@,
    {
        let source = match &self.source {
            Some(p) => Some(p.clone()),
            None => None,
        };
        Claims {
            hostname: self.hostname.clone(),
            display_name: clone_opt_string(&self.display_name),
            source,
        }
    }
}

/// Span ids of a record: its own, and its parent's.
#[derive(Debug, Clone, Copy, PartialEq, Eq, Structural)]
pub struct TraceId {
    pub span: Option<u64>,
    pub parent: Option<u64>,
}

/// A single observation.
#[derive(Debug)]
pub struct Record {
    pub kind: Kind,
    pub timestamp: i64,
    pub level: Option<Level>,
    pub source: Option<String>,
    pub message: String,
    pub trace: Option<TraceId>,
    pub fields: String,
}

pub struct RecordModel {
    pub kind: Kind,
    pub timestamp: i64,
    pub level: Option<Level>,
    pub source: Option<Seq<char>>,
    pub message: Seq<char>,
    pub trace: Option<TraceId>,
    pub fields: Seq<char>,
}

impl View for Record {
    type V = RecordModel;

    open spec fn view(&self) -> RecordModel {
        RecordModel {
            kind: self.kind,
            timestamp: self.timestamp,
            level: self.level,
            source: opt_seq(self.source),
            message: self.message@,
            trace: self.trace,
            fields: self.fields@,
        }
    }
}

impl Clone for Record {
    fn clone(&self) -> (r: Self)
        ensures
            r@ == self@,
    {
        Record {
            kind: self.kind,
            timestamp: self.timestamp,
            level: self.level,
            source: clone_opt_string(&self.source),
            message: self.message.clone(),
            trace: self.trace,
            fields: self.fields.clone(),
        }
    }
}

/// Relies on `SystemTime::now` and its `duration_since(UNIX_EPOCH)`: the
/// milliseconds since the Unix epoch, or none for a clock set before it.
#[verifier::external_body]
fn epoch_millis() -> (r: Option<u128>) {
    std::time::SystemTime::now().duration_since(std::time::UNIX_EPOCH).ok().map(|d| d.as_millis())
}

/// Milliseconds as an `i64`, held at `i64::MAX` when they do not fit.
pub fn millis_to_i64(millis: u128) -> (r: i64)
    ensures
        r == if millis <= i64::MAX {
            millis as int
        } else {
            i64::MAX as int
        },
{
    if millis <= i64::MAX as u128 {
        millis as i64
    } else {
        i64::MAX
    }
}

/// The current time in milliseconds since the Unix epoch; 0 for a clock
/// set before the epoch.
pub fn now() -> (r: i64)
    ensures
        r >= 0,
{
    match epoch_millis() {
        Some(m) => millis_to_i64(m),
        None => 0,
    }
}

/// The current time in milliseconds since the Unix epoch, as an unsigned
/// count; 0 for a clock set before the epoch.
pub fn now_ms() -> (r: u64)
    ensures
        r <= i64::MAX,
{
    now() as u64
}

/// Why no source process could be named.
#[derive(Debug)]
pub enum Error {
    NoSource(String),
}

/// The candidate source processes on this platform: none are known.
pub fn get_sources() -> (r: Result<Option<SourceProcess>, Error>)
    ensures
        r matches Ok(None),
{
    Ok(None)
}

/// Where a span or event was declared.
#[derive(Debug)]
pub struct Metadata {
    pub name: String,
    pub target: String,
    pub level: Level,
    pub file: Option<String>,
    pub line: Option<u32>,
    pub module: Option<String>,
}

/// A writer process together with its host.
#[derive(Debug)]
pub struct Process {
    pub pid: u32,
    pub name: String,
    pub hostname: String,
    pub start: u64,
}

impl Process {
    /// The claims of this process, under an optional display name.
    pub fn claims(&self, display_name: Option<String>) -> (r: Claims)
        ensures
            r@ == (ClaimsModel {
                hostname: self.hostname@,
                display_name: opt_seq(display_name),
                source: Some(SourceProcessModel { pid: self.pid, name: self.name@, start: self.start }),
            }),
    {
        Claims {
            hostname: self.hostname.clone(),
            display_name,
            source: Some(SourceProcess { pid: self.pid, name: self.name.clone(), start: self.start }),
        }
    }
}

} // verus!
