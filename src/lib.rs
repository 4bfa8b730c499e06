//! Transport and collector core for structured log records: the wire codec,
//! the lossy emitter channel, the writer's connection driver, the reader's
//! session machine, the tracing layer's drop rules and the record store.
pub mod api;
pub mod codec;
pub mod config;
pub mod debounce;
pub mod driver;
pub mod emitter;
pub mod layer;
pub mod session;
pub mod sink;
pub mod store;
pub mod tap;

pub use api::{get_sources, now, Claims, Error, Kind, Level, Metadata, Process, Record, SourceProcess, TraceId};
