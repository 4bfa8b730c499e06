//! Where the reader's secret key comes from.
use vstd::prelude::*;

verus! {

/// The key file used when the configuration names none.
pub const DEFAULT_KEY_PATH: &'static str = "~/.config/inspector/reader.key";

/// The source of the reader's long-lived secret key.
#[derive(Debug)]
pub enum KeySource {
    /// The default key file.
    DefaultFile,
    /// A key file at this path.
    File { path: String },
    /// An environment variable holding the key.
    Env { var: String },
}

impl KeySource {
    /// The key file to read, or none when the key comes from the
    /// environment.
    pub fn path(&self) -> (r: Option<&str>)
        ensures
            match self {
                KeySource::DefaultFile => r matches Some(p) && p@ == DEFAULT_KEY_PATH@,
                KeySource::File { path } => r matches Some(p) && p@ == path@,
                KeySource::Env { .. } => r is None,
            },
    {
        match self {
            KeySource::DefaultFile => Some(DEFAULT_KEY_PATH),
            KeySource::File { path } => Some(path.as_str()),
            KeySource::Env { .. } => None,
        }
    }
}

/// The reader's configuration.
#[derive(Debug)]
pub struct ReaderConfig {
    pub key: KeySource,
}

impl Default for ReaderConfig {
    fn default() -> (r: ReaderConfig)
        ensures
            r.key is DefaultFile,
    {
        ReaderConfig { key: KeySource::DefaultFile }
    }
}

} // verus!
