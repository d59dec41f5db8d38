//! What reading one of qdrop's files produced, handed over by the caller
//! that did the reading and parsing.

use vstd::prelude::*;

verus! {

/// The result of reading and parsing a file.
pub enum FileRead<T> {
    /// The file exists and parsed to this value.
    Parsed(T),
    /// There is no such file.
    Missing,
    /// The file exists but does not parse; the parser's message.
    Invalid(String),
    /// The file could not be read; the I/O error's message.
    Unreadable(String),
}

/// Why a file could not be loaded.
#[derive(Debug, Clone, PartialEq, Eq)]
pub enum LoadError {
    /// The file does not parse.
    Parse(String),
    /// The file could not be read.
    Read(String),
}

/// Load semantics shared by `config.toml`, `peers.toml` and `state.json`:
/// a parsed file is used as it is, a missing file yields `fallback`, and a
/// malformed or unreadable file is an error.
pub open spec fn spec_load<T>(read: FileRead<T>, fallback: T) -> Result<T, LoadError> {
    match read {
        FileRead::Parsed(v) => Ok(v),
        FileRead::Missing => Ok(fallback),
        FileRead::Invalid(e) => Err(LoadError::Parse(e)),
        FileRead::Unreadable(e) => Err(LoadError::Read(e)),
    }
}

/// Apply the load semantics to a read outcome.
pub fn load_with<T>(read: FileRead<T>, fallback: T) -> (r: Result<T, LoadError>)
    ensures r == spec_load(read, fallback),
{
    match read {
        FileRead::Parsed(v) => Ok(v),
        FileRead::Missing => Ok(fallback),
        FileRead::Invalid(e) => Err(LoadError::Parse(e)),
        FileRead::Unreadable(e) => Err(LoadError::Read(e)),
    }
}

} // verus!
