//! The failures the engine reports.
use vstd::prelude::*;

verus! {

/// What went wrong, with the words that describe it.
#[derive(Clone, Debug)]
pub enum EngineError {
    /// The broker could not be reached.
    Connection(String),
    /// Topics or partitions could not be enumerated.
    Metadata(String),
    /// An offset query failed.
    Resolution(String),
    /// No live session has this identifier.
    SessionNotFound(String),
    /// A live session already has this identifier.
    SessionConflict(String),
    /// Offsets could not be committed.
    Commit(String),
    /// A message could not be fetched.
    Fetch(String),
}

pub open spec fn error_text(e: EngineError) -> Seq<char> {
    match e {
        EngineError::Connection(m) => m@,
        EngineError::Metadata(m) => m@,
        EngineError::Resolution(m) => m@,
        EngineError::SessionNotFound(id) => "there is no such consumer running on channel: '"@
            + id@ + "'"@,
        EngineError::SessionConflict(id) => "a consumer is already running on channel: '"@ + id@
            + "'"@,
        EngineError::Commit(m) => m@,
        EngineError::Fetch(m) => m@,
    }
}

impl EngineError {
    /// The error in words, as the command surface reports it.
    pub fn message(&self) -> (r: String)
        ensures
            r@ == error_text(*self),
    {
        match self {
            EngineError::Connection(m) => m.clone(),
            EngineError::Metadata(m) => m.clone(),
            EngineError::Resolution(m) => m.clone(),
            EngineError::SessionNotFound(id) => {
                let mut s = String::from_str("there is no such consumer running on channel: '");
                s.append(id.as_str());
                s.append("'");
                s
            },
            EngineError::SessionConflict(id) => {
                let mut s = String::from_str("a consumer is already running on channel: '");
                s.append(id.as_str());
                s.append("'");
                s
            },
            EngineError::Commit(m) => m.clone(),
            EngineError::Fetch(m) => m.clone(),
        }
    }
}

} // verus!
