//! Catalog discovery engine for a game-library application.
//!
//! The crate has two cooperating faces:
//! - a structured query pipeline (filter, stable sort, paginate) over an
//!   in-memory catalog of game records, used for category browsing and
//!   attribute-based search;
//! - a full-text search index (an inverted match over title, description and
//!   tag fields) with buffered writes that become visible only at an explicit
//!   commit.
//!
//! All public operations carry contracts that pin their results down to
//! mathematical specifications of the same stages.

pub mod discovery;
pub mod games;
pub mod pipeline;
pub mod search_index;
pub mod sort;
pub mod store;
pub mod text;

use vstd::prelude::*;

verus! {

/// Errors surfaced by the discovery engine.
///
/// Structural problems (an unknown sort key, an unknown category slug, an
/// empty filter) never raise an error: they degrade to defaults or to empty
/// results. Only data-integrity and index failures propagate.
#[derive(Debug, Clone, Copy, PartialEq, Eq, Structural)]
pub enum OxideError {
    /// The catalog source is missing or malformed (for example, duplicate
    /// record identities).
    DataUnavailable,
    /// An index write or commit could not be applied.
    IndexWriteError,
    /// A search was attempted before any commit had occurred.
    IndexNotReady,
    /// The free-text query is not valid for the supported query language.
    QueryParseError,
}

impl OxideError {
    /// A human-readable description of the error.
    pub fn message(&self) -> (r: String)
        ensures
            r@.len() > 0,
    {
        let m: &str = match self {
            OxideError::DataUnavailable => "catalog source missing or malformed",
            OxideError::IndexWriteError => "index write failed",
            OxideError::IndexNotReady => "search index has no committed data yet",
            OxideError::QueryParseError => "free-text query is not valid",
        };
        proof {
            reveal_strlit("catalog source missing or malformed");
            reveal_strlit("index write failed");
            reveal_strlit("search index has no committed data yet");
            reveal_strlit("free-text query is not valid");
        }
        m.to_owned()
    }
}

} // verus!
