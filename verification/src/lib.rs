//! Wildcard-aware byte-pattern search.
//!
//! A pattern is an ordered sequence of per-position constraints, each either
//! an exact byte or a wildcard that matches any byte. The library locates the
//! windows of a byte region that satisfy a pattern: the first such offset or
//! all of them, sequentially or in parallel. The parallel searches return
//! exactly what the sequential ones do.

pub mod model;
pub mod par;
pub mod search;

pub use par::find_pattern_par;
pub use par::find_patterns_par;
pub use search::build_pattern;
pub use search::find_pattern;
pub use search::find_patterns;
pub use search::match_pattern;

use vstd::prelude::*;

verus! {

/// A pattern: one constraint per position, `Some(b)` requiring the byte `b`
/// and `None` matching any byte.
pub type Pattern = Vec<Option<u8>>;

} // verus!
