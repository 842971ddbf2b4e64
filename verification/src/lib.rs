//! Simultaneous search for a fixed set of byte-string patterns in a text,
//! reporting every occurrence of every pattern with exact byte offsets.

pub mod automaton;
pub mod error;
pub mod laws;
pub mod matches;
pub mod searcher;

pub use error::SearchError;
pub use matches::MatchResult;
pub use searcher::AhoSearcher;
