//! Bounded-memory relevance search over caller-supplied browsing-history
//! records: a query string is tokenized into keywords, records are filtered,
//! scored, ranked by a deterministic total order, and truncated to a small
//! result set.  Every stage is a pure function of its explicit inputs; the
//! caller supplies the reference time, so every operation is deterministic.

pub mod aggregate;
pub mod domain;
pub mod filters;
pub mod format;
pub mod matching;
pub mod pipeline;
pub mod ranker;
pub mod records;
pub mod score;
pub mod text;
pub mod tokenizer;
