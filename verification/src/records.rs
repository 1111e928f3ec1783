//! The data model: history records, queries, per-domain aggregates, and the
//! boundary error for oversized queries.

use vstd::prelude::*;

verus! {

/// One browsing-history record.  Immutable value: the pipeline only copies,
/// reorders and drops records, it never rewrites a field.  `last_visit_time`
/// is a timestamp in milliseconds since an epoch; a record is only considered
/// valid when it is positive.
#[derive(Debug, Clone, PartialEq)]
pub struct HistoryEntry {
    pub url: String,
    pub title: String,
    pub visit_count: u32,
    pub last_visit_time: i64,
}

/// Ceiling on the length, in characters, of a record's `url` and `title`
/// fields; longer records are silently dropped by the validity filter.
pub const FIELD_LENGTH_CEILING: usize = 10000;

impl HistoryEntry {
    /// A record is plausible enough to score: non-empty URL, a positive
    /// timestamp, and both text fields under the fixed length ceiling.
    pub open spec fn is_valid(self) -> bool {
        &&& self.url@.len() > 0
        &&& self.last_visit_time > 0
        &&& self.url@.len() < FIELD_LENGTH_CEILING
        &&& self.title@.len() < FIELD_LENGTH_CEILING
    }

    pub fn new(url: String, title: String, visit_count: u32, last_visit_time: i64) -> (r:
        HistoryEntry)
        ensures
            r.url@ == url@,
            r.title@ == title@,
            r.visit_count == visit_count,
            r.last_visit_time == last_visit_time,
    {
        HistoryEntry { url, title, visit_count, last_visit_time }
    }
}

/// A query against the history: free text, an optional inclusive time range,
/// and the cap on how many records the caller wants back.
#[derive(Debug, Clone, PartialEq)]
pub struct HistoryQuery {
    pub text: String,
    pub start_time: Option<i64>,
    pub end_time: Option<i64>,
    pub max_results: u32,
}

impl HistoryQuery {
    pub fn new(text: String, max_results: u32) -> (r: HistoryQuery)
        ensures
            r.text@ == text@,
            r.start_time is None,
            r.end_time is None,
            r.max_results == max_results,
    {
        HistoryQuery { text, start_time: None, end_time: None, max_results }
    }
}

/// Aggregate over all records sharing one domain.  The counters are wide on
/// purpose: `entry_count` is bounded by the input length and `total_visits`
/// by input length times the largest `u32`, so neither sum can overflow.
#[derive(Debug, Clone, PartialEq)]
pub struct DomainStat {
    pub domain: String,
    pub entry_count: u64,
    pub total_visits: u128,
}

/// Boundary failure of the combined query operation.  Data-quality issues
/// (invalid records, empty results) are never errors; the only thing the
/// search itself rejects is an oversized query string.
#[derive(Debug, PartialEq, Eq, Structural)]
pub enum SearchError {
    QueryTooLong,
}

impl SearchError {
    /// Human-readable cause, for the host boundary to report.
    pub fn message(&self) -> (m: String)
        ensures
            m@ == "Query string too long (max 1000 characters)"@,
    {
        "Query string too long (max 1000 characters)".to_owned()
    }
}

} // verus!
