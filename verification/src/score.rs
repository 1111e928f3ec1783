//! The relevance scorer.  A score is additive over independent factors and
//! is measured in half-points, so that every contribution is an exact
//! integer and the induced order is total:
//! - 6 units (3 points) per keyword contained in the lower-cased title;
//! - 4 units (2 points) per keyword contained in the lower-cased URL;
//! - the popularity term, ½·ln(visit_count) points, carried as
//!   ⌊ln(visit_count)⌋ units, with a visit count of zero clamped to zero so
//!   no degenerate value ever reaches the comparator;
//! - a recency bonus of 4, 2, 1 or 0 units for records visited within one
//!   day, seven days or thirty days of the caller-supplied reference time.

use vstd::prelude::*;
use crate::matching::{contains_sub, spec_contains_sub};
use crate::records::HistoryEntry;
use crate::text::{chars_vec, lower_of, lowercase};

verus! {

pub const TITLE_MATCH_UNITS: u128 = 6;

pub const URL_MATCH_UNITS: u128 = 4;

pub const MS_PER_DAY: i128 = 86400000;

pub const MS_PER_WEEK: i128 = 604800000;

pub const MS_PER_MONTH: i128 = 2592000000;

/// ⌊ln(v)⌋ for a 32-bit visit count, with ⌊ln(0)⌋ clamped to 0.  The
/// thresholds are ⌈e^k⌉ for k = 1 … 22; e^23 already exceeds the largest
/// `u32`.
pub open spec fn ln_floor(v: int) -> int {
    if v >= 3584912847 {
        22
    } else if v >= 1318815735 {
        21
    } else if v >= 485165196 {
        20
    } else if v >= 178482301 {
        19
    } else if v >= 65659970 {
        18
    } else if v >= 24154953 {
        17
    } else if v >= 8886111 {
        16
    } else if v >= 3269018 {
        15
    } else if v >= 1202605 {
        14
    } else if v >= 442414 {
        13
    } else if v >= 162755 {
        12
    } else if v >= 59875 {
        11
    } else if v >= 22027 {
        10
    } else if v >= 8104 {
        9
    } else if v >= 2981 {
        8
    } else if v >= 1097 {
        7
    } else if v >= 404 {
        6
    } else if v >= 149 {
        5
    } else if v >= 55 {
        4
    } else if v >= 21 {
        3
    } else if v >= 8 {
        2
    } else if v >= 3 {
        1
    } else {
        0
    }
}

/// The popularity term never decreases when the visit count rises.
pub proof fn lemma_ln_floor_monotonic(a: int, b: int)
    requires
        a <= b,
    ensures
        ln_floor(a) <= ln_floor(b),
{
}

/// The popularity term, computed executably.
pub fn ln_floor_units(v: u32) -> (r: u32)
    ensures
        r == ln_floor(v as int),
        r <= 22,
{
    if v >= 3584912847 {
        22
    } else if v >= 1318815735 {
        21
    } else if v >= 485165196 {
        20
    } else if v >= 178482301 {
        19
    } else if v >= 65659970 {
        18
    } else if v >= 24154953 {
        17
    } else if v >= 8886111 {
        16
    } else if v >= 3269018 {
        15
    } else if v >= 1202605 {
        14
    } else if v >= 442414 {
        13
    } else if v >= 162755 {
        12
    } else if v >= 59875 {
        11
    } else if v >= 22027 {
        10
    } else if v >= 8104 {
        9
    } else if v >= 2981 {
        8
    } else if v >= 1097 {
        7
    } else if v >= 404 {
        6
    } else if v >= 149 {
        5
    } else if v >= 55 {
        4
    } else if v >= 21 {
        3
    } else if v >= 8 {
        2
    } else if v >= 3 {
        1
    } else {
        0
    }
}

/// The recency bonus in units, from the difference between the reference
/// time and the last visit, both in milliseconds.  The bands are evaluated
/// in order, first match wins: under a day, under a week, under thirty days.
pub open spec fn recency_units(now: int, t: int) -> int {
    let diff = now - t;
    if diff < MS_PER_DAY {
        4
    } else if diff < MS_PER_WEEK {
        2
    } else if diff < MS_PER_MONTH {
        1
    } else {
        0
    }
}

/// Keyword-match units of one record against a list of (already
/// lower-cased) keywords: 6 per keyword contained in the lower-cased title
/// and 4 per keyword contained in the lower-cased URL, each keyword counted
/// once per field however often it occurs.
pub open spec fn match_units(title_l: Seq<char>, url_l: Seq<char>, kws: Seq<Seq<char>>) -> int
    decreases kws.len(),
{
    if kws.len() == 0 {
        0
    } else {
        match_units(title_l, url_l, kws.drop_last()) + (if spec_contains_sub(
            title_l,
            kws.last(),
        ) {
            TITLE_MATCH_UNITS as int
        } else {
            0
        }) + (if spec_contains_sub(url_l, kws.last()) {
            URL_MATCH_UNITS as int
        } else {
            0
        })
    }
}

/// Keyword-match units never exceed ten per keyword.
pub proof fn lemma_match_units_bounds(title_l: Seq<char>, url_l: Seq<char>, kws: Seq<Seq<char>>)
    ensures
        0 <= match_units(title_l, url_l, kws) <= 10 * kws.len(),
    decreases kws.len(),
{
    if kws.len() > 0 {
        lemma_match_units_bounds(title_l, url_l, kws.drop_last());
    }
}

/// The full relevance score of one record, in half-point units.
pub open spec fn spec_score(e: HistoryEntry, kws: Seq<Seq<char>>, now: int) -> int {
    match_units(lower_of(e.title@), lower_of(e.url@), kws) + ln_floor(e.visit_count as int)
        + recency_units(now, e.last_visit_time as int)
}

/// A score is non-negative and bounded by ten units per keyword plus the
/// largest possible popularity and recency terms.
pub proof fn lemma_spec_score_bounds(e: HistoryEntry, kws: Seq<Seq<char>>, now: int)
    ensures
        0 <= spec_score(e, kws, now) <= 10 * kws.len() + 26,
{
    lemma_match_units_bounds(lower_of(e.title@), lower_of(e.url@), kws);
}

/// Raising the visit count of a record, all else fixed, never decreases its
/// score.
pub proof fn lemma_score_monotonic_in_visits(
    a: HistoryEntry,
    b: HistoryEntry,
    kws: Seq<Seq<char>>,
    now: int,
)
    requires
        a.url == b.url,
        a.title == b.title,
        a.last_visit_time == b.last_visit_time,
        a.visit_count <= b.visit_count,
    ensures
        spec_score(a, kws, now) <= spec_score(b, kws, now),
{
    lemma_ln_floor_monotonic(a.visit_count as int, b.visit_count as int);
}

/// Compute the relevance score of one record, in half-point units, given
/// already lower-cased keywords and the caller-supplied reference time.
/// Scoring never fails; with no keyword match a record can still earn units
/// from popularity and recency alone.
pub fn calculate_relevance_score(
    entry: &HistoryEntry,
    keywords: &Vec<String>,
    current_time: i64,
) -> (r: u128)
    ensures
        r == spec_score(*entry, keywords@.map_values(|k: String| k@), current_time as int),
{
    let ghost kws = keywords@.map_values(|k: String| k@);
    let title_l = lowercase(entry.title.as_str());
    let url_l = lowercase(entry.url.as_str());
    let title_chars = chars_vec(title_l.as_str());
    let url_chars = chars_vec(url_l.as_str());
    let mut score: u128 = 0;
    let mut i: usize = 0;
    while i < keywords.len()
        invariant
            kws == keywords@.map_values(|k: String| k@),
            title_chars@ == lower_of(entry.title@),
            url_chars@ == lower_of(entry.url@),
            i <= keywords@.len(),
            score == match_units(title_chars@, url_chars@, kws.take(i as int)),
            score <= 10 * i,
        decreases keywords@.len() - i,
    {
        let kw_chars = chars_vec(keywords[i].as_str());
        proof {
            assert(kws.take(i + 1).drop_last() =~= kws.take(i as int));
            assert(kws.take(i + 1).last() == kw_chars@);
        }
        if contains_sub(&title_chars, &kw_chars) {
            score = score + TITLE_MATCH_UNITS;
        }
        if contains_sub(&url_chars, &kw_chars) {
            score = score + URL_MATCH_UNITS;
        }
        i = i + 1;
    }
    proof {
        assert(kws.take(keywords@.len() as int) =~= kws);
    }
    score = score + ln_floor_units(entry.visit_count) as u128;
    let diff: i128 = current_time as i128 - entry.last_visit_time as i128;
    if diff < MS_PER_DAY {
        score = score + 4;
    } else if diff < MS_PER_WEEK {
        score = score + 2;
    } else if diff < MS_PER_MONTH {
        score = score + 1;
    }
    score
}

} // verus!
