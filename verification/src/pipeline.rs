//! The combined query operation: validity filtering, staged bounding,
//! tokenization, keyword filtering, ranking and truncation, composed into
//! one deterministic pipeline with a single boundary error.

use vstd::prelude::*;
use crate::filters::{filter_by_keywords_lowered, filter_valid_history, kw_pred, valid_pred};
use crate::ranker::{limit_history_results, sort_by_relevance_with_keywords,
    sort_history_by_recency, sort_history_by_relevance, spec_limit, spec_sort_plain,
    spec_sort_recency, spec_sort_scored, lemma_spec_sort_plain_len, lemma_spec_sort_recency_len,
    lemma_spec_sort_scored_len};
use crate::records::{HistoryEntry, SearchError};
use crate::text::lower_of;
use crate::tokenizer::{extract_keywords, spec_extract_keywords};

verus! {

/// Longest accepted query, in characters; anything longer is a boundary
/// error.
pub const MAX_QUERY_CHARS: usize = 1000;

/// Cap on the records entering the pipeline: when more survive the
/// validity filter, only the most recent ones are kept.
pub const MAX_BOUNDED_ENTRIES: usize = 2000;

/// Cap on the records entering the scoring stage: when more survive the
/// keyword filter, only the most recent ones are scored.
pub const MAX_SCORED_ENTRIES: usize = 10000;

/// The whole pipeline, as a function: validity filter; recency bound; then
/// either plain ranking (no keywords) or keyword filter, scoring bound and
/// scored ranking; and truncation to the caller's maximum.
pub open spec fn spec_find_relevant(s: Seq<HistoryEntry>, q: Seq<char>, maxr: int, now: int) -> Seq<
    HistoryEntry,
> {
    let valid = s.filter(valid_pred());
    let bounded = if valid.len() > MAX_BOUNDED_ENTRIES {
        spec_sort_recency(valid).take(MAX_BOUNDED_ENTRIES as int)
    } else {
        valid
    };
    let kws = spec_extract_keywords(q);
    if kws.len() == 0 {
        spec_limit(spec_sort_plain(bounded), maxr)
    } else {
        let matched = bounded.filter(kw_pred(kws));
        let capped = if matched.len() > MAX_SCORED_ENTRIES {
            spec_sort_recency(matched).take(MAX_SCORED_ENTRIES as int)
        } else {
            matched
        };
        spec_limit(spec_sort_scored(capped, kws.map_values(|w: Seq<char>| lower_of(w)), now), maxr)
    }
}

/// A filter over records that holds nowhere yields nothing.
proof fn lemma_filter_drops_all(s: Seq<HistoryEntry>, pred: spec_fn(HistoryEntry) -> bool)
    requires
        forall|j: int| 0 <= j < s.len() ==> !pred(s[j]),
    ensures
        s.filter(pred) == Seq::<HistoryEntry>::empty(),
    decreases s.len(),
{
    reveal_with_fuel(Seq::<HistoryEntry>::filter, 2);
    if s.len() > 0 {
        lemma_filter_drops_all(s.drop_last(), pred);
    }
}

/// Boundedness: the pipeline's output never exceeds the caller's maximum
/// nor the input length.
pub proof fn lemma_find_relevant_bounds(s: Seq<HistoryEntry>, q: Seq<char>, maxr: int, now: int)
    requires
        maxr >= 0,
    ensures
        spec_find_relevant(s, q, maxr, now).len() <= maxr,
        spec_find_relevant(s, q, maxr, now).len() <= s.len(),
{
    broadcast use vstd::seq_lib::group_filter_ensures;

    let valid = s.filter(valid_pred());
    let bounded = if valid.len() > MAX_BOUNDED_ENTRIES {
        spec_sort_recency(valid).take(MAX_BOUNDED_ENTRIES as int)
    } else {
        valid
    };
    lemma_spec_sort_recency_len(valid);
    let kws = spec_extract_keywords(q);
    if kws.len() == 0 {
        lemma_spec_sort_plain_len(bounded);
    } else {
        let matched = bounded.filter(kw_pred(kws));
        let capped = if matched.len() > MAX_SCORED_ENTRIES {
            spec_sort_recency(matched).take(MAX_SCORED_ENTRIES as int)
        } else {
            matched
        };
        lemma_spec_sort_recency_len(matched);
        lemma_spec_sort_scored_len(capped, kws.map_values(|w: Seq<char>| lower_of(w)), now);
    }
}

/// Empty-result law: when no record has a positive timestamp, the pipeline
/// yields the empty sequence — never an error.
pub proof fn lemma_find_relevant_all_stale_empty(
    s: Seq<HistoryEntry>,
    q: Seq<char>,
    maxr: int,
    now: int,
)
    requires
        maxr >= 0,
        forall|j: int| 0 <= j < s.len() ==> s[j].last_visit_time <= 0,
    ensures
        spec_find_relevant(s, q, maxr, now) == Seq::<HistoryEntry>::empty(),
{
    assert forall|j: int| 0 <= j < s.len() implies !valid_pred()(s[j]) by {}
    lemma_filter_drops_all(s, valid_pred());
    lemma_find_relevant_of_no_valid(s, q, maxr, now);
}

/// With nothing surviving the validity filter, every later stage is empty.
proof fn lemma_find_relevant_of_no_valid(s: Seq<HistoryEntry>, q: Seq<char>, maxr: int, now: int)
    requires
        maxr >= 0,
        s.filter(valid_pred()) == Seq::<HistoryEntry>::empty(),
    ensures
        spec_find_relevant(s, q, maxr, now) == Seq::<HistoryEntry>::empty(),
{
    broadcast use vstd::seq_lib::group_filter_ensures;

    let empty = Seq::<HistoryEntry>::empty();
    let kws = spec_extract_keywords(q);
    lemma_spec_sort_plain_len(empty);
    lemma_spec_sort_recency_len(empty);
    assert(empty.filter(kw_pred(kws)).len() <= 0);
    assert(empty.filter(kw_pred(kws)) =~= empty);
    lemma_spec_sort_scored_len(empty, kws.map_values(|w: Seq<char>| lower_of(w)), now);
    assert(spec_sort_plain(empty) =~= empty);
    assert(spec_sort_scored(empty, kws.map_values(|w: Seq<char>| lower_of(w)), now) =~= empty);
    assert(spec_find_relevant(s, q, maxr, now) =~= empty);
}

/// The combined query operation.  Rejects only an oversized query; invalid
/// records and empty intermediate stages are handled silently.  On success
/// the result is exactly the staged pipeline of the specification, and its
/// length is bounded by both `max_results` and the input length.
pub fn find_relevant_history(
    entries: Vec<HistoryEntry>,
    query: &str,
    max_results: usize,
    current_time: i64,
) -> (r: Result<Vec<HistoryEntry>, SearchError>)
    ensures
        query@.len() > MAX_QUERY_CHARS <==> r is Err,
        r matches Err(e) ==> e == SearchError::QueryTooLong,
        r matches Ok(v) ==> v@ == spec_find_relevant(
            entries@,
            query@,
            max_results as int,
            current_time as int,
        ),
        r matches Ok(v) ==> v@.len() <= max_results && v@.len() <= entries@.len(),
{
    let ghost q = query@;
    let ghost maxr = max_results as int;
    let ghost now = current_time as int;
    let qlen = query.unicode_len();
    if qlen > MAX_QUERY_CHARS {
        return Err(SearchError::QueryTooLong);
    }
    proof {
        lemma_find_relevant_bounds(entries@, q, maxr, now);
        entries@.lemma_filter_len(valid_pred());
    }
    let valid = filter_valid_history(entries);
    let ghost gvalid = entries@.filter(valid_pred());
    let mut bounded = valid;
    if bounded.len() > MAX_BOUNDED_ENTRIES {
        bounded = sort_history_by_recency(bounded);
        bounded.truncate(MAX_BOUNDED_ENTRIES);
        proof {
            lemma_spec_sort_recency_len(gvalid);
            assert(bounded@ =~= spec_sort_recency(gvalid).take(MAX_BOUNDED_ENTRIES as int));
        }
    }
    let ghost gbounded = if gvalid.len() > MAX_BOUNDED_ENTRIES {
        spec_sort_recency(gvalid).take(MAX_BOUNDED_ENTRIES as int)
    } else {
        gvalid
    };
    let keywords = extract_keywords(query);
    let ghost kws = spec_extract_keywords(q);
    let result = if keywords.is_empty() {
        proof {
            assert(kws.len() == keywords@.map_values(|s: String| s@).len());
        }
        let ranked = sort_history_by_relevance(bounded);
        limit_history_results(ranked, max_results)
    } else {
        let matched = filter_by_keywords_lowered(bounded, &keywords);
        proof {
            assert(keywords@.map_values(|k: String| k@) =~= kws);
            assert(matched@ == gbounded.filter(kw_pred(kws)));
        }
        let ghost gmatched = gbounded.filter(kw_pred(kws));
        let mut capped = matched;
        if capped.len() > MAX_SCORED_ENTRIES {
            capped = sort_history_by_recency(capped);
            capped.truncate(MAX_SCORED_ENTRIES);
            proof {
                lemma_spec_sort_recency_len(gmatched);
                assert(capped@ =~= spec_sort_recency(gmatched).take(MAX_SCORED_ENTRIES as int));
            }
        }
        let scored = sort_by_relevance_with_keywords(capped, keywords, current_time);
        proof {
            assert(scored@ == spec_sort_scored(
                capped@,
                kws.map_values(|w: Seq<char>| lower_of(w)),
                now,
            )) by {
                assert(keywords@.map_values(|k: String| lower_of(k@)) =~= kws.map_values(
                    |w: Seq<char>| lower_of(w),
                ));
            }
        }
        limit_history_results(scored, max_results)
    };
    proof {
        assert(result@ == spec_find_relevant(entries@, q, maxr, now));
    }
    Ok(result)
}

} // verus!
