//! Ranking, filtering and the combined query operation.

use history_search::filters::{filter_history_by_date_range, filter_history_by_keywords};
use history_search::pipeline::find_relevant_history;
use history_search::ranker::{limit_history_results, sort_by_relevance_with_keywords,
    sort_history_by_relevance};
use history_search::records::{HistoryEntry, SearchError};
use history_search::score::calculate_relevance_score;

fn entry(url: &str, title: &str, visits: u32, time: i64) -> HistoryEntry {
    HistoryEntry::new(url.to_string(), title.to_string(), visits, time)
}

#[test]
fn exact_score_single_keyword() {
    // Title match 6, URL match 4, ln(10) floored 2, same-instant visit 4.
    let e = entry("https://rust-lang.org", "Rust Programming Language", 10, 1234567890000);
    let keywords = vec!["rust".to_string()];
    let score = calculate_relevance_score(&e, &keywords, 1234567890000);
    assert_eq!(score, 16);
}

#[test]
fn exact_score_two_keywords() {
    // "programming" hits the title only; "rust" hits title and URL.
    let e = entry("https://rust-lang.org", "Rust Programming Language", 10, 1234567890000);
    let keywords = vec!["rust".to_string(), "programming".to_string()];
    let score = calculate_relevance_score(&e, &keywords, 1234567890000);
    assert_eq!(score, 22);
}

#[test]
fn score_zero_visits_clamped() {
    // No keywords, no visits, ancient timestamp: nothing contributes.
    let e = entry("https://a.com", "a", 0, 1);
    let score = calculate_relevance_score(&e, &Vec::new(), 1_700_000_000_000);
    assert_eq!(score, 0);
}

#[test]
fn score_monotonic_in_visit_count() {
    let lo = entry("https://a.com", "reading", 5, 1_600_000_000_000);
    let hi = entry("https://a.com", "reading", 500, 1_600_000_000_000);
    let keywords = vec!["reading".to_string()];
    let now = 1_600_000_500_000;
    assert!(
        calculate_relevance_score(&lo, &keywords, now)
            <= calculate_relevance_score(&hi, &keywords, now)
    );
}

#[test]
fn plain_sort_orders_and_breaks_ties() {
    let a = entry("https://a.com", "a", 5, 100);
    let b = entry("https://b.com", "b", 10, 50);
    let c = entry("https://c.com", "c", 5, 200);
    let sorted = sort_history_by_relevance(vec![a.clone(), b.clone(), c.clone()]);
    assert_eq!(sorted, vec![b, c, a]);
}

#[test]
fn plain_sort_is_stable_on_full_ties() {
    let first = entry("https://first.com", "one", 3, 700);
    let second = entry("https://second.com", "two", 3, 700);
    let sorted = sort_history_by_relevance(vec![first.clone(), second.clone()]);
    assert_eq!(sorted, vec![first, second]);
}

#[test]
fn plain_sort_idempotent() {
    let v = vec![
        entry("https://a.com", "a", 5, 100),
        entry("https://b.com", "b", 10, 50),
        entry("https://c.com", "c", 5, 200),
    ];
    let once = sort_history_by_relevance(v);
    let twice = sort_history_by_relevance(once.clone());
    assert_eq!(once, twice);
}

#[test]
fn scored_sort_puts_matches_first() {
    let misses = entry("https://other.org", "cooking notes", 4, 1_600_000_000_000);
    let hits = entry("https://rust-lang.org", "Rust guide", 4, 1_600_000_000_000);
    let sorted = sort_by_relevance_with_keywords(
        vec![misses.clone(), hits.clone()],
        vec!["rust".to_string()],
        1_600_000_000_000,
    );
    assert_eq!(sorted, vec![hits, misses]);
}

#[test]
fn scored_sort_idempotent() {
    let v = vec![
        entry("https://rust-lang.org", "Rust guide", 4, 1_600_000_000_000),
        entry("https://other.org", "cooking notes", 9, 1_600_000_000_000),
        entry("https://third.org", "more cooking", 9, 1_500_000_000_000),
    ];
    let kw = vec!["rust".to_string()];
    let once = sort_by_relevance_with_keywords(v, kw.clone(), 1_600_000_000_000);
    let twice = sort_by_relevance_with_keywords(once.clone(), kw, 1_600_000_000_000);
    assert_eq!(once, twice);
}

#[test]
fn raising_visits_never_lowers_plain_rank() {
    let rival = entry("https://rival.com", "r", 7, 500);
    let low = entry("https://mine.com", "m", 7, 500);
    let high = entry("https://mine.com", "m", 8, 500);
    // With equal counts the rival wins on input order; with one more visit
    // the record moves ahead, never behind.
    let before = sort_history_by_relevance(vec![rival.clone(), low.clone()]);
    assert_eq!(before[0], rival);
    let after = sort_history_by_relevance(vec![rival.clone(), high.clone()]);
    assert_eq!(after[0], high);
}

#[test]
fn scored_sort_lowercases_its_keywords() {
    let hits = entry("https://x.com", "Rust notes", 1, 1_600_000_000_000);
    let misses = entry("https://y.com", "other", 1, 1_600_000_000_000);
    let sorted = sort_by_relevance_with_keywords(
        vec![misses.clone(), hits.clone()],
        vec!["RUST".to_string()],
        1_600_000_000_000,
    );
    assert_eq!(sorted, vec![hits, misses]);
}

#[test]
fn zero_max_results_yields_empty() {
    let v = vec![entry("https://a.com", "rust", 3, 1_600_000_000_000)];
    let r = find_relevant_history(v, "rust", 0, 1_600_000_000_000).unwrap();
    assert!(r.is_empty());
}

#[test]
fn date_range_filter_is_inclusive() {
    let early = entry("https://a.com", "a", 1, 100);
    let mid = entry("https://b.com", "b", 1, 200);
    let late = entry("https://c.com", "c", 1, 300);
    let kept = filter_history_by_date_range(vec![early, mid.clone(), late.clone()], 200, 300);
    assert_eq!(kept, vec![mid, late]);
}

#[test]
fn keyword_filter_is_case_insensitive() {
    let matching = entry("https://site.com/one", "Deep RUST Tutorial", 1, 10);
    let other = entry("https://site.com/two", "gardening", 1, 10);
    let kept = filter_history_by_keywords(
        vec![matching.clone(), other],
        vec!["Rust".to_string()],
    );
    assert_eq!(kept, vec![matching]);
}

#[test]
fn limit_truncates_only_when_needed() {
    let a = entry("https://a.com", "a", 1, 1);
    let b = entry("https://b.com", "b", 2, 2);
    assert_eq!(limit_history_results(vec![a.clone(), b.clone()], 1), vec![a.clone()]);
    assert_eq!(limit_history_results(vec![a.clone(), b.clone()], 5), vec![a, b]);
}

#[test]
fn query_output_bounded_by_max_results_and_input() {
    let mut v = Vec::new();
    for i in 0..7u32 {
        v.push(entry(
            &format!("https://rust{}.example.com", i),
            "rust notes",
            i,
            1_600_000_000_000 + i as i64,
        ));
    }
    let r = find_relevant_history(v, "rust", 3, 1_600_000_100_000).unwrap();
    assert_eq!(r.len(), 3);
    let none = find_relevant_history(Vec::new(), "rust", 3, 1_600_000_100_000).unwrap();
    assert!(none.is_empty());
}

#[test]
fn query_too_long_is_rejected() {
    let v = vec![entry("https://a.com", "a", 1, 10)];
    let long_query = "a".repeat(1001);
    let r = find_relevant_history(v.clone(), &long_query, 5, 1_600_000_000_000);
    assert_eq!(r.unwrap_err(), SearchError::QueryTooLong);
    let edge_query = "a".repeat(1000);
    assert!(find_relevant_history(v, &edge_query, 5, 1_600_000_000_000).is_ok());
}

#[test]
fn error_message_names_the_cause() {
    assert_eq!(
        SearchError::QueryTooLong.message(),
        "Query string too long (max 1000 characters)"
    );
}

#[test]
fn stale_records_yield_empty_not_error() {
    let v = vec![
        entry("https://a.com", "a", 5, 0),
        entry("https://b.com", "b", 9, -20),
    ];
    let r = find_relevant_history(v, "anything", 10, 1_600_000_000_000).unwrap();
    assert!(r.is_empty());
}

#[test]
fn invalid_records_are_dropped_silently() {
    let good = entry("https://good.com", "rust talk", 2, 1_600_000_000_000);
    let no_url = entry("", "rust talk", 50, 1_600_000_000_000);
    let r = find_relevant_history(
        vec![no_url, good.clone()],
        "rust",
        10,
        1_600_000_000_000,
    )
    .unwrap();
    assert_eq!(r, vec![good]);
}

#[test]
fn large_input_without_keywords_stays_capped() {
    // Five thousand records and a stop-word-only query: the staged bound at
    // two thousand keeps the plain ranking cheap, and the result respects
    // max_results.
    let mut v = Vec::new();
    for i in 0..5000u32 {
        v.push(entry(
            &format!("https://site{}.example.com", i),
            "page",
            i % 97,
            1_600_000_000_000 + i as i64,
        ));
    }
    let r = find_relevant_history(v, "what did i", 10, 1_700_000_000_000).unwrap();
    assert_eq!(r.len(), 10);
    assert_eq!(r[0].visit_count, 96);
}

#[test]
fn query_without_keywords_uses_plain_ranking() {
    let busy = entry("https://busy.com", "b", 40, 100);
    let quiet = entry("https://quiet.com", "q", 1, 200);
    let r = find_relevant_history(
        vec![quiet.clone(), busy.clone()],
        "the of and",
        10,
        1_600_000_000_000,
    )
    .unwrap();
    assert_eq!(r, vec![busy, quiet]);
}
