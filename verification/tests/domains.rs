//! Domain extraction edge cases and the domain aggregator.

use history_search::aggregate::analyze_domain_patterns;
use history_search::domain::extract_domain;
use history_search::records::HistoryEntry;
use history_search::tokenizer::extract_keywords;

fn entry(url: &str, title: &str, visits: u32, time: i64) -> HistoryEntry {
    HistoryEntry::new(url.to_string(), title.to_string(), visits, time)
}

#[test]
fn domain_without_scheme_is_returned_unchanged() {
    assert_eq!(extract_domain("just-a-host.com/path"), "just-a-host.com/path");
    assert_eq!(extract_domain(""), "");
}

#[test]
fn domain_keeps_port_and_stops_at_first_slash() {
    assert_eq!(extract_domain("https://host.com:8080/a/b"), "host.com:8080");
    assert_eq!(extract_domain("https://host.com"), "host.com");
}

#[test]
fn aggregation_groups_sums_and_ranks() {
    let v = vec![
        entry("https://example.com/a", "a", 5, 10),
        entry("https://test.org/x", "x", 100, 10),
        entry("https://example.com/b", "b", 7, 10),
    ];
    let stats = analyze_domain_patterns(v);
    assert_eq!(stats.len(), 2);
    assert_eq!(stats[0].domain, "test.org");
    assert_eq!(stats[0].entry_count, 1);
    assert_eq!(stats[0].total_visits, 100);
    assert_eq!(stats[1].domain, "example.com");
    assert_eq!(stats[1].entry_count, 2);
    assert_eq!(stats[1].total_visits, 12);
}

#[test]
fn aggregation_ties_keep_first_appearance_order() {
    let v = vec![
        entry("https://one.com/", "a", 4, 10),
        entry("https://two.com/", "b", 4, 10),
    ];
    let stats = analyze_domain_patterns(v);
    assert_eq!(stats[0].domain, "one.com");
    assert_eq!(stats[1].domain, "two.com");
}

#[test]
fn aggregation_skips_invalid_records_and_caps_at_twenty() {
    let mut v = vec![entry("https://gone.com/", "dropped", 999, 0)];
    for i in 0..25u32 {
        v.push(entry(
            &format!("https://site{}.com/", i),
            "s",
            i + 1,
            10,
        ));
    }
    let stats = analyze_domain_patterns(v);
    assert_eq!(stats.len(), 20);
    assert_eq!(stats[0].domain, "site24.com");
    assert!(stats.iter().all(|s| s.domain != "gone.com"));
}

#[test]
fn tokenizer_strips_punctuation_and_short_words() {
    let kws = extract_keywords("go-to rust-lang.org now!!");
    // Whitespace splits words; everything non-alphanumeric inside a word is
    // stripped before the length and stop-word checks.
    assert_eq!(kws, vec!["goto".to_string(), "rustlangorg".to_string(), "now".to_string()]);
}

#[test]
fn tokenizer_keeps_duplicates_in_first_appearance_order() {
    let kws = extract_keywords("Rust rust RUST");
    assert_eq!(kws, vec!["rust".to_string(), "rust".to_string(), "rust".to_string()]);
}

#[test]
fn tokenizer_of_unusable_text_is_empty() {
    assert!(extract_keywords("").is_empty());
    assert!(extract_keywords("of to we a i").is_empty());
    assert!(extract_keywords("!!! ... ???").is_empty());
}
