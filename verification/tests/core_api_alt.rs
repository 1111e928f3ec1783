//! The same basic checks as the primary suite, kept under their own names
//! so both halves of the API surface stay covered.

use history_search::domain::extract_domain;
use history_search::records::{HistoryEntry, HistoryQuery};
use history_search::score::calculate_relevance_score;
use history_search::tokenizer::extract_keywords;

#[test]
fn lib_test_history_entry_creation() {
    let entry = HistoryEntry::new(
        "https://example.com".to_string(),
        "Example".to_string(),
        5,
        1234567890,
    );
    assert_eq!(entry.url, "https://example.com");
    assert_eq!(entry.visit_count, 5);
}

#[test]
fn lib_test_history_query_creation() {
    let query = HistoryQuery::new("test query".to_string(), 10);
    assert_eq!(query.text, "test query");
    assert_eq!(query.max_results, 10);
}

#[test]
fn lib_test_extract_keywords() {
    let keywords = extract_keywords("What did I visit about Rust programming?");
    assert!(keywords.contains(&"visit".to_string()));
    assert!(keywords.contains(&"rust".to_string()));
    assert!(keywords.contains(&"programming".to_string()));
    assert!(!keywords.contains(&"what".to_string())); // stop word
    assert!(!keywords.contains(&"did".to_string())); // stop word
}

#[test]
fn lib_test_extract_domain() {
    assert_eq!(extract_domain("https://example.com/path"), "example.com");
    assert_eq!(extract_domain("http://test.org/page"), "test.org");
    assert_eq!(extract_domain("https://sub.domain.com"), "sub.domain.com");
}

#[test]
fn lib_test_relevance_score() {
    let entry = HistoryEntry::new(
        "https://rust-lang.org".to_string(),
        "Rust Programming Language".to_string(),
        10,
        1234567890000,
    );
    let keywords = vec!["rust".to_string(), "programming".to_string()];
    let score = calculate_relevance_score(&entry, &keywords, 1234567890000);
    assert!(score > 0);
}
