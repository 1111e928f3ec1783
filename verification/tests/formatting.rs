//! The formatter: block layout, humanized times, and the character budget.

use history_search::format::format_history_for_llm;
use history_search::records::HistoryEntry;

fn entry(url: &str, title: &str, visits: u32, time: i64) -> HistoryEntry {
    HistoryEntry::new(url.to_string(), title.to_string(), visits, time)
}

const DAY_MS: i64 = 86_400_000;
const NOW: i64 = 1_700_000_000_000;

#[test]
fn block_layout_and_today() {
    let v = vec![entry("https://a.com", "T", 5, NOW)];
    let text = format_history_for_llm(&v, 10_000, NOW);
    assert_eq!(text, "URL: https://a.com\nTitle: T\nVisits: 5\nLast Visit: Today\n\n");
}

#[test]
fn humanized_times() {
    let yesterday = vec![entry("https://a.com", "T", 1, NOW - DAY_MS - 1)];
    assert!(format_history_for_llm(&yesterday, 10_000, NOW).contains("Last Visit: Yesterday\n"));
    // Exactly one day old is no longer "Today".
    let on_the_line = vec![entry("https://a.com", "T", 1, NOW - DAY_MS)];
    assert!(format_history_for_llm(&on_the_line, 10_000, NOW).contains("Last Visit: Yesterday\n"));
    let three_days = vec![entry("https://a.com", "T", 1, NOW - 3 * DAY_MS)];
    assert!(format_history_for_llm(&three_days, 10_000, NOW).contains("Last Visit: 3 days ago\n"));
    let two_weeks = vec![entry("https://a.com", "T", 1, NOW - 15 * DAY_MS)];
    assert!(format_history_for_llm(&two_weeks, 10_000, NOW).contains("Last Visit: 2 weeks ago\n"));
}

#[test]
fn visits_are_decimal() {
    let v = vec![entry("https://a.com", "T", 5709, NOW)];
    assert!(format_history_for_llm(&v, 10_000, NOW).contains("Visits: 5709\n"));
}

#[test]
fn budget_below_one_block_yields_empty_string() {
    let v = vec![entry("https://a.com", "T", 5, NOW)];
    let full = format_history_for_llm(&v, 10_000, NOW);
    let block_chars = full.chars().count();
    assert!(block_chars > 0);
    assert_eq!(format_history_for_llm(&v, block_chars - 1, NOW), "");
    assert_eq!(format_history_for_llm(&v, block_chars, NOW), full);
}

#[test]
fn budget_admits_only_whole_blocks() {
    let one = entry("https://a.com", "T", 5, NOW);
    let two = entry("https://b.com", "U", 6, NOW);
    let first_only = format_history_for_llm(&vec![one.clone()], 10_000, NOW);
    let both = vec![one, two];
    let full = format_history_for_llm(&both, 10_000, NOW);
    let budget = first_only.chars().count() + 10;
    assert!(budget < full.chars().count());
    // Room for one block and a bit more: exactly one whole block comes out.
    assert_eq!(format_history_for_llm(&both, budget, NOW), first_only);
}

#[test]
fn order_is_preserved_not_reordered() {
    let small = entry("https://small.com", "s", 1, NOW);
    let big = entry("https://big.com", "b", 900, NOW);
    let text = format_history_for_llm(&vec![small, big], 10_000, NOW);
    let small_at = text.find("small.com").unwrap();
    let big_at = text.find("big.com").unwrap();
    assert!(small_at < big_at);
}
