//! The formatter: renders ranked records into newline-delimited text
//! blocks, appending whole blocks in input order until the next one would
//! exceed the caller's character budget.  Truncation is greedy and
//! order-preserving; a partial block is never emitted.

use vstd::prelude::*;
use vstd::string::{StrSliceExecFns, StringExecFns};
use crate::records::HistoryEntry;
use crate::score::{MS_PER_DAY, MS_PER_WEEK};
use crate::text::{dec_string_of, decimal_string};

verus! {

/// The humanized age of a visit relative to the reference time: "Today"
/// under one day, "Yesterday" under two, whole days under a week, whole
/// weeks beyond that.
pub open spec fn rel_time_chars(now: int, t: int) -> Seq<char> {
    let diff = now - t;
    if diff < MS_PER_DAY {
        "Today"@
    } else if diff < 2 * MS_PER_DAY {
        "Yesterday"@
    } else if diff < MS_PER_WEEK {
        dec_string_of(diff / (MS_PER_DAY as int)) + " days ago"@
    } else {
        dec_string_of((diff / (MS_PER_DAY as int)) / 7) + " weeks ago"@
    }
}

/// One formatted block: URL, title, visit count and humanized last visit,
/// each on its own line, with a blank line after.
pub open spec fn spec_format_block(e: HistoryEntry, now: int) -> Seq<char> {
    "URL: "@ + e.url@ + "\nTitle: "@ + e.title@ + "\nVisits: "@ + dec_string_of(
        e.visit_count as int,
    ) + "\nLast Visit: "@ + rel_time_chars(now, e.last_visit_time as int) + "\n\n"@
}

/// The greedy, order-preserving rendering: blocks are appended front to
/// back while they fit into the budget; the first block that would
/// overflow it stops the rendering entirely.
pub open spec fn spec_format(s: Seq<HistoryEntry>, now: int, max_chars: int, used: int) -> Seq<
    char,
>
    decreases s.len(),
{
    if s.len() == 0 {
        Seq::empty()
    } else {
        let b = spec_format_block(s.first(), now);
        if used + b.len() > max_chars {
            Seq::empty()
        } else {
            b + spec_format(s.drop_first(), now, max_chars, used + b.len())
        }
    }
}

/// The first `k` blocks of a record sequence, concatenated without any
/// budget.
pub open spec fn blocks_concat(s: Seq<HistoryEntry>, now: int, k: int) -> Seq<char>
    decreases k,
{
    if k <= 0 {
        Seq::empty()
    } else {
        spec_format_block(s.first(), now) + blocks_concat(s.drop_first(), now, k - 1)
    }
}

/// A budget smaller than the first block yields the empty rendering.
pub proof fn lemma_format_budget_too_small(s: Seq<HistoryEntry>, now: int, max_chars: int)
    requires
        s.len() > 0,
        spec_format_block(s.first(), now).len() > max_chars,
    ensures
        spec_format(s, now, max_chars, 0) == Seq::<char>::empty(),
{
}

/// The rendering is always a concatenation of whole leading blocks: as
/// many as fit the budget, and never a partial one.
pub proof fn lemma_format_admits_whole_blocks(s: Seq<HistoryEntry>, now: int, max_chars: int)
    requires
        max_chars >= 0,
    ensures
        exists|k: int|
            0 <= k <= s.len() && spec_format(s, now, max_chars, 0) == blocks_concat(s, now, k)
                && #[trigger] blocks_concat(s, now, k).len() <= max_chars && (k < s.len()
                ==> blocks_concat(s, now, k).len() + spec_format_block(s[k], now).len()
                > max_chars),
{
    lemma_format_whole_blocks_gen(s, now, max_chars, 0);
}

/// Generalization over the budget already used: the remaining rendering is
/// the concatenation of the next `k` whole blocks, maximal for the budget.
proof fn lemma_format_whole_blocks_gen(s: Seq<HistoryEntry>, now: int, max_chars: int, used: int)
    requires
        0 <= used <= max_chars,
    ensures
        exists|k: int|
            0 <= k <= s.len() && spec_format(s, now, max_chars, used) == blocks_concat(s, now, k)
                && used + #[trigger] blocks_concat(s, now, k).len() <= max_chars && (k < s.len()
                ==> used + blocks_concat(s, now, k).len() + spec_format_block(s[k], now).len()
                > max_chars),
    decreases s.len(),
{
    if s.len() == 0 {
        assert(blocks_concat(s, now, 0) == Seq::<char>::empty());
        assert(spec_format(s, now, max_chars, used) == blocks_concat(s, now, 0) && used
            + blocks_concat(s, now, 0).len() <= max_chars);
    } else {
        let b = spec_format_block(s.first(), now);
        if used + b.len() > max_chars {
            assert(blocks_concat(s, now, 0) == Seq::<char>::empty());
            assert(s[0] == s.first());
            assert(spec_format(s, now, max_chars, used) == blocks_concat(s, now, 0) && used
                + blocks_concat(s, now, 0).len() <= max_chars && used + blocks_concat(
                s,
                now,
                0,
            ).len() + spec_format_block(s[0], now).len() > max_chars);
        } else {
            lemma_format_whole_blocks_gen(s.drop_first(), now, max_chars, used + b.len());
            let k0 = choose|k: int|
                0 <= k <= s.drop_first().len() && spec_format(
                    s.drop_first(),
                    now,
                    max_chars,
                    used + b.len(),
                ) == blocks_concat(s.drop_first(), now, k) && used + b.len()
                    + #[trigger] blocks_concat(s.drop_first(), now, k).len() <= max_chars && (k
                    < s.drop_first().len() ==> used + b.len() + blocks_concat(
                    s.drop_first(),
                    now,
                    k,
                ).len() + spec_format_block(s.drop_first()[k], now).len() > max_chars);
            let k = k0 + 1;
            assert(blocks_concat(s, now, k) == b + blocks_concat(s.drop_first(), now, k0));
            if k < s.len() {
                assert(s.drop_first()[k0] == s[k]);
            }
            assert(spec_format(s, now, max_chars, used) == blocks_concat(s, now, k) && used
                + blocks_concat(s, now, k).len() <= max_chars && (k < s.len() ==> used
                + blocks_concat(s, now, k).len() + spec_format_block(s[k], now).len()
                > max_chars));
        }
    }
}

/// The humanized age string of one visit.
fn rel_time_string(current_time: i64, t: i64) -> (r: String)
    ensures
        r@ == rel_time_chars(current_time as int, t as int),
{
    let diff: i128 = current_time as i128 - t as i128;
    if diff < MS_PER_DAY {
        "Today".to_owned()
    } else if diff < 2 * MS_PER_DAY {
        "Yesterday".to_owned()
    } else {
        proof {
            assert(diff <= i64::MAX - i64::MIN);
        }
        let du: u64 = diff as u64;
        let days: u64 = du / 86400000;
        if diff < MS_PER_WEEK {
            let mut s = decimal_string(days);
            s.append(" days ago");
            s
        } else {
            let weeks: u64 = days / 7;
            let mut s = decimal_string(weeks);
            s.append(" weeks ago");
            s
        }
    }
}

/// One record rendered as its text block.
fn format_block(e: &HistoryEntry, current_time: i64) -> (b: String)
    ensures
        b@ == spec_format_block(*e, current_time as int),
{
    let mut s = String::new();
    s.append("URL: ");
    s.append(e.url.as_str());
    s.append("\nTitle: ");
    s.append(e.title.as_str());
    s.append("\nVisits: ");
    let visits = decimal_string(e.visit_count as u64);
    s.append(visits.as_str());
    s.append("\nLast Visit: ");
    let when = rel_time_string(current_time, e.last_visit_time);
    s.append(when.as_str());
    s.append("\n\n");
    s
}

/// Render records into a text block bounded by `max_chars` characters.
/// Whole blocks are appended in input order until one no longer fits; that
/// block and everything after it are dropped.  Partial output is never an
/// error, and a budget smaller than the first block yields an empty string.
pub fn format_history_for_llm(entries: &Vec<HistoryEntry>, max_chars: usize, current_time: i64)
    -> (r: String)
    ensures
        r@ == spec_format(entries@, current_time as int, max_chars as int, 0),
{
    let ghost now = current_time as int;
    let ghost maxc = max_chars as int;
    let mut result = String::new();
    let mut used: usize = 0;
    let mut i: usize = 0;
    let mut stopped = false;
    proof {
        assert(entries@.skip(0) =~= entries@);
        assert(Seq::<char>::empty() + spec_format(entries@, now, maxc, 0) =~= spec_format(
            entries@,
            now,
            maxc,
            0,
        ));
    }
    while i < entries.len() && !stopped
        invariant
            now == current_time as int,
            maxc == max_chars as int,
            i <= entries@.len(),
            used <= max_chars,
            used == result@.len(),
            spec_format(entries@, now, maxc, 0) == result@ + (if stopped {
                Seq::<char>::empty()
            } else {
                spec_format(entries@.skip(i as int), now, maxc, used as int)
            }),
        decreases entries@.len() - i, (if stopped {
            0int
        } else {
            1int
        }),
    {
        let b = format_block(&entries[i], current_time);
        let bl = b.as_str().unicode_len();
        proof {
            assert(entries@.skip(i as int).first() == entries@[i as int]);
            assert(entries@.skip(i as int).drop_first() =~= entries@.skip(i + 1));
        }
        let ghost prev_result = result@;
        let ghost prev_used = used as int;
        let ghost rest = entries@.skip(i as int);
        if bl > max_chars - used {
            stopped = true;
            proof {
                reveal_with_fuel(spec_format, 2);
                assert(rest.len() > 0);
                assert(b@ == spec_format_block(entries@[i as int], now));
                assert(bl == b@.len());
                assert(rest.first() == entries@[i as int]);
                assert(bl > maxc - prev_used);
                assert(prev_used + spec_format_block(rest.first(), now).len() > maxc);
                assert(spec_format(rest, now, maxc, prev_used) == Seq::<char>::empty());
            }
        } else {
            result.append(b.as_str());
            used = used + bl;
            i = i + 1;
            proof {
                reveal_with_fuel(spec_format, 2);
                assert(rest.len() > 0);
                assert(prev_used + spec_format_block(rest.first(), now).len() <= maxc);
                assert(spec_format(rest, now, maxc, prev_used) == b@ + spec_format(
                    entries@.skip(i as int),
                    now,
                    maxc,
                    used as int,
                ));
                assert((prev_result + b@) + spec_format(entries@.skip(i as int), now, maxc, used as int)
                    =~= prev_result + (b@ + spec_format(
                    entries@.skip(i as int),
                    now,
                    maxc,
                    used as int,
                )));
            }
        }
    }
    proof {
        if !stopped {
            assert(entries@.skip(entries@.len() as int) =~= Seq::<HistoryEntry>::empty());
        }
        assert(result@ =~= result@ + Seq::<char>::empty());
    }
    result
}

} // verus!
