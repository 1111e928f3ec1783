//! The filter stage: the inclusive date-range filter, the keyword
//! containment filter, and the validity filter that silently drops
//! structurally implausible records before scoring.

use vstd::prelude::*;
use vstd::string::StrSliceExecFns;
use crate::matching::{contains_sub, spec_contains_sub};
use crate::records::{HistoryEntry, FIELD_LENGTH_CEILING};
use crate::text::{chars_vec, lower_of, lowercase, lowercase_all};

verus! {

/// The date-range predicate: last visit inside `[start, end]`, inclusive.
pub open spec fn date_pred(start: int, end: int) -> spec_fn(HistoryEntry) -> bool {
    |e: HistoryEntry| start <= e.last_visit_time <= end
}

/// A record matches a keyword list when some keyword occurs in its
/// lower-cased URL or its lower-cased title.
pub open spec fn entry_matches(e: HistoryEntry, kws: Seq<Seq<char>>) -> bool {
    exists|i: int|
        0 <= i < kws.len() && (spec_contains_sub(lower_of(e.url@), kws[i]) || spec_contains_sub(
            lower_of(e.title@),
            kws[i],
        ))
}

/// The keyword predicate for a fixed keyword list.
pub open spec fn kw_pred(kws: Seq<Seq<char>>) -> spec_fn(HistoryEntry) -> bool {
    |e: HistoryEntry| entry_matches(e, kws)
}

/// The validity predicate as a closure.
pub open spec fn valid_pred() -> spec_fn(HistoryEntry) -> bool {
    |e: HistoryEntry| e.is_valid()
}

/// Keep the records whose last visit lies in `[start_time, end_time]`.
pub fn filter_history_by_date_range(
    entries: Vec<HistoryEntry>,
    start_time: i64,
    end_time: i64,
) -> (r: Vec<HistoryEntry>)
    ensures
        r@ == entries@.filter(date_pred(start_time as int, end_time as int)),
{
    let ghost pred = date_pred(start_time as int, end_time as int);
    proof {
        assert(forall|x: HistoryEntry| #[trigger] pred(x) == (start_time <= x.last_visit_time
            <= end_time));
    }
    let ghost orig = entries@;
    let mut input = entries;
    let n = input.len();
    let mut out: Vec<HistoryEntry> = Vec::new();
    let mut i: usize = 0;
    proof {
        orig.take(0).lemma_filter_len(pred);
        assert(orig.take(0).filter(pred) =~= Seq::<HistoryEntry>::empty());
    }
    while input.len() > 0
        invariant
            forall|x: HistoryEntry| #[trigger] pred(x) == (start_time <= x.last_visit_time
                <= end_time),
            n == orig.len(),
            i + input@.len() == n,
            input@ == orig.skip(i as int),
            out@ == orig.take(i as int).filter(pred),
        decreases input@.len(),
    {
        let e = input.remove(0);
        proof {
            assert(e == orig[i as int]);
            assert(input@ =~= orig.skip(i + 1));
            assert(orig.take(i + 1).drop_last() =~= orig.take(i as int));
            assert(orig.take(i + 1).last() == orig[i as int]);
            reveal_with_fuel(Seq::<HistoryEntry>::filter, 2);
        }
        if start_time <= e.last_visit_time && e.last_visit_time <= end_time {
            proof {
                assert(pred(e));
            }
            out.push(e);
        } else {
            proof {
                assert(!pred(e));
            }
        }
        i = i + 1;
    }
    proof {
        assert(orig.take(n as int) =~= orig);
    }
    out
}

/// The character lists of a list of strings.
fn to_char_lists(kws: &Vec<String>) -> (r: Vec<Vec<char>>)
    ensures
        r@.len() == kws@.len(),
        forall|j: int| 0 <= j < kws@.len() ==> #[trigger] r@[j]@ == kws@[j]@,
{
    let mut r: Vec<Vec<char>> = Vec::new();
    let mut i: usize = 0;
    while i < kws.len()
        invariant
            i <= kws@.len(),
            r@.len() == i,
            forall|j: int| 0 <= j < i ==> #[trigger] r@[j]@ == kws@[j]@,
        decreases kws@.len() - i,
    {
        r.push(chars_vec(kws[i].as_str()));
        i = i + 1;
    }
    r
}

/// Whether one record matches any of the (already lower-cased) keywords.
fn entry_matches_exec(e: &HistoryEntry, kw_chars: &Vec<Vec<char>>, Ghost(kws): Ghost<
    Seq<Seq<char>>,
>) -> (r: bool)
    requires
        kw_chars@.len() == kws.len(),
        forall|j: int| 0 <= j < kws.len() ==> #[trigger] kw_chars@[j]@ == kws[j],
    ensures
        r == entry_matches(*e, kws),
{
    let url_chars = chars_vec(lowercase(e.url.as_str()).as_str());
    let title_chars = chars_vec(lowercase(e.title.as_str()).as_str());
    let mut j: usize = 0;
    while j < kw_chars.len()
        invariant
            url_chars@ == lower_of(e.url@),
            title_chars@ == lower_of(e.title@),
            kw_chars@.len() == kws.len(),
            forall|m: int| 0 <= m < kws.len() ==> #[trigger] kw_chars@[m]@ == kws[m],
            j <= kws.len(),
            forall|m: int|
                0 <= m < j ==> !spec_contains_sub(lower_of(e.url@), #[trigger] kws[m])
                    && !spec_contains_sub(lower_of(e.title@), kws[m]),
        decreases kws.len() - j,
    {
        if contains_sub(&url_chars, &kw_chars[j]) || contains_sub(&title_chars, &kw_chars[j]) {
            return true;
        }
        j = j + 1;
    }
    false
}

/// Keep the records that match at least one keyword, the keywords taken
/// exactly as given (already normalized).
pub(crate) fn filter_by_keywords_lowered(entries: Vec<HistoryEntry>, keywords: &Vec<String>) -> (r:
    Vec<HistoryEntry>)
    ensures
        r@ == entries@.filter(kw_pred(keywords@.map_values(|k: String| k@))),
{
    let ghost kws = keywords@.map_values(|k: String| k@);
    let ghost pred = kw_pred(kws);
    proof {
        assert(forall|x: HistoryEntry| #[trigger] pred(x) == entry_matches(x, kws));
    }
    let kw_chars = to_char_lists(keywords);
    let ghost orig = entries@;
    let mut input = entries;
    let n = input.len();
    let mut out: Vec<HistoryEntry> = Vec::new();
    let mut i: usize = 0;
    proof {
        orig.take(0).lemma_filter_len(pred);
        assert(orig.take(0).filter(pred) =~= Seq::<HistoryEntry>::empty());
    }
    while input.len() > 0
        invariant
            forall|x: HistoryEntry| #[trigger] pred(x) == entry_matches(x, kws),
            kw_chars@.len() == kws.len(),
            forall|j: int| 0 <= j < kws.len() ==> #[trigger] kw_chars@[j]@ == kws[j],
            n == orig.len(),
            i + input@.len() == n,
            input@ == orig.skip(i as int),
            out@ == orig.take(i as int).filter(pred),
        decreases input@.len(),
    {
        let e = input.remove(0);
        proof {
            assert(e == orig[i as int]);
            assert(input@ =~= orig.skip(i + 1));
            assert(orig.take(i + 1).drop_last() =~= orig.take(i as int));
            assert(orig.take(i + 1).last() == orig[i as int]);
            reveal_with_fuel(Seq::<HistoryEntry>::filter, 2);
        }
        if entry_matches_exec(&e, &kw_chars, Ghost(kws)) {
            proof {
                assert(pred(e));
            }
            out.push(e);
        } else {
            proof {
                assert(!pred(e));
            }
        }
        i = i + 1;
    }
    proof {
        assert(orig.take(n as int) =~= orig);
    }
    out
}

/// Keep the records where any keyword is a substring of the lower-cased
/// title or the lower-cased URL.  The keywords are lower-cased here.
pub fn filter_history_by_keywords(entries: Vec<HistoryEntry>, keywords: Vec<String>) -> (r: Vec<
    HistoryEntry,
>)
    ensures
        r@ == entries@.filter(kw_pred(keywords@.map_values(|k: String| lower_of(k@)))),
{
    let keywords_lower = lowercase_all(&keywords);
    let r = filter_by_keywords_lowered(entries, &keywords_lower);
    proof {
        assert(keywords_lower@.map_values(|k: String| k@) =~= keywords@.map_values(
            |k: String| lower_of(k@),
        ));
    }
    r
}

/// Whether one record passes the validity filter.
fn is_valid_exec(e: &HistoryEntry) -> (r: bool)
    ensures
        r == e.is_valid(),
{
    let url_len = e.url.as_str().unicode_len();
    let title_len = e.title.as_str().unicode_len();
    url_len > 0 && e.last_visit_time > 0 && url_len < FIELD_LENGTH_CEILING && title_len
        < FIELD_LENGTH_CEILING
}

/// The validity filter: silently drop records with an empty URL, a
/// non-positive timestamp, or an oversized URL or title.  Never an error.
pub fn filter_valid_history(entries: Vec<HistoryEntry>) -> (r: Vec<HistoryEntry>)
    ensures
        r@ == entries@.filter(valid_pred()),
{
    let ghost pred = valid_pred();
    proof {
        assert(forall|x: HistoryEntry| #[trigger] pred(x) == x.is_valid());
    }
    let ghost orig = entries@;
    let mut input = entries;
    let n = input.len();
    let mut out: Vec<HistoryEntry> = Vec::new();
    let mut i: usize = 0;
    proof {
        orig.take(0).lemma_filter_len(pred);
        assert(orig.take(0).filter(pred) =~= Seq::<HistoryEntry>::empty());
    }
    while input.len() > 0
        invariant
            n == orig.len(),
            i + input@.len() == n,
            input@ == orig.skip(i as int),
            forall|x: HistoryEntry| #[trigger] pred(x) == x.is_valid(),
            out@ == orig.take(i as int).filter(pred),
        decreases input@.len(),
    {
        let e = input.remove(0);
        proof {
            assert(e == orig[i as int]);
            assert(input@ =~= orig.skip(i + 1));
            assert(orig.take(i + 1).drop_last() =~= orig.take(i as int));
            assert(orig.take(i + 1).last() == orig[i as int]);
            reveal_with_fuel(Seq::<HistoryEntry>::filter, 2);
        }
        if is_valid_exec(&e) {
            proof {
                assert(pred(e));
            }
            out.push(e);
        } else {
            proof {
                assert(!pred(e));
            }
        }
        i = i + 1;
    }
    proof {
        assert(orig.take(n as int) =~= orig);
    }
    out
}

} // verus!
