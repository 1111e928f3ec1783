//! The domain aggregator: groups valid records by domain in order of first
//! appearance, accumulates entry counts and total visits, and reports the
//! top domains by total visits.

use vstd::prelude::*;
use crate::domain::{extract_domain, spec_extract_domain};
use crate::filters::{filter_valid_history, valid_pred};
use crate::ranker::{sort_desc, sort_keyed, unkey, keyed_map, lemma_sort_desc_map, Keyed};
use crate::records::{DomainStat, HistoryEntry};

verus! {

/// How many domains the aggregation reports at most.
pub const TOP_DOMAINS: usize = 20;

/// The view of one aggregate: domain characters, entry count, total visits.
pub open spec fn stat_view(d: DomainStat) -> (Seq<char>, int, int) {
    (d.domain@, d.entry_count as int, d.total_visits as int)
}

/// Index of the aggregate for domain `d`, or -1 when none exists yet.
pub open spec fn find_domain(stats: Seq<(Seq<char>, int, int)>, d: Seq<char>) -> int
    decreases stats.len(),
{
    if stats.len() == 0 {
        -1
    } else if stats.first().0 == d {
        0
    } else {
        let r = find_domain(stats.drop_first(), d);
        if r == -1 {
            -1
        } else {
            1 + r
        }
    }
}

/// `find_domain` returns the first index carrying `d`, or -1 and no index
/// carries it.
pub proof fn lemma_find_domain_props(stats: Seq<(Seq<char>, int, int)>, d: Seq<char>)
    ensures
        ({
            let r = find_domain(stats, d);
            if r == -1 {
                forall|j: int| 0 <= j < stats.len() ==> stats[j].0 != d
            } else {
                0 <= r < stats.len() && stats[r].0 == d && forall|j: int|
                    0 <= j < r ==> stats[j].0 != d
            }
        }),
    decreases stats.len(),
{
    if stats.len() > 0 && stats.first().0 != d {
        lemma_find_domain_props(stats.drop_first(), d);
        let sub = stats.drop_first();
        let r0 = find_domain(sub, d);
        let r = find_domain(stats, d);
        if r0 == -1 {
            assert forall|j: int| 0 <= j < stats.len() implies stats[j].0 != d by {
                if j >= 1 {
                    assert(sub[j - 1] == stats[j]);
                }
            }
        } else {
            assert(stats[r] == sub[r0]);
            assert forall|j: int| 0 <= j < r implies stats[j].0 != d by {
                if j >= 1 {
                    assert(sub[j - 1] == stats[j]);
                }
            }
        }
    }
}

/// Account one record with domain `d` and visit count `vc`: bump the
/// existing aggregate for `d`, or append a fresh one.
pub open spec fn bump(stats: Seq<(Seq<char>, int, int)>, d: Seq<char>, vc: int) -> Seq<
    (Seq<char>, int, int),
> {
    let r = find_domain(stats, d);
    if r == -1 {
        stats.push((d, 1, vc))
    } else {
        stats.update(r, (d, stats[r].1 + 1, stats[r].2 + vc))
    }
}

/// The aggregates of a record sequence, grouped in order of first
/// appearance of each domain.
pub open spec fn spec_group_domains(s: Seq<HistoryEntry>) -> Seq<(Seq<char>, int, int)>
    decreases s.len(),
{
    if s.len() == 0 {
        Seq::empty()
    } else {
        bump(
            spec_group_domains(s.drop_last()),
            spec_extract_domain(s.last().url@),
            s.last().visit_count as int,
        )
    }
}

/// The full aggregation: group the valid records, rank the aggregates by
/// total visits descending (ties keep first-appearance order), and keep the
/// top `TOP_DOMAINS`.
pub open spec fn spec_domain_patterns(s: Seq<HistoryEntry>) -> Seq<(Seq<char>, int, int)> {
    let grouped = spec_group_domains(s.filter(valid_pred()));
    let ranked = sort_desc(
        grouped.map_values(|t: (Seq<char>, int, int)| Keyed { key: t.2 as u128, item: t }),
    ).map_values(|p: Keyed<(Seq<char>, int, int)>| p.item);
    if TOP_DOMAINS < ranked.len() {
        ranked.take(TOP_DOMAINS as int)
    } else {
        ranked
    }
}

/// Group valid records by domain and report the top domains by total
/// visits, descending; ties keep the order in which the domains first
/// appeared.  Counters are wide enough that no input can overflow them.
pub fn analyze_domain_patterns(entries: Vec<HistoryEntry>) -> (r: Vec<DomainStat>)
    ensures
        r@.map_values(|d: DomainStat| stat_view(d)) == spec_domain_patterns(entries@),
{
    let valid = filter_valid_history(entries);
    let ghost orig = valid@;
    let mut input = valid;
    let n = input.len();
    let mut stats: Vec<DomainStat> = Vec::new();
    let mut i: usize = 0;
    while input.len() > 0
        invariant
            n == orig.len(),
            i + input@.len() == n,
            input@ == orig.skip(i as int),
            stats@.map_values(|d: DomainStat| stat_view(d)) == spec_group_domains(
                orig.take(i as int),
            ),
            forall|j: int| 0 <= j < stats@.len() ==> #[trigger] stats@[j].entry_count <= i,
            forall|j: int|
                0 <= j < stats@.len() ==> #[trigger] stats@[j].total_visits <= (i as int) * (
                u32::MAX as int),
        decreases input@.len(),
    {
        let ghost gstats = stats@.map_values(|d: DomainStat| stat_view(d));
        let e = input.remove(0);
        proof {
            assert(e == orig[i as int]);
            assert(input@ =~= orig.skip(i + 1));
            assert(orig.take(i + 1).drop_last() =~= orig.take(i as int));
            assert(orig.take(i + 1).last() == orig[i as int]);
            lemma_find_domain_props(gstats, spec_extract_domain(e.url@));
        }
        let d = extract_domain(e.url.as_str());
        let mut j: usize = 0;
        let mut found = false;
        while j < stats.len() && !found
            invariant
                gstats == stats@.map_values(|d: DomainStat| stat_view(d)),
                d@ == spec_extract_domain(e.url@),
                j <= stats@.len(),
                !found ==> forall|m: int| 0 <= m < j ==> #[trigger] gstats[m].0 != d@,
                found ==> j < stats@.len() && gstats[j as int].0 == d@ && forall|m: int|
                    0 <= m < j ==> #[trigger] gstats[m].0 != d@,
            decreases stats@.len() - j, (if found { 0int } else { 1int }),
        {
            if stats[j].domain == d {
                found = true;
            } else {
                j = j + 1;
            }
        }
        if found {
            proof {
                lemma_find_domain_props(gstats, d@);
                assert(find_domain(gstats, d@) == j as int);
            }
            let ghost sstats = stats@;
            let prev = stats.remove(j);
            let updated = DomainStat {
                domain: prev.domain,
                entry_count: prev.entry_count + 1,
                total_visits: prev.total_visits + e.visit_count as u128,
            };
            stats.insert(j, updated);
            proof {
                assert(stats@ =~= sstats.update(j as int, updated));
                assert(stats@.map_values(|d: DomainStat| stat_view(d)) =~= bump(
                    gstats,
                    d@,
                    e.visit_count as int,
                ));
            }
        } else {
            proof {
                lemma_find_domain_props(gstats, d@);
                assert(find_domain(gstats, d@) == -1);
            }
            stats.push(
                DomainStat { domain: d, entry_count: 1, total_visits: e.visit_count as u128 },
            );
            proof {
                assert(stats@.map_values(|d: DomainStat| stat_view(d)) =~= bump(
                    gstats,
                    spec_extract_domain(e.url@),
                    e.visit_count as int,
                ));
            }
        }
        i = i + 1;
    }
    proof {
        assert(orig.take(n as int) =~= orig);
    }
    // Rank the aggregates by total visits, stably, and keep the top ones.
    let ghost grouped = stats@.map_values(|d: DomainStat| stat_view(d));
    let ghost lift = |t: (Seq<char>, int, int)| Keyed { key: t.2 as u128, item: t };
    let mut keyed: Vec<Keyed<DomainStat>> = Vec::new();
    let ghost gstats = stats@;
    let mut input2 = stats;
    let m = input2.len();
    let mut p: usize = 0;
    while input2.len() > 0
        invariant
            m == gstats.len(),
            p + input2@.len() == m,
            input2@ == gstats.skip(p as int),
            keyed@.len() == p,
            forall|j: int|
                0 <= j < p ==> #[trigger] keyed@[j] == (Keyed {
                    key: gstats[j].total_visits,
                    item: gstats[j],
                }),
        decreases input2@.len(),
    {
        let st = input2.remove(0);
        proof {
            assert(st == gstats[p as int]);
            assert(input2@ =~= gstats.skip(p + 1));
        }
        let k = st.total_visits;
        keyed.push(Keyed { key: k, item: st });
        p = p + 1;
    }
    let sorted = sort_keyed(keyed);
    let ranked = unkey(sorted);
    let limited = if ranked.len() > TOP_DOMAINS {
        let mut t = ranked;
        t.truncate(TOP_DOMAINS);
        t
    } else {
        ranked
    };
    proof {
        lemma_sort_desc_map(keyed@, |d: DomainStat| stat_view(d));
        assert(keyed@.map_values(keyed_map(|d: DomainStat| stat_view(d))) =~= grouped.map_values(
            lift,
        ));
        assert(limited@.map_values(|d: DomainStat| stat_view(d)) =~= spec_domain_patterns(
            entries@,
        ));
    }
    limited
}

} // verus!
