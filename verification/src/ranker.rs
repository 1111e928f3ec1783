//! The ranker core: a stable sort, descending by an integer key, specified
//! as a recursive insertion sort at the specification level.  Every public
//! ordering operation pins its result to this one function, so tie-breaking
//! is deterministic by construction: an element is inserted after all
//! elements whose key is greater than or equal to its own, which preserves
//! the original relative order of equal keys.

use vstd::prelude::*;
use vstd::seq_lib::lemma_multiset_commutative;
use vstd::arithmetic::mul::lemma_mul_inequality;
use crate::records::HistoryEntry;
use crate::score::{calculate_relevance_score, spec_score};
use crate::text::{lower_of, lowercase_all};

verus! {

/// An item paired with the integer sort key computed for it.
pub struct Keyed<T> {
    pub key: u128,
    pub item: T,
}

/// Stable descending insertion: `x` goes after every element whose key is
/// at least `x.key`.
pub open spec fn insert_desc<T>(x: Keyed<T>, s: Seq<Keyed<T>>) -> Seq<Keyed<T>>
    decreases s.len(),
{
    if s.len() == 0 {
        seq![x]
    } else if x.key > s.first().key {
        seq![x] + s
    } else {
        seq![s.first()] + insert_desc(x, s.drop_first())
    }
}

/// Stable descending insertion sort, processing the sequence left to right.
pub open spec fn sort_desc<T>(s: Seq<Keyed<T>>) -> Seq<Keyed<T>>
    decreases s.len(),
{
    if s.len() == 0 {
        Seq::empty()
    } else {
        insert_desc(s.last(), sort_desc(s.drop_last()))
    }
}

/// Keys never increase along the sequence.
pub open spec fn sorted_desc<T>(s: Seq<Keyed<T>>) -> bool {
    forall|i: int, j: int| 0 <= i < j < s.len() ==> s[i].key >= s[j].key
}

/// The position at which `insert_desc` places `x`: the number of leading
/// elements whose key is at least `x.key`.
pub open spec fn insert_pos<T>(x: Keyed<T>, s: Seq<Keyed<T>>) -> int
    decreases s.len(),
{
    if s.len() == 0 || x.key > s.first().key {
        0
    } else {
        1 + insert_pos(x, s.drop_first())
    }
}

/// `insert_desc` splits the sequence at `insert_pos` and puts `x` between
/// the halves.
pub proof fn lemma_insert_desc_split<T>(x: Keyed<T>, s: Seq<Keyed<T>>)
    ensures
        0 <= insert_pos(x, s) <= s.len(),
        insert_desc(x, s) == s.take(insert_pos(x, s)) + seq![x] + s.skip(insert_pos(x, s)),
        forall|m: int| 0 <= m < insert_pos(x, s) ==> s[m].key >= x.key,
        insert_pos(x, s) < s.len() ==> x.key > s[insert_pos(x, s)].key,
    decreases s.len(),
{
    let p = insert_pos(x, s);
    if s.len() == 0 {
        assert(insert_desc(x, s) =~= s.take(0) + seq![x] + s.skip(0));
    } else if x.key > s.first().key {
        assert(insert_desc(x, s) =~= s.take(0) + seq![x] + s.skip(0));
    } else {
        lemma_insert_desc_split(x, s.drop_first());
        let q = insert_pos(x, s.drop_first());
        assert(insert_desc(x, s) == seq![s.first()] + insert_desc(x, s.drop_first()));
        assert(seq![s.first()] + (s.drop_first().take(q) + seq![x] + s.drop_first().skip(q)) =~= s
            .take(q + 1) + seq![x] + s.skip(q + 1));
        assert(forall|m: int| 0 <= m < p ==> s[m].key >= x.key) by {
            assert(forall|m: int| 1 <= m < p ==> s[m].key == s.drop_first()[m - 1].key);
        }
    }
}

/// Inserting adds exactly `x` to the contents.
pub proof fn lemma_insert_desc_multiset<T>(x: Keyed<T>, s: Seq<Keyed<T>>)
    ensures
        insert_desc(x, s).len() == s.len() + 1,
        insert_desc(x, s).to_multiset() == s.to_multiset().insert(x),
{
    broadcast use vstd::seq_lib::group_to_multiset_ensures;

    lemma_insert_desc_split(x, s);
    let p = insert_pos(x, s);
    let a = s.take(p);
    let b = s.skip(p);
    assert(a + seq![x] =~= a.push(x));
    lemma_multiset_commutative(a.push(x), b);
    lemma_multiset_commutative(a, b);
    assert(a + b =~= s);
    assert(insert_desc(x, s).to_multiset() =~= s.to_multiset().insert(x));
}

/// Inserting into a sequence with non-increasing keys keeps them
/// non-increasing.
pub proof fn lemma_insert_desc_sorted<T>(x: Keyed<T>, s: Seq<Keyed<T>>)
    requires
        sorted_desc(s),
    ensures
        sorted_desc(insert_desc(x, s)),
{
    lemma_insert_desc_split(x, s);
    let p = insert_pos(x, s);
    let r = insert_desc(x, s);
    assert forall|i: int, j: int| 0 <= i < j < r.len() implies r[i].key >= r[j].key by {
        if i < p {
            assert(r[i] == s[i]);
        } else if i == p {
            assert(r[i] == x);
        } else {
            assert(r[i] == s[i - 1]);
        }
        if j < p {
            assert(r[j] == s[j]);
        } else if j == p {
            assert(r[j] == x);
        } else {
            assert(r[j] == s[j - 1]);
        }
    }
}

/// What sorting guarantees: same length, same contents, non-increasing keys.
pub proof fn lemma_sort_desc_ensures<T>(s: Seq<Keyed<T>>)
    ensures
        sort_desc(s).len() == s.len(),
        sort_desc(s).to_multiset() == s.to_multiset(),
        sorted_desc(sort_desc(s)),
    decreases s.len(),
{
    broadcast use vstd::seq_lib::group_to_multiset_ensures;

    if s.len() > 0 {
        let dl = s.drop_last();
        lemma_sort_desc_ensures(dl);
        lemma_insert_desc_multiset(s.last(), sort_desc(dl));
        lemma_insert_desc_sorted(s.last(), sort_desc(dl));
        assert(dl.push(s.last()) =~= s);
    }
}

/// Sorting a sequence whose keys are already non-increasing is a no-op:
/// deterministic tie-breaking leaves nothing to rearrange.
pub proof fn lemma_sort_desc_of_sorted<T>(s: Seq<Keyed<T>>)
    requires
        sorted_desc(s),
    ensures
        sort_desc(s) == s,
    decreases s.len(),
{
    if s.len() > 0 {
        let dl = s.drop_last();
        let x = s.last();
        lemma_sort_desc_of_sorted(dl);
        lemma_insert_desc_split(x, dl);
        let p = insert_pos(x, dl);
        if p < dl.len() {
            assert(s[p] == dl[p]);
            assert(s[p].key >= s[s.len() - 1].key);
            assert(false);
        }
        assert(insert_desc(x, dl) =~= dl.push(x));
        assert(dl.push(x) =~= s);
    }
}

/// The subsequence of elements carrying exactly key `k`, in order.
pub open spec fn key_filter<T>(s: Seq<Keyed<T>>, k: u128) -> Seq<Keyed<T>>
    decreases s.len(),
{
    if s.len() == 0 {
        Seq::empty()
    } else if s.last().key == k {
        key_filter(s.drop_last(), k).push(s.last())
    } else {
        key_filter(s.drop_last(), k)
    }
}

/// `key_filter` distributes over concatenation.
pub proof fn lemma_key_filter_add<T>(a: Seq<Keyed<T>>, b: Seq<Keyed<T>>, k: u128)
    ensures
        key_filter(a + b, k) == key_filter(a, k) + key_filter(b, k),
    decreases b.len(),
{
    if b.len() == 0 {
        assert(a + b =~= a);
        assert(key_filter(a, k) + key_filter(b, k) =~= key_filter(a, k));
    } else {
        lemma_key_filter_add(a, b.drop_last(), k);
        assert((a + b).drop_last() =~= a + b.drop_last());
        assert((a + b).last() == b.last());
        if b.last().key == k {
            assert(key_filter(a, k) + key_filter(b.drop_last(), k).push(b.last()) =~= (key_filter(
                a,
                k,
            ) + key_filter(b.drop_last(), k)).push(b.last()));
        }
    }
}

/// A sequence in which no element carries key `k` filters to nothing.
pub proof fn lemma_key_filter_none<T>(s: Seq<Keyed<T>>, k: u128)
    requires
        forall|i: int| 0 <= i < s.len() ==> s[i].key != k,
    ensures
        key_filter(s, k) == Seq::<Keyed<T>>::empty(),
    decreases s.len(),
{
    if s.len() > 0 {
        lemma_key_filter_none(s.drop_last(), k);
    }
}

/// Inserting into a key-sorted sequence appends to the subsequence of its
/// own key and leaves every other key's subsequence alone.
pub proof fn lemma_insert_desc_filter<T>(x: Keyed<T>, s: Seq<Keyed<T>>, k: u128)
    requires
        sorted_desc(s),
    ensures
        key_filter(insert_desc(x, s), k) == if x.key == k {
            key_filter(s, k).push(x)
        } else {
            key_filter(s, k)
        },
{
    lemma_insert_desc_split(x, s);
    let p = insert_pos(x, s);
    let a = s.take(p);
    let b = s.skip(p);
    lemma_key_filter_add(a + seq![x], b, k);
    lemma_key_filter_add(a, seq![x], k);
    lemma_key_filter_add(a, b, k);
    assert(a + b =~= s);
    assert(seq![x].drop_last() =~= Seq::<Keyed<T>>::empty());
    assert(seq![x].len() == 1);
    assert(seq![x].last() == x);
    assert(key_filter(Seq::<Keyed<T>>::empty(), k) == Seq::<Keyed<T>>::empty());
    assert(key_filter(seq![x], k) == if x.key == k {
        Seq::<Keyed<T>>::empty().push(x)
    } else {
        Seq::<Keyed<T>>::empty()
    });
    if x.key == k {
        // No element after the insertion point can carry x's key: each has a
        // strictly smaller key.
        assert forall|i: int| 0 <= i < b.len() implies b[i].key != k by {
            if p < s.len() {
                assert(b[i] == s[p + i]);
                assert(s[p].key >= s[p + i].key);
            }
        }
        lemma_key_filter_none(b, k);
        assert(key_filter(insert_desc(x, s), k) =~= key_filter(s, k).push(x));
    } else {
        assert(key_filter(insert_desc(x, s), k) =~= key_filter(s, k));
    }
}

/// Stability, stated over contents: for every key, the subsequence of
/// elements carrying that key is unchanged by sorting.
pub proof fn lemma_sort_desc_stable<T>(s: Seq<Keyed<T>>, k: u128)
    ensures
        key_filter(sort_desc(s), k) == key_filter(s, k),
    decreases s.len(),
{
    if s.len() > 0 {
        let dl = s.drop_last();
        let x = s.last();
        lemma_sort_desc_stable(dl, k);
        lemma_sort_desc_ensures(dl);
        lemma_insert_desc_filter(x, sort_desc(dl), k);
    }
}

/// Insert `x` into `v` just before the first element whose key is smaller.
fn insert_keyed<T>(v: &mut Vec<Keyed<T>>, x: Keyed<T>)
    ensures
        final(v)@ == insert_desc(x, old(v)@),
{
    let ghost s = v@;
    let mut p: usize = 0;
    while p < v.len() && v[p].key >= x.key
        invariant
            v@ == s,
            p <= s.len(),
            forall|m: int| 0 <= m < p ==> s[m].key >= x.key,
        decreases s.len() - p,
    {
        p = p + 1;
    }
    proof {
        lemma_insert_desc_split(x, s);
        let q = insert_pos(x, s);
        if q < p {
            assert(s[q].key >= x.key);
            assert(false);
        }
        if p < q {
            assert(s[p as int].key >= x.key);
            assert(false);
        }
    }
    v.insert(p, x);
    proof {
        assert(v@ =~= s.take(p as int) + seq![x] + s.skip(p as int));
    }
}

/// Sort a keyed vector, descending by key, stably: the result is exactly
/// the specification-level insertion sort of the input.
pub fn sort_keyed<T>(v: Vec<Keyed<T>>) -> (r: Vec<Keyed<T>>)
    ensures
        r@ == sort_desc(v@),
{
    let ghost orig = v@;
    let mut input = v;
    let n = input.len();
    let mut out: Vec<Keyed<T>> = Vec::new();
    let mut i: usize = 0;
    while input.len() > 0
        invariant
            n == orig.len(),
            i + input@.len() == orig.len(),
            input@ == orig.skip(i as int),
            out@ == sort_desc(orig.take(i as int)),
        decreases input@.len(),
    {
        let x = input.remove(0);
        proof {
            assert(x == orig[i as int]);
            assert(input@ =~= orig.skip(i + 1));
            assert(orig.take(i + 1).drop_last() =~= orig.take(i as int));
            assert(orig.take(i + 1).last() == orig[i as int]);
        }
        insert_keyed(&mut out, x);
        i = i + 1;
    }
    proof {
        assert(orig.take(orig.len() as int) =~= orig);
    }
    out
}

/// Rewrite the carried item of a keyed element, keeping its key.
pub open spec fn keyed_map<T, U>(f: spec_fn(T) -> U) -> spec_fn(Keyed<T>) -> Keyed<U> {
    |p: Keyed<T>| Keyed { key: p.key, item: f(p.item) }
}

/// Rewriting items commutes with insertion, since only keys steer it.
pub proof fn lemma_insert_desc_map<T, U>(x: Keyed<T>, s: Seq<Keyed<T>>, f: spec_fn(T) -> U)
    ensures
        insert_desc(x, s).map_values(keyed_map(f)) == insert_desc(
            keyed_map(f)(x),
            s.map_values(keyed_map(f)),
        ),
    decreases s.len(),
{
    let g = keyed_map(f);
    if s.len() == 0 {
        assert(seq![x].map_values(g) =~= seq![g(x)]);
    } else if x.key > s.first().key {
        assert((seq![x] + s).map_values(g) =~= seq![g(x)] + s.map_values(g));
        assert(s.map_values(g).first() == g(s.first()));
    } else {
        lemma_insert_desc_map(x, s.drop_first(), f);
        assert(s.map_values(g).first() == g(s.first()));
        assert(s.map_values(g).drop_first() =~= s.drop_first().map_values(g));
        assert((seq![s.first()] + insert_desc(x, s.drop_first())).map_values(g) =~= seq![
            g(s.first()),
        ] + insert_desc(x, s.drop_first()).map_values(g));
        assert(insert_desc(g(x), s.map_values(g)) == seq![s.map_values(g).first()] + insert_desc(
            g(x),
            s.map_values(g).drop_first(),
        ));
    }
}

/// Rewriting items commutes with sorting.
pub proof fn lemma_sort_desc_map<T, U>(s: Seq<Keyed<T>>, f: spec_fn(T) -> U)
    ensures
        sort_desc(s).map_values(keyed_map(f)) == sort_desc(s.map_values(keyed_map(f))),
    decreases s.len(),
{
    let g = keyed_map(f);
    if s.len() == 0 {
        assert(sort_desc(s).map_values(g) =~= Seq::<Keyed<U>>::empty());
        assert(s.map_values(g) =~= Seq::<Keyed<U>>::empty());
    } else {
        lemma_sort_desc_map(s.drop_last(), f);
        lemma_insert_desc_map(s.last(), sort_desc(s.drop_last()), f);
        assert(s.map_values(g).drop_last() =~= s.drop_last().map_values(g));
        assert(s.map_values(g).last() == g(s.last()));
    }
}

/// One more than the largest 64-bit sort-key component.
pub const KEY_SHIFT: u128 = 0x10000000000000000;

/// Offset that maps a signed 64-bit timestamp onto an order-preserving
/// non-negative value.
pub const TIME_BIAS: i128 = 0x8000000000000000;

/// Order-preserving image of a timestamp in `[0, KEY_SHIFT)`.
pub open spec fn time_rank(t: int) -> int {
    t + TIME_BIAS
}

/// Plain-mode sort key: visit count first, last visit time as tie-break.
pub open spec fn plain_key(e: HistoryEntry) -> int {
    e.visit_count * KEY_SHIFT + time_rank(e.last_visit_time as int)
}

/// The plain-mode key respects exactly the documented order: visit count
/// descending, then last visit time descending.
pub proof fn lemma_plain_key_order(a: HistoryEntry, b: HistoryEntry)
    ensures
        plain_key(a) > plain_key(b) <==> (a.visit_count > b.visit_count || (a.visit_count
            == b.visit_count && a.last_visit_time > b.last_visit_time)),
        plain_key(a) == plain_key(b) <==> (a.visit_count == b.visit_count && a.last_visit_time
            == b.last_visit_time),
{
    lemma_plain_key_parts(a);
    lemma_plain_key_parts(b);
    if a.visit_count > b.visit_count {
        lemma_mul_inequality(b.visit_count + 1, a.visit_count as int, KEY_SHIFT as int);
    }
    if b.visit_count > a.visit_count {
        lemma_mul_inequality(a.visit_count + 1, b.visit_count as int, KEY_SHIFT as int);
    }
}

/// Bounds of the plain-mode key and its time component.
pub proof fn lemma_plain_key_parts(e: HistoryEntry)
    ensures
        0 <= time_rank(e.last_visit_time as int) < KEY_SHIFT,
        e.visit_count * KEY_SHIFT + KEY_SHIFT <= u32::MAX * KEY_SHIFT + KEY_SHIFT,
        0 <= plain_key(e) < u128::MAX,
{
    lemma_mul_inequality(e.visit_count as int, u32::MAX as int, KEY_SHIFT as int);
    lemma_mul_inequality(0, e.visit_count as int, KEY_SHIFT as int);
}

/// A record paired with its plain-mode key.
pub open spec fn plain_keyed(e: HistoryEntry) -> Keyed<HistoryEntry> {
    Keyed { key: plain_key(e) as u128, item: e }
}

/// A record paired with its recency key (last visit time alone).
pub open spec fn recency_keyed(e: HistoryEntry) -> Keyed<HistoryEntry> {
    Keyed { key: time_rank(e.last_visit_time as int) as u128, item: e }
}

/// A record paired with its relevance score under the given lower-cased
/// keywords and reference time.
pub open spec fn score_keyed(e: HistoryEntry, kws: Seq<Seq<char>>, now: int) -> Keyed<
    HistoryEntry,
> {
    Keyed { key: spec_score(e, kws, now) as u128, item: e }
}

/// Drop the keys again.
pub open spec fn unkeyed(s: Seq<Keyed<HistoryEntry>>) -> Seq<HistoryEntry> {
    s.map_values(|p: Keyed<HistoryEntry>| p.item)
}

/// Plain-mode ranking: stable sort by visit count descending, ties by last
/// visit time descending, further ties in original order.
pub open spec fn spec_sort_plain(s: Seq<HistoryEntry>) -> Seq<HistoryEntry> {
    unkeyed(sort_desc(s.map_values(|e: HistoryEntry| plain_keyed(e))))
}

/// Recency ranking: stable sort by last visit time descending.
pub open spec fn spec_sort_recency(s: Seq<HistoryEntry>) -> Seq<HistoryEntry> {
    unkeyed(sort_desc(s.map_values(|e: HistoryEntry| recency_keyed(e))))
}

/// Scored ranking: stable sort by relevance score descending.
pub open spec fn spec_sort_scored(s: Seq<HistoryEntry>, kws: Seq<Seq<char>>, now: int) -> Seq<
    HistoryEntry,
> {
    unkeyed(sort_desc(s.map_values(|e: HistoryEntry| score_keyed(e, kws, now))))
}

/// The first `m` records, or all of them when fewer are present.
pub open spec fn spec_limit(s: Seq<HistoryEntry>, m: int) -> Seq<HistoryEntry> {
    if m < s.len() {
        s.take(m)
    } else {
        s
    }
}

/// A record sequence already in plain-mode order: visit counts descending,
/// ties by last visit time descending.
pub open spec fn plain_ranked(s: Seq<HistoryEntry>) -> bool {
    forall|i: int, j: int| 0 <= i < j < s.len() ==> plain_key(s[i]) >= plain_key(s[j])
}

/// A record sequence already in scored-mode order for the given keywords
/// and reference time.
pub open spec fn score_ranked(s: Seq<HistoryEntry>, kws: Seq<Seq<char>>, now: int) -> bool {
    forall|i: int, j: int|
        0 <= i < j < s.len() ==> spec_score(s[i], kws, now) >= spec_score(s[j], kws, now)
}

/// Idempotence of plain-mode ranking: sorting an already-sorted sequence
/// is a no-op.
pub proof fn lemma_sort_plain_idempotent(s: Seq<HistoryEntry>)
    requires
        plain_ranked(s),
    ensures
        spec_sort_plain(s) == s,
{
    let keyed = s.map_values(|e: HistoryEntry| plain_keyed(e));
    assert forall|i: int, j: int| 0 <= i < j < keyed.len() implies keyed[i].key >= keyed[j].key by {
        lemma_plain_key_parts(s[i]);
        lemma_plain_key_parts(s[j]);
    }
    lemma_sort_desc_of_sorted(keyed);
    assert(spec_sort_plain(s) =~= s);
}

/// Idempotence of scored-mode ranking: sorting an already-sorted sequence
/// is a no-op.  The keyword list is bounded as every executable keyword
/// vector is, so scores stay exact.
pub proof fn lemma_sort_scored_idempotent(s: Seq<HistoryEntry>, kws: Seq<Seq<char>>, now: int)
    requires
        kws.len() <= usize::MAX,
        score_ranked(s, kws, now),
    ensures
        spec_sort_scored(s, kws, now) == s,
{
    let keyed = s.map_values(|e: HistoryEntry| score_keyed(e, kws, now));
    assert forall|i: int, j: int| 0 <= i < j < keyed.len() implies keyed[i].key >= keyed[j].key by {
        crate::score::lemma_spec_score_bounds(s[i], kws, now);
        crate::score::lemma_spec_score_bounds(s[j], kws, now);
    }
    lemma_sort_desc_of_sorted(keyed);
    assert(spec_sort_scored(s, kws, now) =~= s);
}

/// Mapping a function over two sequences with the same contents yields
/// sequences with the same contents.
proof fn lemma_map_values_multiset<A, B>(x: Seq<A>, y: Seq<A>, f: spec_fn(A) -> B)
    requires
        x.to_multiset() == y.to_multiset(),
    ensures
        x.map_values(f).to_multiset() == y.map_values(f).to_multiset(),
    decreases x.len(),
{
    broadcast use vstd::seq_lib::group_to_multiset_ensures;
    broadcast use vstd::multiset::group_multiset_axioms;

    if x.len() == 0 {
        assert(x.to_multiset().len() == x.len());
        assert(y.to_multiset().len() == y.len());
        assert(y.len() == 0);
        assert(x.map_values(f) =~= Seq::<B>::empty());
        assert(y.map_values(f) =~= Seq::<B>::empty());
    } else {
        let e = x.last();
        assert(x.contains(e));
        assert(y.to_multiset().count(e) > 0);
        assert(y.contains(e));
        let k = choose|k: int| 0 <= k < y.len() && y[k] == e;
        let x2 = x.drop_last();
        let y2 = y.remove(k);
        assert(x.remove(x.len() - 1) =~= x2);
        assert(x2.to_multiset() =~= x.to_multiset().remove(e));
        assert(y2.to_multiset() =~= y.to_multiset().remove(e));
        lemma_map_values_multiset(x2, y2, f);
        assert(x.map_values(f).drop_last() =~= x2.map_values(f));
        assert(x.map_values(f) =~= x2.map_values(f).push(f(e)));
        assert(x.map_values(f).to_multiset() =~= x2.map_values(f).to_multiset().insert(f(e)));
        assert(y.map_values(f).remove(k) =~= y2.map_values(f));
        assert(y.map_values(f)[k] == f(e));
        assert(y2.map_values(f).to_multiset() =~= y.map_values(f).to_multiset().remove(f(e)));
        assert(y.map_values(f).to_multiset().count(f(e)) > 0);
        assert(x.map_values(f).to_multiset() =~= y.map_values(f).to_multiset());
    }
}

/// Plain-mode ranking only reorders: the output holds exactly the input
/// records.
pub proof fn lemma_sort_plain_permutes(s: Seq<HistoryEntry>)
    ensures
        spec_sort_plain(s).to_multiset() == s.to_multiset(),
{
    let m = s.map_values(|e: HistoryEntry| plain_keyed(e));
    lemma_sort_desc_ensures(m);
    lemma_map_values_multiset(sort_desc(m), m, |p: Keyed<HistoryEntry>| p.item);
    assert(m.map_values(|p: Keyed<HistoryEntry>| p.item) =~= s);
}

/// Recency ranking only reorders.
pub proof fn lemma_sort_recency_permutes(s: Seq<HistoryEntry>)
    ensures
        spec_sort_recency(s).to_multiset() == s.to_multiset(),
{
    let m = s.map_values(|e: HistoryEntry| recency_keyed(e));
    lemma_sort_desc_ensures(m);
    lemma_map_values_multiset(sort_desc(m), m, |p: Keyed<HistoryEntry>| p.item);
    assert(m.map_values(|p: Keyed<HistoryEntry>| p.item) =~= s);
}

/// Scored ranking only reorders.
pub proof fn lemma_sort_scored_permutes(s: Seq<HistoryEntry>, kws: Seq<Seq<char>>, now: int)
    ensures
        spec_sort_scored(s, kws, now).to_multiset() == s.to_multiset(),
{
    let m = s.map_values(|e: HistoryEntry| score_keyed(e, kws, now));
    lemma_sort_desc_ensures(m);
    lemma_map_values_multiset(sort_desc(m), m, |p: Keyed<HistoryEntry>| p.item);
    assert(m.map_values(|p: Keyed<HistoryEntry>| p.item) =~= s);
}

/// Every element of a sorted sequence comes from the input sequence.
proof fn lemma_sort_desc_elements<T>(m: Seq<Keyed<T>>)
    ensures
        forall|i: int|
            0 <= i < sort_desc(m).len() ==> exists|j: int|
                0 <= j < m.len() && #[trigger] sort_desc(m)[i] == m[j],
{
    broadcast use vstd::seq_lib::group_to_multiset_ensures;

    lemma_sort_desc_ensures(m);
    assert forall|i: int| 0 <= i < sort_desc(m).len() implies exists|j: int|
        0 <= j < m.len() && #[trigger] sort_desc(m)[i] == m[j] by {
        let x = sort_desc(m)[i];
        assert(sort_desc(m).contains(x));
        assert(m.to_multiset().count(x) > 0);
        assert(m.contains(x));
    }
}

/// The plain-mode result is ranked: visit count descending, ties by last
/// visit time descending.
pub proof fn lemma_sort_plain_ranked(s: Seq<HistoryEntry>)
    ensures
        plain_ranked(spec_sort_plain(s)),
{
    let m = s.map_values(|e: HistoryEntry| plain_keyed(e));
    let r = spec_sort_plain(s);
    lemma_sort_desc_ensures(m);
    lemma_sort_desc_elements(m);
    assert forall|i: int, j: int| 0 <= i < j < r.len() implies plain_key(r[i]) >= plain_key(
        r[j],
    ) by {
        let pi = choose|p: int| 0 <= p < m.len() && sort_desc(m)[i] == m[p];
        let pj = choose|p: int| 0 <= p < m.len() && sort_desc(m)[j] == m[p];
        lemma_plain_key_parts(s[pi]);
        lemma_plain_key_parts(s[pj]);
    }
}

/// The scored-mode result is ranked by score, descending.  The keyword
/// list is bounded as every executable keyword vector is.
pub proof fn lemma_sort_scored_ranked(s: Seq<HistoryEntry>, kws: Seq<Seq<char>>, now: int)
    requires
        kws.len() <= usize::MAX,
    ensures
        score_ranked(spec_sort_scored(s, kws, now), kws, now),
{
    let m = s.map_values(|e: HistoryEntry| score_keyed(e, kws, now));
    let r = spec_sort_scored(s, kws, now);
    lemma_sort_desc_ensures(m);
    lemma_sort_desc_elements(m);
    assert forall|i: int, j: int| 0 <= i < j < r.len() implies spec_score(r[i], kws, now)
        >= spec_score(r[j], kws, now) by {
        let pi = choose|p: int| 0 <= p < m.len() && sort_desc(m)[i] == m[p];
        let pj = choose|p: int| 0 <= p < m.len() && sort_desc(m)[j] == m[p];
        crate::score::lemma_spec_score_bounds(s[pi], kws, now);
        crate::score::lemma_spec_score_bounds(s[pj], kws, now);
    }
}

/// Raising a record's visit count (all else fixed) never lowers its
/// plain-mode rank against any other record.
pub proof fn lemma_plain_rank_monotonic(a: HistoryEntry, b: HistoryEntry, c: HistoryEntry)
    requires
        b.last_visit_time == a.last_visit_time,
        b.visit_count >= a.visit_count,
    ensures
        plain_key(b) >= plain_key(a),
        plain_key(a) >= plain_key(c) ==> plain_key(b) >= plain_key(c),
        plain_key(a) > plain_key(c) ==> plain_key(b) > plain_key(c),
{
    lemma_mul_inequality(a.visit_count as int, b.visit_count as int, KEY_SHIFT as int);
}

/// Plain-mode ranking keeps the length.
pub proof fn lemma_spec_sort_plain_len(s: Seq<HistoryEntry>)
    ensures
        spec_sort_plain(s).len() == s.len(),
{
    lemma_sort_desc_ensures(s.map_values(|e: HistoryEntry| plain_keyed(e)));
}

/// Recency ranking keeps the length.
pub proof fn lemma_spec_sort_recency_len(s: Seq<HistoryEntry>)
    ensures
        spec_sort_recency(s).len() == s.len(),
{
    lemma_sort_desc_ensures(s.map_values(|e: HistoryEntry| recency_keyed(e)));
}

/// Scored ranking keeps the length.
pub proof fn lemma_spec_sort_scored_len(s: Seq<HistoryEntry>, kws: Seq<Seq<char>>, now: int)
    ensures
        spec_sort_scored(s, kws, now).len() == s.len(),
{
    lemma_sort_desc_ensures(s.map_values(|e: HistoryEntry| score_keyed(e, kws, now)));
}

/// The order-preserving unsigned image of a timestamp.
fn time_rank_exec(t: i64) -> (r: u128)
    ensures
        r as int == time_rank(t as int),
        r < KEY_SHIFT,
{
    let v: i128 = t as i128 + TIME_BIAS;
    proof {
        assert(0 <= v < KEY_SHIFT);
    }
    v as u128
}

/// The plain-mode key of one record.
fn plain_key_exec(e: &HistoryEntry) -> (k: u128)
    ensures
        k as int == plain_key(*e),
{
    let tr = time_rank_exec(e.last_visit_time);
    proof {
        lemma_plain_key_parts(*e);
    }
    (e.visit_count as u128) * KEY_SHIFT + tr
}

/// Drop the keys of a sorted keyed vector.
pub(crate) fn unkey<T>(v: Vec<Keyed<T>>) -> (r: Vec<T>)
    ensures
        r@.len() == v@.len(),
        forall|j: int| 0 <= j < v@.len() ==> #[trigger] r@[j] == v@[j].item,
{
    let ghost orig = v@;
    let mut input = v;
    let n = input.len();
    let mut out: Vec<T> = Vec::new();
    let mut i: usize = 0;
    while input.len() > 0
        invariant
            n == orig.len(),
            i + input@.len() == n,
            input@ == orig.skip(i as int),
            out@.len() == i,
            forall|j: int| 0 <= j < i ==> #[trigger] out@[j] == orig[j].item,
        decreases input@.len(),
    {
        let x = input.remove(0);
        proof {
            assert(x == orig[i as int]);
            assert(input@ =~= orig.skip(i + 1));
        }
        out.push(x.item);
        i = i + 1;
    }
    out
}

/// Rank records without keywords: visit count descending, then last visit
/// time descending, stable beyond that.  The result is exactly the stable
/// specification-level sort, so ordering and tie-breaking are deterministic.
pub fn sort_history_by_relevance(entries: Vec<HistoryEntry>) -> (r: Vec<HistoryEntry>)
    ensures
        r@ == spec_sort_plain(entries@),
{
    let ghost orig = entries@;
    let mut input = entries;
    let n = input.len();
    let mut keyed: Vec<Keyed<HistoryEntry>> = Vec::new();
    let mut i: usize = 0;
    while input.len() > 0
        invariant
            n == orig.len(),
            i + input@.len() == n,
            input@ == orig.skip(i as int),
            keyed@ == orig.take(i as int).map_values(|e: HistoryEntry| plain_keyed(e)),
        decreases input@.len(),
    {
        let e = input.remove(0);
        proof {
            assert(e == orig[i as int]);
            assert(input@ =~= orig.skip(i + 1));
            lemma_plain_key_parts(e);
        }
        let k = plain_key_exec(&e);
        keyed.push(Keyed { key: k, item: e });
        i = i + 1;
        proof {
            assert(keyed@ =~= orig.take(i as int).map_values(|e: HistoryEntry| plain_keyed(e)));
        }
    }
    proof {
        assert(orig.take(n as int) =~= orig);
    }
    let sorted = sort_keyed(keyed);
    let r = unkey(sorted);
    proof {
        assert(r@ =~= unkeyed(sorted@));
    }
    r
}

/// Rank records by recency alone: last visit time descending, stable.
pub(crate) fn sort_history_by_recency(entries: Vec<HistoryEntry>) -> (r: Vec<HistoryEntry>)
    ensures
        r@ == spec_sort_recency(entries@),
{
    let ghost orig = entries@;
    let mut input = entries;
    let n = input.len();
    let mut keyed: Vec<Keyed<HistoryEntry>> = Vec::new();
    let mut i: usize = 0;
    while input.len() > 0
        invariant
            n == orig.len(),
            i + input@.len() == n,
            input@ == orig.skip(i as int),
            keyed@ == orig.take(i as int).map_values(|e: HistoryEntry| recency_keyed(e)),
        decreases input@.len(),
    {
        let e = input.remove(0);
        proof {
            assert(e == orig[i as int]);
            assert(input@ =~= orig.skip(i + 1));
        }
        let k = time_rank_exec(e.last_visit_time);
        keyed.push(Keyed { key: k, item: e });
        i = i + 1;
        proof {
            assert(keyed@ =~= orig.take(i as int).map_values(|e: HistoryEntry| recency_keyed(e)));
        }
    }
    proof {
        assert(orig.take(n as int) =~= orig);
    }
    let sorted = sort_keyed(keyed);
    let r = unkey(sorted);
    proof {
        assert(r@ =~= unkeyed(sorted@));
    }
    r
}

/// Rank records by relevance score under the given keywords (lower-cased
/// here) and reference time, descending, stable.  Scores are exact
/// integers, so the order is total and no degenerate comparison can occur.
pub fn sort_by_relevance_with_keywords(
    entries: Vec<HistoryEntry>,
    keywords: Vec<String>,
    current_time: i64,
) -> (r: Vec<HistoryEntry>)
    ensures
        r@ == spec_sort_scored(
            entries@,
            keywords@.map_values(|k: String| lower_of(k@)),
            current_time as int,
        ),
{
    let ghost kws = keywords@.map_values(|k: String| lower_of(k@));
    let keywords_lower = lowercase_all(&keywords);
    let ghost orig = entries@;
    let mut input = entries;
    let n = input.len();
    let mut keyed: Vec<Keyed<HistoryEntry>> = Vec::new();
    let mut i: usize = 0;
    while input.len() > 0
        invariant
            keywords_lower@.map_values(|s: String| s@) == kws,
            n == orig.len(),
            i + input@.len() == n,
            input@ == orig.skip(i as int),
            keyed@ == orig.take(i as int).map_values(
                |e: HistoryEntry| score_keyed(e, kws, current_time as int),
            ),
        decreases input@.len(),
    {
        let e = input.remove(0);
        proof {
            assert(e == orig[i as int]);
            assert(input@ =~= orig.skip(i + 1));
        }
        let k = calculate_relevance_score(&e, &keywords_lower, current_time);
        proof {
            assert(k as int == spec_score(e, kws, current_time as int));
        }
        keyed.push(Keyed { key: k, item: e });
        i = i + 1;
        proof {
            assert(keyed@ =~= orig.take(i as int).map_values(
                |e: HistoryEntry| score_keyed(e, kws, current_time as int),
            ));
        }
    }
    proof {
        assert(orig.take(n as int) =~= orig);
    }
    let sorted = sort_keyed(keyed);
    let r = unkey(sorted);
    proof {
        assert(r@ =~= unkeyed(sorted@));
    }
    r
}

/// Keep only the first `max_count` records of an already ranked sequence.
pub fn limit_history_results(entries: Vec<HistoryEntry>, max_count: usize) -> (r: Vec<
    HistoryEntry,
>)
    ensures
        r@ == spec_limit(entries@, max_count as int),
{
    let ghost orig = entries@;
    let mut entries = entries;
    if entries.len() > max_count {
        entries.truncate(max_count);
        proof {
            assert(entries@ =~= spec_limit(orig, max_count as int));
        }
    }
    entries
}

} // verus!
