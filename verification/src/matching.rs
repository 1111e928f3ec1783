//! Verified substring search over character sequences: the containment test
//! that keyword matching uses, and first-occurrence search for the domain
//! extractor.

use vstd::prelude::*;

verus! {

/// `needle` occurs in `hay` starting at position `i`.
pub open spec fn is_match_at(hay: Seq<char>, needle: Seq<char>, i: int) -> bool {
    0 <= i && i + needle.len() <= hay.len() && hay.subrange(i, i + needle.len() as int) == needle
}

/// Pure substring containment: `needle` occurs somewhere in `hay`.
pub open spec fn spec_contains_sub(hay: Seq<char>, needle: Seq<char>) -> bool {
    exists|i: int| is_match_at(hay, needle, i)
}

/// Position of the first occurrence of `needle` in `hay` at or after `from`,
/// or -1 when there is none.
pub open spec fn first_match_from(hay: Seq<char>, needle: Seq<char>, from: int) -> int
    decreases hay.len() - from,
{
    if from < 0 || from + needle.len() > hay.len() {
        -1
    } else if needle.len() == 0 {
        from
    } else if hay.subrange(from, from + needle.len() as int) == needle {
        from
    } else {
        first_match_from(hay, needle, from + 1)
    }
}

/// A first match found at or after `b` is also the first match at or after
/// `a`, provided no position in `[a, b)` matches.
pub proof fn lemma_first_match_skip(hay: Seq<char>, needle: Seq<char>, a: int, b: int)
    requires
        0 <= a <= b,
        forall|j: int| a <= j < b ==> !is_match_at(hay, needle, j),
    ensures
        first_match_from(hay, needle, a) == first_match_from(hay, needle, b),
    decreases b - a,
{
    if a < b {
        if a + needle.len() > hay.len() {
            assert(b + needle.len() > hay.len());
            assert(first_match_from(hay, needle, a) == -1);
            lemma_first_match_none_past_end(hay, needle, b);
        } else if needle.len() == 0 {
            assert(hay.subrange(a, a) =~= needle);
            assert(is_match_at(hay, needle, a));
        } else {
            assert(!is_match_at(hay, needle, a));
            lemma_first_match_skip(hay, needle, a + 1, b);
        }
    }
}

/// Past the last feasible start position there is no match.
pub proof fn lemma_first_match_none_past_end(hay: Seq<char>, needle: Seq<char>, from: int)
    requires
        from >= 0,
        from + needle.len() > hay.len(),
    ensures
        first_match_from(hay, needle, from) == -1,
{
}

/// What `first_match_from` returns: either the position of a match that no
/// earlier position (at or after `from`) beats, or -1 and nothing matches.
pub proof fn lemma_first_match_props(hay: Seq<char>, needle: Seq<char>, from: int)
    requires
        from >= 0,
    ensures
        ({
            let m = first_match_from(hay, needle, from);
            if m == -1 {
                forall|j: int| j >= from ==> !is_match_at(hay, needle, j)
            } else {
                from <= m && is_match_at(hay, needle, m) && forall|j: int|
                    from <= j < m ==> !is_match_at(hay, needle, j)
            }
        }),
    decreases hay.len() - from,
{
    if from + needle.len() > hay.len() {
        assert forall|j: int| j >= from implies !is_match_at(hay, needle, j) by {}
    } else if needle.len() == 0 {
        assert(hay.subrange(from, from) =~= needle);
    } else if hay.subrange(from, from + needle.len() as int) == needle {
    } else {
        lemma_first_match_props(hay, needle, from + 1);
    }
}

/// Whether `needle` occurs in `hay` at exactly position `i`.
fn match_at(hay: &Vec<char>, needle: &Vec<char>, i: usize) -> (r: bool)
    requires
        i + needle@.len() <= hay@.len(),
    ensures
        r == is_match_at(hay@, needle@, i as int),
{
    let hlen = hay.len();
    let mut k: usize = 0;
    while k < needle.len()
        invariant
            hlen == hay@.len(),
            i + needle@.len() <= hay@.len(),
            k <= needle@.len(),
            forall|m: int| 0 <= m < k ==> hay@[i + m] == needle@[m],
        decreases needle@.len() - k,
    {
        if hay[i + k] != needle[k] {
            proof {
                let ki = k as int;
                assert(hay@.subrange(i as int, i + needle@.len() as int)[ki] != needle@[ki]);
            }
            return false;
        }
        k = k + 1;
    }
    proof {
        assert(hay@.subrange(i as int, i + needle@.len() as int) =~= needle@);
    }
    true
}

/// Position of the first occurrence of `needle` in `hay` at or after `from`.
pub fn find_sub_from(hay: &Vec<char>, needle: &Vec<char>, from: usize) -> (r: Option<usize>)
    ensures
        match r {
            Some(i) => from <= i && i + needle@.len() <= hay@.len() && first_match_from(
                hay@,
                needle@,
                from as int,
            ) == i,
            None => first_match_from(hay@, needle@, from as int) == -1,
        },
{
    if needle.len() > hay.len() || from > hay.len() - needle.len() {
        proof {
            lemma_first_match_none_past_end(hay@, needle@, from as int);
        }
        return None;
    }
    if needle.len() == 0 {
        proof {
            assert(hay@.subrange(from as int, from as int) =~= needle@);
        }
        return Some(from);
    }
    let last = hay.len() - needle.len();
    let mut i: usize = from;
    while i <= last
        invariant
            from <= i,
            i <= last + 1,
            needle@.len() >= 1,
            needle@.len() + last == hay@.len(),
            needle@.len() + last <= usize::MAX,
            forall|j: int| from <= j < i ==> !is_match_at(hay@, needle@, j),
        decreases last + 1 - i,
    {
        if match_at(hay, needle, i) {
            proof {
                lemma_first_match_skip(hay@, needle@, from as int, i as int);
                assert(first_match_from(hay@, needle@, i as int) == i);
            }
            return Some(i);
        }
        i = i + 1;
    }
    proof {
        assert(forall|j: int| j > last ==> !is_match_at(hay@, needle@, j));
        lemma_first_match_skip(hay@, needle@, from as int, i as int);
        lemma_first_match_none_past_end(hay@, needle@, i as int);
    }
    None
}

/// Substring containment test: does `needle` occur anywhere in `hay`?
pub fn contains_sub(hay: &Vec<char>, needle: &Vec<char>) -> (r: bool)
    ensures
        r == spec_contains_sub(hay@, needle@),
{
    match find_sub_from(hay, needle, 0) {
        Some(i) => {
            proof {
                lemma_first_match_props(hay@, needle@, 0);
            }
            true
        },
        None => {
            proof {
                lemma_first_match_props(hay@, needle@, 0);
            }
            false
        },
    }
}

} // verus!
