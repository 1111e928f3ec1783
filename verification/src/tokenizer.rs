//! The tokenizer: lower-cases free text, splits it on white space, strips
//! every character that is not alphanumeric from each word, and keeps the
//! words that are longer than two characters and are not stop words.

use vstd::prelude::*;
use crate::text::{char_is_alnum, char_is_whitespace, is_alnum_char, is_whitespace_char, lower_of,
    lowercase, string_from_chars, chars_vec};

verus! {

/// The fixed, closed list of common English function words that never count
/// as keywords.
pub open spec fn is_stop_word(w: Seq<char>) -> bool {
    ||| w == "the"@
    ||| w == "a"@
    ||| w == "an"@
    ||| w == "and"@
    ||| w == "or"@
    ||| w == "but"@
    ||| w == "in"@
    ||| w == "on"@
    ||| w == "at"@
    ||| w == "to"@
    ||| w == "for"@
    ||| w == "of"@
    ||| w == "with"@
    ||| w == "by"@
    ||| w == "from"@
    ||| w == "up"@
    ||| w == "about"@
    ||| w == "into"@
    ||| w == "through"@
    ||| w == "during"@
    ||| w == "i"@
    ||| w == "me"@
    ||| w == "my"@
    ||| w == "you"@
    ||| w == "your"@
    ||| w == "we"@
    ||| w == "us"@
    ||| w == "our"@
    ||| w == "they"@
    ||| w == "them"@
    ||| w == "their"@
    ||| w == "is"@
    ||| w == "am"@
    ||| w == "are"@
    ||| w == "was"@
    ||| w == "were"@
    ||| w == "be"@
    ||| w == "been"@
    ||| w == "being"@
    ||| w == "have"@
    ||| w == "has"@
    ||| w == "had"@
    ||| w == "do"@
    ||| w == "does"@
    ||| w == "did"@
    ||| w == "will"@
    ||| w == "would"@
    ||| w == "could"@
    ||| w == "should"@
    ||| w == "this"@
    ||| w == "that"@
    ||| w == "these"@
    ||| w == "those"@
    ||| w == "what"@
    ||| w == "when"@
    ||| w == "where"@
    ||| w == "who"@
    ||| w == "which"@
    ||| w == "how"@
}

/// A stripped word survives tokenization when it is longer than two
/// characters and is not a stop word.
pub open spec fn keyword_ok(w: Seq<char>) -> bool {
    w.len() > 2 && !is_stop_word(w)
}

/// Close the word in progress: keep it if it qualifies as a keyword.
pub open spec fn tok_flush(kws: Seq<Seq<char>>, cur: Seq<char>) -> Seq<Seq<char>> {
    if keyword_ok(cur) {
        kws.push(cur)
    } else {
        kws
    }
}

/// One character of tokenization.  White space closes the word in progress;
/// an alphanumeric character extends it; anything else is stripped.
pub open spec fn tok_step(kws: Seq<Seq<char>>, cur: Seq<char>, c: char) -> (Seq<Seq<char>>, Seq<
    char,
>) {
    if char_is_whitespace(c) {
        (tok_flush(kws, cur), Seq::empty())
    } else if char_is_alnum(c) {
        (kws, cur.push(c))
    } else {
        (kws, cur)
    }
}

/// The tokenizer state (keywords found, word in progress) after reading `s`.
pub open spec fn tok_fold(s: Seq<char>) -> (Seq<Seq<char>>, Seq<char>)
    decreases s.len(),
{
    if s.len() == 0 {
        (Seq::empty(), Seq::empty())
    } else {
        let st = tok_fold(s.drop_last());
        tok_step(st.0, st.1, s.last())
    }
}

/// All keywords of an already lower-cased character sequence, in order of
/// first appearance, duplicates retained.
pub open spec fn spec_tokenize(s: Seq<char>) -> Seq<Seq<char>> {
    let st = tok_fold(s);
    tok_flush(st.0, st.1)
}

/// The keywords of a raw query: tokenization of its lowercase conversion.
pub open spec fn spec_extract_keywords(text: Seq<char>) -> Seq<Seq<char>> {
    spec_tokenize(lower_of(text))
}

/// Whether the characters of `w` spell exactly the string `s`.
fn word_eq(w: &Vec<char>, s: &str) -> (r: bool)
    ensures
        r == (w@ == s@),
{
    let n = s.unicode_len();
    if w.len() != n {
        return false;
    }
    let mut i: usize = 0;
    while i < n
        invariant
            n == s@.len(),
            w@.len() == n,
            i <= n,
            forall|j: int| 0 <= j < i ==> w@[j] == s@[j],
        decreases n - i,
    {
        if w[i] != s.get_char(i) {
            return false;
        }
        i = i + 1;
    }
    proof {
        assert(w@ =~= s@);
    }
    true
}

/// Whether the word in `w` is on the stop-word list.
fn is_stop(w: &Vec<char>) -> (r: bool)
    ensures
        r == is_stop_word(w@),
{
    word_eq(w, "the") || word_eq(w, "a") || word_eq(w, "an") || word_eq(w, "and") || word_eq(
        w,
        "or",
    ) || word_eq(w, "but") || word_eq(w, "in") || word_eq(w, "on") || word_eq(w, "at") || word_eq(
        w,
        "to",
    ) || word_eq(w, "for") || word_eq(w, "of") || word_eq(w, "with") || word_eq(w, "by") || word_eq(
        w,
        "from",
    ) || word_eq(w, "up") || word_eq(w, "about") || word_eq(w, "into") || word_eq(w, "through")
        || word_eq(w, "during") || word_eq(w, "i") || word_eq(w, "me") || word_eq(w, "my")
        || word_eq(w, "you") || word_eq(w, "your") || word_eq(w, "we") || word_eq(w, "us")
        || word_eq(w, "our") || word_eq(w, "they") || word_eq(w, "them") || word_eq(w, "their")
        || word_eq(w, "is") || word_eq(w, "am") || word_eq(w, "are") || word_eq(w, "was")
        || word_eq(w, "were") || word_eq(w, "be") || word_eq(w, "been") || word_eq(w, "being")
        || word_eq(w, "have") || word_eq(w, "has") || word_eq(w, "had") || word_eq(w, "do")
        || word_eq(w, "does") || word_eq(w, "did") || word_eq(w, "will") || word_eq(w, "would")
        || word_eq(w, "could") || word_eq(w, "should") || word_eq(w, "this") || word_eq(w, "that")
        || word_eq(w, "these") || word_eq(w, "those") || word_eq(w, "what") || word_eq(w, "when")
        || word_eq(w, "where") || word_eq(w, "who") || word_eq(w, "which") || word_eq(w, "how")
}

/// Extract the normalized keywords of a query, in order of first appearance
/// (duplicates retained; callers treat the result as a membership set).
/// Never fails: text with no usable words simply yields an empty vector.
pub fn extract_keywords(text: &str) -> (r: Vec<String>)
    ensures
        r@.map_values(|s: String| s@) == spec_extract_keywords(text@),
{
    let lowered = lowercase(text);
    let chars = chars_vec(lowered.as_str());
    let mut kws: Vec<String> = Vec::new();
    let mut cur: Vec<char> = Vec::new();
    let mut i: usize = 0;
    while i < chars.len()
        invariant
            chars@ == lower_of(text@),
            i <= chars@.len(),
            kws@.map_values(|s: String| s@) == tok_fold(chars@.take(i as int)).0,
            cur@ == tok_fold(chars@.take(i as int)).1,
        decreases chars@.len() - i,
    {
        let ghost prev = chars@.take(i as int);
        let c = chars[i];
        proof {
            assert(chars@.take(i + 1).drop_last() =~= prev);
            assert(chars@.take(i + 1).last() == c);
        }
        if is_whitespace_char(c) {
            if cur.len() > 2 && !is_stop(&cur) {
                let ghost old_kws = kws@;
                let w = string_from_chars(&cur);
                kws.push(w);
                proof {
                    assert(kws@.map_values(|s: String| s@) =~= old_kws.map_values(
                        |s: String| s@,
                    ).push(cur@));
                }
            }
            cur.clear();
        } else if is_alnum_char(c) {
            cur.push(c);
        }
        i = i + 1;
    }
    proof {
        assert(chars@.take(chars@.len() as int) =~= chars@);
    }
    if cur.len() > 2 && !is_stop(&cur) {
        let ghost old_kws = kws@;
        let w = string_from_chars(&cur);
        kws.push(w);
        proof {
            assert(kws@.map_values(|s: String| s@) =~= old_kws.map_values(|s: String| s@).push(
                cur@,
            ));
        }
    }
    kws
}

} // verus!
