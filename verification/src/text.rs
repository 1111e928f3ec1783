//! Text primitives.  Unicode-dependent behaviour (case folding, character
//! classes) lives behind named, trusted wrappers; everything built on top is
//! verified against those names.

use vstd::prelude::*;
use vstd::string::StrSliceExecFns;

verus! {

/// The sequence of characters that Unicode lowercasing yields for `s`.
/// The result depends on the characters of `s` alone.
pub uninterp spec fn lower_of(s: Seq<char>) -> Seq<char>;

/// Whether `c` has the Unicode white-space property.
pub uninterp spec fn char_is_whitespace(c: char) -> bool;

/// Whether `c` is Unicode-alphanumeric.
pub uninterp spec fn char_is_alnum(c: char) -> bool;

/// Relies on `str::to_lowercase`: the result is the Unicode lowercase
/// conversion of the input, a function of the input characters alone, and an
/// empty input stays empty.
#[verifier::external_body]
pub(crate) fn lowercase(s: &str) -> (r: String)
    ensures
        r@ == lower_of(s@),
        s@.len() == 0 ==> r@.len() == 0,
{
    s.to_lowercase()
}

/// Relies on `char::is_whitespace`: true exactly for characters with the
/// Unicode white-space property.
#[verifier::external_body]
pub(crate) fn is_whitespace_char(c: char) -> (r: bool)
    ensures
        r == char_is_whitespace(c),
{
    c.is_whitespace()
}

/// Relies on `char::is_alphanumeric`: true exactly for Unicode letters and
/// digits.
#[verifier::external_body]
pub(crate) fn is_alnum_char(c: char) -> (r: bool)
    ensures
        r == char_is_alnum(c),
{
    c.is_alphanumeric()
}

/// Relies on `String: FromIterator<char>`: collecting characters yields the
/// string made of exactly those characters in order.
#[verifier::external_body]
pub(crate) fn string_from_chars(v: &Vec<char>) -> (r: String)
    ensures
        r@ == v@,
{
    v.iter().collect()
}

/// The decimal digit character for one digit value.
pub open spec fn dec_digit(d: int) -> char {
    if d == 0 {
        '0'
    } else if d == 1 {
        '1'
    } else if d == 2 {
        '2'
    } else if d == 3 {
        '3'
    } else if d == 4 {
        '4'
    } else if d == 5 {
        '5'
    } else if d == 6 {
        '6'
    } else if d == 7 {
        '7'
    } else if d == 8 {
        '8'
    } else {
        '9'
    }
}

/// The usual decimal rendering of a non-negative integer, most significant
/// digit first, with no leading zeros (except for zero itself).
pub open spec fn dec_string_of(n: int) -> Seq<char>
    decreases n,
{
    if n < 10 {
        seq![dec_digit(n)]
    } else {
        dec_string_of(n / 10).push(dec_digit(n % 10))
    }
}

/// Relies on `u64`'s `Display` implementation: an unsigned integer is
/// formatted as its plain decimal digits.
#[verifier::external_body]
pub(crate) fn decimal_string(n: u64) -> (r: String)
    ensures
        r@ == dec_string_of(n as int),
{
    format!("{}", n)
}

/// Lower-case every string in a list.
pub(crate) fn lowercase_all(keywords: &Vec<String>) -> (r: Vec<String>)
    ensures
        r@.map_values(|s: String| s@) == keywords@.map_values(|k: String| lower_of(k@)),
{
    let mut r: Vec<String> = Vec::new();
    let mut i: usize = 0;
    while i < keywords.len()
        invariant
            i <= keywords@.len(),
            r@.len() == i,
            forall|j: int| 0 <= j < i ==> #[trigger] r@[j]@ == lower_of(keywords@[j]@),
        decreases keywords@.len() - i,
    {
        r.push(lowercase(keywords[i].as_str()));
        i = i + 1;
    }
    proof {
        assert(r@.map_values(|s: String| s@) =~= keywords@.map_values(|k: String| lower_of(k@)));
    }
    r
}

/// The characters of `s`, as a vector usable with constant-time indexing.
pub(crate) fn chars_vec(s: &str) -> (r: Vec<char>)
    ensures
        r@ == s@,
{
    let n = s.unicode_len();
    let mut r: Vec<char> = Vec::new();
    let mut i: usize = 0;
    while i < n
        invariant
            n == s@.len(),
            i <= n,
            r@ == s@.take(i as int),
        decreases n - i,
    {
        r.push(s.get_char(i));
        i = i + 1;
        proof {
            assert(r@ =~= s@.take(i as int));
        }
    }
    proof {
        assert(s@.take(n as int) =~= s@);
    }
    r
}

} // verus!
