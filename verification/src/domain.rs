//! The domain extractor: a best-effort heuristic that takes the part of a
//! URL between `://` and the next `/`.  It is not a full URI parser — ports,
//! credentials and fragments before the first slash are kept.

use vstd::prelude::*;
use vstd::string::StrSliceExecFns;
use crate::matching::{first_match_from, find_sub_from};
use crate::text::chars_vec;

verus! {

/// The host part of a URL: the characters between the first `://` and the
/// next `/`; the whole remainder when no further `/` exists; and the whole
/// input when no `://` is present.
pub open spec fn spec_extract_domain(url: Seq<char>) -> Seq<char> {
    let sep = seq![':', '/', '/'];
    let m = first_match_from(url, sep, 0);
    if m == -1 {
        url
    } else {
        let s = first_match_from(url, seq!['/'], m + 3);
        if s == -1 {
            url.subrange(m + 3, url.len() as int)
        } else {
            url.subrange(m + 3, s)
        }
    }
}

/// Derive a host/domain string from a URL.  Never fails: input without a
/// scheme separator is returned unchanged.
pub fn extract_domain(url: &str) -> (r: String)
    ensures
        r@ == spec_extract_domain(url@),
{
    let chars = chars_vec(url);
    let mut sep: Vec<char> = Vec::new();
    sep.push(':');
    sep.push('/');
    sep.push('/');
    proof {
        assert(sep@ =~= seq![':', '/', '/']);
    }
    match find_sub_from(&chars, &sep, 0) {
        None => url.to_owned(),
        Some(m) => {
            let mut slash: Vec<char> = Vec::new();
            slash.push('/');
            proof {
                assert(slash@ =~= seq!['/']);
            }
            let n = url.unicode_len();
            match find_sub_from(&chars, &slash, m + 3) {
                None => url.substring_char(m + 3, n).to_owned(),
                Some(s) => url.substring_char(m + 3, s).to_owned(),
            }
        },
    }
}

} // verus!
