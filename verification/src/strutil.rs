//! Character-level string helpers.
//!
//! All matching in this crate is defined over `Seq<char>` views, so the
//! executable comparisons here are written character by character against
//! those views.

use vstd::prelude::*;

verus! {

/// View of a sequence of owned strings.
pub open spec fn strs_view(s: Seq<String>) -> Seq<Seq<char>> {
    s.map_values(|t: String| t@)
}

/// View of an association list of owned strings.
pub open spec fn map_view(m: Seq<(String, String)>) -> Seq<(Seq<char>, Seq<char>)> {
    m.map_values(|p: (String, String)| (p.0@, p.1@))
}

/// `p` is a prefix of `s`.
pub open spec fn is_char_prefix(s: Seq<char>, p: Seq<char>) -> bool {
    p.len() <= s.len() && p =~= s.subrange(0, p.len() as int)
}

/// Character-wise equality of two string slices.
pub fn str_eq(a: &str, b: &str) -> (r: bool)
    ensures
        r == (a@ == b@),
{
    let alen = a.unicode_len();
    let blen = b.unicode_len();
    if alen != blen {
        return false;
    }
    let mut i: usize = 0;
    while i < alen
        invariant
            alen == a@.len(),
            alen == b@.len(),
            i <= alen,
            forall|k: int| 0 <= k < i ==> a@[k] == b@[k],
        decreases alen - i,
    {
        if a.get_char(i) != b.get_char(i) {
            return false;
        }
        i += 1;
    }
    proof {
        assert(a@ =~= b@);
    }
    true
}

/// Character-wise prefix test.
pub fn str_starts_with(s: &str, p: &str) -> (r: bool)
    ensures
        r == is_char_prefix(s@, p@),
{
    let slen = s.unicode_len();
    let plen = p.unicode_len();
    if plen > slen {
        return false;
    }
    let mut i: usize = 0;
    while i < plen
        invariant
            slen == s@.len(),
            plen == p@.len(),
            plen <= slen,
            i <= plen,
            forall|k: int| 0 <= k < i ==> s@[k] == p@[k],
        decreases plen - i,
    {
        if s.get_char(i) != p.get_char(i) {
            proof {
                assert(s@.subrange(0, p@.len() as int)[i as int] == s@[i as int]);
            }
            return false;
        }
        i += 1;
    }
    proof {
        assert(p@ =~= s@.subrange(0, p@.len() as int));
    }
    true
}

/// Whether some element of `v` has the same characters as `key`.
pub fn contains_str(v: &Vec<String>, key: &str) -> (r: bool)
    ensures
        r == strs_view(v@).contains(key@),
{
    let mut i: usize = 0;
    while i < v.len()
        invariant
            i <= v@.len(),
            forall|k: int| 0 <= k < i ==> #[trigger] v@[k]@ != key@,
        decreases v@.len() - i,
    {
        if str_eq(v[i].as_str(), key) {
            proof {
                assert(strs_view(v@)[i as int] == key@);
            }
            return true;
        }
        i += 1;
    }
    false
}

/// The remainder of `s` after its first `p@.len()` characters, as an owned
/// string; callers establish that `p` really is a prefix.
pub fn strip_prefix_owned(s: &str, p: &str) -> (r: String)
    requires
        is_char_prefix(s@, p@),
    ensures
        r@ == s@.skip(p@.len() as int),
{
    let slen = s.unicode_len();
    let plen = p.unicode_len();
    let rest = s.substring_char(plen, slen);
    proof {
        assert(rest@ =~= s@.skip(p@.len() as int));
    }
    rest.to_owned()
}

} // verus!
