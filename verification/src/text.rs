//! Verified text helpers: character-wise string equality and
//! substring search, used to classify wire messages and to pick a
//! subscription channel.

use vstd::prelude::*;
use vstd::string::StrSliceExecFns;

verus! {

/// `needle` occurs contiguously somewhere in `hay`.
pub open spec fn contains_seq(hay: Seq<char>, needle: Seq<char>) -> bool {
    exists|k: int|
        0 <= k <= hay.len() - needle.len() && #[trigger] hay.subrange(k, k + needle.len())
            == needle
}

/// Character-wise equality of two strings.
pub fn str_eq(a: &str, b: &str) -> (r: bool)
    ensures
        r == (a@ == b@),
{
    let na = a.unicode_len();
    let nb = b.unicode_len();
    if na != nb {
        return false;
    }
    let mut i: usize = 0;
    while i < na
        invariant
            i <= na,
            na == a@.len(),
            na == b@.len(),
            forall|j: int| 0 <= j < i ==> a@[j] == b@[j],
        decreases na - i,
    {
        if a.get_char(i) != b.get_char(i) {
            return false;
        }
        i = i + 1;
    }
    proof {
        assert(a@ =~= b@);
    }
    true
}

/// The needle matches `hay` at offset `k`.
fn match_at(hay: &str, needle: &str, k: usize) -> (r: bool)
    requires
        k + needle@.len() <= hay@.len(),
    ensures
        r == (hay@.subrange(k as int, k as int + needle@.len()) == needle@),
{
    let nh = hay.unicode_len();
    let nn = needle.unicode_len();
    let ghost sub = hay@.subrange(k as int, k as int + needle@.len());
    let mut j: usize = 0;
    while j < nn
        invariant
            j <= nn,
            nn == needle@.len(),
            nh == hay@.len(),
            k + nn <= nh,
            sub == hay@.subrange(k as int, k as int + needle@.len()),
            forall|t: int| 0 <= t < j ==> hay@[k + t] == needle@[t],
        decreases nn - j,
    {
        if hay.get_char(k + j) != needle.get_char(j) {
            proof {
                assert(sub[j as int] == hay@[k + j]);
            }
            return false;
        }
        j = j + 1;
    }
    proof {
        assert(sub =~= needle@);
    }
    true
}

/// Substring search: whether `needle` occurs anywhere in `hay`.
pub fn str_contains(hay: &str, needle: &str) -> (r: bool)
    ensures
        r == contains_seq(hay@, needle@),
{
    let nh = hay.unicode_len();
    let nn = needle.unicode_len();
    if nn > nh {
        return false;
    }
    if nn == 0 {
        proof {
            assert(hay@.subrange(0, 0 + needle@.len() as int) =~= needle@);
        }
        return true;
    }
    let bound = nh - nn;
    let mut k: usize = 0;
    while k <= bound
        invariant
            1 <= nn <= nh,
            bound == nh - nn,
            nh == hay@.len(),
            nn == needle@.len(),
            k <= bound + 1,
            forall|k2: int|
                0 <= k2 < k ==> #[trigger] hay@.subrange(k2, k2 + needle@.len()) != needle@,
        decreases bound + 1 - k,
    {
        if match_at(hay, needle, k) {
            return true;
        }
        k = k + 1;
    }
    proof {
        if contains_seq(hay@, needle@) {
            let k2 = choose|k2: int|
                0 <= k2 <= hay@.len() - needle@.len() && #[trigger] hay@.subrange(
                    k2,
                    k2 + needle@.len(),
                ) == needle@;
            assert(hay@.subrange(k2, k2 + needle@.len()) != needle@);
        }
    }
    false
}

} // verus!
