//! Small text utilities: moving between `String`, `Vec<char>` and UTF-8
//! bytes, and substring search. The wire protocol is JSON text carried as
//! UTF-8 bytes, so these conversions sit at the edge of the codec.

use vstd::prelude::*;
use vstd::string::StrSliceExecFns;
use vstd::utf8::{decode_utf8, valid_utf8};

verus! {

/// Append every character of `s` to `out`, in order.
pub fn push_lit(out: &mut Vec<char>, s: &str)
    ensures
        final(out)@ == old(out)@ + s@,
{
    let n = s.unicode_len();
    let mut i: usize = 0;
    while i < n
        invariant
            n == s@.len(),
            i <= n,
            out@ == old(out)@ + s@.subrange(0, i as int),
        decreases n - i,
    {
        out.push(s.get_char(i));
        i = i + 1;
    }
    assert(s@.subrange(0, n as int) =~= s@);
}

/// The characters of `s`, in order, as a vector.
pub fn str_chars(s: &str) -> (r: Vec<char>)
    ensures
        r@ == s@,
{
    let mut r: Vec<char> = Vec::new();
    push_lit(&mut r, s);
    r
}

/// Relies on `FromIterator<&char> for String`: the returned string holds
/// exactly the characters of `v`, in order.
#[verifier::external_body]
pub(crate) fn chars_string(v: &Vec<char>) -> (r: String)
    ensures
        r@ == v@,
{
    v.iter().collect()
}

/// Relies on `core::str::from_utf8`: it succeeds exactly on valid UTF-8 and
/// returns the decoded characters (vstd's `valid_utf8` / `decode_utf8` state
/// that format).
#[verifier::external_body]
pub(crate) fn utf8_to_string(v: &Vec<u8>) -> (r: Option<String>)
    ensures
        r is Some <==> valid_utf8(v@),
        r matches Some(s) ==> s@ == decode_utf8(v@),
{
    match core::str::from_utf8(v.as_slice()) {
        Ok(s) => Some(s.to_string()),
        Err(_) => None,
    }
}

/// The two vectors hold the same characters.
pub fn chars_eq(a: &Vec<char>, b: &Vec<char>) -> (r: bool)
    ensures
        r == (a@ == b@),
{
    if a.len() != b.len() {
        return false;
    }
    let mut i: usize = 0;
    while i < a.len()
        invariant
            a.len() == b.len(),
            i <= a.len(),
            forall|k: int| 0 <= k < i ==> a@[k] == b@[k],
        decreases a.len() - i,
    {
        if a[i] != b[i] {
            return false;
        }
        i = i + 1;
    }
    proof {
        assert(a@ =~= b@);
    }
    true
}

/// The two strings hold the same characters.
pub fn str_eq(a: &str, b: &str) -> (r: bool)
    ensures
        r == (a@ == b@),
{
    let av = str_chars(a);
    let bv = str_chars(b);
    chars_eq(&av, &bv)
}

/// `needle` occurs in `hay` starting at position `i`.
pub open spec fn occurs_at(hay: Seq<char>, needle: Seq<char>, i: int) -> bool {
    &&& 0 <= i
    &&& i + needle.len() <= hay.len()
    &&& hay.subrange(i, i + needle.len() as int) == needle
}

/// `needle` occurs somewhere in `hay`.
pub open spec fn contains_seq(hay: Seq<char>, needle: Seq<char>) -> bool {
    exists|i: int| occurs_at(hay, needle, i)
}

/// Whether `needle` occurs as a contiguous run of characters in `hay`.
pub fn contains_chars(hay: &Vec<char>, needle: &Vec<char>) -> (r: bool)
    ensures
        r == contains_seq(hay@, needle@),
{
    if needle.len() > hay.len() {
        assert(forall|i: int| !occurs_at(hay@, needle@, i));
        return false;
    }
    if needle.len() == 0 {
        assert(hay@.subrange(0, 0) =~= needle@);
        assert(occurs_at(hay@, needle@, 0));
        return true;
    }
    let mut i: usize = 0;
    while i <= hay.len() - needle.len()
        invariant
            1 <= needle.len() <= hay.len(),
            i <= hay.len() - needle.len() + 1,
            forall|k: int| 0 <= k < i ==> !occurs_at(hay@, needle@, k),
        decreases hay.len() - i,
    {
        let mut j: usize = 0;
        let mut all: bool = true;
        while j < needle.len() && all
            invariant
                1 <= needle.len() <= hay.len(),
                i <= hay.len() - needle.len(),
                j <= needle.len(),
                all ==> hay@.subrange(i as int, i + j as int) == needle@.subrange(0, j as int),
                !all ==> !occurs_at(hay@, needle@, i as int),
            decreases needle.len() - j,
        {
            if hay[i + j] != needle[j] {
                all = false;
                assert(!occurs_at(hay@, needle@, i as int)) by {
                    if occurs_at(hay@, needle@, i as int) {
                        assert(hay@.subrange(i as int, i + needle@.len() as int)[j as int]
                            == needle@[j as int]);
                    }
                }
                j = j + 1;
            } else {
                assert(hay@.subrange(i as int, i + j + 1 as int) =~= hay@.subrange(
                    i as int,
                    i + j as int,
                ).push(hay@[i + j]));
                assert(needle@.subrange(0, j + 1 as int) =~= needle@.subrange(0, j as int).push(
                    needle@[j as int],
                ));
                j = j + 1;
            }
        }
        if all {
            assert(needle@.subrange(0, needle@.len() as int) =~= needle@);
            assert(occurs_at(hay@, needle@, i as int));
            return true;
        }
        i = i + 1;
    }
    assert(forall|k: int| occurs_at(hay@, needle@, k) ==> 0 <= k <= hay@.len() - needle@.len());
    false
}

/// Whether `needle` occurs as a substring of `hay`.
pub fn str_contains(hay: &str, needle: &str) -> (r: bool)
    ensures
        r == contains_seq(hay@, needle@),
{
    let h = str_chars(hay);
    let n = str_chars(needle);
    contains_chars(&h, &n)
}

} // verus!
