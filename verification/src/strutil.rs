//! Character-level string helpers shared across the engine.

use vstd::prelude::*;
use vstd::string::StrSliceExecFns;

verus! {

/// Character-by-character equality of two string slices.
pub fn str_eq(a: &str, b: &str) -> (r: bool)
    ensures
        r == (a@ == b@),
{
    let an = a.unicode_len();
    let bn = b.unicode_len();
    if an != bn {
        return false;
    }
    for i in 0..an
        invariant
            an == a@.len(),
            an == b@.len(),
            forall|j: int| 0 <= j < i ==> a@[j] == b@[j],
    {
        if a.get_char(i) != b.get_char(i) {
            return false;
        }
    }
    proof {
        assert(a@ =~= b@);
    }
    true
}

/// The lower-case form of an ASCII letter; any other character is unchanged.
pub open spec fn ascii_lower_char(c: char) -> char {
    if 'A' <= c <= 'Z' {
        ((c as u32) + 32) as char
    } else {
        c
    }
}

/// A string mapped character-wise through `ascii_lower_char`.
pub open spec fn ascii_lower(s: Seq<char>) -> Seq<char> {
    Seq::new(s.len(), |i: int| ascii_lower_char(s[i]))
}

/// Lower-cases the ASCII letters of a string, leaving all else unchanged.
pub fn to_ascii_lower(s: &str) -> (r: String)
    ensures
        r@ == ascii_lower(s@),
{
    let n = s.unicode_len();
    let mut out = String::new();
    for i in 0..n
        invariant
            n == s@.len(),
            out@ =~= ascii_lower(s@).take(i as int),
    {
        let c = s.get_char(i);
        let lc: char = if 'A' <= c && c <= 'Z' {
            (((c as u32) + 32) as u8) as char
        } else {
            c
        };
        crate::fsio::push_char(&mut out, lc);
        proof {
            assert(out@ =~= ascii_lower(s@).take(i + 1));
        }
    }
    proof {
        assert(out@ =~= ascii_lower(s@));
    }
    out
}

/// Whether any string in the vector has exactly the given characters.
pub fn contains_str(hay: &Vec<String>, needle: &str) -> (b: bool)
    ensures
        b == hay@.map_values(|s: String| s@).contains(needle@),
{
    let ghost hvs = hay@.map_values(|s: String| s@);
    let n = hay.len();
    for j in 0..n
        invariant
            n == hay@.len(),
            hvs == hay@.map_values(|s: String| s@),
            forall|k: int| 0 <= k < j ==> hvs[k] != needle@,
    {
        proof {
            assert(hvs[j as int] == hay@[j as int]@);
        }
        if str_eq(hay[j].as_str(), needle) {
            return true;
        }
    }
    false
}

} // verus!
