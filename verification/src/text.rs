//! ASCII case-insensitive comparison of strings.

use vstd::prelude::*;

verus! {

/// The code point of `c`, with the upper-case ASCII letters mapped to their
/// lower-case counterparts.
pub open spec fn ascii_fold(c: char) -> int {
    let code = c as u32 as int;
    if 65 <= code && code <= 90 {
        code + 32
    } else {
        code
    }
}

/// Two texts are equal up to the case of their ASCII letters.
pub open spec fn ascii_case_eq(a: Seq<char>, b: Seq<char>) -> bool {
    &&& a.len() == b.len()
    &&& forall|i: int| 0 <= i < a.len() ==> ascii_fold(#[trigger] a[i]) == ascii_fold(b[i])
}

/// `str::eq_ignore_ascii_case` reports whether the two strings are the same
/// once every ASCII letter is lower-cased; all other characters must agree
/// exactly.
pub assume_specification[ str::eq_ignore_ascii_case ](a: &str, b: &str) -> (r: bool)
    ensures
        r == ascii_case_eq(a@, b@),
;

} // verus!
