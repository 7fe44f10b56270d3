//! Identifier-safety validation: names that may be interpolated into SQL text
//! are restricted to ASCII letters, digits and underscore.
use vstd::prelude::*;
use vstd::string::StrSliceExecFns;

verus! {

/// A character that is safe inside a SQL identifier: ASCII alphanumeric or `_`.
pub open spec fn is_ident_char(c: char) -> bool {
    ('a' <= c && c <= 'z') || ('A' <= c && c <= 'Z') || ('0' <= c && c <= '9') || c == '_'
}

/// Every character of the name is safe for direct SQL interpolation.
/// The empty sequence is vacuously valid; rejecting empty names is the
/// parser's job.
pub open spec fn valid_ident(s: Seq<char>) -> bool {
    forall|i: int| 0 <= i < s.len() ==> is_ident_char(#[trigger] s[i])
}

/// True exactly when every character of `name` is an ASCII letter, an ASCII
/// digit, or an underscore.
pub fn is_valid_tname(name: &str) -> (r: bool)
    ensures
        r == valid_ident(name@),
{
    let len = name.unicode_len();
    let mut i: usize = 0;
    while i < len
        invariant
            0 <= i <= len,
            len == name@.len(),
            forall|j: int| 0 <= j < i ==> is_ident_char(#[trigger] name@[j]),
        decreases len - i,
    {
        let c = name.get_char(i);
        let ok = ('a' <= c && c <= 'z') || ('A' <= c && c <= 'Z') || ('0' <= c && c <= '9') || c
            == '_';
        if !ok {
            return false;
        }
        i += 1;
    }
    true
}

} // verus!
