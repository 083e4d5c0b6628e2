//! Character-level helpers for the line-oriented encodings: wire frames and
//! ledger lines are whitespace-separated tokens ended by a newline.

use vstd::prelude::*;
use vstd::string::StrSliceExecFns;

verus! {

/// Characters a token may hold: anything but the two separators.
pub open spec fn is_token_char(c: char) -> bool {
    c != ' ' && c != '\n'
}

/// A token: free of separator characters, so it can stand between them.
pub open spec fn token(s: Seq<char>) -> bool {
    forall|i: int| 0 <= i < s.len() ==> is_token_char(#[trigger] s[i])
}

/// Decides whether a string is a token.
pub fn is_token_str(s: &str) -> (r: bool)
    ensures
        r == token(s@),
{
    let n = s.unicode_len();
    let mut i: usize = 0;
    while i < n
        invariant
            i <= n,
            n == s@.len(),
            forall|j: int| 0 <= j < i ==> is_token_char(#[trigger] s@[j]),
        decreases n - i,
    {
        let ch = s.get_char(i);
        if ch == ' ' || ch == '\n' {
            assert(!is_token_char(s@[i as int]));
            return false;
        }
        i += 1;
    }
    true
}

/// Position of the first occurrence of `c` in `s` at or after `from`.
pub fn find_char(s: &str, c: char, from: usize) -> (r: Option<usize>)
    requires
        from <= s@.len(),
    ensures
        r matches Some(i) ==> from <= i < s@.len() && s@[i as int] == c && (forall|j: int|
            from <= j < i ==> s@[j] != c),
        r is None ==> forall|j: int| from <= j < s@.len() ==> s@[j] != c,
{
    let n = s.unicode_len();
    let mut i: usize = from;
    while i < n
        invariant
            from <= i <= n,
            n == s@.len(),
            forall|j: int| from <= j < i ==> s@[j] != c,
        decreases n - i,
    {
        if s.get_char(i) == c {
            return Some(i);
        }
        i += 1;
    }
    None
}

} // verus!
