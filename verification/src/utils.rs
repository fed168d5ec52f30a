//! Small helpers for file names.

use crate::text::{chars_of, string_from};
use vstd::prelude::*;

verus! {

/// Whether `c` may not appear in a file name.
pub open spec fn is_reserved(c: char) -> bool {
    c == '/' || c == '\\' || c == ':' || c == '*' || c == '?' || c == '"' || c == '<' || c == '>'
        || c == '|'
}

/// `c`, or an underscore in its place where `c` is reserved.
pub open spec fn sanitized(c: char) -> char {
    if is_reserved(c) {
        '_'
    } else {
        c
    }
}

/// Replaces each character that may not appear in a file name by an
/// underscore and keeps every other character.
pub fn sanitize_filename(filename: &str) -> (out: String)
    ensures
        out@ == filename@.map_values(|c: char| sanitized(c)),
{
    let chars = chars_of(filename);
    let n = chars.len();
    let mut clean: Vec<char> = Vec::new();
    let mut i: usize = 0;
    while i < n
        invariant
            n == chars@.len(),
            i <= n,
            clean@ == chars@.take(i as int).map_values(|c: char| sanitized(c)),
        decreases n - i,
    {
        let c = chars[i];
        let r = if c == '/' || c == '\\' || c == ':' || c == '*' || c == '?' || c == '"' || c == '<'
            || c == '>' || c == '|' {
            '_'
        } else {
            c
        };
        clean.push(r);
        proof {
            assert(clean@ =~= chars@.take(i + 1).map_values(|c: char| sanitized(c)));
        }
        i = i + 1;
    }
    proof {
        assert(chars@.take(n as int) =~= chars@);
        assert(clean@.subrange(0, n as int) =~= clean@);
    }
    string_from(&clean, 0, n)
}

} // verus!
