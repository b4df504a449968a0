//! Strings as sequences of characters.

use vstd::prelude::*;

verus! {

/// The position `i` as a mathematical integer.
pub open spec fn idx(i: usize) -> int {
    i as int
}

/// The code point of `c`.
pub open spec fn code_point(c: char) -> int {
    c as int
}

/// The texts of some strings.
pub open spec fn strings(v: Seq<String>) -> Seq<Seq<char>> {
    Seq::new(v.len(), |i: int| v[i]@)
}

/// The characters of `s`, in order.
pub fn chars_of(s: &str) -> (r: Vec<char>)
    ensures
        r@ == s@,
{
    let mut out: Vec<char> = Vec::new();
    for c in it: s.chars()
        invariant
            it.seq() == s@,
            out@ == it.seq().take(it.index()),
    {
        out.push(c);
    }
    out
}

} // verus!
