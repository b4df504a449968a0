//! Finding out how the lines of a text end.

use vstd::prelude::*;
use vstd::string::StringSliceAdditionalSpecFns;

use crate::error::Error;

verus! {

/// How many bytes from the start of a text are searched for a line ending.
pub const FIRST_CHUNK_SIZE: usize = 2048;

/// Whether `needle` stands in `hay` at position `i`.
pub open spec fn occurs_at(hay: Seq<u8>, needle: Seq<u8>, i: int) -> bool {
    0 <= i && i + needle.len() <= hay.len() && hay.subrange(i, i + needle.len()) == needle
}

/// Whether `needle` stands somewhere in `hay`.
pub open spec fn occurs(hay: Seq<u8>, needle: Seq<u8>) -> bool {
    exists|i: int| occurs_at(hay, needle, i)
}

/// The error for a text in which no line ending was found.
pub fn could_not_determine_line_ending() -> (e: Error)
    ensures
        e == Error::NoLineEnding(FIRST_CHUNK_SIZE),
{
    Error::NoLineEnding(FIRST_CHUNK_SIZE)
}

/// Whether the bytes of `needle` stand in `hay` from position `at` on.
fn matches_at(needle: &[u8], hay: &[u8], at: usize) -> (r: bool)
    requires
        at + needle.len() <= hay.len(),
    ensures
        r == occurs_at(hay@, needle@, at as int),
{
    let mut k: usize = 0;
    while k < needle.len()
        invariant
            k <= needle.len(),
            at + needle.len() <= hay.len(),
            forall|j: int| 0 <= j < k ==> hay@[at + j] == needle@[j],
        decreases needle.len() - k,
    {
        if hay[at + k] != needle[k] {
            assert(hay@.subrange(at as int, at + needle.len())[k as int] != needle@[k as int]);
            return false;
        }
        k += 1;
    }
    assert(hay@.subrange(at as int, at + needle.len()) =~= needle@);
    true
}

/// Tells whether the bytes of `needle` stand somewhere in `haystack`.
pub fn buf_contains_str(needle: &str, haystack: &[u8]) -> (r: bool)
    requires
        needle.spec_bytes().len() > 0,
    ensures
        r == occurs(haystack@, needle.spec_bytes()),
{
    let bytes = needle.as_bytes();
    if haystack.len() < bytes.len() {
        return false;
    }
    let last = haystack.len() - bytes.len();
    let mut at: usize = 0;
    while at <= last
        invariant
            at <= last + 1,
            last + bytes.len() == haystack.len(),
            bytes@ == needle.spec_bytes(),
            bytes@.len() > 0,
            forall|i: int| 0 <= i < at ==> !occurs_at(haystack@, bytes@, i),
        decreases last + 1 - at,
    {
        if matches_at(bytes, haystack, at) {
            return true;
        }
        at += 1;
    }
    false
}

/// The bytes of a carriage return followed by a line feed.
pub open spec fn crlf() -> Seq<u8> {
    seq![13u8, 10u8]
}

/// The byte of a line feed.
pub open spec fn lf() -> Seq<u8> {
    seq![10u8]
}

/// The byte of a carriage return.
pub open spec fn cr() -> Seq<u8> {
    seq![13u8]
}

/// The line ending that a text with these first bytes uses: a carriage
/// return with a line feed, where that pair stands in them; else a line feed,
/// where one does; else a carriage return.
pub open spec fn line_ending_of(buf: Seq<u8>) -> Option<Seq<u8>> {
    if occurs(buf, crlf()) {
        Some(crlf())
    } else if occurs(buf, lf()) {
        Some(lf())
    } else if occurs(buf, cr()) {
        Some(cr())
    } else {
        None
    }
}

/// Finds out from the first bytes of a text how its lines end.
pub fn determine_line_ending(buf: &[u8]) -> (r: Result<&'static str, Error>)
    ensures
        match r {
            Ok(ending) => line_ending_of(buf@) == Some(ending.spec_bytes()),
            Err(e) => line_ending_of(buf@) is None && e == Error::NoLineEnding(FIRST_CHUNK_SIZE),
        },
{
    broadcast use vstd::string::is_ascii_spec_bytes;

    proof {
        reveal_strlit("\r\n");
        reveal_strlit("\n");
        reveal_strlit("\r");
        assert(vstd::string::is_ascii("\r\n"));
        assert(vstd::string::is_ascii("\n"));
        assert(vstd::string::is_ascii("\r"));
        assert("\r\n".spec_bytes() =~= crlf());
        assert("\n".spec_bytes() =~= lf());
        assert("\r".spec_bytes() =~= cr());
    }
    if buf_contains_str("\r\n", buf) {
        Ok("\r\n")
    } else if buf_contains_str("\n", buf) {
        Ok("\n")
    } else if buf_contains_str("\r", buf) {
        Ok("\r")
    } else {
        Err(could_not_determine_line_ending())
    }
}

} // verus!
