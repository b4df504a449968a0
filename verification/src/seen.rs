//! A record of the lines seen so far, by which a line that repeats an
//! earlier one is found without comparing it with every earlier line.

use std::collections::hash_map::DefaultHasher;
use std::collections::HashMap;
use std::hash::Hasher;
use vstd::prelude::*;
use vstd::std_specs::hash::DefaultHasherAdditionalSpecFns;
use vstd::string::StringSliceAdditionalSpecFns;
use vstd::utf8::encode_utf8;

use crate::line::SortableLine;

verus! {

/// A number that two lines share where they hold the same text.
pub open spec fn fingerprint_of(text: Seq<char>) -> u64 {
    DefaultHasher::spec_finish(seq![encode_utf8(text)])
}

/// Computes the fingerprint of a text.
pub fn fingerprint(text: &str) -> (h: u64)
    ensures
        h == fingerprint_of(text@),
{
    let mut hasher = DefaultHasher::new();
    hasher.write(text.as_bytes());
    assert(hasher@ =~= seq![encode_utf8(text@)]);
    hasher.finish()
}

/// The places of the lines seen so far, those of lines with one fingerprint
/// together.
pub struct SeenLines {
    buckets: HashMap<u64, Vec<usize>>,
}

impl SeenLines {
    /// Whether the record holds just the first `upto` of `lines`: each of
    /// them stands under its fingerprint, and nothing else stands anywhere.
    pub closed spec fn holds(&self, lines: Seq<SortableLine>, upto: int) -> bool {
        &&& forall|i: int|
            0 <= i < upto ==> self.buckets@.contains_key(
                #[trigger] fingerprint_of(lines[i].line@),
            ) && exists|t: int|
                0 <= t < self.buckets@[fingerprint_of(lines[i].line@)]@.len()
                    && #[trigger] self.buckets@[fingerprint_of(lines[i].line@)]@[t] == i
        &&& forall|k: u64, t: int|
            self.buckets@.contains_key(k) && 0 <= t < self.buckets@[k]@.len()
                ==> #[trigger] self.buckets@[k]@[t] < upto
    }

    /// A record of no lines.
    pub fn new() -> (r: Self)
        ensures
            forall|lines: Seq<SortableLine>| r.holds(lines, 0),
    {
        SeenLines { buckets: HashMap::new() }
    }

    /// Looks for a line before the line at `j` that holds the same text, and
    /// where there is none, takes the line at `j` into the record.
    pub fn find_or_add(&mut self, lines: &[SortableLine], j: usize) -> (r: Option<usize>)
        requires
            j < lines.len(),
            old(self).holds(lines@, j as int),
        ensures
            match r {
                Some(i) => i < j && lines@[i as int].line@ == lines@[j as int].line@,
                None => final(self).holds(lines@, j + 1) && forall|i: int|
                    0 <= i < j ==> (#[trigger] lines@[i]).line@ != lines@[j as int].line@,
            },
    {
        broadcast use vstd::std_specs::hash::group_hash_axioms;

        let h = fingerprint(lines[j].line.as_str());
        let ghost before = self.buckets@;
        let mut bucket: Vec<usize> = match self.buckets.remove(&h) {
            Some(b) => b,
            None => Vec::new(),
        };
        assert(before.contains_key(h) ==> bucket@ == before[h]@);
        assert(!before.contains_key(h) ==> bucket@.len() == 0);
        let mut t: usize = 0;
        while t < bucket.len()
            invariant
                t <= bucket.len(),
                j < lines.len(),
                forall|u: int| 0 <= u < bucket.len() ==> #[trigger] bucket@[u] < j,
                forall|u: int|
                    0 <= u < t ==> lines@[(#[trigger] bucket@[u]) as int].line@ != lines@[j as int].line@,
            decreases bucket.len() - t,
        {
            let i = bucket[t];
            if lines[i].line == lines[j].line {
                return Some(i);
            }
            t += 1;
        }
        assert forall|i: int| 0 <= i < j implies (#[trigger] lines@[i]).line@ != lines@[j as int].line@ by {
            if lines@[i].line@ == lines@[j as int].line@ {
                assert(before.contains_key(fingerprint_of(lines@[i].line@)));
                let u = choose|u: int|
                    0 <= u < before[h]@.len() && #[trigger] before[h]@[u] == i;
                assert(bucket@[u] == i);
            }
        }
        let ghost old_bucket = bucket@;
        bucket.push(j);
        let ghost removed = self.buckets@;
        self.buckets.insert(h, bucket);
        assert forall|i: int| 0 <= i < j + 1 implies self.buckets@.contains_key(
            #[trigger] fingerprint_of(lines@[i].line@),
        ) && exists|t: int|
            0 <= t < self.buckets@[fingerprint_of(lines@[i].line@)]@.len()
                && #[trigger] self.buckets@[fingerprint_of(lines@[i].line@)]@[t] == i by {
            let f = fingerprint_of(lines@[i].line@);
            if i == j {
                assert(self.buckets@[f]@[old_bucket.len() as int] == j);
            } else if f == h {
                let u = choose|u: int| 0 <= u < before[h]@.len() && #[trigger] before[h]@[u] == i;
                assert(self.buckets@[f]@[u] == i);
            } else {
                let u = choose|u: int| 0 <= u < before[f]@.len() && #[trigger] before[f]@[u] == i;
                assert(self.buckets@[f]@[u] == i);
            }
        }
        assert forall|k: u64, t: int|
            self.buckets@.contains_key(k) && 0 <= t < self.buckets@[k]@.len()
                implies #[trigger] self.buckets@[k]@[t] < j + 1 by {
            if k == h {
                if t < old_bucket.len() {
                    assert(old_bucket[t] < j);
                }
            } else {
                assert(before.contains_key(k));
                assert(before[k]@[t] < j);
            }
        }
        None
    }
}

} // verus!
