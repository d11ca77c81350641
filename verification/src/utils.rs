//! Searching a run of bytes.

use vstd::prelude::*;

verus! {

/// Whether `needle` stands in `haystack` at position `at`.
pub open spec fn occurs_at(haystack: Seq<u8>, needle: Seq<u8>, at: int) -> bool {
    0 <= at && at + needle.len() <= haystack.len() && haystack.subrange(
        at,
        at + needle.len(),
    ) == needle
}

/// Whether `at` is the first position at which `needle` stands in `haystack`.
pub open spec fn first_occurrence(haystack: Seq<u8>, needle: Seq<u8>, at: int) -> bool {
    occurs_at(haystack, needle, at) && forall|earlier: int|
        0 <= earlier < at ==> !occurs_at(haystack, needle, earlier)
}

/// Whether `needle` stands in `haystack` at position `at`.
fn stands_at(haystack: &[u8], needle: &[u8], at: usize) -> (stands: bool)
    requires
        at + needle@.len() <= haystack@.len(),
    ensures
        stands == occurs_at(haystack@, needle@, at as int),
{
    let ghost part = haystack@.subrange(at as int, at + needle@.len());
    let total: usize = haystack.len();
    let mut i: usize = 0;
    while i < needle.len()
        invariant
            i <= needle@.len(),
            at + needle@.len() <= haystack@.len() == total,
            part == haystack@.subrange(at as int, at + needle@.len()),
            part.take(i as int) == needle@.take(i as int),
        decreases needle@.len() - i,
    {
        if haystack[at + i] != needle[i] {
            assert(part[i as int] != needle@[i as int]);
            return false;
        }
        proof {
            assert(part.take(i + 1) == part.take(i as int).push(part[i as int]));
            assert(needle@.take(i + 1) == needle@.take(i as int).push(needle@[i as int]));
        }
        i += 1;
    }
    proof {
        assert(part.take(needle@.len() as int) == part);
        assert(needle@.take(needle@.len() as int) == needle@);
    }
    true
}

/// The first position at which `needle` stands in `haystack`, if it stands
/// there at all. An empty needle stands at the start of any haystack.
pub fn find_sequence(haystack: &[u8], needle: &[u8]) -> (found: Option<usize>)
    ensures
        found is None <==> forall|at: int| !occurs_at(haystack@, needle@, at),
        found is Some ==> first_occurrence(haystack@, needle@, found->0 as int),
{
    if needle.len() > haystack.len() {
        return None;
    }
    let last: usize = haystack.len() - needle.len();
    let mut at: usize = 0;
    loop
        invariant
            at <= last,
            last + needle@.len() == haystack@.len(),
            forall|earlier: int| 0 <= earlier < at ==> !occurs_at(haystack@, needle@, earlier),
        decreases last - at,
    {
        if stands_at(haystack, needle, at) {
            return Some(at);
        }
        if at == last {
            return None;
        }
        at += 1;
    }
}

} // verus!
