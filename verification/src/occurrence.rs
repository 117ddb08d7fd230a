//! Where one sequence stands inside another, and where it does so first.

use vstd::prelude::*;

verus! {

/// Whether `needle` stands in `haystack` at position `at`.
pub open spec fn occurs_at<T>(haystack: Seq<T>, needle: Seq<T>, at: int) -> bool {
    &&& 0 <= at
    &&& at + needle.len() <= haystack.len()
    &&& haystack.subrange(at, at + needle.len()) == needle
}

/// Whether `needle` stands in `haystack` at position `at` and nowhere before.
pub open spec fn is_first_occurrence<T>(haystack: Seq<T>, needle: Seq<T>, at: int) -> bool {
    &&& occurs_at(haystack, needle, at)
    &&& forall|earlier: int| 0 <= earlier < at ==> !occurs_at(haystack, needle, earlier)
}

/// The first position at which `needle` stands in `haystack`, if it stands
/// there at all.
pub open spec fn first_occurrence<T>(haystack: Seq<T>, needle: Seq<T>) -> Option<int> {
    if exists|at: int| occurs_at(haystack, needle, at) {
        Some(choose|at: int| is_first_occurrence(haystack, needle, at))
    } else {
        None
    }
}

/// `first_occurrence` names the one position that is a first occurrence.
pub proof fn first_occurrence_is_first<T>(haystack: Seq<T>, needle: Seq<T>, at: int)
    ensures
        first_occurrence(haystack, needle) == Some(at) <==> is_first_occurrence(
            haystack,
            needle,
            at,
        ),
        first_occurrence(haystack, needle) is None <==> forall|any: int|
            !occurs_at(haystack, needle, any),
{
    if exists|any: int| occurs_at(haystack, needle, any) {
        let some = choose|any: int| occurs_at(haystack, needle, any);
        let least = lemma_least_occurrence(haystack, needle, some);
        let chosen = choose|at: int| is_first_occurrence(haystack, needle, at);
        assert(is_first_occurrence(haystack, needle, chosen));
        if is_first_occurrence(haystack, needle, at) {
            if chosen < at {
                assert(!occurs_at(haystack, needle, chosen));
            }
            if at < chosen {
                assert(!occurs_at(haystack, needle, at));
            }
        }
    }
}

/// Below any occurrence there is a first one.
proof fn lemma_least_occurrence<T>(haystack: Seq<T>, needle: Seq<T>, at: int) -> (least: int)
    requires
        occurs_at(haystack, needle, at),
    ensures
        is_first_occurrence(haystack, needle, least),
        least <= at,
    decreases at,
{
    if exists|earlier: int| 0 <= earlier < at && occurs_at(haystack, needle, earlier) {
        let earlier = choose|earlier: int| 0 <= earlier < at && occurs_at(haystack, needle, earlier);
        lemma_least_occurrence(haystack, needle, earlier)
    } else {
        at
    }
}

/// A cut at the first occurrence of a non-empty `needle` loses nothing, and
/// the piece before the cut holds no `needle`.
pub proof fn cut_at_first_occurrence<T>(haystack: Seq<T>, needle: Seq<T>, at: int)
    requires
        is_first_occurrence(haystack, needle, at),
        needle.len() > 0,
    ensures
        haystack == haystack.subrange(0, at) + needle + haystack.subrange(
            at + needle.len(),
            haystack.len() as int,
        ),
        forall|inner: int| !occurs_at(haystack.subrange(0, at), needle, inner),
{
    let piece = haystack.subrange(0, at);
    let rest = haystack.subrange(at + needle.len(), haystack.len() as int);
    assert(haystack =~= piece + haystack.subrange(at, at + needle.len()) + rest);
    assert forall|inner: int| !occurs_at(piece, needle, inner) by {
        if occurs_at(piece, needle, inner) {
            assert(haystack.subrange(inner, inner + needle.len()) =~= piece.subrange(
                inner,
                inner + needle.len(),
            ));
            assert(occurs_at(haystack, needle, inner));
        }
    }
}

/// Whether `needle` stands in `haystack` at `at`.
fn matches_at(haystack: &[u8], needle: &[u8], at: usize) -> (same: bool)
    requires
        at + needle@.len() <= haystack@.len(),
    ensures
        same == occurs_at(haystack@, needle@, at as int),
{
    let ghost window = haystack@.subrange(at as int, at + needle@.len());
    let len: usize = haystack.len();
    let mut i: usize = 0;
    while i < needle.len()
        invariant
            i <= needle@.len(),
            at + needle@.len() <= haystack@.len() == len,
            window == haystack@.subrange(at as int, at + needle@.len()),
            forall|j: int| 0 <= j < i ==> window[j] == needle@[j],
        decreases needle@.len() - i,
    {
        if haystack[at + i] != needle[i] {
            assert(window[i as int] != needle@[i as int]);
            return false;
        }
        i = i + 1;
    }
    assert(window =~= needle@);
    true
}

/// The first position at which `needle` stands in `haystack`.
pub(crate) fn find_bytes(haystack: &[u8], needle: &[u8]) -> (found: Option<usize>)
    ensures
        found matches Some(at) ==> is_first_occurrence(haystack@, needle@, at as int),
        first_occurrence(haystack@, needle@) == match found {
            Some(at) => Some(at as int),
            None => None,
        },
{
    if needle.len() > haystack.len() {
        return None;
    }
    let last: usize = haystack.len() - needle.len();
    let mut at: usize = 0;
    loop
        invariant
            last == haystack@.len() - needle@.len(),
            at <= last,
            forall|earlier: int| 0 <= earlier < at ==> !occurs_at(haystack@, needle@, earlier),
        decreases last - at,
    {
        if matches_at(haystack, needle, at) {
            proof {
                first_occurrence_is_first(haystack@, needle@, at as int);
            }
            return Some(at);
        }
        if at == last {
            return None;
        }
        at = at + 1;
    }
}

} // verus!
