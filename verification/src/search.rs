//! Where a byte pattern stands in a buffer.
use vstd::prelude::*;

verus! {

/// `needle` stands in `hay` at offset `at`.
pub open spec fn occurs_at(hay: Seq<u8>, needle: Seq<u8>, at: int) -> bool {
    &&& 0 <= at
    &&& at + needle.len() <= hay.len()
    &&& forall|k: int| 0 <= k < needle.len() ==> hay[at + k] == #[trigger] needle[k]
}

/// `needle` stands in `hay` at offset `at` and at no smaller offset.
pub open spec fn first_occurrence_at(hay: Seq<u8>, needle: Seq<u8>, at: int) -> bool {
    &&& occurs_at(hay, needle, at)
    &&& forall|j: int| 0 <= j < at ==> !occurs_at(hay, needle, j)
}

/// `needle` stands somewhere in `hay`.
pub open spec fn contains(hay: Seq<u8>, needle: Seq<u8>) -> bool {
    exists|at: int| occurs_at(hay, needle, at)
}

/// The smallest offset at which `needle` stands in `hay`, if it stands there at all.
pub open spec fn first_occurrence(hay: Seq<u8>, needle: Seq<u8>) -> Option<int> {
    if contains(hay, needle) {
        Some(choose|at: int| first_occurrence_at(hay, needle, at))
    } else {
        None
    }
}

/// An occurrence at `at` implies that some occurrence is the first one.
pub proof fn lemma_first_occurrence_exists(hay: Seq<u8>, needle: Seq<u8>, at: int)
    requires
        occurs_at(hay, needle, at),
    ensures
        exists|first: int| first_occurrence_at(hay, needle, first),
    decreases at,
{
    if exists|j: int| 0 <= j < at && occurs_at(hay, needle, j) {
        let j = choose|j: int| 0 <= j < at && occurs_at(hay, needle, j);
        lemma_first_occurrence_exists(hay, needle, j);
    } else {
        assert(first_occurrence_at(hay, needle, at));
    }
}

/// `first_occurrence` names `at` exactly when `at` is the first occurrence.
pub proof fn lemma_first_occurrence_is(hay: Seq<u8>, needle: Seq<u8>, at: int)
    ensures
        first_occurrence(hay, needle) == Some(at) <==> first_occurrence_at(hay, needle, at),
{
    if first_occurrence_at(hay, needle, at) {
        let chosen = choose|c: int| first_occurrence_at(hay, needle, c);
        assert(first_occurrence_at(hay, needle, chosen));
        assert(chosen == at) by {
            if chosen < at {
                assert(!occurs_at(hay, needle, chosen));
            } else if at < chosen {
                assert(!occurs_at(hay, needle, at));
            }
        }
    }
    if first_occurrence(hay, needle) == Some(at) {
        let some = choose|o: int| occurs_at(hay, needle, o);
        lemma_first_occurrence_exists(hay, needle, some);
    }
}

/// `first_occurrence` is `None` exactly when `needle` stands nowhere in `hay`.
pub proof fn lemma_first_occurrence_none(hay: Seq<u8>, needle: Seq<u8>)
    ensures
        first_occurrence(hay, needle) is None <==> forall|at: int| !occurs_at(hay, needle, at),
{
}

/// Calls `subslice::SubsliceExt::find` on byte slices. The crate documents the
/// result as the start of the first subslice of `hay` equal to `needle`, and
/// `None` where no subslice is equal to it; an empty `needle` is found at 0.
#[verifier::external_body]
fn find_subslice(hay: &[u8], needle: &[u8]) -> (found: Option<usize>)
    ensures
        match found {
            Some(at) => first_occurrence_at(hay@, needle@, at as int),
            None => forall|at: int| !occurs_at(hay@, needle@, at),
        },
{
    subslice::SubsliceExt::find(hay, needle)
}

/// The offset of the first occurrence of `needle` in `hay`.
pub fn find(hay: &[u8], needle: &[u8]) -> (found: Option<usize>)
    ensures
        match found {
            Some(at) => first_occurrence(hay@, needle@) == Some(at as int),
            None => first_occurrence(hay@, needle@) is None,
        },
{
    let found = find_subslice(hay, needle);
    proof {
        match found {
            Some(at) => lemma_first_occurrence_is(hay@, needle@, at as int),
            None => lemma_first_occurrence_none(hay@, needle@),
        }
    }
    found
}

} // verus!
