//! Searching a sequence for the first element of a kind.

use vstd::prelude::*;

verus! {

/// The index of the first element that meets `wanted`; `items.len()` if there is none.
pub open spec fn first_match<A>(items: Seq<A>, wanted: spec_fn(A) -> bool) -> int
    decreases items.len(),
{
    if items.len() == 0 {
        0
    } else if wanted(items.first()) {
        0
    } else {
        1 + first_match(items.drop_first(), wanted)
    }
}

/// What `first_match` finds: nothing before it meets `wanted`, and the element there does.
pub proof fn lemma_first_match<A>(items: Seq<A>, wanted: spec_fn(A) -> bool)
    ensures
        0 <= first_match(items, wanted) <= items.len(),
        forall|j: int| 0 <= j < first_match(items, wanted) ==> !wanted(#[trigger] items[j]),
        first_match(items, wanted) < items.len() ==> wanted(items[first_match(items, wanted)]),
    decreases items.len(),
{
    if items.len() > 0 && !wanted(items.first()) {
        let rest = items.drop_first();
        lemma_first_match(rest, wanted);
        assert forall|j: int| 0 <= j < first_match(items, wanted) implies !wanted(
            #[trigger] items[j],
        ) by {
            if j > 0 {
                assert(items[j] == rest[j - 1]);
            }
        }
    }
}

/// An index before which nothing meets `wanted`, and which holds an element that does or
/// ends the sequence, is what `first_match` finds.
pub proof fn lemma_first_match_is<A>(items: Seq<A>, wanted: spec_fn(A) -> bool, i: int)
    requires
        0 <= i <= items.len(),
        forall|j: int| 0 <= j < i ==> !wanted(#[trigger] items[j]),
        i < items.len() ==> wanted(items[i]),
    ensures
        first_match(items, wanted) == i,
{
    lemma_first_match(items, wanted);
}

} // verus!
