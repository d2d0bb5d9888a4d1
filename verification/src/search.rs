//! Where a value first occurs in a sequence.

use vstd::prelude::*;

verus! {

/// The position of the first `needle` in `items`, or `None` where there is
/// none.
pub open spec fn first_index_of<A>(items: Seq<A>, needle: A) -> Option<int>
    decreases items.len(),
{
    if items.len() == 0 {
        None
    } else if items[0] == needle {
        Some(0)
    } else {
        match first_index_of(items.drop_first(), needle) {
            Some(at) => Some(at + 1),
            None => None,
        }
    }
}

/// What [`first_index_of`] finds is an occurrence with none before it, and
/// it finds none only where there is none.
pub proof fn lemma_first_index_of<A>(items: Seq<A>, needle: A)
    ensures
        match first_index_of(items, needle) {
            Some(at) => {
                &&& 0 <= at < items.len()
                &&& items[at] == needle
                &&& forall|j: int| 0 <= j < at ==> items[j] != needle
            },
            None => !items.contains(needle),
        },
    decreases items.len(),
{
    if items.len() > 0 && items[0] != needle {
        let later = items.drop_first();
        lemma_first_index_of(later, needle);
        match first_index_of(later, needle) {
            Some(at) => {
                assert(later[at] == items[at + 1]);
                assert forall|j: int| 0 <= j < at + 1 implies items[j] != needle by {
                    if j > 0 {
                        assert(later[j - 1] == items[j]);
                    }
                }
            },
            None => {
                assert forall|j: int| 0 <= j < items.len() implies items[j] != needle by {
                    if j > 0 {
                        assert(later[j - 1] == items[j]);
                    }
                }
            },
        }
    }
}

/// An occurrence with none before it is the one that [`first_index_of`]
/// finds.
pub proof fn lemma_first_occurrence<A>(items: Seq<A>, needle: A, at: int)
    requires
        0 <= at < items.len(),
        items[at] == needle,
        forall|j: int| 0 <= j < at ==> items[j] != needle,
    ensures
        first_index_of(items, needle) == Some(at),
{
    lemma_first_index_of(items, needle);
}

} // verus!
