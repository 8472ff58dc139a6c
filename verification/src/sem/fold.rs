//! Steps that may fail, taken one after the other over the items of a
//! sequence.

use crate::error::ErrorView;
use vstd::prelude::*;

verus! {

/// The state after the step was taken for each of the first `upto` items, in
/// order, from `start`; the error of the first step that fails. A step gets
/// the state, the place of the item and the item.
pub open spec fn folded<S, X>(
    items: Seq<X>,
    upto: int,
    start: S,
    step: spec_fn(S, int, X) -> Result<S, ErrorView>,
) -> Result<S, ErrorView>
    decreases upto,
{
    if upto <= 0 {
        Ok(start)
    } else {
        match folded(items, upto - 1, start, step) {
            Err(error) => Err(error),
            Ok(state) => step(state, upto - 1, items[upto - 1]),
        }
    }
}

/// Once a step has failed, the steps for more items fail as it did.
pub proof fn lemma_folded_fails<S, X>(
    items: Seq<X>,
    upto: int,
    all: int,
    start: S,
    step: spec_fn(S, int, X) -> Result<S, ErrorView>,
)
    requires
        0 <= upto <= all,
        folded(items, upto, start, step) is Err,
    ensures
        folded(items, all, start, step) == folded(items, upto, start, step),
    decreases all - upto,
{
    if upto < all {
        lemma_folded_fails(items, upto, all - 1, start, step);
    }
}

/// One more step: it is taken from the state that the steps before it
/// gave, and where it fails, the steps for all items fail as it did.
pub proof fn lemma_folded_next<S, X>(
    items: Seq<X>,
    upto: int,
    all: int,
    start: S,
    step: spec_fn(S, int, X) -> Result<S, ErrorView>,
)
    requires
        0 <= upto < all,
        folded(items, upto, start, step) is Ok,
    ensures
        folded(items, upto + 1, start, step) == step(
            folded(items, upto, start, step)->Ok_0,
            upto,
            items[upto],
        ),
        folded(items, upto + 1, start, step) is Err ==> folded(items, all, start, step) == folded(
            items,
            upto + 1,
            start,
            step,
        ),
{
    if folded(items, upto + 1, start, step) is Err {
        lemma_folded_fails(items, upto + 1, all, start, step);
    }
}

} // verus!
