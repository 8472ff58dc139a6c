//! Writing values to numbered places one after the other, and why doing
//! all of it again changes nothing.

use vstd::prelude::*;

verus! {

/// The places after the first `upto` writes: each write puts its value at
/// its place, if there is such a place.
pub open spec fn applied<T>(writes: Seq<(int, T)>, upto: int, start: Seq<T>) -> Seq<T>
    decreases upto,
{
    if upto <= 0 {
        start
    } else {
        let before = applied(writes, upto - 1, start);
        let (place, value) = writes[upto - 1];
        if 0 <= place < before.len() {
            before.update(place, value)
        } else {
            before
        }
    }
}

/// Whether one of the writes from `from` on goes to the place.
pub open spec fn written_from<T>(writes: Seq<(int, T)>, from: int, place: int) -> bool {
    exists|j: int| from <= j < writes.len() && (#[trigger] writes[j]).0 == place
}

/// Writes keep the number of places.
pub proof fn lemma_applied_len<T>(writes: Seq<(int, T)>, upto: int, start: Seq<T>)
    ensures
        applied(writes, upto, start).len() == start.len(),
    decreases upto,
{
    if upto > 0 {
        lemma_applied_len(writes, upto - 1, start);
    }
}

/// What the first writes give depends on the first writes only.
pub proof fn lemma_applied_prefix<T>(a: Seq<(int, T)>, b: Seq<(int, T)>, upto: int, start: Seq<T>)
    requires
        0 <= upto <= a.len(),
        upto <= b.len(),
        forall|j: int| 0 <= j < upto ==> a[j] == b[j],
    ensures
        applied(a, upto, start) == applied(b, upto, start),
    decreases upto,
{
    if upto > 0 {
        lemma_applied_prefix(a, b, upto - 1, start);
    }
}

/// Writing `a` and then `b` is writing `a` followed by `b`.
pub proof fn lemma_applied_concat<T>(a: Seq<(int, T)>, b: Seq<(int, T)>, upto: int, start: Seq<T>)
    requires
        0 <= upto <= b.len(),
    ensures
        applied(a + b, a.len() + upto, start) == applied(b, upto, applied(a, a.len() as int, start)),
    decreases upto,
{
    if upto == 0 {
        lemma_applied_prefix(a + b, a, a.len() as int, start);
    } else {
        lemma_applied_concat(a, b, upto - 1, start);
        assert((a + b)[a.len() + upto - 1] == b[upto - 1]);
    }
}

/// A place that is not written to from `from` on holds in the end what it
/// held after the first `from` writes.
pub proof fn lemma_applied_last<T>(writes: Seq<(int, T)>, from: int, start: Seq<T>, place: int)
    requires
        0 <= from <= writes.len(),
        0 <= place < start.len(),
        !written_from(writes, from, place),
    ensures
        applied(writes, writes.len() as int, start)[place] == applied(writes, from, start)[place],
    decreases writes.len() - from,
{
    if from < writes.len() {
        assert(writes[from].0 != place);
        assert(!written_from(writes, from + 1, place)) by {
            if written_from(writes, from + 1, place) {
                let j = choose|j: int| from + 1 <= j < writes.len() && (#[trigger] writes[j]).0 == place;
                assert(written_from(writes, from, place));
            }
        }
        lemma_applied_last(writes, from + 1, start, place);
        lemma_applied_len(writes, from, start);
    }
}

/// Doing the first writes again on the places that all writes gave leaves
/// every place as it is that no later write goes to.
pub proof fn lemma_applied_again<T>(writes: Seq<(int, T)>, upto: int, start: Seq<T>, place: int)
    requires
        0 <= upto <= writes.len(),
        0 <= place < start.len(),
        !written_from(writes, upto, place),
    ensures
        applied(writes, upto, applied(writes, writes.len() as int, start))[place] == applied(
            writes,
            writes.len() as int,
            start,
        )[place],
    decreases upto,
{
    let end = applied(writes, writes.len() as int, start);
    lemma_applied_len(writes, writes.len() as int, start);
    if upto > 0 {
        let (at, value) = writes[upto - 1];
        lemma_applied_len(writes, upto - 1, end);
        if at == place {
            lemma_applied_last(writes, upto, start, place);
            lemma_applied_len(writes, upto - 1, start);
        } else {
            assert(!written_from(writes, upto - 1, place)) by {
                if written_from(writes, upto - 1, place) {
                    let j = choose|j: int|
                        upto - 1 <= j < writes.len() && (#[trigger] writes[j]).0 == place;
                    assert(j >= upto);
                    assert(written_from(writes, upto, place));
                }
            }
            lemma_applied_again(writes, upto - 1, start, place);
        }
    }
}

/// Doing all writes again changes nothing.
pub proof fn lemma_applied_settled<T>(writes: Seq<(int, T)>, start: Seq<T>)
    ensures
        applied(writes, writes.len() as int, applied(writes, writes.len() as int, start))
            == applied(writes, writes.len() as int, start),
{
    let end = applied(writes, writes.len() as int, start);
    let again = applied(writes, writes.len() as int, end);
    lemma_applied_len(writes, writes.len() as int, start);
    lemma_applied_len(writes, writes.len() as int, end);
    assert forall|place: int| 0 <= place < end.len() implies again[place] == end[place] by {
        lemma_applied_again(writes, writes.len() as int, start, place);
    }
    assert(again =~= end);
}

} // verus!
