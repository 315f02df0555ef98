//! Going through a list until something goes wrong.

use vstd::prelude::*;

verus! {

/// What comes of taking the items in one after the other, or the error of the
/// first one that cannot be taken in.
pub open spec fn try_fold<S, A, E>(
    init: S,
    items: Seq<A>,
    step: spec_fn(S, A) -> Result<S, E>,
) -> Result<S, E>
    decreases items.len(),
{
    if items.len() == 0 {
        Ok(init)
    } else {
        match try_fold(init, items.drop_last(), step) {
            Ok(s) => step(s, items.last()),
            Err(e) => Err(e),
        }
    }
}

/// How many items were taken in before something went wrong.
pub open spec fn folded<S, A, E>(
    init: S,
    items: Seq<A>,
    step: spec_fn(S, A) -> Result<S, E>,
) -> nat
    decreases items.len(),
{
    if items.len() == 0 {
        0
    } else if try_fold(init, items, step) is Ok {
        items.len()
    } else {
        folded(init, items.drop_last(), step)
    }
}

/// One more item.
pub proof fn lemma_next<S, A, E>(
    init: S,
    items: Seq<A>,
    step: spec_fn(S, A) -> Result<S, E>,
    n: int,
)
    requires
        0 <= n < items.len(),
    ensures
        try_fold(init, items.take(n + 1), step) == (match try_fold(init, items.take(n), step) {
            Ok(s) => step(s, items[n]),
            Err(e) => Err(e),
        }),
{
    assert(items.take(n + 1).drop_last() =~= items.take(n));
}

/// The first item that goes wrong decides.
pub proof fn lemma_stop<S, A, E>(
    init: S,
    items: Seq<A>,
    step: spec_fn(S, A) -> Result<S, E>,
    n: int,
)
    requires
        0 <= n < items.len(),
        try_fold(init, items.take(n), step) is Ok,
        try_fold(init, items.take(n + 1), step) is Err,
    ensures
        try_fold(init, items, step) == try_fold(init, items.take(n + 1), step),
        folded(init, items, step) == n,
    decreases items.len(),
{
    let front = items.drop_last();
    if n + 1 < items.len() {
        assert(front.take(n) =~= items.take(n));
        assert(front.take(n + 1) =~= items.take(n + 1));
        lemma_stop(init, front, step, n);
    } else {
        assert(items.take(n + 1) =~= items);
        assert(front =~= items.take(n));
        assert(folded(init, front, step) == front.len());
    }
}

/// Nothing went wrong.
pub proof fn lemma_end<S, A, E>(init: S, items: Seq<A>, step: spec_fn(S, A) -> Result<S, E>)
    requires
        try_fold(init, items.take(items.len() as int), step) is Ok,
    ensures
        try_fold(init, items, step) == try_fold(init, items.take(items.len() as int), step),
        folded(init, items, step) == items.len(),
{
    assert(items.take(items.len() as int) =~= items);
}

/// What holds at the start.
pub proof fn lemma_start<S, A, E>(init: S, items: Seq<A>, step: spec_fn(S, A) -> Result<S, E>)
    ensures
        try_fold(init, items.take(0), step) == Ok::<S, E>(init),
{
}

/// Where each item brings a list and the lists are put one behind the other, what
/// comes out are all these lists in their order.
pub(crate) proof fn lemma_concatenated<A, B, E>(
    items: Seq<A>,
    brings: spec_fn(A) -> Result<Seq<B>, E>,
    step: spec_fn(Seq<B>, A) -> Result<Seq<B>, E>,
)
    requires
        forall|done: Seq<B>, item: A| #[trigger]
            step(done, item) == (match brings(item) {
                Ok(more) => Ok::<Seq<B>, E>(done + more),
                Err(e) => Err(e),
            }),
    ensures
        try_fold(seq![], items, step) matches Ok(all) ==> {
            &&& forall|i: int| 0 <= i < items.len() ==> #[trigger] brings(items[i]) is Ok
            &&& all == Seq::new(items.len(), |i: int| brings(items[i])->Ok_0).flatten()
        },
    decreases items.len(),
{
    let found = Seq::new(items.len(), |i: int| brings(items[i])->Ok_0);
    if items.len() == 0 {
        assert(found =~= seq![]);
        assert(found.flatten() =~= seq![]);
    } else {
        let front = items.drop_last();
        lemma_concatenated(front, brings, step);
        assert(items[items.len() - 1] == items.last());
        if let Ok(all) = try_fold(seq![], items, step) {
            let before = Seq::new(front.len(), |i: int| brings(front[i])->Ok_0);
            let last = brings(items.last())->Ok_0;
            let done = try_fold(seq![], front, step)->Ok_0;
            assert(step(done, items.last()) is Ok);
            assert forall|i: int| 0 <= i < items.len() implies #[trigger] brings(items[i]) is Ok by {
                if i < front.len() {
                    assert(front[i] == items[i]);
                    assert(brings(front[i]) is Ok);
                }
            }
            assert(found =~= before.push(last));
            before.lemma_flatten_push(last);
        }
    }
}

} // verus!
