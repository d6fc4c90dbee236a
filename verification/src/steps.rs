//! Steps on a value that is handed from one to the next.
//!
//! A store is asked one thing after another. It is handed over with each
//! question and comes back with the answer, so that the steps form one chain.

use vstd::prelude::*;

use crate::error::Result;

verus! {

/// One question and its answer, with the store before and behind it.
pub struct Step<X, Q, A> {
    /// The store before.
    pub before: X,
    /// The question.
    pub request: Q,
    /// The store behind.
    pub after: X,
    /// The answer.
    pub reply: Result<A>,
}

/// The steps lead from `first` to `last`, each from where the one before ended.
pub open spec fn leads<X, Q, A, F: Fn(X, &Q) -> (X, Result<A>)>(
    ask: F,
    first: X,
    steps: Seq<Step<X, Q, A>>,
    last: X,
) -> bool
    decreases steps.len(),
{
    if steps.len() == 0 {
        first == last
    } else {
        let step = steps.last();
        &&& leads(ask, first, steps.drop_last(), step.before)
        &&& call_ensures(ask, (step.before, &step.request), (step.after, step.reply))
        &&& step.after == last
    }
}

/// Steps that meet can be joined.
pub proof fn lemma_leads_join<X, Q, A, F: Fn(X, &Q) -> (X, Result<A>)>(
    ask: F,
    first: X,
    a: Seq<Step<X, Q, A>>,
    middle: X,
    b: Seq<Step<X, Q, A>>,
    last: X,
)
    requires
        leads(ask, first, a, middle),
        leads(ask, middle, b, last),
    ensures
        leads(ask, first, a + b, last),
    decreases b.len(),
{
    if b.len() == 0 {
        assert(a + b =~= a);
    } else {
        lemma_leads_join(ask, first, a, middle, b.drop_last(), b.last().before);
        assert((a + b).drop_last() =~= a + b.drop_last());
        assert((a + b).last() == b.last());
    }
}

/// Steps of two parts meet between them.
pub proof fn lemma_leads_split<X, Q, A, F: Fn(X, &Q) -> (X, Result<A>)>(
    ask: F,
    first: X,
    a: Seq<Step<X, Q, A>>,
    b: Seq<Step<X, Q, A>>,
    last: X,
) -> (middle: X)
    requires
        leads(ask, first, a + b, last),
    ensures
        leads(ask, first, a, middle),
        leads(ask, middle, b, last),
    decreases b.len(),
{
    if b.len() == 0 {
        assert(a + b =~= a);
        last
    } else {
        assert((a + b).drop_last() =~= a + b.drop_last());
        assert((a + b).last() == b.last());
        lemma_leads_split(ask, first, a, b.drop_last(), b.last().before)
    }
}

/// One step.
pub proof fn lemma_leads_one<X, Q, A, F: Fn(X, &Q) -> (X, Result<A>)>(
    ask: F,
    first: X,
    steps: Seq<Step<X, Q, A>>,
    last: X,
)
    requires
        leads(ask, first, steps, last),
        steps.len() == 1,
    ensures
        call_ensures(ask, (first, &steps[0].request), (last, steps[0].reply)),
{
    assert(leads(ask, first, steps.drop_last(), steps[0].before));
}

/// Ask one thing, and keep the question.
pub(crate) fn ask_with<X, Q, A, F: Fn(X, &Q) -> (X, Result<A>)>(
    ask: &F,
    x: X,
    request: &Q,
) -> (made: (X, Result<A>, Ghost<Seq<Step<X, Q, A>>>))
    requires
        forall|x: X, request: &Q| #[trigger] call_requires(*ask, (x, request)),
    ensures
        leads(*ask, x, made.2@, made.0),
        made.2@ == seq![Step { before: x, request: *request, after: made.0, reply: made.1 }],
{
    let ghost before = x;
    let (after, reply) = ask(x, request);
    let ghost steps = seq![Step { before, request: *request, after, reply }];
    proof {
        assert(steps.drop_last() =~= Seq::empty());
        assert(leads(*ask, before, steps.drop_last(), before));
    }
    (after, reply, Ghost(steps))
}

/// Ask one thing.
pub(crate) fn ask_step<X, Q, A, F: Fn(X, &Q) -> (X, Result<A>)>(
    ask: &F,
    x: X,
    request: Q,
) -> (made: (X, Result<A>, Ghost<Seq<Step<X, Q, A>>>))
    requires
        forall|x: X, request: &Q| #[trigger] call_requires(*ask, (x, request)),
    ensures
        leads(*ask, x, made.2@, made.0),
        made.2@ == seq![Step { before: x, request, after: made.0, reply: made.1 }],
{
    ask_with(ask, x, &request)
}

} // verus!
