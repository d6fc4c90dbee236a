//! Handing on the rows of an artifact, one after another, until a visitor fails.
//!
//! The visitor's state is handed over with every row and comes back behind it.
//! Rows are handed on as far as the artifact holds them; what is wrong with the
//! artifact is reported behind the last of them.

use vstd::prelude::*;

use crate::error::{Error, Result};

verus! {

/// What one visit may come to: from a state and a row to the next state, and
/// whether it succeeded.
pub type Visit<X, T> = spec_fn(X, T, X, Result<()>) -> bool;

/// The visits of a visitor that takes rows by value.
pub open spec fn visit_of<X, T, V: Fn(X, T) -> (X, Result<()>)>(visitor: V) -> Visit<X, T> {
    |x: X, row: T, y: X, outcome: Result<()>| call_ensures(visitor, (x, row), (y, outcome))
}

/// Every row was visited with success, in order, from state to state.
pub open spec fn visits<X, T>(
    visit: Visit<X, T>,
    first: X,
    rows: Seq<T>,
    states: Seq<X>,
) -> bool {
    &&& states.len() == rows.len() + 1
    &&& states[0] == first
    &&& forall|i: int|
        0 <= i < rows.len() ==> visit(states[i], #[trigger] rows[i], states[i + 1], Ok(()))
}

/// Every row but the last was visited with success, and the last with this
/// error.
pub open spec fn visit_stops<X, T>(
    visit: Visit<X, T>,
    first: X,
    rows: Seq<T>,
    states: Seq<X>,
    last: X,
    error: Error,
) -> bool {
    &&& rows.len() > 0
    &&& visits(visit, first, rows.drop_last(), states)
    &&& visit(states.last(), rows.last(), last, Err(error))
}

/// The rows of an artifact: `starts` says which rows it begins with, and `ends`
/// which are all that its bytes hold.
#[verifier::reject_recursive_types(T)]
pub struct Rows<T> {
    /// The artifact begins with the rows.
    pub starts: spec_fn(Seq<T>) -> bool,
    /// The rows take up all of its bytes.
    pub ends: spec_fn(Seq<T>) -> bool,
    /// The number of rows that it should hold.
    pub count: int,
}

/// What visiting the rows of an artifact comes to.
///
/// With success, `rows` are all rows of the artifact, and each was visited once,
/// in order. An error of the visitor is returned at once, and no later row is
/// visited. Otherwise every row was visited up to the place where the artifact
/// goes on with no row, or ends with another number of rows.
pub open spec fn visits_rows<X, T>(
    visit: Visit<X, T>,
    first: X,
    artifact: Rows<T>,
    rows: Seq<T>,
    states: Seq<X>,
    made: (X, Result<()>),
) -> bool {
    &&& (artifact.starts)(rows)
    &&& match made.1 {
        Ok(_) => {
            &&& visits(visit, first, rows, states)
            &&& made.0 == states.last()
            &&& (artifact.ends)(rows)
            &&& rows.len() == artifact.count
        },
        Err(error) => {
            ||| visit_stops(visit, first, rows, states, made.0, error)
            ||| {
                &&& visits(visit, first, rows, states)
                &&& made.0 == states.last()
                &&& error is Invalid
                &&& if (artifact.ends)(rows) {
                    rows.len() != artifact.count
                } else {
                    forall|row: T| !#[trigger] (artifact.starts)(rows.push(row))
                }
            }
        },
    }
}

/// Whether it succeeded.
pub open spec fn without_value<T>(outcome: Result<T>) -> Result<()> {
    match outcome {
        Ok(_) => Ok(()),
        Err(error) => Err(error),
    }
}

/// Visit rows in order, up to the first error.
fn visit_each<X, T: Copy, V: Fn(X, T) -> (X, Result<()>)>(
    rows: &Vec<T>,
    x: X,
    visitor: &V,
) -> (made: ((X, Result<()>), Ghost<int>, Ghost<Seq<X>>))
    requires
        forall|x: X, row: T| #[trigger] call_requires(*visitor, (x, row)),
    ensures
        ({
            let ((last, outcome), seen, states) = made;
            match outcome {
                Ok(_) => {
                    &&& seen@ == rows@.len()
                    &&& visits(visit_of(*visitor), x, rows@, states@)
                    &&& last == states@.last()
                },
                Err(error) => {
                    &&& 0 < seen@ <= rows@.len()
                    &&& visit_stops(
                        visit_of(*visitor),
                        x,
                        rows@.take(seen@),
                        states@,
                        last,
                        error,
                    )
                },
            }
        }),
{
    let ghost mut states: Seq<X> = seq![x];
    let ghost first = x;
    let mut held: X = x;
    let mut i: usize = 0;
    while i < rows.len()
        invariant
            i <= rows@.len(),
            first == x,
            forall|x: X, row: T| #[trigger] call_requires(*visitor, (x, row)),
            states.len() == i + 1,
            states[0] == first,
            states.last() == held,
            forall|j: int|
                0 <= j < i ==> call_ensures(
                    *visitor,
                    (states[j], #[trigger] rows@[j]),
                    (states[j + 1], Ok(())),
                ),
        decreases rows.len() - i,
    {
        let ghost before = held;
        let (after, outcome) = visitor(held, rows[i]);
        held = after;
        match outcome {
            Ok(done) => {
                proof {
                    assert(done == ());
                    let more = states.push(after);
                    assert forall|j: int| 0 <= j < i + 1 implies call_ensures(
                        *visitor,
                        (more[j], #[trigger] rows@[j]),
                        (more[j + 1], Ok(())),
                    ) by {
                        if j < i {
                            assert(call_ensures(
                                *visitor,
                                (states[j], rows@[j]),
                                (states[j + 1], Ok(())),
                            ));
                        } else {
                            assert(call_ensures(*visitor, (before, rows@[j]), (after, Ok(()))));
                        }
                    }
                    states = more;
                }
            },
            Err(error) => {
                proof {
                    let seen = rows@.take(i + 1);
                    let less = seen.drop_last();
                    assert(seen.last() == rows@[i as int]);
                    assert forall|j: int| 0 <= j < less.len() implies visit_of(*visitor)(
                        states[j],
                        #[trigger] less[j],
                        states[j + 1],
                        Ok(()),
                    ) by {
                        assert(less[j] == rows@[j]);
                    }
                }
                return ((held, Err(error)), Ghost(i + 1), Ghost(states));
            },
        }
        i += 1;
    }
    ((held, Ok(())), Ghost(rows@.len() as int), Ghost(states))
}

/// Visit the rows that an artifact begins with, and report what is wrong behind
/// them.
pub(crate) fn visit_rows<X, T: Copy, V: Fn(X, T) -> (X, Result<()>)>(
    rows: &Vec<T>,
    fault: Option<Error>,
    count: u64,
    message: &'static str,
    x: X,
    visitor: &V,
    Ghost(artifact): Ghost<Rows<T>>,
) -> (made: (X, Result<()>))
    requires
        forall|x: X, row: T| #[trigger] call_requires(*visitor, (x, row)),
        artifact.count == count,
        (artifact.starts)(rows@),
        forall|n: int| 0 <= n <= rows@.len() ==> (artifact.starts)(#[trigger] rows@.take(n)),
        match fault {
            None => (artifact.ends)(rows@),
            Some(error) => {
                &&& error is Invalid
                &&& !(artifact.ends)(rows@)
                &&& forall|row: T| !#[trigger] (artifact.starts)(rows@.push(row))
            },
        },
    ensures
        exists|seen: Seq<T>, states: Seq<X>|
            visits_rows(visit_of(*visitor), x, artifact, seen, states, made),
{
    let ghost first = x;
    let ((x, outcome), Ghost(seen), Ghost(states)) = visit_each(rows, x, visitor);
    let made: (X, Result<()>) = match outcome {
        Err(error) => (x, Err(error)),
        Ok(()) => match fault {
            Some(error) => (x, Err(error)),
            None => {
                if rows.len() as u64 != count {
                    (x, Err(Error::Invalid(message)))
                } else {
                    (x, Ok(()))
                }
            },
        },
    };
    proof {
        let handed = if outcome is Ok {
            rows@
        } else {
            rows@.take(seen)
        };
        assert(visits_rows(visit_of(*visitor), first, artifact, handed, states, made));
    }
    made
}

} // verus!
