//! Doing steps one after the other, until one of them fails.

use vstd::prelude::*;

verus! {

/// What is next when some of a number of steps have been done.
#[derive(Debug)]
pub enum Next<E> {
    /// The step to do.
    Do(usize),
    Done,
    Failed(E),
}

/// What is next before any of `n` steps has been done.
pub open spec fn next_at_first<E>(n: usize) -> Next<E> {
    if n == 0 {
        Next::Done
    } else {
        Next::Do(0)
    }
}

/// What is next when this came of step `i` of `n`.
pub open spec fn next_after<E>(n: usize, i: usize, outcome: Result<(), E>) -> Next<E> {
    match outcome {
        Ok(_) => if i + 1 < n {
            Next::Do((i + 1) as usize)
        } else {
            Next::Done
        },
        Err(e) => Next::Failed(e),
    }
}

/// Says what is next before any of `n` steps has been done.
pub fn first<E>(n: usize) -> (r: Next<E>)
    ensures
        r == next_at_first::<E>(n),
{
    if n == 0 {
        Next::Done
    } else {
        Next::Do(0)
    }
}

/// Takes what came of step `i` of `n` and says what is next.
pub fn after<E>(n: usize, i: usize, outcome: Result<(), E>) -> (r: Next<E>)
    requires
        i < n,
    ensures
        r == next_after(n, i, outcome),
{
    match outcome {
        Ok(_) => if i + 1 < n {
            Next::Do(i + 1)
        } else {
            Next::Done
        },
        Err(e) => Next::Failed(e),
    }
}

/// What is next when these outcomes came of the steps that were to be done, in turn.
pub open spec fn stands_at<E>(n: usize, outcomes: Seq<Result<(), E>>) -> Next<E>
    decreases outcomes.len(),
{
    if outcomes.len() == 0 {
        next_at_first(n)
    } else {
        match stands_at(n, outcomes.drop_last()) {
            Next::Do(i) => next_after(n, i, outcomes.last()),
            end => end,
        }
    }
}

/// An outcome came only of a step that was to be done.
pub open spec fn is_run<E>(n: usize, outcomes: Seq<Result<(), E>>) -> bool {
    forall|k: int| 0 <= k < outcomes.len() ==> stands_at(n, #[trigger] outcomes.take(k)) is Do
}

/// The steps are done in turn, each once. The first failure ends them: no step is done behind one
/// that failed, and its error is what the steps come to. Without a failure all of them are done.
pub proof fn law_first_failure_ends<E>(n: usize, outcomes: Seq<Result<(), E>>)
    requires
        is_run(n, outcomes),
    ensures
        outcomes.len() <= n,
        forall|k: int|
            0 <= k < outcomes.len() ==> stands_at(n, #[trigger] outcomes.take(k)) == Next::<E>::Do(
                k as usize,
            ),
        forall|k: int| 0 <= k < outcomes.len() - 1 ==> #[trigger] outcomes[k] is Ok,
        stands_at(n, outcomes) == (if outcomes.len() > 0 && outcomes.last() is Err {
            Next::Failed(outcomes.last()->Err_0)
        } else if outcomes.len() == n {
            Next::Done
        } else {
            Next::Do(outcomes.len() as usize)
        }),
    decreases outcomes.len(),
{
    if outcomes.len() > 0 {
        let before = outcomes.drop_last();
        assert(before =~= outcomes.take(outcomes.len() - 1));
        assert forall|k: int| 0 <= k < before.len() implies stands_at(
            n,
            #[trigger] before.take(k),
        ) is Do by {
            assert(before.take(k) =~= outcomes.take(k));
        }
        law_first_failure_ends(n, before);
        assert(stands_at(n, before) is Do);
        assert forall|k: int| 0 <= k < outcomes.len() implies stands_at(
            n,
            #[trigger] outcomes.take(k),
        ) == Next::<E>::Do(k as usize) by {
            if k < before.len() {
                assert(before.take(k) =~= outcomes.take(k));
            }
        }
        assert forall|k: int| 0 <= k < outcomes.len() - 1 implies #[trigger] outcomes[k] is Ok by {
            assert(outcomes[k] == before[k]);
            if k == before.len() - 1 {
                assert(before.last() is Ok);
            }
        }
    }
}

} // verus!
