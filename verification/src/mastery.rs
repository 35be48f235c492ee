//! The mastery evaluator: a problem counts as solved while its five most
//! recent attempts are all successes.

use vstd::prelude::*;
use crate::model::{history, lemma_mastered, mastered, streak_reached, StoreModel};
use crate::store::Store;

verus! {

/// The number of most recent attempts that mastery looks at.
pub const STREAK_LENGTH: usize = 5;

/// Tells whether a list of outcomes reaches the streak: five or more, and
/// every one a success.
pub fn is_streak(outcomes: &Vec<bool>) -> (reached: bool)
    ensures
        reached == streak_reached(outcomes@),
{
    if outcomes.len() < STREAK_LENGTH {
        return false;
    }
    let mut at: usize = 0;
    while at < outcomes.len()
        invariant
            at <= outcomes.len(),
            outcomes.len() >= STREAK_LENGTH,
            forall|i: int| 0 <= i < at ==> outcomes[i],
        decreases outcomes.len() - at,
    {
        if !outcomes[at] {
            return false;
        }
        at = at + 1;
    }
    true
}

/// The store after mastery has been evaluated for a problem on an attempt:
/// a failure marks the problem unsolved; a success marks it solved exactly
/// when the problem is mastered.
pub open spec fn evaluated(s: StoreModel, problem_id: int, was_successful: bool) -> StoreModel {
    s.set_solved(
        problem_id,
        was_successful && mastered(history(s.attempts, s.batches, problem_id)),
    )
}

/// Updates a problem's solved flag after an attempt of the given outcome
/// has been recorded. On a success the flag is computed afresh from the
/// five most recent attempts across all batches of the problem.
pub fn check_and_mark_solved(store: &mut Store, problem_id: i64, was_successful: bool)
    requires
        old(store).wf(),
    ensures
        final(store).wf(),
        final(store)@ == evaluated(old(store)@, problem_id as int, was_successful),
{
    if was_successful {
        let recent = store.recent_outcomes(problem_id, STREAK_LENGTH);
        proof {
            lemma_mastered(store@.attempts, store@.batches, problem_id as int);
        }
        store.set_solved(problem_id, is_streak(&recent));
    } else {
        store.set_solved(problem_id, false);
    }
}

} // verus!
