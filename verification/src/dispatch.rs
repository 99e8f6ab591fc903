//! Turning a confirmed action and the located paths into per-path outcomes.
//!
//! Deleting and listing are per-path operations whose executions are
//! independent: the caller may run them concurrently, in any order, and
//! hands the per-path removal results back.  This module pins down what the
//! batch of outcomes is in every case: one outcome per located path, each
//! failure reported individually, never aggregated into a fatal error, and
//! the listing action producing nothing but successes.
use vstd::prelude::*;

use crate::confirm::ConfirmAction;
use crate::errors::Error;

verus! {

/// The result of applying the chosen action to one located path: the path
/// was acted on, or the action failed on it with an error.
#[derive(Debug, Clone, PartialEq, Eq)]
pub enum Outcome {
    Success { path: String },
    Failure { path: String, error: Error },
}

/// How many outcomes of the batch are failures.
pub open spec fn count_failures(s: Seq<Outcome>) -> nat
    decreases s.len(),
{
    if s.len() == 0 {
        0
    } else {
        count_failures(s.drop_last()) + (if s.last() is Failure {
            1nat
        } else {
            0nat
        })
    }
}

/// How many outcomes of the batch are successes.
pub open spec fn count_successes(s: Seq<Outcome>) -> nat
    decreases s.len(),
{
    if s.len() == 0 {
        0
    } else {
        count_successes(s.drop_last()) + (if s.last() is Success {
            1nat
        } else {
            0nat
        })
    }
}

/// How many removal results are errors.
pub open spec fn count_errs(s: Seq<Result<(), String>>) -> nat
    decreases s.len(),
{
    if s.len() == 0 {
        0
    } else {
        count_errs(s.drop_last()) + (if s.last() is Err {
            1nat
        } else {
            0nat
        })
    }
}

/// Every outcome is a success or a failure, so the two counts split the
/// batch: however many removals fail, one outcome per located path is
/// reported, and the failures never swallow the successes.
pub proof fn lemma_outcome_counts(s: Seq<Outcome>)
    ensures
        count_successes(s) + count_failures(s) == s.len(),
    decreases s.len(),
{
    if s.len() > 0 {
        lemma_outcome_counts(s.drop_last());
    }
}

/// What deleting one located path reports: the path on success, and a
/// `DeletionError` carrying the path and the failure's description
/// otherwise.
pub open spec fn removal_outcome_for(path: String, removal: Result<(), String>, o: Outcome) -> bool {
    match removal {
        Ok(_) => o matches Outcome::Success { path: p } && p@ == path@,
        Err(d) => o matches Outcome::Failure { path: p, error: e } && p@ == path@ && (
        e matches Error::DeletionError { path: q, detail } && q@ == path@ && detail@ == d@),
    }
}

/// Applies the confirmed action to the batch of located paths.
///
/// Doing nothing reports nothing.  Listing reports every path as a success
/// and performs no removal at all.  Deleting reports one outcome per path
/// from the per-path removal results: each failed removal becomes its own
/// `DeletionError` outcome and the other paths' outcomes are unaffected.
pub fn apply(action: ConfirmAction, paths: &Vec<String>, removals: &Vec<Result<(), String>>) -> (r:
    Vec<Outcome>)
    requires
        action is RM ==> removals@.len() == paths@.len(),
    ensures
        action is NONE ==> r@.len() == 0,
        action is LIST ==> r@.len() == paths@.len() && forall|i: int|
            0 <= i < r@.len() ==> (#[trigger] r@[i] matches Outcome::Success { path: p } && p@
                == paths@[i]@),
        action is LIST ==> count_failures(r@) == 0,
        action is RM ==> r@.len() == paths@.len() && forall|i: int|
            0 <= i < r@.len() ==> #[trigger] removal_outcome_for(paths@[i], removals@[i], r@[i]),
        action is RM ==> count_failures(r@) == count_errs(removals@) && count_successes(r@)
            + count_errs(removals@) == paths@.len(),
{
    match action {
        ConfirmAction::NONE => Vec::new(),
        ConfirmAction::LIST => {
            let mut r: Vec<Outcome> = Vec::new();
            let mut i: usize = 0;
            while i < paths.len()
                invariant
                    0 <= i <= paths@.len(),
                    r@.len() == i,
                    forall|j: int|
                        0 <= j < i ==> (#[trigger] r@[j] matches Outcome::Success { path: p } && p@
                            == paths@[j]@),
                    count_failures(r@) == 0,
                decreases paths@.len() - i,
            {
                let ghost r_before = r@;
                r.push(Outcome::Success { path: paths[i].clone() });
                proof {
                    assert(r@.drop_last() =~= r_before);
                }
                i += 1;
            }
            r
        },
        ConfirmAction::RM => {
            let mut r: Vec<Outcome> = Vec::new();
            let mut i: usize = 0;
            while i < paths.len()
                invariant
                    0 <= i <= paths@.len(),
                    removals@.len() == paths@.len(),
                    r@.len() == i,
                    forall|j: int|
                        0 <= j < i ==> #[trigger] removal_outcome_for(
                            paths@[j],
                            removals@[j],
                            r@[j],
                        ),
                    count_failures(r@) == count_errs(removals@.take(i as int)),
                decreases paths@.len() - i,
            {
                let ghost r_before = r@;
                match &removals[i] {
                    Ok(_) => {
                        r.push(Outcome::Success { path: paths[i].clone() });
                    },
                    Err(d) => {
                        let error = Error::DeletionError { path: paths[i].clone(), detail: d.clone() };
                        r.push(Outcome::Failure { path: paths[i].clone(), error });
                    },
                }
                proof {
                    assert(r@.drop_last() =~= r_before);
                    assert(removals@.take(i as int + 1).drop_last() =~= removals@.take(i as int));
                    assert(removals@.take(i as int + 1).last() == removals@[i as int]);
                }
                i += 1;
            }
            proof {
                assert(removals@.take(removals@.len() as int) =~= removals@);
                lemma_outcome_counts(r@);
            }
            r
        },
    }
}

} // verus!
