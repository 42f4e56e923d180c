//! Copy outcomes and their aggregation. The copy phase is a best-effort
//! batch: each candidate is processed independently, a failure is recorded
//! for its item alone and never aborts the others. This module holds the
//! per-item outcome taxonomy and the verified summary over a batch of
//! outcomes.
use vstd::prelude::*;

verus! {

/// Why a single item failed: its source path could not be rebased onto the
/// target root, its target directory chain could not be created, or the data
/// copy itself failed. Each carries the offending cause as text.
pub enum CopyError {
    PathMapping(String),
    DirectoryCreation(String),
    CopyIo(String),
}

/// The per-item result of the copy phase.
pub enum CopyOutcome {
    Success,
    Failure(CopyError),
}

/// How a finished batch went: how many items were copied and how many
/// failed.
pub struct CopySummary {
    pub succeeded: usize,
    pub failed: usize,
}

/// The number of successful outcomes in a batch.
pub open spec fn spec_success_count(s: Seq<CopyOutcome>) -> int
    decreases s.len(),
{
    if s.len() == 0 {
        0
    } else {
        spec_success_count(s.drop_last()) + if s.last() is Success {
            1int
        } else {
            0int
        }
    }
}

/// The number of failed outcomes in a batch.
pub open spec fn spec_failure_count(s: Seq<CopyOutcome>) -> int
    decreases s.len(),
{
    if s.len() == 0 {
        0
    } else {
        spec_failure_count(s.drop_last()) + if s.last() is Failure {
            1int
        } else {
            0int
        }
    }
}

/// Failure isolation, counted: every outcome is a success or a failure, so
/// the two counts partition the batch; in particular a batch with exactly
/// one failure has all of its other items succeeded.
pub proof fn lemma_outcomes_partition(s: Seq<CopyOutcome>)
    ensures
        0 <= spec_success_count(s) <= s.len(),
        0 <= spec_failure_count(s) <= s.len(),
        spec_success_count(s) + spec_failure_count(s) == s.len(),
        spec_failure_count(s) == 1 ==> spec_success_count(s) == s.len() - 1,
    decreases s.len(),
{
    if s.len() > 0 {
        lemma_outcomes_partition(s.drop_last());
    }
}

/// Aggregate a batch of outcomes into its summary counts.
pub fn summarize_outcomes(outcomes: &Vec<CopyOutcome>) -> (s: CopySummary)
    ensures
        s.succeeded == spec_success_count(outcomes@),
        s.failed == spec_failure_count(outcomes@),
        s.succeeded + s.failed == outcomes@.len(),
{
    let mut succeeded: usize = 0;
    let mut failed: usize = 0;
    let mut i: usize = 0;
    while i < outcomes.len()
        invariant
            0 <= i <= outcomes@.len(),
            succeeded == spec_success_count(outcomes@.take(i as int)),
            failed == spec_failure_count(outcomes@.take(i as int)),
            succeeded + failed == i,
        decreases outcomes@.len() - i,
    {
        proof {
            let t = outcomes@.take(i as int + 1);
            assert(t.drop_last() =~= outcomes@.take(i as int));
            assert(t.last() == outcomes@[i as int]);
            lemma_outcomes_partition(outcomes@.take(i as int));
        }
        match outcomes[i] {
            CopyOutcome::Success => {
                succeeded += 1;
            },
            CopyOutcome::Failure(_) => {
                failed += 1;
            },
        }
        i += 1;
    }
    proof {
        assert(outcomes@.take(outcomes@.len() as int) =~= outcomes@);
    }
    CopySummary { succeeded, failed }
}

} // verus!
