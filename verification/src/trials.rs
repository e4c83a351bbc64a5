//! Aggregation and recommendation policy for sandboxed trial runs.
//!
//! The evaluator only scores a proposal; it never accepts or rejects it.
//! The trial mechanics belong to the caller (a closure); this module owns
//! how many trials run, how their outcomes are tallied, the intrinsic risk
//! table of each proposal kind, and how the threshold comparisons map to a
//! recommendation.

use vstd::prelude::*;
use crate::proposal::ProposalKind;

verus! {

/// The outcome of a single sandboxed trial run against a proposal.
#[derive(Debug, Clone)]
pub struct TrialOutcome {
    pub succeeded: bool,
    pub detail: String,
}

/// What the evaluator recommends doing with a proposal, independent of
/// whatever governance ultimately decides.
#[derive(Debug, Clone, Copy, PartialEq, Eq, Structural)]
pub enum Recommendation {
    Approve,
    NeedsReview,
    Reject,
}

/// The number of trials actually run for a requested count: at least one,
/// so that a pass rate is always defined.
pub fn effective_trial_count(requested: u32) -> (count: u32)
    ensures
        count >= 1,
        requested >= 1 ==> count == requested,
        requested == 0 ==> count == 1,
{
    if requested == 0 {
        1
    } else {
        requested
    }
}

/// Number of successful outcomes in `trials`.
pub open spec fn passed_count(trials: Seq<TrialOutcome>) -> nat
    decreases trials.len(),
{
    if trials.len() == 0 {
        0
    } else {
        passed_count(trials.drop_last()) + if trials.last().succeeded {
            1nat
        } else {
            0nat
        }
    }
}

/// Every outcome in `trials` succeeded.
pub open spec fn all_succeeded(trials: Seq<TrialOutcome>) -> bool {
    forall|i: int| 0 <= i < trials.len() ==> (#[trigger] trials[i]).succeeded
}

/// Every outcome in `trials` failed.
pub open spec fn all_failed(trials: Seq<TrialOutcome>) -> bool {
    forall|i: int| 0 <= i < trials.len() ==> !(#[trigger] trials[i]).succeeded
}

/// Runs `count` trials of `proposal` through the caller's `trial_fn`, in
/// order, and returns every outcome. The contract states that there are
/// `count` outcomes, each one `trial_fn` may return; how many times the
/// closure is called cannot be stated of a caller's closure.
pub fn run_trials<P, F: Fn(&P) -> TrialOutcome>(proposal: &P, count: u32, trial_fn: &F) -> (trials:
    Vec<TrialOutcome>)
    requires
        call_requires(*trial_fn, (proposal,)),
    ensures
        trials.len() == count,
        forall|i: int|
            0 <= i < count ==> call_ensures(*trial_fn, (proposal,), #[trigger] trials@[i]),
{
    let mut trials: Vec<TrialOutcome> = Vec::new();
    let mut i: u32 = 0;
    while i < count
        invariant
            i <= count,
            trials.len() == i,
            call_requires(*trial_fn, (proposal,)),
            forall|j: int| 0 <= j < i ==> call_ensures(*trial_fn, (proposal,), #[trigger] trials@[j]),
        decreases count - i,
    {
        let outcome = trial_fn(proposal);
        trials.push(outcome);
        i = i + 1;
    }
    trials
}

proof fn lemma_passed_count_bounds(trials: Seq<TrialOutcome>)
    ensures
        passed_count(trials) <= trials.len(),
        all_succeeded(trials) ==> passed_count(trials) == trials.len(),
        all_failed(trials) ==> passed_count(trials) == 0,
    decreases trials.len(),
{
    if trials.len() > 0 {
        let prefix = trials.drop_last();
        lemma_passed_count_bounds(prefix);
        if all_succeeded(trials) {
            assert forall|i: int| 0 <= i < prefix.len() implies (#[trigger] prefix[i]).succeeded by {
                assert(prefix[i] == trials[i]);
            }
        }
        if all_failed(trials) {
            assert forall|i: int| 0 <= i < prefix.len() implies !(#[trigger] prefix[i]).succeeded by {
                assert(prefix[i] == trials[i]);
            }
        }
    }
}

/// Tallying one more outcome adds one exactly when it succeeded, and an
/// empty run has no passes: the tally counts successes wherever they stand.
pub proof fn passed_count_grows_by_successes(prefix: Seq<TrialOutcome>, t: TrialOutcome)
    ensures
        passed_count(Seq::<TrialOutcome>::empty()) == 0,
        passed_count(prefix.push(t)) == passed_count(prefix) + if t.succeeded {
            1int
        } else {
            0int
        },
{
    assert(prefix.push(t).drop_last() =~= prefix);
}

/// The tally is the number of succeeded outcomes, independent of their
/// order.
pub proof fn passed_count_is_the_number_of_successes(trials: Seq<TrialOutcome>)
    ensures
        passed_count(trials) == trials.filter(|t: TrialOutcome| t.succeeded).len(),
    decreases trials.len(),
{
    reveal(Seq::filter);
    if trials.len() > 0 {
        passed_count_is_the_number_of_successes(trials.drop_last());
    }
}

/// How many of `trials` succeeded: the numerator of the fitness score
/// (whose denominator is `trials.len()`).
pub fn count_passed(trials: &Vec<TrialOutcome>) -> (passed: usize)
    ensures
        passed == passed_count(trials@),
        passed == trials@.filter(|t: TrialOutcome| t.succeeded).len(),
        passed <= trials.len(),
        all_succeeded(trials@) ==> passed == trials.len(),
        all_failed(trials@) ==> passed == 0,
{
    let mut passed: usize = 0;
    let mut i: usize = 0;
    while i < trials.len()
        invariant
            i <= trials.len(),
            passed == passed_count(trials@.subrange(0, i as int)),
            passed <= i,
        decreases trials.len() - i,
    {
        proof {
            let next = trials@.subrange(0, i + 1);
            assert(next.drop_last() =~= trials@.subrange(0, i as int));
        }
        if trials[i].succeeded {
            passed = passed + 1;
        }
        i = i + 1;
    }
    proof {
        assert(trials@.subrange(0, trials.len() as int) =~= trials@);
        lemma_passed_count_bounds(trials@);
        passed_count_is_the_number_of_successes(trials@);
    }
    passed
}

/// The recommendation ladder, given the three threshold comparisons: a risk
/// above the acceptable ceiling always forces review; otherwise a fitness at
/// or above the approval floor approves, one at or below the rejection
/// ceiling rejects, and anything in between needs review.
pub open spec fn recommendation_for(
    risk_exceeds_limit: bool,
    meets_approve_floor: bool,
    within_reject_ceiling: bool,
) -> Recommendation {
    if risk_exceeds_limit {
        Recommendation::NeedsReview
    } else if meets_approve_floor {
        Recommendation::Approve
    } else if within_reject_ceiling {
        Recommendation::Reject
    } else {
        Recommendation::NeedsReview
    }
}

/// Maps the evaluator's threshold comparisons to a recommendation (see
/// [`recommendation_for`]).
pub fn recommend(risk_exceeds_limit: bool, meets_approve_floor: bool, within_reject_ceiling: bool) -> (r:
    Recommendation)
    ensures
        r == recommendation_for(risk_exceeds_limit, meets_approve_floor, within_reject_ceiling),
        risk_exceeds_limit ==> r == Recommendation::NeedsReview,
        r == Recommendation::Approve ==> !risk_exceeds_limit && meets_approve_floor,
        r == Recommendation::Reject ==> !risk_exceeds_limit && !meets_approve_floor
            && within_reject_ceiling,
{
    if risk_exceeds_limit {
        Recommendation::NeedsReview
    } else if meets_approve_floor {
        Recommendation::Approve
    } else if within_reject_ceiling {
        Recommendation::Reject
    } else {
        Recommendation::NeedsReview
    }
}

/// Intrinsic baseline risk of a proposal kind, in hundredths, before the
/// confidence adjustment: genome amendments touch core identity and carry
/// the highest risk; skill retirement only narrows behavior and carries the
/// lowest.
pub open spec fn base_risk_hundredths(kind: ProposalKind) -> nat {
    match kind {
        ProposalKind::RetireSkill { .. } => 10,
        ProposalKind::ReconcileBelief { .. } => 30,
        ProposalKind::InvestigateConflict { .. } => 20,
        ProposalKind::AmendGenome { .. } => 60,
    }
}

/// The intrinsic baseline risk of `kind`, in hundredths.
pub fn base_risk(kind: &ProposalKind) -> (hundredths: u32)
    ensures
        hundredths == base_risk_hundredths(*kind),
        hundredths <= 100,
{
    match kind {
        ProposalKind::RetireSkill { .. } => 10,
        ProposalKind::ReconcileBelief { .. } => 30,
        ProposalKind::InvestigateConflict { .. } => 20,
        ProposalKind::AmendGenome { .. } => 60,
    }
}

/// Genome amendments carry strictly more baseline risk than any other kind
/// of proposal, and skill retirement strictly less than any other kind.
pub proof fn genome_amendment_is_riskiest(kind: ProposalKind, other: ProposalKind)
    ensures
        kind is AmendGenome && !(other is AmendGenome) ==> base_risk_hundredths(kind)
            > base_risk_hundredths(other),
        kind is RetireSkill && !(other is RetireSkill) ==> base_risk_hundredths(kind)
            < base_risk_hundredths(other),
{
}

/// The label the evaluator reports for a recommendation.
pub open spec fn recommendation_label(r: Recommendation) -> Seq<char> {
    match r {
        Recommendation::Approve => "Approve"@,
        Recommendation::NeedsReview => "NeedsReview"@,
        Recommendation::Reject => "Reject"@,
    }
}

/// The trials run for one evaluation and how many of them passed; the
/// fitness score is `passed / trials.len()`.
pub struct TrialRun {
    pub trials: Vec<TrialOutcome>,
    pub passed: usize,
}

/// Runs the trials of one evaluation: `requested` trials (at least one) of
/// `proposal` through `trial_fn`, with the number that succeeded. As for
/// [`run_trials`], the number of calls of the closure is not stated.
pub fn run_evaluation_trials<P, F: Fn(&P) -> TrialOutcome>(
    proposal: &P,
    requested: u32,
    trial_fn: &F,
) -> (run: TrialRun)
    requires
        call_requires(*trial_fn, (proposal,)),
    ensures
        run.trials.len() >= 1,
        requested >= 1 ==> run.trials.len() == requested,
        requested == 0 ==> run.trials.len() == 1,
        forall|i: int|
            0 <= i < run.trials.len() ==> call_ensures(*trial_fn, (proposal,), #[trigger] run.trials@[i]),
        run.passed == passed_count(run.trials@),
        run.passed == run.trials@.filter(|t: TrialOutcome| t.succeeded).len(),
        run.passed <= run.trials.len(),
{
    let count = effective_trial_count(requested);
    let trials = run_trials(proposal, count, trial_fn);
    let passed = count_passed(&trials);
    TrialRun { trials, passed }
}

} // verus!
