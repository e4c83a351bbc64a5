use adam::proposal::ProposalKind;
use adam::trials::{
    base_risk, count_passed, effective_trial_count, recommend, run_evaluation_trials, run_trials,
    Recommendation, TrialOutcome,
};
use std::cell::Cell;

fn retire_skill() -> ProposalKind {
    ProposalKind::RetireSkill { skill_name: "flaky".to_string() }
}

fn outcome(succeeded: bool) -> TrialOutcome {
    TrialOutcome { succeeded, detail: String::from("sandbox replay") }
}

#[test]
fn a_zero_trial_count_still_runs_one_trial() {
    assert_eq!(effective_trial_count(0), 1);
    assert_eq!(effective_trial_count(1), 1);
    assert_eq!(effective_trial_count(10), 10);
}

#[test]
fn every_requested_trial_is_run_in_order() {
    let calls = Cell::new(0u32);
    let trials = run_trials(&retire_skill(), 4, &|_: &ProposalKind| {
        let n = calls.get();
        calls.set(n + 1);
        TrialOutcome { succeeded: true, detail: format!("trial {n}") }
    });
    assert_eq!(trials.len(), 4);
    assert_eq!(calls.get(), 4);
    assert_eq!(trials[0].detail, "trial 0");
    assert_eq!(trials[3].detail, "trial 3");
}

#[test]
fn always_succeeding_trials_all_pass() {
    let run = run_evaluation_trials(&retire_skill(), 10, &|_: &ProposalKind| outcome(true));
    assert_eq!(run.trials.len(), 10);
    assert_eq!(run.passed, 10);
}

#[test]
fn always_failing_trials_none_pass() {
    let run = run_evaluation_trials(&retire_skill(), 10, &|_: &ProposalKind| outcome(false));
    assert_eq!(run.trials.len(), 10);
    assert_eq!(run.passed, 0);
}

#[test]
fn alternating_trials_pass_half_the_time() {
    let calls = Cell::new(0u32);
    let run = run_evaluation_trials(&retire_skill(), 4, &|_: &ProposalKind| {
        let n = calls.get();
        calls.set(n + 1);
        outcome(n % 2 == 0)
    });
    assert_eq!(run.trials.len(), 4);
    assert_eq!(run.passed, 2);
}

#[test]
fn zero_requested_trials_run_one() {
    let run = run_evaluation_trials(&retire_skill(), 0, &|_: &ProposalKind| outcome(true));
    assert_eq!(run.trials.len(), 1);
    assert_eq!(run.passed, 1);
}

#[test]
fn passed_trials_are_counted() {
    let trials = vec![outcome(true), outcome(false), outcome(true), outcome(true)];
    assert_eq!(count_passed(&trials), 3);
    assert_eq!(count_passed(&Vec::new()), 0);
}

#[test]
fn excessive_risk_forces_review_even_at_full_fitness() {
    assert_eq!(recommend(true, true, false), Recommendation::NeedsReview);
    assert_eq!(recommend(true, false, true), Recommendation::NeedsReview);
}

#[test]
fn the_ladder_approves_rejects_or_asks_for_review() {
    assert_eq!(recommend(false, true, false), Recommendation::Approve);
    assert_eq!(recommend(false, false, true), Recommendation::Reject);
    assert_eq!(recommend(false, false, false), Recommendation::NeedsReview);
    // A fitness that clears the approval floor approves before the
    // rejection ceiling is looked at.
    assert_eq!(recommend(false, true, true), Recommendation::Approve);
}

#[test]
fn genome_amendments_carry_the_highest_baseline_risk() {
    let amend = ProposalKind::AmendGenome {
        field: "values.honesty".to_string(),
        current_value: "high".to_string(),
        suggested_value: "medium".to_string(),
    };
    let reconcile = ProposalKind::ReconcileBelief { statement: "x".to_string() };
    let investigate = ProposalKind::InvestigateConflict { topic: "y".to_string() };
    assert_eq!(base_risk(&retire_skill()), 10);
    assert_eq!(base_risk(&investigate), 20);
    assert_eq!(base_risk(&reconcile), 30);
    assert_eq!(base_risk(&amend), 60);
}

/// The threshold comparisons the evaluator's default thresholds (approve
/// at 0.75, reject at 0.3, risk ceiling 0.6) give for a run of trials.
fn default_recommendation(kind: &ProposalKind, confidence: f32, passed: usize, total: usize) -> Recommendation {
    let fitness = passed as f32 / total as f32;
    let risk = (base_risk(kind) as f32 / 100.0 + (1.0 - confidence) * 0.2).clamp(0.0, 1.0);
    recommend(risk > 0.6, fitness >= 0.75, fitness <= 0.3)
}

#[test]
fn always_succeeding_trials_yield_full_fitness_and_approval() {
    let proposal = retire_skill();
    let run = run_evaluation_trials(&proposal, 10, &|_: &ProposalKind| TrialOutcome {
        succeeded: true,
        detail: "sandbox replay succeeded".to_string(),
    });
    assert_eq!(run.passed as f32 / run.trials.len() as f32, 1.0);
    assert_eq!(run.trials.len(), 10);
    assert_eq!(default_recommendation(&proposal, 0.9, run.passed, run.trials.len()), Recommendation::Approve);
}

#[test]
fn always_failing_trials_yield_zero_fitness_and_rejection() {
    let proposal = retire_skill();
    let run = run_evaluation_trials(&proposal, 10, &|_: &ProposalKind| TrialOutcome {
        succeeded: false,
        detail: "sandbox replay failed".to_string(),
    });
    assert_eq!(run.passed as f32 / run.trials.len() as f32, 0.0);
    assert_eq!(default_recommendation(&proposal, 0.9, run.passed, run.trials.len()), Recommendation::Reject);
}

#[test]
fn mixed_trials_yield_partial_fitness() {
    let proposal = retire_skill();
    let call_count = Cell::new(0);
    let run = run_evaluation_trials(&proposal, 4, &|_: &ProposalKind| {
        let n = call_count.get();
        call_count.set(n + 1);
        TrialOutcome { succeeded: n % 2 == 0, detail: format!("trial {n}") }
    });
    assert_eq!(run.passed as f32 / run.trials.len() as f32, 0.5);
    assert_eq!(
        default_recommendation(&proposal, 0.9, run.passed, run.trials.len()),
        Recommendation::NeedsReview
    );
}

#[test]
fn genome_amendments_carry_higher_intrinsic_risk_than_skill_retirement() {
    let low_risk = retire_skill();
    let high_risk = ProposalKind::AmendGenome {
        field: "values.honesty".to_string(),
        current_value: "high".to_string(),
        suggested_value: "medium".to_string(),
    };
    let always_pass = |_: &ProposalKind| TrialOutcome { succeeded: true, detail: "ok".to_string() };
    let low = run_evaluation_trials(&low_risk, 5, &always_pass);
    let high = run_evaluation_trials(&high_risk, 5, &always_pass);

    assert!(base_risk(&high_risk) > base_risk(&low_risk));
    // High fitness but high risk on a genome amendment forces review.
    assert_eq!(
        default_recommendation(&high_risk, 0.9, high.passed, high.trials.len()),
        Recommendation::NeedsReview
    );
    assert_eq!(default_recommendation(&low_risk, 0.9, low.passed, low.trials.len()), Recommendation::Approve);
}
