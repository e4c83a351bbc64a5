use adam::amendment::{
    apply_list_amendment, parse_list_target, parse_preference_key, plan_mutation,
    require_eve_approval, AmendmentError, GenomeList, GenomeLists, ListOperation, MutationPlan,
};
use adam::proposal::ProposalKind;
use adam::trials::Recommendation;

fn lists() -> GenomeLists {
    GenomeLists {
        values: vec!["honesty".to_string(), "curiosity".to_string()],
        goals: vec!["learn".to_string()],
        capabilities: vec![],
        policies: vec!["no silent evolution".to_string()],
    }
}

fn amend(field: &str, current: &str, suggested: &str) -> ProposalKind {
    ProposalKind::AmendGenome {
        field: field.to_string(),
        current_value: current.to_string(),
        suggested_value: suggested.to_string(),
    }
}

#[test]
fn list_fields_name_a_list_and_an_operation() {
    assert_eq!(parse_list_target("values.append"), Some((GenomeList::Values, ListOperation::Append)));
    assert_eq!(parse_list_target("goals.remove"), Some((GenomeList::Goals, ListOperation::Remove)));
    assert_eq!(
        parse_list_target("capabilities.append"),
        Some((GenomeList::Capabilities, ListOperation::Append))
    );
    assert_eq!(parse_list_target("policies.remove"), Some((GenomeList::Policies, ListOperation::Remove)));
    assert_eq!(parse_list_target("values"), None);
    assert_eq!(parse_list_target("values.replace"), None);
    assert_eq!(parse_list_target("values.append.extra"), None);
    assert_eq!(parse_list_target("beliefs.append"), None);
    assert_eq!(parse_list_target("skills.remove"), None);
}

#[test]
fn preference_fields_name_their_key() {
    assert_eq!(parse_preference_key("preferences.tone"), Some("tone"));
    assert_eq!(parse_preference_key("preferences.a.b"), Some("a.b"));
    assert_eq!(parse_preference_key("preferences"), None);
    assert_eq!(parse_preference_key("values.append"), None);
}

#[test]
fn appending_adds_a_value_once() {
    let mut l = lists();
    apply_list_amendment(&mut l, "values.append", "", "patience").unwrap();
    assert_eq!(l.values, vec!["honesty", "curiosity", "patience"]);
    apply_list_amendment(&mut l, "values.append", "", "patience").unwrap();
    assert_eq!(l.values, vec!["honesty", "curiosity", "patience"]);
    assert_eq!(l.goals, vec!["learn"]);
    assert_eq!(l.policies, vec!["no silent evolution"]);
}

#[test]
fn removing_drops_every_equal_entry() {
    let mut l = lists();
    l.goals = vec!["learn".to_string(), "teach".to_string(), "learn".to_string()];
    apply_list_amendment(&mut l, "goals.remove", "learn", "ignored").unwrap();
    assert_eq!(l.goals, vec!["teach"]);
    apply_list_amendment(&mut l, "goals.remove", "absent", "").unwrap();
    assert_eq!(l.goals, vec!["teach"]);
    assert_eq!(l.values, vec!["honesty", "curiosity"]);
}

#[test]
fn removing_a_freshly_appended_value_restores_the_list() {
    let mut l = lists();
    apply_list_amendment(&mut l, "capabilities.append", "", "rust").unwrap();
    assert_eq!(l.capabilities, vec!["rust"]);
    apply_list_amendment(&mut l, "capabilities.remove", "rust", "").unwrap();
    assert!(l.capabilities.is_empty());
}

#[test]
fn unsupported_fields_are_refused_without_change() {
    for field in ["beliefs.append", "values.replace", "values", "skills.remove"] {
        let mut l = lists();
        let err = apply_list_amendment(&mut l, field, "honesty", "x").unwrap_err();
        match err {
            AmendmentError::UnsupportedGenomeField(f) => assert_eq!(f, field),
            other => panic!("unexpected {other:?}"),
        }
        assert_eq!(l.values, lists().values);
    }
}

#[test]
fn approval_gate_requires_an_approving_evaluation() {
    assert!(require_eve_approval(Some(Recommendation::Approve), "values.append").is_ok());
    match require_eve_approval(None, "values.append").unwrap_err() {
        AmendmentError::EveApprovalRequired { field, found } => {
            assert_eq!(field, "values.append");
            assert_eq!(found, "no evaluation recorded");
        }
        other => panic!("unexpected {other:?}"),
    }
    match require_eve_approval(Some(Recommendation::NeedsReview), "goals.remove").unwrap_err() {
        AmendmentError::EveApprovalRequired { field, found } => {
            assert_eq!(field, "goals.remove");
            assert_eq!(found, "NeedsReview");
        }
        other => panic!("unexpected {other:?}"),
    }
    match require_eve_approval(Some(Recommendation::Reject), "goals.remove").unwrap_err() {
        AmendmentError::EveApprovalRequired { found, .. } => assert_eq!(found, "Reject"),
        other => panic!("unexpected {other:?}"),
    }
}

#[test]
fn preference_amendments_apply_without_evaluation() {
    let mut l = lists();
    let plan = plan_mutation(&amend("preferences.tone", "verbose", "concise"), None, &mut l).unwrap();
    match plan {
        MutationPlan::SetPreference { key, value, reason } => {
            assert_eq!(key, "tone");
            assert_eq!(value, "concise");
            assert_eq!(reason, "accepted mutation: amend preferences.tone");
        }
        other => panic!("unexpected {other:?}"),
    }
    assert_eq!(l.values, lists().values);
}

#[test]
fn identity_amendments_need_approval_and_leave_the_genome_alone_without_it() {
    let kind = amend("values.remove", "honesty", "");
    let mut l = lists();
    let err = plan_mutation(&kind, Some(Recommendation::NeedsReview), &mut l).unwrap_err();
    assert!(matches!(err, AmendmentError::EveApprovalRequired { .. }));
    assert_eq!(l.values, lists().values);

    let plan = plan_mutation(&kind, Some(Recommendation::Approve), &mut l).unwrap();
    match plan {
        MutationPlan::ListsAmended { reason } => {
            assert_eq!(reason, "accepted mutation: amend values.remove")
        }
        other => panic!("unexpected {other:?}"),
    }
    assert_eq!(l.values, vec!["curiosity"]);
}

#[test]
fn approved_amendments_of_unsupported_fields_are_refused() {
    let mut l = lists();
    let err = plan_mutation(&amend("beliefs.append", "", "x"), Some(Recommendation::Approve), &mut l)
        .unwrap_err();
    match err {
        AmendmentError::UnsupportedGenomeField(f) => assert_eq!(f, "beliefs.append"),
        other => panic!("unexpected {other:?}"),
    }
}

#[test]
fn skill_retirement_names_the_skill() {
    let mut l = lists();
    let plan = plan_mutation(
        &ProposalKind::RetireSkill { skill_name: "flaky".to_string() },
        None,
        &mut l,
    )
    .unwrap();
    match plan {
        MutationPlan::RetireSkill { skill_name } => assert_eq!(skill_name, "flaky"),
        other => panic!("unexpected {other:?}"),
    }
}

#[test]
fn belief_and_conflict_proposals_are_advisory_only() {
    let mut l = lists();
    let plan = plan_mutation(
        &ProposalKind::ReconcileBelief { statement: "rust is slow".to_string() },
        Some(Recommendation::Approve),
        &mut l,
    )
    .unwrap();
    match plan {
        MutationPlan::Advisory { note } => assert_eq!(
            note,
            "belief 'rust is slow' flagged for reconciliation; requires manual evidence review, not auto-applied"
        ),
        other => panic!("unexpected {other:?}"),
    }
    let plan = plan_mutation(
        &ProposalKind::InvestigateConflict { topic: "x".to_string() },
        None,
        &mut l,
    )
    .unwrap();
    match plan {
        MutationPlan::Advisory { note } => assert_eq!(
            note,
            "recurring conflict on 'x' flagged for investigation; requires manual review, not auto-applied"
        ),
        other => panic!("unexpected {other:?}"),
    }
    assert_eq!(l.values, lists().values);
    assert_eq!(l.goals, lists().goals);
}
