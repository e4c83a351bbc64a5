use adam::signals::{
    count_failed_tests, group_withdrawals, skill_failures, BeliefStatus, SkillFailure,
    SkillTestHistory,
};

#[test]
fn failed_tests_are_counted() {
    assert_eq!(count_failed_tests(&vec![true, false, false, true]), 2);
    assert_eq!(count_failed_tests(&vec![]), 0);
}

#[test]
fn only_tested_skills_below_full_fitness_signal_failure() {
    let skills = vec![
        SkillTestHistory { test_passed: vec![], below_full_fitness: true },
        SkillTestHistory { test_passed: vec![true, false, false], below_full_fitness: true },
        SkillTestHistory { test_passed: vec![true, true], below_full_fitness: false },
        SkillTestHistory { test_passed: vec![false], below_full_fitness: true },
    ];
    assert_eq!(
        skill_failures(&skills),
        vec![
            SkillFailure { skill: 1, failure_count: 2 },
            SkillFailure { skill: 3, failure_count: 1 },
        ]
    );
}

fn belief(statement: &str, active: bool) -> BeliefStatus {
    BeliefStatus { statement: statement.to_string(), active }
}

#[test]
fn withdrawn_beliefs_are_grouped_by_statement() {
    let beliefs = vec![
        belief("a", false),
        belief("b", true),
        belief("a", false),
        belief("c", false),
        belief("a", true),
    ];
    let groups = group_withdrawals(&beliefs);
    assert_eq!(groups.len(), 2);
    let a = groups.iter().find(|g| g.statement == "a").unwrap();
    assert_eq!((a.latest, a.count), (2, 2));
    let c = groups.iter().find(|g| g.statement == "c").unwrap();
    assert_eq!((c.latest, c.count), (3, 1));
    assert!(groups.iter().all(|g| g.statement != "b"));
}

#[test]
fn no_withdrawn_beliefs_means_no_groups() {
    assert!(group_withdrawals(&vec![belief("a", true)]).is_empty());
    assert!(group_withdrawals(&vec![]).is_empty());
}
