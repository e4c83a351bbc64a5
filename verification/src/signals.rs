//! Deriving evolution signals from the organism's own state: which skills
//! keep failing their tests, and which belief statements keep being
//! retracted or superseded.

use vstd::prelude::*;

verus! {

/// The test history of one registered skill, as far as failure detection
/// needs it.
pub struct SkillTestHistory {
    /// One entry per recorded test: whether it passed.
    pub test_passed: Vec<bool>,
    /// Whether the skill's fitness score is below full fitness.
    pub below_full_fitness: bool,
}

/// A chronically failing skill: its position among the skills examined and
/// how many of its recorded tests failed.
#[derive(Debug, Clone, Copy, PartialEq, Eq, Structural)]
pub struct SkillFailure {
    pub skill: usize,
    pub failure_count: u32,
}

/// Number of failed tests in a test history.
pub open spec fn failed_tests(results: Seq<bool>) -> nat {
    results.filter(|passed: bool| !passed).len()
}

/// A skill signals failure when it has been tested and is below full
/// fitness.
pub open spec fn signals_failure(skill: SkillTestHistory) -> bool {
    skill.test_passed@.len() > 0 && skill.below_full_fitness
}

/// The failure signals of `skills`, in order: one per failing skill.
pub open spec fn failure_signals(skills: Seq<SkillTestHistory>) -> Seq<SkillFailure>
    decreases skills.len(),
{
    if skills.len() == 0 {
        Seq::empty()
    } else {
        let earlier = failure_signals(skills.drop_last());
        let last = skills.last();
        if signals_failure(last) {
            earlier.push(
                SkillFailure {
                    skill: (skills.len() - 1) as usize,
                    failure_count: failed_tests(last.test_passed@) as u32,
                },
            )
        } else {
            earlier
        }
    }
}

/// Recording one more test adds one failure exactly when that test failed,
/// and no tests means no failures.
pub proof fn failed_tests_grow_by_failures(prefix: Seq<bool>, passed: bool)
    ensures
        failed_tests(Seq::<bool>::empty()) == 0,
        failed_tests(prefix.push(passed)) == failed_tests(prefix) + if passed {
            0int
        } else {
            1int
        },
{
    reveal(Seq::filter);
    assert(prefix.push(passed).drop_last() =~= prefix);
}

/// Of any list of skills that fits in memory, the failure signals report
/// exactly the skills that have at
/// least one recorded test and are below full fitness, whatever their test
/// results, once each and in order, each with its number of failed tests
/// (truncated to 32 bits).
pub proof fn failure_signals_report_exactly_failing_skills(skills: Seq<SkillTestHistory>)
    requires
        skills.len() <= usize::MAX,
    ensures
        forall|j: int|
            0 <= j < failure_signals(skills).len() ==> {
                let k = (#[trigger] failure_signals(skills)[j]).skill as int;
                &&& 0 <= k < skills.len()
                &&& skills[k].test_passed@.len() > 0
                &&& skills[k].below_full_fitness
                &&& failure_signals(skills)[j].failure_count == failed_tests(skills[k].test_passed@) as u32
            },
        forall|k: int|
            0 <= k < skills.len() && (#[trigger] skills[k]).test_passed@.len() > 0 && skills[k].below_full_fitness
                ==> exists|j: int| 0 <= j < failure_signals(skills).len() && #[trigger] failure_signals(skills)[j].skill == k,
        forall|i: int, j: int|
            0 <= i < j < failure_signals(skills).len() ==> #[trigger] failure_signals(skills)[i].skill
                < #[trigger] failure_signals(skills)[j].skill,
    decreases skills.len(),
{
    if skills.len() > 0 {
        let prefix = skills.drop_last();
        failure_signals_report_exactly_failing_skills(prefix);
        let earlier = failure_signals(prefix);
        let sig = failure_signals(skills);
        let n = skills.len() - 1;
        let last = skills.last();
        assert(last == skills[n]);
        let entry = SkillFailure { skill: n as usize, failure_count: failed_tests(last.test_passed@) as u32 };
        assert(sig == if signals_failure(last) { earlier.push(entry) } else { earlier });
        assert forall|k: int| 0 <= k < prefix.len() implies prefix[k] == skills[k] by {}
        assert forall|j: int| 0 <= j < earlier.len() implies sig[j] == earlier[j] by {}
        assert forall|j: int| 0 <= j < earlier.len() implies (#[trigger] earlier[j]).skill < n by {
            let k = earlier[j].skill as int;
            assert(0 <= k < prefix.len());
        }
        assert forall|j: int| 0 <= j < sig.len() implies {
            let k = (#[trigger] sig[j]).skill as int;
            &&& 0 <= k < skills.len()
            &&& skills[k].test_passed@.len() > 0
            &&& skills[k].below_full_fitness
            &&& sig[j].failure_count == failed_tests(skills[k].test_passed@) as u32
        } by {
            if j < earlier.len() {
                assert(sig[j] == earlier[j]);
                let k = earlier[j].skill as int;
                assert(0 <= k < prefix.len());
                assert(prefix[k] == skills[k]);
            } else {
                assert(signals_failure(last));
                assert(sig[j] == entry);
            }
        }
        assert forall|k: int|
            0 <= k < skills.len() && (#[trigger] skills[k]).test_passed@.len() > 0 && skills[k].below_full_fitness
            implies exists|j: int| 0 <= j < sig.len() && #[trigger] sig[j].skill == k by {
            if k < n {
                assert(prefix[k] == skills[k]);
                let j = choose|j: int| 0 <= j < earlier.len() && #[trigger] earlier[j].skill == k;
                assert(sig[j] == earlier[j]);
            } else {
                assert(signals_failure(last));
                assert(sig[earlier.len() as int] == entry);
                assert(sig[earlier.len() as int].skill == k);
            }
        }
        assert forall|i: int, j: int| 0 <= i < j < sig.len() implies #[trigger] sig[i].skill
            < #[trigger] sig[j].skill by {
            assert(sig[i] == earlier[i]);
            if j < earlier.len() {
                assert(sig[j] == earlier[j]);
            } else {
                assert(sig[j] == entry);
                assert(earlier[i].skill < n);
            }
        }
    }
}

/// Counts the failed tests of one history.
pub fn count_failed_tests(results: &Vec<bool>) -> (failed: usize)
    ensures
        failed == failed_tests(results@),
{
    let mut failed: usize = 0;
    let mut i: usize = 0;
    while i < results.len()
        invariant
            i <= results.len(),
            failed == failed_tests(results@.take(i as int)),
            failed <= i,
        decreases results.len() - i,
    {
        proof {
            reveal(Seq::filter);
            assert(results@.take(i + 1).drop_last() =~= results@.take(i as int));
        }
        if !results[i] {
            failed = failed + 1;
        }
        i = i + 1;
    }
    assert(results@.take(results.len() as int) =~= results@);
    failed
}

/// The skills that keep failing: every tested skill below full fitness,
/// in order, with the number of its failed tests (truncated to 32 bits).
pub fn skill_failures(skills: &Vec<SkillTestHistory>) -> (failures: Vec<SkillFailure>)
    ensures
        failures@ == failure_signals(skills@),
        forall|j: int|
            0 <= j < failures.len() ==> {
                let k = (#[trigger] failures@[j]).skill as int;
                &&& 0 <= k < skills.len()
                &&& skills@[k].test_passed@.len() > 0
                &&& skills@[k].below_full_fitness
                &&& failures@[j].failure_count == failed_tests(skills@[k].test_passed@) as u32
            },
        forall|k: int|
            0 <= k < skills.len() && (#[trigger] skills@[k]).test_passed@.len() > 0 && skills@[k].below_full_fitness
                ==> exists|j: int| 0 <= j < failures.len() && #[trigger] failures@[j].skill == k,
        forall|i: int, j: int|
            0 <= i < j < failures.len() ==> #[trigger] failures@[i].skill < #[trigger] failures@[j].skill,
{
    let mut failures: Vec<SkillFailure> = Vec::new();
    let mut i: usize = 0;
    while i < skills.len()
        invariant
            i <= skills.len(),
            failures@ == failure_signals(skills@.take(i as int)),
        decreases skills.len() - i,
    {
        proof {
            assert(skills@.take(i + 1).drop_last() =~= skills@.take(i as int));
        }
        let skill = &skills[i];
        if skill.test_passed.len() > 0 && skill.below_full_fitness {
            let failed = count_failed_tests(&skill.test_passed);
            failures.push(SkillFailure { skill: i, failure_count: failed as u32 });
        }
        i = i + 1;
    }
    assert(skills@.take(skills.len() as int) =~= skills@);
    proof {
        failure_signals_report_exactly_failing_skills(skills@);
    }
    failures
}

/// Whether a belief is still held and what it states.
pub struct BeliefStatus {
    pub statement: String,
    pub active: bool,
}

/// A statement whose beliefs keep being withdrawn: the position of the most
/// recent withdrawn belief with that statement, and how many there are.
pub struct Retraction {
    pub statement: String,
    pub latest: usize,
    pub count: u32,
}

/// `belief` is a withdrawn (retracted or superseded) belief stating `statement`.
pub open spec fn withdraws(belief: BeliefStatus, statement: Seq<char>) -> bool {
    !belief.active && belief.statement@ == statement
}

/// How many beliefs stating `statement` have been withdrawn.
pub open spec fn withdrawal_count(beliefs: Seq<BeliefStatus>, statement: Seq<char>) -> nat {
    beliefs.filter(|b: BeliefStatus| withdraws(b, statement)).len()
}

/// `k` is the position of the last withdrawn belief stating `statement`.
pub open spec fn is_latest_withdrawal(beliefs: Seq<BeliefStatus>, statement: Seq<char>, k: int) -> bool {
    &&& 0 <= k < beliefs.len()
    &&& withdraws(beliefs[k], statement)
    &&& forall|j: int| k < j < beliefs.len() ==> !withdraws(beliefs[j], statement)
}

/// `groups` holds one entry per statement of a withdrawn belief, with the
/// number of withdrawn beliefs stating it and the position of the last one.
pub open spec fn groups_withdrawals(beliefs: Seq<BeliefStatus>, groups: Seq<Retraction>) -> bool {
    &&& forall|g: int|
        0 <= g < groups.len() ==> {
            &&& #[trigger] groups[g].count == withdrawal_count(beliefs, groups[g].statement@)
            &&& is_latest_withdrawal(beliefs, groups[g].statement@, groups[g].latest as int)
        }
    &&& forall|g: int, h: int|
        0 <= g < h < groups.len() ==> #[trigger] groups[g].statement@ != #[trigger] groups[h].statement@
    &&& forall|i: int|
        0 <= i < beliefs.len() && !(#[trigger] beliefs[i]).active ==> exists|g: int|
            0 <= g < groups.len() && #[trigger] groups[g].statement@ == beliefs[i].statement@
}

proof fn lemma_withdrawal_count_push(beliefs: Seq<BeliefStatus>, b: BeliefStatus, statement: Seq<char>)
    ensures
        withdrawal_count(beliefs.push(b), statement) == withdrawal_count(beliefs, statement) + if withdraws(
            b,
            statement,
        ) {
            1nat
        } else {
            0nat
        },
{
    reveal(Seq::filter);
    assert(beliefs.push(b).drop_last() =~= beliefs);
}

proof fn lemma_no_withdrawals(beliefs: Seq<BeliefStatus>, statement: Seq<char>)
    requires
        forall|i: int| 0 <= i < beliefs.len() ==> !withdraws(#[trigger] beliefs[i], statement),
    ensures
        withdrawal_count(beliefs, statement) == 0,
    decreases beliefs.len(),
{
    if beliefs.len() > 0 {
        let prefix = beliefs.drop_last();
        assert(beliefs =~= prefix.push(beliefs.last()));
        assert forall|i: int| 0 <= i < prefix.len() implies !withdraws(#[trigger] prefix[i], statement) by {
            assert(prefix[i] == beliefs[i]);
        }
        lemma_no_withdrawals(prefix, statement);
        lemma_withdrawal_count_push(prefix, beliefs.last(), statement);
    }
}

proof fn lemma_withdrawal_count_bound(beliefs: Seq<BeliefStatus>, statement: Seq<char>)
    ensures
        withdrawal_count(beliefs, statement) <= beliefs.len(),
{
    beliefs.lemma_filter_len(|b: BeliefStatus| withdraws(b, statement));
}

proof fn lemma_groups_after_active(seen: Seq<BeliefStatus>, b: BeliefStatus, groups: Seq<Retraction>)
    requires
        groups_withdrawals(seen, groups),
        b.active,
    ensures
        groups_withdrawals(seen.push(b), groups),
{
    let next = seen.push(b);
    assert forall|g: int| 0 <= g < groups.len() implies {
        &&& #[trigger] groups[g].count == withdrawal_count(next, groups[g].statement@)
        &&& is_latest_withdrawal(next, groups[g].statement@, groups[g].latest as int)
    } by {
        lemma_withdrawal_count_push(seen, b, groups[g].statement@);
        assert(groups[g].count == withdrawal_count(seen, groups[g].statement@));
        let k = groups[g].latest as int;
        assert(next[k] == seen[k]);
        assert forall|j: int| k < j < next.len() implies !withdraws(next[j], groups[g].statement@) by {
            if j < seen.len() {
                assert(next[j] == seen[j]);
            }
        }
    }
    assert forall|i: int| 0 <= i < next.len() && !(#[trigger] next[i]).active implies exists|g: int|
        0 <= g < groups.len() && #[trigger] groups[g].statement@ == next[i].statement@ by {
        assert(next[i] == seen[i]);
    }
}

proof fn lemma_groups_after_repeat(
    seen: Seq<BeliefStatus>,
    b: BeliefStatus,
    groups: Seq<Retraction>,
    g: int,
    entry: Retraction,
)
    requires
        groups_withdrawals(seen, groups),
        !b.active,
        0 <= g < groups.len(),
        groups[g].statement@ == b.statement@,
        entry.statement@ == b.statement@,
        entry.latest == seen.len(),
        entry.count == groups[g].count + 1,
    ensures
        groups_withdrawals(seen.push(b), groups.update(g, entry)),
{
    let next = seen.push(b);
    let updated = groups.update(g, entry);
    assert forall|h: int| 0 <= h < updated.len() implies {
        &&& #[trigger] updated[h].count == withdrawal_count(next, updated[h].statement@)
        &&& is_latest_withdrawal(next, updated[h].statement@, updated[h].latest as int)
    } by {
        let st = updated[h].statement@;
        lemma_withdrawal_count_push(seen, b, st);
        if h == g {
            assert(next[seen.len() as int] == b);
        } else {
            assert(updated[h] == groups[h]);
            assert(groups[h].count == withdrawal_count(seen, groups[h].statement@));
            if h < g {
                assert(groups[h].statement@ != groups[g].statement@);
            } else {
                assert(groups[g].statement@ != groups[h].statement@);
            }
            let k = groups[h].latest as int;
            assert(next[k] == seen[k]);
            assert forall|j: int| k < j < next.len() implies !withdraws(next[j], st) by {
                if j < seen.len() {
                    assert(next[j] == seen[j]);
                }
            }
        }
    }
    assert forall|x: int, y: int| 0 <= x < y < updated.len() implies #[trigger] updated[x].statement@
        != #[trigger] updated[y].statement@ by {
        assert(updated[x].statement@ == groups[x].statement@);
        assert(updated[y].statement@ == groups[y].statement@);
    }
    assert forall|i: int| 0 <= i < next.len() && !(#[trigger] next[i]).active implies exists|h: int|
        0 <= h < updated.len() && #[trigger] updated[h].statement@ == next[i].statement@ by {
        if i < seen.len() {
            assert(next[i] == seen[i]);
            let h = choose|h: int| 0 <= h < groups.len() && #[trigger] groups[h].statement@ == seen[i].statement@;
            assert(updated[h].statement@ == groups[h].statement@);
        } else {
            assert(updated[g].statement@ == next[i].statement@);
        }
    }
}

proof fn lemma_groups_after_new(
    seen: Seq<BeliefStatus>,
    b: BeliefStatus,
    groups: Seq<Retraction>,
    entry: Retraction,
)
    requires
        groups_withdrawals(seen, groups),
        !b.active,
        forall|h: int| 0 <= h < groups.len() ==> groups[h].statement@ != b.statement@,
        entry.statement@ == b.statement@,
        entry.latest == seen.len(),
        entry.count == 1,
    ensures
        groups_withdrawals(seen.push(b), groups.push(entry)),
{
    let next = seen.push(b);
    let extended = groups.push(entry);
    let st = b.statement@;
    assert forall|j: int| 0 <= j < seen.len() implies !withdraws(#[trigger] seen[j], st) by {
        if withdraws(seen[j], st) {
            let h = choose|h: int| 0 <= h < groups.len() && #[trigger] groups[h].statement@ == seen[j].statement@;
            assert(groups[h].statement@ != st);
        }
    }
    lemma_no_withdrawals(seen, st);
    assert forall|h: int| 0 <= h < extended.len() implies {
        &&& #[trigger] extended[h].count == withdrawal_count(next, extended[h].statement@)
        &&& is_latest_withdrawal(next, extended[h].statement@, extended[h].latest as int)
    } by {
        let sh = extended[h].statement@;
        lemma_withdrawal_count_push(seen, b, sh);
        if h == groups.len() {
            assert(next[seen.len() as int] == b);
        } else {
            assert(extended[h] == groups[h]);
            assert(groups[h].count == withdrawal_count(seen, groups[h].statement@));
            let k = groups[h].latest as int;
            assert(next[k] == seen[k]);
            assert forall|j: int| k < j < next.len() implies !withdraws(next[j], sh) by {
                if j < seen.len() {
                    assert(next[j] == seen[j]);
                }
            }
        }
    }
    assert forall|x: int, y: int| 0 <= x < y < extended.len() implies #[trigger] extended[x].statement@
        != #[trigger] extended[y].statement@ by {
        assert(extended[x] == groups[x]);
        if y < groups.len() {
            assert(extended[y] == groups[y]);
        }
    }
    assert forall|i: int| 0 <= i < next.len() && !(#[trigger] next[i]).active implies exists|h: int|
        0 <= h < extended.len() && #[trigger] extended[h].statement@ == next[i].statement@ by {
        if i < seen.len() {
            assert(next[i] == seen[i]);
            let h = choose|h: int| 0 <= h < groups.len() && #[trigger] groups[h].statement@ == seen[i].statement@;
            assert(extended[h] == groups[h]);
        } else {
            assert(extended[groups.len() as int].statement@ == next[i].statement@);
        }
    }
}

/// Groups the withdrawn beliefs by statement.
pub fn group_withdrawals(beliefs: &Vec<BeliefStatus>) -> (groups: Vec<Retraction>)
    requires
        beliefs.len() <= u32::MAX,
    ensures
        groups_withdrawals(beliefs@, groups@),
{
    let mut groups: Vec<Retraction> = Vec::new();
    let mut i: usize = 0;
    while i < beliefs.len()
        invariant
            i <= beliefs.len() <= u32::MAX,
            groups_withdrawals(beliefs@.take(i as int), groups@),
        decreases beliefs.len() - i,
    {
        let ghost seen = beliefs@.take(i as int);
        let ghost b = beliefs@[i as int];
        assert(beliefs@.take(i + 1) =~= seen.push(b));
        if !beliefs[i].active {
            let statement = &beliefs[i].statement;
            let mut g: usize = 0;
            let mut found = false;
            while !found && g < groups.len()
                invariant
                    g <= groups.len(),
                    !found ==> forall|h: int| 0 <= h < g ==> groups@[h].statement@ != statement@,
                    found ==> g < groups.len() && groups@[g as int].statement@ == statement@,
                decreases groups.len() - g, if found { 0int } else { 1int },
            {
                if groups[g].statement == *statement {
                    found = true;
                } else {
                    g = g + 1;
                }
            }
            if found {
                proof {
                    lemma_withdrawal_count_bound(seen, statement@);
                }
                let count = groups[g].count + 1;
                let entry = Retraction { statement: statement.clone(), latest: i, count };
                proof {
                    lemma_groups_after_repeat(seen, b, groups@, g as int, entry);
                }
                groups.set(g, entry);
            } else {
                let entry = Retraction { statement: statement.clone(), latest: i, count: 1 };
                proof {
                    lemma_groups_after_new(seen, b, groups@, entry);
                }
                groups.push(entry);
            }
        } else {
            proof {
                lemma_groups_after_active(seen, b, groups@);
            }
        }
        i = i + 1;
    }
    assert(beliefs@.take(beliefs.len() as int) =~= beliefs@);
    groups
}

} // verus!
