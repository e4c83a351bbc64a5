//! How an accepted evolution proposal changes the organism: which genome
//! fields may be amended, the EVE approval gate for identity-bearing
//! fields, the list amendment itself, and the advisory notes recorded for
//! proposals that must not change anything automatically.

use vstd::prelude::*;
use crate::proposal::ProposalKind;
use crate::text::{split_once, split_once_at, strip_prefix, strip_prefix_of, texts};
use crate::trials::{Recommendation, recommendation_label};

verus! {

/// The list-valued genome fields that an approved amendment may change.
#[derive(Debug, Clone, Copy, PartialEq, Eq, Structural)]
pub enum GenomeList {
    Values,
    Goals,
    Capabilities,
    Policies,
}

/// What a list amendment does to its list.
#[derive(Debug, Clone, Copy, PartialEq, Eq, Structural)]
pub enum ListOperation {
    /// Add the suggested value, unless it is already present.
    Append,
    /// Remove every entry equal to the current value.
    Remove,
}

/// The four list-valued fields of a genome.
#[derive(Debug, Clone)]
pub struct GenomeLists {
    pub values: Vec<String>,
    pub goals: Vec<String>,
    pub capabilities: Vec<String>,
    pub policies: Vec<String>,
}

impl GenomeLists {
    /// The texts of one list.
    pub open spec fn list(self, which: GenomeList) -> Seq<Seq<char>> {
        match which {
            GenomeList::Values => texts(self.values@),
            GenomeList::Goals => texts(self.goals@),
            GenomeList::Capabilities => texts(self.capabilities@),
            GenomeList::Policies => texts(self.policies@),
        }
    }

    /// Every list of `self` is that of `other`, except possibly `which`.
    pub open spec fn same_except(self, other: GenomeLists, which: GenomeList) -> bool {
        forall|l: GenomeList| l != which ==> #[trigger] self.list(l) == other.list(l)
    }
}

/// Why an amendment could not be applied.
#[derive(Debug, Clone)]
pub enum AmendmentError {
    /// The field names no supported genome list or list operation.
    UnsupportedGenomeField(String),
    /// The field touches core identity and no EVE evaluation of this exact
    /// proposal recommended approval; `found` says what was found instead.
    EveApprovalRequired { field: String, found: String },
}

/// The list named by `name`.
pub open spec fn list_named(name: Seq<char>) -> Option<GenomeList> {
    if name == "values"@ {
        Some(GenomeList::Values)
    } else if name == "goals"@ {
        Some(GenomeList::Goals)
    } else if name == "capabilities"@ {
        Some(GenomeList::Capabilities)
    } else if name == "policies"@ {
        Some(GenomeList::Policies)
    } else {
        None
    }
}

/// The list operation named by `name`.
pub open spec fn operation_named(name: Seq<char>) -> Option<ListOperation> {
    if name == "append"@ {
        Some(ListOperation::Append)
    } else if name == "remove"@ {
        Some(ListOperation::Remove)
    } else {
        None
    }
}

/// The list and operation that a field of the form `<list>.<operation>`
/// names; the list name ends at the first `.`.
pub open spec fn list_target(field: Seq<char>) -> Option<(GenomeList, ListOperation)> {
    match split_once_at(field, '.') {
        Some((name, op)) => match (list_named(name), operation_named(op)) {
            (Some(l), Some(o)) => Some((l, o)),
            _ => None,
        },
        None => None,
    }
}

/// `list` with `item` added at the end, unless it is already present.
pub open spec fn appended(list: Seq<Seq<char>>, item: Seq<char>) -> Seq<Seq<char>> {
    if list.contains(item) {
        list
    } else {
        list.push(item)
    }
}

/// `list` without any entry equal to `item`, the others in their order.
pub open spec fn removed(list: Seq<Seq<char>>, item: Seq<char>) -> Seq<Seq<char>> {
    list.filter(|e: Seq<char>| e != item)
}

/// The result of one list operation.
pub open spec fn amended(
    list: Seq<Seq<char>>,
    op: ListOperation,
    current: Seq<char>,
    suggested: Seq<char>,
) -> Seq<Seq<char>> {
    match op {
        ListOperation::Append => appended(list, suggested),
        ListOperation::Remove => removed(list, current),
    }
}

/// The preference key named by a `preferences.<key>` field.
pub open spec fn preference_key(field: Seq<char>) -> Option<Seq<char>> {
    strip_prefix_of(field, "preferences."@)
}

/// The genome list named by `name`, if any.
pub fn parse_list_name(name: &str) -> (r: Option<GenomeList>)
    ensures
        r == list_named(name@),
{
    if *name == *"values" {
        Some(GenomeList::Values)
    } else if *name == *"goals" {
        Some(GenomeList::Goals)
    } else if *name == *"capabilities" {
        Some(GenomeList::Capabilities)
    } else if *name == *"policies" {
        Some(GenomeList::Policies)
    } else {
        None
    }
}

/// The list operation named by `name`, if any.
pub fn parse_list_operation(name: &str) -> (r: Option<ListOperation>)
    ensures
        r == operation_named(name@),
{
    if *name == *"append" {
        Some(ListOperation::Append)
    } else if *name == *"remove" {
        Some(ListOperation::Remove)
    } else {
        None
    }
}

/// The list and operation named by a `<list>.<operation>` field.
pub fn parse_list_target(field: &str) -> (r: Option<(GenomeList, ListOperation)>)
    ensures
        r == list_target(field@),
{
    match split_once(field, '.') {
        None => None,
        Some((name, op)) => match (parse_list_name(name), parse_list_operation(op)) {
            (Some(l), Some(o)) => Some((l, o)),
            _ => None,
        },
    }
}

/// The preference key of a `preferences.<key>` field, if it is one.
pub fn parse_preference_key(field: &str) -> (r: Option<&str>)
    ensures
        r is None <==> preference_key(field@) is None,
        r matches Some(key) ==> preference_key(field@) == Some(key@),
{
    strip_prefix(field, "preferences.")
}

/// Whether `list` holds an entry equal to `item`.
pub fn list_contains(list: &Vec<String>, item: &str) -> (r: bool)
    ensures
        r == texts(list@).contains(item@),
{
    let mut i: usize = 0;
    while i < list.len()
        invariant
            i <= list.len(),
            forall|j: int| 0 <= j < i ==> list@[j]@ != item@,
        decreases list.len() - i,
    {
        if *list[i].as_str() == *item {
            assert(texts(list@)[i as int] == item@);
            return true;
        }
        i = i + 1;
    }
    proof {
        if texts(list@).contains(item@) {
            let k = choose|k: int| 0 <= k < texts(list@).len() && texts(list@)[k] == item@;
            assert(list@[k]@ == item@);
        }
    }
    false
}

/// `list` without any entry equal to `item`, the others kept in order.
pub fn without(list: &Vec<String>, item: &str) -> (kept: Vec<String>)
    ensures
        texts(kept@) == removed(texts(list@), item@),
{
    let mut kept: Vec<String> = Vec::new();
    let mut i: usize = 0;
    while i < list.len()
        invariant
            i <= list.len(),
            texts(kept@) == removed(texts(list@).take(i as int), item@),
        decreases list.len() - i,
    {
        let ghost before = texts(list@).take(i as int);
        let ghost after = texts(list@).take(i + 1);
        proof {
            assert(after.drop_last() =~= before);
            assert(after.last() == list@[i as int]@);
            reveal(Seq::filter);
        }
        if *list[i].as_str() != *item {
            let entry = list[i].clone();
            kept.push(entry);
            assert(texts(kept@) =~= removed(before, item@).push(list@[i as int]@));
        }
        i = i + 1;
    }
    assert(texts(list@).take(list.len() as int) =~= texts(list@));
    kept
}

/// Applies one list operation in place.
pub fn amend_list(list: &mut Vec<String>, op: ListOperation, current: &str, suggested: &str)
    ensures
        texts(final(list)@) == amended(texts(old(list)@), op, current@, suggested@),
{
    match op {
        ListOperation::Append => {
            if !list_contains(list, suggested) {
                list.push(suggested.to_owned());
                assert(texts(list@) =~= texts(old(list)@).push(suggested@));
            }
        },
        ListOperation::Remove => {
            let kept = without(list, current);
            *list = kept;
        },
    }
}

/// Applies an approved amendment to one of the genome's list fields.
/// `field` must be `<list>.append` (adds `suggested`, unless already
/// present) or `<list>.remove` (removes every entry equal to `current`),
/// where `<list>` is `values`, `goals`, `capabilities` or `policies`; any
/// other field is refused and leaves every list unchanged.
pub fn apply_list_amendment(lists: &mut GenomeLists, field: &str, current: &str, suggested: &str) -> (r:
    Result<(), AmendmentError>)
    ensures
        r is Ok <==> list_target(field@) is Some,
        r matches Err(e) ==> e matches AmendmentError::UnsupportedGenomeField(f) && f@ == field@,
        r is Err ==> *final(lists) == *old(lists),
        list_target(field@) matches Some((which, op)) ==> {
            &&& final(lists).list(which) == amended(old(lists).list(which), op, current@, suggested@)
            &&& final(lists).same_except(*old(lists), which)
        },
{
    match parse_list_target(field) {
        None => Err(AmendmentError::UnsupportedGenomeField(field.to_owned())),
        Some((which, op)) => {
            match which {
                GenomeList::Values => amend_list(&mut lists.values, op, current, suggested),
                GenomeList::Goals => amend_list(&mut lists.goals, op, current, suggested),
                GenomeList::Capabilities => amend_list(&mut lists.capabilities, op, current, suggested),
                GenomeList::Policies => amend_list(&mut lists.policies, op, current, suggested),
            }
            Ok(())
        },
    }
}

/// The note recorded when a belief is flagged for reconciliation.
pub open spec fn reconcile_note(statement: Seq<char>) -> Seq<char> {
    "belief '"@ + statement
        + "' flagged for reconciliation; requires manual evidence review, not auto-applied"@
}

/// The note recorded when a recurring conflict is flagged for investigation.
pub open spec fn investigate_note(topic: Seq<char>) -> Seq<char> {
    "recurring conflict on '"@ + topic
        + "' flagged for investigation; requires manual review, not auto-applied"@
}

/// The reason recorded with the genome version that an amendment commits.
pub open spec fn commit_reason(field: Seq<char>) -> Seq<char> {
    "accepted mutation: amend "@ + field
}

/// Whether the recorded evaluation of a proposal recommended approval.
pub open spec fn approved(evaluation: Option<Recommendation>) -> bool {
    evaluation == Some(Recommendation::Approve)
}

/// What the approval gate reports having found instead of an approval.
pub open spec fn approval_found(evaluation: Option<Recommendation>) -> Seq<char> {
    match evaluation {
        Some(r) => recommendation_label(r),
        None => "no evaluation recorded"@,
    }
}

fn concat3(a: &str, b: &str, c: &str) -> (r: String)
    ensures
        r@ == a@ + b@ + c@,
{
    let mut r = a.to_owned();
    r.append(b);
    r.append(c);
    r
}

/// The advisory note for a belief flagged for reconciliation.
pub fn reconcile_belief_note(statement: &str) -> (note: String)
    ensures
        note@ == reconcile_note(statement@),
{
    concat3(
        "belief '",
        statement,
        "' flagged for reconciliation; requires manual evidence review, not auto-applied",
    )
}

/// The advisory note for a recurring conflict flagged for investigation.
pub fn investigate_conflict_note(topic: &str) -> (note: String)
    ensures
        note@ == investigate_note(topic@),
{
    concat3(
        "recurring conflict on '",
        topic,
        "' flagged for investigation; requires manual review, not auto-applied",
    )
}

/// The reason recorded with the genome version an amendment of `field`
/// commits.
pub fn amendment_commit_reason(field: &str) -> (reason: String)
    ensures
        reason@ == commit_reason(field@),
{
    let mut reason = "accepted mutation: amend ".to_owned();
    reason.append(field);
    reason
}

/// The label of a recommendation.
pub fn label_of(r: Recommendation) -> (label: String)
    ensures
        label@ == recommendation_label(r),
{
    match r {
        Recommendation::Approve => "Approve".to_owned(),
        Recommendation::NeedsReview => "NeedsReview".to_owned(),
        Recommendation::Reject => "Reject".to_owned(),
    }
}

/// The approval gate for genome fields beyond `preferences.*`: they touch
/// core identity, so a prior evaluation of this exact proposal must have
/// recommended approval.
pub fn require_eve_approval(evaluation: Option<Recommendation>, field: &str) -> (r: Result<
    (),
    AmendmentError,
>)
    ensures
        r is Ok <==> approved(evaluation),
        r matches Err(e) ==> e matches AmendmentError::EveApprovalRequired { field: f, found }
            && f@ == field@ && found@ == approval_found(evaluation),
{
    match evaluation {
        Some(Recommendation::Approve) => Ok(()),
        Some(other) => Err(
            AmendmentError::EveApprovalRequired { field: field.to_owned(), found: label_of(other) },
        ),
        None => Err(
            AmendmentError::EveApprovalRequired {
                field: field.to_owned(),
                found: "no evaluation recorded".to_owned(),
            },
        ),
    }
}

/// The concrete change an accepted proposal makes.
#[derive(Debug, Clone)]
pub enum MutationPlan {
    /// Remove the named skill from the skill registry.
    RetireSkill { skill_name: String },
    /// Set one genome preference and commit the genome with `reason`.
    SetPreference { key: String, value: String, reason: String },
    /// The genome lists were amended; commit the genome with `reason`.
    ListsAmended { reason: String },
    /// Change nothing; record `note` for manual review.
    Advisory { note: String },
}

/// What accepting a proposal of kind `kind` does, given the recorded
/// evaluation of that proposal and the genome's lists (amended in place
/// when the proposal amends one of them).
pub open spec fn plan_matches(
    kind: ProposalKind,
    evaluation: Option<Recommendation>,
    before: GenomeLists,
    after: GenomeLists,
    r: Result<MutationPlan, AmendmentError>,
) -> bool {
    match kind {
        ProposalKind::RetireSkill { skill_name } => {
            &&& r matches Ok(MutationPlan::RetireSkill { skill_name: n })
            &&& n@ == skill_name@
            &&& after == before
        },
        ProposalKind::ReconcileBelief { statement } => {
            &&& r matches Ok(MutationPlan::Advisory { note })
            &&& note@ == reconcile_note(statement@)
            &&& after == before
        },
        ProposalKind::InvestigateConflict { topic } => {
            &&& r matches Ok(MutationPlan::Advisory { note })
            &&& note@ == investigate_note(topic@)
            &&& after == before
        },
        ProposalKind::AmendGenome { field, current_value, suggested_value } => {
            if preference_key(field@) is Some {
                &&& r matches Ok(MutationPlan::SetPreference { key, value, reason })
                &&& preference_key(field@) == Some(key@)
                &&& value@ == suggested_value@
                &&& reason@ == commit_reason(field@)
                &&& after == before
            } else if !approved(evaluation) {
                &&& r matches Err(AmendmentError::EveApprovalRequired { field: f, found })
                &&& f@ == field@
                &&& found@ == approval_found(evaluation)
                &&& after == before
            } else if list_target(field@) is Some {
                let (which, op) = list_target(field@)->0;
                &&& r matches Ok(MutationPlan::ListsAmended { reason })
                &&& reason@ == commit_reason(field@)
                &&& after.list(which) == amended(
                    before.list(which),
                    op,
                    current_value@,
                    suggested_value@,
                )
                &&& after.same_except(before, which)
            } else {
                &&& r matches Err(AmendmentError::UnsupportedGenomeField(f))
                &&& f@ == field@
                &&& after == before
            }
        },
    }
}

/// Decides the concrete effect of accepting a proposal of kind `kind`.
/// Preference amendments are low-stakes and apply without an evaluation;
/// amendments of the identity-bearing lists need a recorded approval;
/// belief and conflict proposals only produce a note.
pub fn plan_mutation(
    kind: &ProposalKind,
    evaluation: Option<Recommendation>,
    lists: &mut GenomeLists,
) -> (r: Result<MutationPlan, AmendmentError>)
    ensures
        plan_matches(*kind, evaluation, *old(lists), *final(lists), r),
{
    match kind {
        ProposalKind::RetireSkill { skill_name } => Ok(
            MutationPlan::RetireSkill { skill_name: skill_name.clone() },
        ),
        ProposalKind::ReconcileBelief { statement } => Ok(
            MutationPlan::Advisory { note: reconcile_belief_note(statement.as_str()) },
        ),
        ProposalKind::InvestigateConflict { topic } => Ok(
            MutationPlan::Advisory { note: investigate_conflict_note(topic.as_str()) },
        ),
        ProposalKind::AmendGenome { field, current_value, suggested_value } => {
            match parse_preference_key(field.as_str()) {
                Some(key) => Ok(
                    MutationPlan::SetPreference {
                        key: key.to_owned(),
                        value: suggested_value.clone(),
                        reason: amendment_commit_reason(field.as_str()),
                    },
                ),
                None => {
                    require_eve_approval(evaluation, field.as_str())?;
                    apply_list_amendment(
                        lists,
                        field.as_str(),
                        current_value.as_str(),
                        suggested_value.as_str(),
                    )?;
                    Ok(MutationPlan::ListsAmended { reason: amendment_commit_reason(field.as_str()) })
                },
            }
        },
    }
}

proof fn lemma_removed_push(list: Seq<Seq<char>>, last: Seq<char>, item: Seq<char>)
    ensures
        removed(list.push(last), item) == if last == item {
            removed(list, item)
        } else {
            removed(list, item).push(last)
        },
{
    reveal(Seq::filter);
    assert(list.push(last).drop_last() =~= list);
}

proof fn lemma_removed_absent(list: Seq<Seq<char>>, item: Seq<char>)
    requires
        !list.contains(item),
    ensures
        removed(list, item) == list,
    decreases list.len(),
{
    if list.len() > 0 {
        let prefix = list.drop_last();
        assert(list =~= prefix.push(list.last()));
        assert(!prefix.contains(item)) by {
            if prefix.contains(item) {
                let k = choose|k: int| 0 <= k < prefix.len() && prefix[k] == item;
                assert(list[k] == item);
            }
        }
        assert(list.last() != item) by {
            assert(list[list.len() - 1] == list.last());
        }
        lemma_removed_absent(prefix, item);
        lemma_removed_push(prefix, list.last(), item);
    }
}

/// Appending a value that is already there changes nothing, so appending
/// the same value twice is the same as appending it once.
pub proof fn appending_twice_is_appending_once(list: Seq<Seq<char>>, item: Seq<char>)
    ensures
        appended(appended(list, item), item) == appended(list, item),
        appended(list, item).contains(item),
{
    if !list.contains(item) {
        assert(list.push(item)[list.len() as int] == item);
    }
}

/// Removing a value that an append has just added, to a list that did not
/// hold it before, gives back the list as it was.
pub proof fn removal_undoes_a_fresh_append(list: Seq<Seq<char>>, item: Seq<char>)
    requires
        !list.contains(item),
    ensures
        removed(appended(list, item), item) == list,
{
    lemma_removed_push(list, item, item);
    lemma_removed_absent(list, item);
}

/// After a removal no entry equals the removed value, and every other entry
/// of the list is still there.
pub proof fn removal_drops_only_the_value(list: Seq<Seq<char>>, item: Seq<char>, other: Seq<char>)
    ensures
        !removed(list, item).contains(item),
        other != item && list.contains(other) ==> removed(list, item).contains(other),
{
    broadcast use vstd::seq_lib::group_filter_ensures;

    let pred = |e: Seq<char>| e != item;
    if removed(list, item).contains(item) {
        let k = choose|k: int| 0 <= k < removed(list, item).len() && removed(list, item)[k] == item;
        list.lemma_filter_pred(pred, k);
    }
    if other != item && list.contains(other) {
        let k = choose|k: int| 0 <= k < list.len() && list[k] == other;
        list.lemma_filter_contains(pred, k);
    }
}

/// The genome's `beliefs` and `skills` are never amended through a list
/// amendment: they belong to their own subsystems.
pub proof fn beliefs_and_skills_are_not_amendable_lists()
    ensures
        list_named("beliefs"@) is None,
        list_named("skills"@) is None,
{
    reveal_strlit("beliefs");
    reveal_strlit("skills");
    reveal_strlit("values");
    reveal_strlit("goals");
    reveal_strlit("capabilities");
    reveal_strlit("policies");
    assert("beliefs"@ != "values"@ && "beliefs"@ != "goals"@ && "beliefs"@ != "capabilities"@
        && "beliefs"@ != "policies"@) by {
        assert("beliefs"@[0] != "values"@[0]);
        assert("beliefs"@[0] != "goals"@[0]);
        assert("beliefs"@[0] != "capabilities"@[0]);
        assert("beliefs"@[0] != "policies"@[0]);
    }
    assert("skills"@ != "values"@ && "skills"@ != "goals"@ && "skills"@ != "capabilities"@
        && "skills"@ != "policies"@) by {
        assert("skills"@[0] != "values"@[0]);
        assert("skills"@[0] != "goals"@[0]);
        assert("skills"@[0] != "capabilities"@[0]);
        assert("skills"@[0] != "policies"@[0]);
    }
}

/// A `preferences.*` amendment is planned the same way whatever evaluation
/// was recorded, and never touches the genome lists.
pub proof fn preference_amendments_are_ungated(
    kind: ProposalKind,
    evaluation: Option<Recommendation>,
    before: GenomeLists,
    after: GenomeLists,
    r: Result<MutationPlan, AmendmentError>,
)
    requires
        kind matches ProposalKind::AmendGenome { field, .. } && preference_key(field@) is Some,
        plan_matches(kind, evaluation, before, after, r),
    ensures
        r matches Ok(MutationPlan::SetPreference { .. }),
        after == before,
{
}

/// An amendment of an identity-bearing list without a recorded approval is
/// refused and leaves the genome lists exactly as they were.
pub proof fn unapproved_identity_amendments_change_nothing(
    kind: ProposalKind,
    evaluation: Option<Recommendation>,
    before: GenomeLists,
    after: GenomeLists,
    r: Result<MutationPlan, AmendmentError>,
)
    requires
        kind matches ProposalKind::AmendGenome { field, .. } && preference_key(field@) is None,
        !approved(evaluation),
        plan_matches(kind, evaluation, before, after, r),
    ensures
        r matches Err(AmendmentError::EveApprovalRequired { .. }),
        after == before,
{
}

/// Proposals other than genome amendments never change the genome lists.
pub proof fn only_amendments_change_the_genome(
    kind: ProposalKind,
    evaluation: Option<Recommendation>,
    before: GenomeLists,
    after: GenomeLists,
    r: Result<MutationPlan, AmendmentError>,
)
    requires
        !(kind is AmendGenome),
        plan_matches(kind, evaluation, before, after, r),
    ensures
        r is Ok,
        after == before,
{
}

} // verus!
