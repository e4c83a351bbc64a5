//! The kinds of evolution proposal the organism reasons about.

use vstd::prelude::*;

verus! {

/// What an evolution proposal asks the organism to change.
pub enum ProposalKind {
    /// Remove a chronically failing skill from the registry.
    RetireSkill { skill_name: String },
    /// Flag a belief whose confidence keeps collapsing.
    ReconcileBelief { statement: String },
    /// Flag a memory topic that keeps producing contradictions.
    InvestigateConflict { topic: String },
    /// Change one genome field.
    AmendGenome { field: String, current_value: String, suggested_value: String },
}

} // verus!
