//! The organism's record of proposal evaluations: the latest evaluation of
//! each proposal, consulted by the approval gate when the proposal is
//! accepted.

use std::collections::HashMap;
use vstd::prelude::*;

verus! {

broadcast use vstd::std_specs::hash::group_hash_axioms;

/// The latest evaluation recorded for each proposal, keyed by proposal id.
pub struct EvaluationLedger<T> {
    results: HashMap<u128, T>,
}

impl<T> View for EvaluationLedger<T> {
    type V = Map<u128, T>;

    /// The recorded evaluation of each proposal.
    closed spec fn view(&self) -> Map<u128, T> {
        self.results@
    }
}

impl<T> EvaluationLedger<T> {
    /// A ledger with no evaluations.
    pub fn new() -> (ledger: Self)
        ensures
            ledger@ == Map::<u128, T>::empty(),
    {
        EvaluationLedger { results: HashMap::new() }
    }

    /// The evaluation recorded for proposal `id`, if any.
    pub fn get(&self, id: u128) -> (r: Option<&T>)
        ensures
            r is None <==> !self@.contains_key(id),
            r matches Some(result) ==> *result == self@[id],
    {
        self.results.get(&id)
    }

    /// Records `result` as the evaluation of proposal `id`, replacing any
    /// earlier one.
    pub fn record(&mut self, id: u128, result: T)
        ensures
            final(self)@ == old(self)@.insert(id, result),
    {
        self.results.insert(id, result);
    }
}

} // verus!
