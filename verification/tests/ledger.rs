use adam::ledger::EvaluationLedger;

#[test]
fn a_recorded_evaluation_is_read_back() {
    let mut ledger: EvaluationLedger<&str> = EvaluationLedger::new();
    assert_eq!(ledger.get(7), None);
    ledger.record(7, "approve");
    assert_eq!(ledger.get(7), Some(&"approve"));
    assert_eq!(ledger.get(8), None);
}

#[test]
fn a_later_evaluation_replaces_an_earlier_one() {
    let mut ledger: EvaluationLedger<u32> = EvaluationLedger::new();
    ledger.record(1, 10);
    ledger.record(2, 20);
    ledger.record(1, 11);
    assert_eq!(ledger.get(1), Some(&11));
    assert_eq!(ledger.get(2), Some(&20));
}
