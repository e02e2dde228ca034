use toboggan::coordinator::{Action, Phase, Rejection, Submission};
use toboggan::protocol::Response;

fn benchmarking(run: i64, ids: Vec<i64>) -> Submission {
    let mut s = Submission::new(run, 5, 3);
    assert_eq!(s.on_input_count(3), Action::FetchInputs(3));
    assert_eq!(s.on_inputs_fetched(ids), Action::RunBenchmark);
    s
}

#[test]
fn waits_until_enough_inputs() {
    let mut s = Submission::new(1, 5, 3);
    assert_eq!(s.phase, Phase::AwaitingInputs);
    assert_eq!(s.on_input_count(2), Action::WaitForInput);
    assert_eq!(s.on_input_arrived(4), Action::Nothing);
    assert_eq!(s.on_input_arrived(5), Action::CountInputs);
    assert_eq!(s.on_input_count(3), Action::FetchInputs(3));
    assert_eq!(s.phase, Phase::FetchingInputs);
    assert_eq!(s.on_input_arrived(5), Action::Nothing);
}

#[test]
fn no_inputs_fetched_is_protocol_error() {
    let mut s = Submission::new(1, 5, 3);
    s.on_input_count(3);
    assert_eq!(s.on_inputs_fetched(vec![]), Action::ReportProtocolError);
    assert_eq!(s.phase, Phase::Rejected(Rejection::Protocol));
}

#[test]
fn accepted_run_scores_mean_of_times() {
    let mut s = benchmarking(7, vec![10, 11, 12]);
    let res = Response { id: 7, outputs: vec![Ok(1), Ok(2), Ok(3)], times: vec![10, 20, 31] };
    assert_eq!(s.on_response(res), Action::RecordSolutions(vec![(10, 1), (11, 2), (12, 3)]));
    assert_eq!(s.on_solutions_recorded(), Action::QueryConsensus(10));
    assert_eq!(s.on_consensus(None), Action::WaitForConsensus(10));
    assert_eq!(s.on_consensus_changed(11), Action::Nothing);
    assert_eq!(s.on_consensus_changed(10), Action::QueryConsensus(10));
    assert_eq!(s.on_consensus(Some(1)), Action::QueryConsensus(11));
    assert_eq!(s.on_consensus(Some(2)), Action::QueryConsensus(12));
    // (10 + 20 + 31) / 3, rounded down
    assert_eq!(s.on_consensus(Some(3)), Action::RecordScore(20));
    assert_eq!(s.phase, Phase::Accepted(20));
}

#[test]
fn mean_does_not_overflow() {
    let mut s = benchmarking(7, vec![1, 2]);
    let res = Response { id: 7, outputs: vec![Ok(0), Ok(0)], times: vec![u64::MAX, u64::MAX - 2] };
    s.on_response(res);
    s.on_solutions_recorded();
    s.on_consensus(Some(0));
    assert_eq!(s.on_consensus(Some(0)), Action::RecordScore(u64::MAX - 1));
}

#[test]
fn mismatch_rejects_and_never_scores() {
    let mut s = benchmarking(7, vec![10, 11]);
    let res = Response { id: 7, outputs: vec![Ok(1), Ok(2)], times: vec![5, 5] };
    s.on_response(res);
    s.on_solutions_recorded();
    assert_eq!(s.on_consensus(Some(9)), Action::ReportMismatch(10));
    assert_eq!(s.phase, Phase::Rejected(Rejection::Mismatch));
    assert_eq!(s.on_consensus(Some(2)), Action::Nothing);
    assert_eq!(s.on_consensus_changed(11), Action::Nothing);
    assert_eq!(s.on_solutions_recorded(), Action::Nothing);
    assert_eq!(s.phase, Phase::Rejected(Rejection::Mismatch));
}

#[test]
fn mismatch_on_last_input_rejects() {
    let mut s = benchmarking(7, vec![10, 11]);
    let res = Response { id: 7, outputs: vec![Ok(1), Ok(2)], times: vec![5, 5] };
    s.on_response(res);
    s.on_solutions_recorded();
    assert_eq!(s.on_consensus(Some(1)), Action::QueryConsensus(11));
    assert_eq!(s.on_consensus(Some(3)), Action::ReportMismatch(11));
}

#[test]
fn failed_input_reports_first_error_and_stores_nothing() {
    let mut s = benchmarking(7, vec![10, 11, 12]);
    let res = Response {
        id: 7,
        outputs: vec![Ok(1), Err("first".to_string()), Err("second".to_string())],
        times: vec![],
    };
    assert_eq!(s.on_response(res), Action::ReportFailure("first".to_string()));
    assert_eq!(s.phase, Phase::Rejected(Rejection::Execution));
    assert!(s.answers.is_empty());
}

#[test]
fn response_of_wrong_shape_is_protocol_error() {
    let mut s = benchmarking(7, vec![10, 11]);
    let res = Response { id: 7, outputs: vec![Ok(1)], times: vec![1, 2] };
    assert_eq!(s.on_response(res), Action::ReportProtocolError);
    let mut s = benchmarking(7, vec![10, 11]);
    let res = Response { id: 7, outputs: vec![Ok(1), Ok(2)], times: vec![1] };
    assert_eq!(s.on_response(res), Action::ReportProtocolError);
    let mut s = benchmarking(7, vec![10]);
    let res = Response { id: 8, outputs: vec![Ok(1)], times: vec![1] };
    assert_eq!(s.on_response(res), Action::ReportProtocolError);
    assert_eq!(s.phase, Phase::Rejected(Rejection::Protocol));
}

#[test]
fn events_out_of_turn_change_nothing() {
    let mut s = Submission::new(1, 5, 3);
    assert_eq!(s.on_consensus(Some(1)), Action::Nothing);
    assert_eq!(s.on_solutions_recorded(), Action::Nothing);
    assert_eq!(s.on_inputs_fetched(vec![1]), Action::Nothing);
    let res = Response { id: 1, outputs: vec![], times: vec![] };
    assert_eq!(s.on_response(res), Action::Nothing);
    assert_eq!(s.phase, Phase::AwaitingInputs);
}
