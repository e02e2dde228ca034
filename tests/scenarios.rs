use toboggan::consensus::consensus;
use toboggan::coordinator::{Action, Phase, Rejection, Submission};
use toboggan::intake::{judge_input, InputVerdict};
use toboggan::protocol::Response;
use toboggan::worker::benchmark_response;

/// Drives one submission for day 5 on the single input `input_id` through
/// benchmarking, storing its answer in `solutions` and answering consensus
/// queries from them.
fn run_submission(run: i64, answer: i64, input_id: i64, solutions: &mut Vec<i64>) -> Action {
    let mut s = Submission::new(run, 5, 3);
    assert_eq!(s.on_input_count(3), Action::FetchInputs(3));
    assert_eq!(s.on_inputs_fetched(vec![input_id]), Action::RunBenchmark);
    let res = Response { id: run, outputs: vec![Ok(answer)], times: vec![100 + run as u64] };
    match s.on_response(res) {
        Action::RecordSolutions(pairs) => {
            for (_, a) in pairs {
                solutions.push(a);
            }
        }
        other => panic!("unexpected {:?}", other),
    }
    assert_eq!(s.on_solutions_recorded(), Action::QueryConsensus(input_id));
    s.on_consensus(consensus(solutions, 3))
}

#[test]
fn community_agreement_accepts_and_rejects() {
    let mut stored: Vec<Vec<u8>> = Vec::new();
    for input in [b"in-a".to_vec(), b"in-b".to_vec(), b"in-c".to_vec()] {
        let count = stored.len() as u64;
        assert_eq!(judge_input(5, 5, count, 3, &stored, &input), InputVerdict::Accepted);
        stored.push(input);
    }
    // the quorum is met: a queued submission goes on to fetch the inputs
    let mut queued = Submission::new(99, 5, 3);
    assert_eq!(queued.on_input_count(stored.len() as u64), Action::FetchInputs(3));
    assert_eq!(judge_input(5, 5, 3, 3, &stored, &b"in-d".to_vec()), InputVerdict::AlreadyEnough);

    let mut solutions: Vec<i64> = Vec::new();
    // the first two find no consensus yet
    assert_eq!(run_submission(1, 42, 10, &mut solutions), Action::WaitForConsensus(10));
    assert_eq!(run_submission(2, 42, 10, &mut solutions), Action::WaitForConsensus(10));
    assert_eq!(run_submission(3, 42, 10, &mut solutions), Action::RecordScore(103));
    assert_eq!(consensus(&solutions, 3), Some(42));
    assert_eq!(run_submission(4, 42, 10, &mut solutions), Action::RecordScore(104));
    assert_eq!(run_submission(5, 7, 10, &mut solutions), Action::ReportMismatch(10));
    assert_eq!(consensus(&solutions, 3), Some(42));
}

#[test]
fn failing_tool_rejects_run_without_solutions() {
    let res = benchmark_response(12, 3, false, &vec![], "divide by zero".to_string());
    assert_eq!(res.outputs, vec![Err("divide by zero".to_string()); 3]);
    let mut s = Submission::new(12, 5, 3);
    s.on_input_count(3);
    s.on_inputs_fetched(vec![1, 2, 3]);
    assert_eq!(s.on_response(res), Action::ReportFailure("divide by zero".to_string()));
    assert_eq!(s.phase, Phase::Rejected(Rejection::Execution));
    assert!(s.answers.is_empty());
    assert_eq!(s.on_solutions_recorded(), Action::Nothing);
}
