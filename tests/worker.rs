use toboggan::worker::{benchmark_response, classify_line, input_variable, parse_report, ReportLine};

fn kind(line: &str) -> ReportLine {
    let b = line.as_bytes().to_vec();
    classify_line(&b, 0, b.len())
}

#[test]
fn solution_lines_give_answers() {
    assert_eq!(kind("Solution: 42"), ReportLine::Answer(42));
    assert_eq!(kind("   Solution:   -17  "), ReportLine::Answer(-17));
    assert_eq!(kind("Solution: +5"), ReportLine::Answer(5));
    assert_eq!(kind("Solution: -9223372036854775808"), ReportLine::Answer(i64::MIN));
    assert_eq!(kind("Solution: 9223372036854775807"), ReportLine::Answer(i64::MAX));
}

#[test]
fn instruction_lines_give_samples() {
    assert_eq!(kind("Instructions: 1234|5678 (+1.0%)"), ReportLine::Sample(1234));
    assert_eq!(kind("  Instructions:18446744073709551615|"), ReportLine::Sample(u64::MAX));
}

#[test]
fn unreadable_numbers_are_malformed() {
    assert_eq!(kind("Solution: abc"), ReportLine::Malformed);
    assert_eq!(kind("Solution: 9223372036854775808"), ReportLine::Malformed);
    assert_eq!(kind("Solution:"), ReportLine::Malformed);
    assert_eq!(kind("Instructions: 12"), ReportLine::Malformed);
    assert_eq!(kind("Instructions: 12 |3"), ReportLine::Malformed);
    assert_eq!(kind("Instructions: 18446744073709551616|"), ReportLine::Malformed);
}

#[test]
fn other_lines_are_ignored() {
    assert_eq!(kind(""), ReportLine::Other);
    assert_eq!(kind("bench::bench_run 1"), ReportLine::Other);
    assert_eq!(kind("Solution : 4"), ReportLine::Other);
    assert_eq!(kind("L1 Hits: 3|4"), ReportLine::Other);
}

#[test]
fn report_keeps_order() {
    let out = b"bench_run\n  Instructions: 100|99\nSolution: 1\n\n  Instructions: 300|1\nSolution: 2\nSolution: 3\r\nInstructions: 200|x".to_vec();
    let (answers, times) = parse_report(&out).unwrap();
    assert_eq!(answers, vec![1, 2, 3]);
    assert_eq!(times, vec![100, 300, 200]);
}

#[test]
fn report_with_bad_line_is_unreadable() {
    assert!(parse_report(&b"Solution: 1\nSolution: x\n".to_vec()).is_none());
    assert_eq!(parse_report(&vec![]), Some((vec![], vec![])));
}

#[test]
fn failed_tool_fails_every_input_with_its_error_output() {
    let res = benchmark_response(8, 3, false, &b"Solution: 1\n".to_vec(), "divide by zero".to_string());
    assert_eq!(res.id, 8);
    assert_eq!(res.outputs, vec![Err("divide by zero".to_string()); 3]);
    assert!(res.times.is_empty());
}

#[test]
fn successful_tool_gives_answers_and_times() {
    let out = b"Solution: 42\nInstructions: 10|0\nSolution: -1\nInstructions: 20|0\n".to_vec();
    let res = benchmark_response(2, 2, true, &out, String::new());
    assert_eq!(res.outputs, vec![Ok(42), Ok(-1)]);
    assert_eq!(res.times, vec![10, 20]);
}

#[test]
fn unreadable_report_fails_every_input() {
    let res = benchmark_response(2, 2, true, &b"Solution: ?\n".to_vec(), String::new());
    assert_eq!(res.outputs.len(), 2);
    assert!(res.outputs.iter().all(|o| o.is_err()));
    assert!(res.times.is_empty());
}

#[test]
fn input_variables_are_numbered_from_zero() {
    assert_eq!(input_variable(0), b"INPUT_0".to_vec());
    assert_eq!(input_variable(7), b"INPUT_7".to_vec());
    assert_eq!(input_variable(10), b"INPUT_10".to_vec());
    assert_eq!(input_variable(1203), b"INPUT_1203".to_vec());
}
