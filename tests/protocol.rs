use toboggan::protocol::{next_request, Frame, Request, Response, WireError};

#[test]
fn request_round_trip_keeps_inputs_and_code() {
    let req = Request {
        id: 17,
        inputs: vec![b"first".to_vec(), vec![], vec![0, 255, 10]],
        code: b"pub fn run(i: &str) -> i64 { 0 }".to_vec(),
    };
    let bytes = req.encode();
    match next_request(&bytes) {
        Frame::Message(back, used) => {
            assert_eq!(used, bytes.len());
            assert_eq!(back.id, 17);
            assert_eq!(back.inputs, req.inputs);
            assert_eq!(back.code, req.code);
        }
        _ => panic!("expected a request"),
    }
}

#[test]
fn request_layout_is_fixed_width() {
    let req = Request { id: 1, inputs: vec![vec![9]], code: vec![] };
    let bytes = req.encode();
    let mut expected = vec![1, 0, 0, 0, 0, 0, 0, 0];
    expected.extend_from_slice(&[1, 0, 0, 0, 0, 0, 0, 0]);
    expected.extend_from_slice(&[1, 0, 0, 0, 0, 0, 0, 0, 9]);
    expected.extend_from_slice(&[0, 0, 0, 0, 0, 0, 0, 0]);
    assert_eq!(bytes, expected);
}

#[test]
fn stream_of_two_requests_then_end() {
    let a = Request { id: 1, inputs: vec![b"x".to_vec()], code: b"c".to_vec() };
    let b = Request { id: 2, inputs: vec![], code: vec![] };
    let mut stream = a.encode();
    stream.extend(b.encode());
    let first = match next_request(&stream) {
        Frame::Message(r, used) => {
            assert_eq!(r.id, 1);
            used
        }
        _ => panic!("expected the first request"),
    };
    let second = match next_request(&stream[first..]) {
        Frame::Message(r, used) => {
            assert_eq!(r.id, 2);
            assert!(r.inputs.is_empty());
            used
        }
        _ => panic!("expected the second request"),
    };
    assert!(matches!(next_request(&stream[first + second..]), Frame::End));
}

#[test]
fn cut_request_is_truncated() {
    let a = Request { id: 1, inputs: vec![b"xyz".to_vec()], code: b"c".to_vec() };
    let bytes = a.encode();
    match next_request(&bytes[..bytes.len() - 1]) {
        Frame::Broken(e) => assert_eq!(e, WireError::Truncated),
        _ => panic!("expected a truncated request"),
    }
    match next_request(&bytes[..3]) {
        Frame::Broken(e) => assert_eq!(e, WireError::Truncated),
        _ => panic!("expected a truncated request"),
    }
}

#[test]
fn empty_stream_is_end() {
    assert!(matches!(next_request(&[]), Frame::End));
}

#[test]
fn response_round_trip_keeps_outcomes_and_times() {
    let res = Response {
        id: -4,
        outputs: vec![Ok(42), Err("divide by zero".to_string()), Ok(i64::MIN)],
        times: vec![1, u64::MAX, 0],
    };
    let bytes = res.encode();
    let back = Response::decode(&bytes).unwrap();
    assert_eq!(back.id, -4);
    assert_eq!(back.outputs, res.outputs);
    assert_eq!(back.times, res.times);
}

#[test]
fn cut_response_is_an_error() {
    let res = Response { id: 3, outputs: vec![Ok(1)], times: vec![2] };
    let bytes = res.encode();
    assert_eq!(Response::decode(&bytes[..bytes.len() - 2]).err(), Some(WireError::Truncated));
    assert!(Response::decode(&[]).is_err());
}

#[test]
fn bad_result_tag_is_malformed() {
    let res = Response { id: 3, outputs: vec![Ok(1)], times: vec![2] };
    let mut bytes = res.encode();
    // the u32 tag of the first outcome follows the id and the length
    bytes[16] = 7;
    assert_eq!(Response::decode(&bytes).err(), Some(WireError::Malformed));
}

#[test]
fn concrete_response_reads_back() {
    let res = Response {
        id: 9,
        outputs: vec![Ok(-1), Err("boom".into()), Ok(i64::MAX)],
        times: vec![0, 5, u64::MAX],
    };
    let back = Response::decode(&res.encode()).unwrap();
    assert_eq!(back.id, 9);
    assert_eq!(back.outputs, vec![Ok(-1), Err("boom".into()), Ok(i64::MAX)]);
    assert_eq!(back.times, vec![0, 5, u64::MAX]);
}

#[test]
fn every_strict_prefix_of_a_request_is_truncated() {
    let req = Request { id: 1, inputs: vec![vec![], vec![1, 2, 3], b"abc".to_vec()], code: b"fn run() {}".to_vec() };
    let bytes = req.encode();
    for cut in 1..bytes.len() {
        match next_request(&bytes[..cut]) {
            Frame::Broken(e) => assert_eq!(e, WireError::Truncated),
            _ => panic!("prefix of {cut} bytes was not reported as cut off"),
        }
    }
    match next_request(&bytes) {
        Frame::Message(back, used) => {
            assert_eq!(used, bytes.len());
            assert_eq!(back.inputs, vec![vec![], vec![1, 2, 3], b"abc".to_vec()]);
            assert_eq!(back.code, b"fn run() {}".to_vec());
        }
        _ => panic!("expected a request"),
    }
}

#[test]
fn every_strict_prefix_of_a_response_is_truncated() {
    let res = Response { id: 2, outputs: vec![Ok(3), Err("x".into())], times: vec![1, 2] };
    let bytes = res.encode();
    for cut in 0..bytes.len() {
        assert_eq!(Response::decode(&bytes[..cut]).err(), Some(WireError::Truncated));
    }
}

#[test]
fn response_layout_is_fixed_width() {
    let res = Response { id: -1, outputs: vec![Ok(2), Err("é".to_string())], times: vec![3] };
    let mut expected = vec![255; 8];
    expected.extend_from_slice(&[2, 0, 0, 0, 0, 0, 0, 0]);
    expected.extend_from_slice(&[0, 0, 0, 0]);
    expected.extend_from_slice(&[2, 0, 0, 0, 0, 0, 0, 0]);
    expected.extend_from_slice(&[1, 0, 0, 0]);
    expected.extend_from_slice(&[2, 0, 0, 0, 0, 0, 0, 0, 0xC3, 0xA9]);
    expected.extend_from_slice(&[1, 0, 0, 0, 0, 0, 0, 0]);
    expected.extend_from_slice(&[3, 0, 0, 0, 0, 0, 0, 0]);
    assert_eq!(res.encode(), expected);
}
