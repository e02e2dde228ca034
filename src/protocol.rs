//! Messages exchanged with the sandboxed worker, and their binary framing.
use vstd::prelude::*;

use vstd::utf8::encode_utf8;

use crate::intake::blobs;

verus! {

#[verifier::external_type_specification]
#[verifier::external_body]
pub struct ExBincodeErrorKind(bincode::ErrorKind);

/// One benchmark job: the run it belongs to, the inputs to run the code on,
/// in order, and the code itself.
pub struct Request {
    pub id: i64,
    pub inputs: Vec<Vec<u8>>,
    pub code: Vec<u8>,
}

/// The outcome of one job: per input either an answer or the failure text,
/// and the per-input instruction counts.
pub struct Response {
    pub id: i64,
    pub outputs: Vec<Result<i64, String>>,
    pub times: Vec<u64>,
}

/// Why bytes could not be read as a message.
#[derive(PartialEq, Eq, Structural, Debug, Clone, Copy)]
pub enum WireError {
    /// The bytes end inside a message.
    Truncated,
    /// The bytes are not an encoded message.
    Malformed,
}

/// The outcome of reading one request from the front of a byte stream.
pub enum Frame {
    /// The stream ended on a message boundary.
    End,
    /// A request, and the number of bytes it took.
    Message(Request, usize),
    /// The stream ended inside a request, or held something else.
    Broken(WireError),
}

/// One per-input outcome, with the failure text as characters.
pub open spec fn outcome_view(o: Result<i64, String>) -> Result<i64, Seq<char>> {
    match o {
        Ok(a) => Ok(a),
        Err(s) => Err(s@),
    }
}

/// The per-input outcomes of `v`, with failure texts as characters.
pub open spec fn outcomes(v: Seq<Result<i64, String>>) -> Seq<Result<i64, Seq<char>>> {
    v.map_values(|o: Result<i64, String>| outcome_view(o))
}

/// The `n` low bytes of `x`, least significant first.
pub open spec fn le_bytes(x: nat, n: nat) -> Seq<u8>
    decreases n,
{
    if n == 0 {
        Seq::empty()
    } else {
        seq![(x % 256) as u8] + le_bytes(x / 256, (n - 1) as nat)
    }
}

/// A 64-bit unsigned integer as eight little-endian bytes.
pub open spec fn u64_bytes(x: nat) -> Seq<u8> {
    le_bytes(x, 8)
}

/// A 64-bit signed integer as eight little-endian bytes, in two's complement.
pub open spec fn i64_bytes(x: i64) -> Seq<u8> {
    u64_bytes(
        if x < 0 {
            (x + 0x1_0000_0000_0000_0000) as nat
        } else {
            x as nat
        },
    )
}

/// A blob: its length, then its bytes.
pub open spec fn blob_bytes(b: Seq<u8>) -> Seq<u8> {
    u64_bytes(b.len()) + b
}

/// The blobs of `s` one after the other.
pub open spec fn blob_list_bytes(s: Seq<Seq<u8>>) -> Seq<u8>
    decreases s.len(),
{
    if s.len() == 0 {
        Seq::empty()
    } else {
        blob_list_bytes(s.drop_last()) + blob_bytes(s.last())
    }
}

/// The encoding of a request: the id, the number of inputs, each input as a
/// blob, then the code as a blob.
pub open spec fn request_bytes(id: i64, inputs: Seq<Seq<u8>>, code: Seq<u8>) -> Seq<u8> {
    i64_bytes(id) + u64_bytes(inputs.len()) + blob_list_bytes(inputs) + blob_bytes(code)
}

proof fn lemma_le_bytes_len(x: nat, n: nat)
    ensures
        le_bytes(x, n).len() == n,
    decreases n,
{
    if n > 0 {
        lemma_le_bytes_len(x / 256, (n - 1) as nat);
    }
}

/// Every request takes at least the sixteen bytes of its id and its count.
pub proof fn lemma_request_bytes_len(id: i64, inputs: Seq<Seq<u8>>, code: Seq<u8>)
    ensures
        request_bytes(id, inputs, code).len() >= 16,
{
    let x = if id < 0 {
        (id + 0x1_0000_0000_0000_0000) as nat
    } else {
        id as nat
    };
    lemma_le_bytes_len(x, 8);
    lemma_le_bytes_len(inputs.len(), 8);
}

/// One outcome: a four-byte tag (0 for an answer, 1 for a failure), then the
/// answer, or the failure text as a blob of its UTF-8 bytes.
pub open spec fn outcome_bytes(o: Result<i64, Seq<char>>) -> Seq<u8> {
    match o {
        Ok(a) => le_bytes(0, 4) + i64_bytes(a),
        Err(t) => le_bytes(1, 4) + blob_bytes(encode_utf8(t)),
    }
}

/// The outcomes of `s` one after the other.
pub open spec fn outcome_list_bytes(s: Seq<Result<i64, Seq<char>>>) -> Seq<u8>
    decreases s.len(),
{
    if s.len() == 0 {
        Seq::empty()
    } else {
        outcome_list_bytes(s.drop_last()) + outcome_bytes(s.last())
    }
}

/// The counts of `s` one after the other.
pub open spec fn time_list_bytes(s: Seq<u64>) -> Seq<u8>
    decreases s.len(),
{
    if s.len() == 0 {
        Seq::empty()
    } else {
        time_list_bytes(s.drop_last()) + u64_bytes(s.last() as nat)
    }
}

/// The encoding of a response: the id, the number of outcomes, each
/// outcome, the number of timings, then each timing.
pub open spec fn response_bytes(
    id: i64,
    outputs: Seq<Result<i64, Seq<char>>>,
    times: Seq<u64>,
) -> Seq<u8> {
    i64_bytes(id) + u64_bytes(outputs.len()) + outcome_list_bytes(outputs) + u64_bytes(
        times.len(),
    ) + time_list_bytes(times)
}

/// Relies on bincode::serialize (fixed-width integers, lengths as u64, no
/// size limit): the triple is written as a struct of these three fields would
/// be, and writing sequences of known length into a `Vec` cannot fail.
#[verifier::external_body]
fn serialize_request(id: i64, inputs: &Vec<Vec<u8>>, code: &Vec<u8>) -> (r: Result<
    Vec<u8>,
    Box<bincode::ErrorKind>,
>)
    ensures
        r is Ok,
        r is Ok ==> r->Ok_0@ == request_bytes(id, blobs(inputs@), code@),
{
    bincode::serialize(&(id, inputs, code))
}

/// Relies on bincode::deserialize_from on a byte slice: it reads back exactly
/// the bytes of one value as bincode::serialize wrote it, leaving the rest
/// unread (the count returned is of the bytes left); a reader that runs out
/// of bytes is reported as an `Io` error of kind `UnexpectedEof`.
#[verifier::external_body]
fn deserialize_request_prefix(b: &[u8]) -> (r: (
    Result<(i64, Vec<Vec<u8>>, Vec<u8>), WireError>,
    usize,
))
    ensures
        r.1 <= b@.len(),
        r.0 is Ok ==> b@.take(b@.len() - r.1) == request_bytes(
            r.0->Ok_0.0,
            blobs(r.0->Ok_0.1@),
            r.0->Ok_0.2@,
        ),
        forall|id: i64, inputs: Seq<Seq<u8>>, code: Seq<u8>, rest: Seq<u8>|
            b@ == #[trigger] (request_bytes(id, inputs, code) + rest) ==> {
                &&& r.0 is Ok
                &&& r.0->Ok_0.0 == id
                &&& blobs(r.0->Ok_0.1@) == inputs
                &&& r.0->Ok_0.2@ == code
                &&& r.1 == rest.len()
            },
        forall|id: i64, inputs: Seq<Seq<u8>>, code: Seq<u8>|
            b@.len() < #[trigger] request_bytes(id, inputs, code).len() && b@ == request_bytes(
                id,
                inputs,
                code,
            ).take(b@.len() as int) ==> r.0 is Err && r.0->Err_0 == WireError::Truncated,
{
    let mut rest = b;
    let r = match bincode::deserialize_from(&mut rest) {
        Ok(v) => Ok(v),
        Err(e) => Err(match *e {
            bincode::ErrorKind::Io(ref io) if io.kind() == std::io::ErrorKind::UnexpectedEof => {
                WireError::Truncated
            },
            _ => WireError::Malformed,
        }),
    };
    (r, rest.len())
}

/// Relies on bincode::serialize (fixed-width integers, lengths as u64, a u32
/// variant tag before each `Result`, strings as their UTF-8 bytes, no size
/// limit): the triple is written as a
/// struct of these three fields would be, and writing sequences of known
/// length into a `Vec` cannot fail.
#[verifier::external_body]
fn serialize_response(id: i64, outputs: &Vec<Result<i64, String>>, times: &Vec<u64>) -> (r: Result<
    Vec<u8>,
    Box<bincode::ErrorKind>,
>)
    ensures
        r is Ok,
        r is Ok ==> r->Ok_0@ == response_bytes(id, outcomes(outputs@), times@),
{
    bincode::serialize(&(id, outputs, times))
}

/// Relies on bincode::deserialize: it reads back a value from the exact bytes
/// that bincode::serialize wrote for it, and ignores bytes after them; a
/// slice that runs out is reported as an `Io` error of kind `UnexpectedEof`.
#[verifier::external_body]
fn deserialize_response(b: &[u8]) -> (r: Result<
    (i64, Vec<Result<i64, String>>, Vec<u64>),
    WireError,
>)
    ensures
        r is Ok ==> response_bytes(
            r->Ok_0.0,
            outcomes(r->Ok_0.1@),
            r->Ok_0.2@,
        ).is_prefix_of(b@),
        forall|id: i64, outputs: Seq<Result<i64, Seq<char>>>, times: Seq<u64>, rest: Seq<u8>|
            b@ == #[trigger] (response_bytes(id, outputs, times) + rest) ==> {
                &&& r is Ok
                &&& r->Ok_0.0 == id
                &&& outcomes(r->Ok_0.1@) == outputs
                &&& r->Ok_0.2@ == times
            },
        forall|id: i64, outputs: Seq<Result<i64, Seq<char>>>, times: Seq<u64>|
            b@.len() < #[trigger] response_bytes(id, outputs, times).len() && b@ == response_bytes(
                id,
                outputs,
                times,
            ).take(b@.len() as int) ==> r is Err && r->Err_0 == WireError::Truncated,
{
    match bincode::deserialize(b) {
        Ok(v) => Ok(v),
        Err(e) => Err(match *e {
            bincode::ErrorKind::Io(ref io) if io.kind() == std::io::ErrorKind::UnexpectedEof => {
                WireError::Truncated
            },
            _ => WireError::Malformed,
        }),
    }
}

impl Request {
    /// The bytes written to the worker for this request.
    pub fn encode(&self) -> (r: Vec<u8>)
        ensures
            r@ == request_bytes(self.id, blobs(self.inputs@), self.code@),
    {
        match serialize_request(self.id, &self.inputs, &self.code) {
            Ok(b) => b,
            Err(_) => {
                assert(false);
                Vec::new()
            },
        }
    }
}

impl Response {
    /// The bytes written back by the worker for this response.
    pub fn encode(&self) -> (r: Vec<u8>)
        ensures
            r@ == response_bytes(self.id, outcomes(self.outputs@), self.times@),
    {
        match serialize_response(self.id, &self.outputs, &self.times) {
            Ok(b) => b,
            Err(_) => {
                assert(false);
                Vec::new()
            },
        }
    }

    /// Reads a response from the front of `b`; bytes after it are ignored.
    /// Bytes that end inside an encoded response are `Truncated`.
    pub fn decode(b: &[u8]) -> (r: Result<Response, WireError>)
        ensures
            r is Ok ==> response_bytes(
                r->Ok_0.id,
                outcomes(r->Ok_0.outputs@),
                r->Ok_0.times@,
            ).is_prefix_of(b@),
            forall|id: i64, outputs: Seq<Result<i64, Seq<char>>>, times: Seq<u64>, rest: Seq<u8>|
                b@ == #[trigger] (response_bytes(id, outputs, times) + rest) ==> {
                    &&& r is Ok
                    &&& r->Ok_0.id == id
                    &&& outcomes(r->Ok_0.outputs@) == outputs
                    &&& r->Ok_0.times@ == times
                },
            forall|id: i64, outputs: Seq<Result<i64, Seq<char>>>, times: Seq<u64>|
                b@.len() < #[trigger] response_bytes(id, outputs, times).len() && b@
                    == response_bytes(id, outputs, times).take(b@.len() as int) ==> r is Err
                    && r->Err_0 == WireError::Truncated,
    {
        match deserialize_response(b) {
            Ok((id, outputs, times)) => Ok(Response { id, outputs, times }),
            Err(e) => Err(e),
        }
    }
}

/// Reads the next request from the front of `b`: the end of the stream when
/// no byte is left, the request and the bytes it took when one is encoded
/// there, `Truncated` when the bytes stop inside an encoded request, and
/// otherwise why none could be read.
pub fn next_request(b: &[u8]) -> (r: Frame)
    ensures
        (r is End) <==> b@.len() == 0,
        forall|id: i64, inputs: Seq<Seq<u8>>, code: Seq<u8>, rest: Seq<u8>|
            b@ == #[trigger] (request_bytes(id, inputs, code) + rest) ==> {
                &&& r is Message
                &&& r->Message_0.id == id
                &&& blobs(r->Message_0.inputs@) == inputs
                &&& r->Message_0.code@ == code
                &&& r->Message_1 == request_bytes(id, inputs, code).len()
            },
        forall|id: i64, inputs: Seq<Seq<u8>>, code: Seq<u8>|
            0 < b@.len() < #[trigger] request_bytes(id, inputs, code).len() && b@ == request_bytes(
                id,
                inputs,
                code,
            ).take(b@.len() as int) ==> r is Broken && r->Broken_0 == WireError::Truncated,
        r is Message ==> {
            &&& 0 < r->Message_1 <= b@.len()
            &&& b@.take(r->Message_1 as int) == request_bytes(
                r->Message_0.id,
                blobs(r->Message_0.inputs@),
                r->Message_0.code@,
            )
        },
{
    if b.len() == 0 {
        return Frame::End;
    }
    let (res, left) = deserialize_request_prefix(b);
    match res {
        Ok((id, inputs, code)) => {
            proof {
                lemma_request_bytes_len(id, blobs(inputs@), code@);
            }
            Frame::Message(Request { id, inputs, code }, b.len() - left)
        },
        Err(e) => Frame::Broken(e),
    }
}

} // verus!
