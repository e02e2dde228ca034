//! Admission of a submitted puzzle input for one day.
use vstd::prelude::*;

verus! {

/// Inputs needed for a day before benchmarking may start.
pub const MIN_INPUTS: u64 = 3;

/// What happens to a submitted input.
#[derive(PartialEq, Eq, Structural, Debug, Clone, Copy)]
pub enum InputVerdict {
    /// Stored as a new input for the day.
    Accepted,
    /// The day already has its minimum number of inputs.
    AlreadyEnough,
    /// A byte-identical input exists for the day.
    Duplicate,
    /// The day lies after today.
    Future,
}

/// The verdict on submitting `input` for `day` when `stored` holds the day's
/// accepted inputs, `count` of them in all.
pub open spec fn input_verdict(
    today: u8,
    day: u8,
    count: nat,
    min_inputs: nat,
    stored: Seq<Seq<u8>>,
    input: Seq<u8>,
) -> InputVerdict {
    if day > today {
        InputVerdict::Future
    } else if count >= min_inputs {
        InputVerdict::AlreadyEnough
    } else if stored.contains(input) {
        InputVerdict::Duplicate
    } else {
        InputVerdict::Accepted
    }
}

/// The contents of each blob of `v`.
pub open spec fn blobs(v: Seq<Vec<u8>>) -> Seq<Seq<u8>> {
    v.map_values(|b: Vec<u8>| b@)
}

/// The part of the verdict that needs no byte of the input: a day in the
/// future, or a day that already has its minimum number of inputs.
pub open spec fn quota_verdict_of(today: u8, day: u8, count: nat, min_inputs: nat) -> Option<
    InputVerdict,
> {
    if day > today {
        Some(InputVerdict::Future)
    } else if count >= min_inputs {
        Some(InputVerdict::AlreadyEnough)
    } else {
        None
    }
}

/// Decides what it can before the input's bytes are at hand: whatever the
/// bytes and the stored inputs, a verdict given here is the final one.
pub fn quota_verdict(today: u8, day: u8, count: u64, min_inputs: u64) -> (r: Option<InputVerdict>)
    ensures
        r == quota_verdict_of(today, day, count as nat, min_inputs as nat),
        forall|stored: Seq<Seq<u8>>, input: Seq<u8>|
            r is Some ==> #[trigger] input_verdict(
                today,
                day,
                count as nat,
                min_inputs as nat,
                stored,
                input,
            ) == r->Some_0,
{
    if day > today {
        Some(InputVerdict::Future)
    } else if count >= min_inputs {
        Some(InputVerdict::AlreadyEnough)
    } else {
        None
    }
}

/// Byte-wise equality of two blobs.
pub fn same_bytes(a: &Vec<u8>, b: &Vec<u8>) -> (r: bool)
    ensures
        r == (a@ == b@),
{
    if a.len() != b.len() {
        return false;
    }
    let mut i: usize = 0;
    while i < a.len()
        invariant
            a.len() == b.len(),
            i <= a.len(),
            forall|k: int| 0 <= k < i ==> a@[k] == b@[k],
        decreases a.len() - i,
    {
        if a[i] != b[i] {
            return false;
        }
        i = i + 1;
    }
    assert(a@ =~= b@);
    true
}

/// Decides whether `input` is taken as a new input for `day`. `count` is the
/// number of inputs already stored for the day and `stored` those of them that
/// were fetched (all of them while `count` is below `min_inputs`).
pub fn judge_input(
    today: u8,
    day: u8,
    count: u64,
    min_inputs: u64,
    stored: &Vec<Vec<u8>>,
    input: &Vec<u8>,
) -> (r: InputVerdict)
    ensures
        r == input_verdict(today, day, count as nat, min_inputs as nat, blobs(stored@), input@),
{
    let ghost seen = blobs(stored@);
    match quota_verdict(today, day, count, min_inputs) {
        Some(v) => {
            return v;
        },
        None => {},
    }
    let mut i: usize = 0;
    while i < stored.len()
        invariant
            i <= stored.len(),
            day <= today,
            count < min_inputs,
            seen == blobs(stored@),
            seen.len() == stored.len(),
            forall|k: int| 0 <= k < stored.len() ==> seen[k] == stored@[k]@,
            forall|k: int| 0 <= k < i ==> seen[k] != input@,
        decreases stored.len() - i,
    {
        if same_bytes(&stored[i], input) {
            assert(seen[i as int] == input@);
            assert(seen.contains(input@));
            return InputVerdict::Duplicate;
        }
        i = i + 1;
    }
    assert(!seen.contains(input@));
    InputVerdict::Accepted
}

/// Once an input is accepted and stored, submitting the same bytes for the
/// same day again is never accepted: it is a duplicate while the day is still
/// short of its minimum, and otherwise the day already has enough inputs.
pub proof fn lemma_resubmission_rejected(
    today: u8,
    day: u8,
    min_inputs: nat,
    stored: Seq<Seq<u8>>,
    input: Seq<u8>,
)
    requires
        input_verdict(today, day, stored.len(), min_inputs, stored, input) == InputVerdict::Accepted,
    ensures
        input_verdict(today, day, stored.len() + 1, min_inputs, stored.push(input), input)
            != InputVerdict::Accepted,
        stored.len() + 1 < min_inputs ==> input_verdict(
            today,
            day,
            stored.len() + 1,
            min_inputs,
            stored.push(input),
            input,
        ) == InputVerdict::Duplicate,
{
    assert(stored.push(input)[stored.len() as int] == input);
}

/// Once a day holds its minimum number of inputs, every further input for it
/// is turned away as not needed.
pub proof fn lemma_quota_closes_day(
    today: u8,
    day: u8,
    min_inputs: nat,
    stored: Seq<Seq<u8>>,
    input: Seq<u8>,
)
    requires
        day <= today,
        stored.len() >= min_inputs,
    ensures
        input_verdict(today, day, stored.len(), min_inputs, stored, input) == InputVerdict::AlreadyEnough,
{
}

} // verus!
