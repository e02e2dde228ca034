//! The workflow of one code submission, as a machine that is told what
//! happened and answers with what to do next. The caller performs each
//! action (counting inputs, waiting for a signal, running the sandbox,
//! writing to the store) and reports its outcome back as the next event.
use vstd::prelude::*;

use crate::protocol::{outcomes, Response};

verus! {

/// Why a submission was turned down.
#[derive(PartialEq, Eq, Structural, Debug, Clone, Copy)]
pub enum Rejection {
    /// The benchmarked code failed on some input.
    Execution,
    /// An answer disagreed with the consensus for its input.
    Mismatch,
    /// The sandbox answered with something other than one outcome and one
    /// timing per input for this run.
    Protocol,
}

/// Where a submission stands.
#[derive(PartialEq, Eq, Structural, Debug, Clone, Copy)]
pub enum Phase {
    /// Waiting until the day has enough inputs.
    AwaitingInputs,
    /// Waiting for the day's inputs to be fetched.
    FetchingInputs,
    /// Waiting for the sandbox's response.
    Benchmarking,
    /// Waiting for the computed answers to be stored as solutions.
    Recording,
    /// Waiting for a consensus on the input at this position.
    AwaitingConsensus(usize),
    /// Every answer agreed with its consensus; the run's score.
    Accepted(u64),
    /// Turned down; nothing more happens.
    Rejected(Rejection),
}

/// What the caller is to do next.
#[derive(PartialEq, Eq, Debug)]
pub enum Action {
    /// Count the inputs stored for the day.
    CountInputs,
    /// Wait for the next input-arrived signal.
    WaitForInput,
    /// Fetch up to this many of the day's inputs.
    FetchInputs(u64),
    /// Run the code in the sandbox on the fetched inputs.
    RunBenchmark,
    /// Store each (input id, answer) pair as a solution.
    RecordSolutions(Vec<(i64, i64)>),
    /// Compute the consensus for this input id.
    QueryConsensus(i64),
    /// Wait for the next consensus-formed signal.
    WaitForConsensus(i64),
    /// Store this score for the run.
    RecordScore(u64),
    /// Tell the submitter that the code failed, with this text.
    ReportFailure(String),
    /// Tell the submitter that the answer for this input id was wrong.
    ReportMismatch(i64),
    /// Tell the submitter that the sandbox misbehaved.
    ReportProtocolError,
    /// Nothing: the event does not concern this submission now.
    Nothing,
}

/// Sum of the samples of `s`.
pub open spec fn total_of(s: Seq<u64>) -> nat
    decreases s.len(),
{
    if s.len() == 0 {
        0
    } else {
        total_of(s.drop_last()) + s.last() as nat
    }
}

/// Mean of the samples of `s`, rounded down.
pub open spec fn mean_of(s: Seq<u64>) -> nat {
    total_of(s) / s.len()
}

/// The text of the first failed outcome of `o`, if any.
pub open spec fn first_failure(o: Seq<Result<i64, Seq<char>>>) -> Option<Seq<char>>
    decreases o.len(),
{
    if o.len() == 0 {
        None
    } else if o[0] is Err {
        Some(o[0]->Err_0)
    } else {
        first_failure(o.drop_first())
    }
}

/// The answers of outcomes that all succeeded.
pub open spec fn answers_of(o: Seq<Result<i64, Seq<char>>>) -> Seq<i64> {
    o.map_values(|x: Result<i64, Seq<char>>| x->Ok_0)
}

proof fn lemma_total_bound(s: Seq<u64>)
    ensures
        total_of(s) <= s.len() * 0xffff_ffff_ffff_ffffnat,
    decreases s.len(),
{
    if s.len() > 0 {
        lemma_total_bound(s.drop_last());
        assert(total_of(s) <= (s.len() - 1) * 0xffff_ffff_ffff_ffffnat + 0xffff_ffff_ffff_ffffnat);
        assert((s.len() - 1) * 0xffff_ffff_ffff_ffffnat + 0xffff_ffff_ffff_ffffnat == s.len()
            * 0xffff_ffff_ffff_ffffnat) by (nonlinear_arith);
    }
}

proof fn lemma_first_failure_none(o: Seq<Result<i64, Seq<char>>>)
    requires
        first_failure(o) is None,
    ensures
        forall|k: int| 0 <= k < o.len() ==> o[k] is Ok,
    decreases o.len(),
{
    if o.len() > 0 {
        lemma_first_failure_none(o.drop_first());
        assert forall|k: int| 0 <= k < o.len() implies o[k] is Ok by {
            if k > 0 {
                assert(o[k] == o.drop_first()[k - 1]);
            }
        }
    }
}

/// One code submission for a day and part, from the moment it is stored.
pub struct Submission {
    /// The run this submission was stored as.
    pub run: i64,
    /// The day the code is for.
    pub day: u8,
    /// Inputs the day needs before benchmarking.
    pub min_inputs: u64,
    /// Where the submission stands.
    pub phase: Phase,
    /// Ids of the inputs benchmarked, in order.
    pub input_ids: Vec<i64>,
    /// The code's answer for each benchmarked input.
    pub answers: Vec<i64>,
    /// The instruction count for each benchmarked input.
    pub times: Vec<u64>,
    /// Sum of the counts of the inputs whose answer has been confirmed.
    pub confirmed_total: u128,
    /// The consensus values seen, one per input checked so far.
    pub seen: Ghost<Seq<i64>>,
}

impl Submission {
    /// The invariant of each phase.
    pub open spec fn wf(&self) -> bool {
        let n = self.input_ids@.len();
        match self.phase {
            Phase::AwaitingInputs | Phase::FetchingInputs => {
                &&& n == 0
                &&& self.answers@.len() == 0
                &&& self.times@.len() == 0
                &&& self.seen@.len() == 0
            },
            Phase::Benchmarking => {
                &&& n > 0
                &&& self.answers@.len() == 0
                &&& self.times@.len() == 0
                &&& self.seen@.len() == 0
            },
            Phase::Recording => {
                &&& n > 0
                &&& self.answers@.len() == n
                &&& self.times@.len() == n
                &&& self.seen@.len() == 0
            },
            Phase::AwaitingConsensus(i) => {
                &&& n > 0
                &&& self.answers@.len() == n
                &&& self.times@.len() == n
                &&& i < n
                &&& self.seen@ == self.answers@.take(i as int)
                &&& self.confirmed_total == total_of(self.times@.take(i as int))
            },
            Phase::Accepted(score) => {
                &&& n > 0
                &&& self.answers@.len() == n
                &&& self.times@.len() == n
                &&& self.seen@ == self.answers@
                &&& self.confirmed_total == total_of(self.times@)
                &&& score == mean_of(self.times@)
            },
            Phase::Rejected(_) => true,
        }
    }

    /// A submission of run `run` for `day`, waiting for the day's inputs.
    /// The caller starts by counting them.
    pub fn new(run: i64, day: u8, min_inputs: u64) -> (r: Submission)
        ensures
            r.wf(),
            r.run == run,
            r.day == day,
            r.min_inputs == min_inputs,
            r.phase == Phase::AwaitingInputs,
    {
        Submission {
            run,
            day,
            min_inputs,
            phase: Phase::AwaitingInputs,
            input_ids: Vec::new(),
            answers: Vec::new(),
            times: Vec::new(),
            confirmed_total: 0,
            seen: Ghost(Seq::empty()),
        }
    }

    /// The day holds `count` inputs: fetch them once there are enough,
    /// otherwise wait for another to arrive.
    pub fn on_input_count(&mut self, count: u64) -> (r: Action)
        requires
            old(self).wf(),
        ensures
            final(self).wf(),
            final(self).run == old(self).run,
            final(self).day == old(self).day,
            final(self).min_inputs == old(self).min_inputs,
            old(self).phase == Phase::AwaitingInputs && count >= old(self).min_inputs ==> {
                &&& r == Action::FetchInputs(old(self).min_inputs)
                &&& final(self).phase == Phase::FetchingInputs
            },
            old(self).phase == Phase::AwaitingInputs && count < old(self).min_inputs ==> {
                &&& r == Action::WaitForInput
                &&& *final(self) == *old(self)
            },
            old(self).phase != Phase::AwaitingInputs ==> r == Action::Nothing && *final(self)
                == *old(self),
    {
        if self.phase != Phase::AwaitingInputs {
            return Action::Nothing;
        }
        if count >= self.min_inputs {
            self.phase = Phase::FetchingInputs;
            Action::FetchInputs(self.min_inputs)
        } else {
            Action::WaitForInput
        }
    }

    /// An input arrived for `day`: count again if it is this submission's day.
    pub fn on_input_arrived(&mut self, day: u8) -> (r: Action)
        requires
            old(self).wf(),
        ensures
            *final(self) == *old(self),
            r == if old(self).phase == Phase::AwaitingInputs && day == old(self).day {
                Action::CountInputs
            } else {
                Action::Nothing
            },
    {
        if self.phase == Phase::AwaitingInputs && day == self.day {
            Action::CountInputs
        } else {
            Action::Nothing
        }
    }

    /// The day's inputs were fetched, with these ids in order: run the code
    /// on them, unless there are none.
    pub fn on_inputs_fetched(&mut self, ids: Vec<i64>) -> (r: Action)
        requires
            old(self).wf(),
        ensures
            final(self).wf(),
            final(self).run == old(self).run,
            final(self).day == old(self).day,
            final(self).min_inputs == old(self).min_inputs,
            old(self).phase == Phase::FetchingInputs && ids@.len() > 0 ==> {
                &&& r == Action::RunBenchmark
                &&& final(self).phase == Phase::Benchmarking
                &&& final(self).input_ids@ == ids@
            },
            old(self).phase == Phase::FetchingInputs && ids@.len() == 0 ==> {
                &&& r == Action::ReportProtocolError
                &&& final(self).phase == Phase::Rejected(Rejection::Protocol)
            },
            old(self).phase != Phase::FetchingInputs ==> r == Action::Nothing && *final(self)
                == *old(self),
    {
        if self.phase != Phase::FetchingInputs {
            return Action::Nothing;
        }
        if ids.len() == 0 {
            self.phase = Phase::Rejected(Rejection::Protocol);
            return Action::ReportProtocolError;
        }
        self.input_ids = ids;
        self.phase = Phase::Benchmarking;
        Action::RunBenchmark
    }

    /// The sandbox answered. A failure on any input rejects the run with the
    /// first failure's text and stores nothing; a response that is not for
    /// this run or lacks an outcome or timing per input is a protocol error;
    /// otherwise the answers are to be stored as solutions.
    pub fn on_response(&mut self, res: Response) -> (r: Action)
        requires
            old(self).wf(),
        ensures
            final(self).wf(),
            final(self).run == old(self).run,
            final(self).day == old(self).day,
            final(self).min_inputs == old(self).min_inputs,
            ({
                let o = outcomes(res.outputs@);
                let n = old(self).input_ids@.len();
                old(self).phase == Phase::Benchmarking ==> {
                    &&& first_failure(o) is Some ==> {
                        &&& r is ReportFailure
                        &&& r->ReportFailure_0@ == first_failure(o)->Some_0
                        &&& final(self).phase == Phase::Rejected(Rejection::Execution)
                    }
                    &&& first_failure(o) is None && (res.id != old(self).run || o.len() != n
                        || res.times@.len() != n) ==> {
                        &&& r == Action::ReportProtocolError
                        &&& final(self).phase == Phase::Rejected(Rejection::Protocol)
                    }
                    &&& first_failure(o) is None && res.id == old(self).run && o.len() == n
                        && res.times@.len() == n ==> {
                        &&& r is RecordSolutions
                        &&& r->RecordSolutions_0@.len() == n
                        &&& forall|k: int|
                            0 <= k < n ==> #[trigger] r->RecordSolutions_0@[k] == (
                                old(self).input_ids@[k],
                                answers_of(o)[k],
                            )
                        &&& final(self).phase == Phase::Recording
                        &&& final(self).input_ids == old(self).input_ids
                        &&& final(self).answers@ == answers_of(o)
                        &&& final(self).times@ == res.times@
                    }
                }
            }),
            old(self).phase != Phase::Benchmarking ==> r == Action::Nothing && *final(self)
                == *old(self),
    {
        if self.phase != Phase::Benchmarking {
            return Action::Nothing;
        }
        let ghost o = outcomes(res.outputs@);
        assert(o.subrange(0, o.len() as int) =~= o);
        let mut i: usize = 0;
        while i < res.outputs.len()
            invariant
                *self == *old(self),
                self.phase == Phase::Benchmarking,
                o == outcomes(res.outputs@),
                i <= res.outputs.len(),
                first_failure(o) == first_failure(o.subrange(i as int, o.len() as int)),
            decreases res.outputs.len() - i,
        {
            proof {
                assert(o.subrange(i as int, o.len() as int).drop_first() =~= o.subrange(
                    i + 1,
                    o.len() as int,
                ));
            }
            match &res.outputs[i] {
                Ok(_) => {},
                Err(text) => {
                    self.phase = Phase::Rejected(Rejection::Execution);
                    return Action::ReportFailure(text.clone());
                },
            }
            i = i + 1;
        }
        proof {
            assert(o.subrange(i as int, o.len() as int).len() == 0);
            lemma_first_failure_none(o);
        }
        let n = self.input_ids.len();
        if res.id != self.run || res.outputs.len() != n || res.times.len() != n {
            self.phase = Phase::Rejected(Rejection::Protocol);
            return Action::ReportProtocolError;
        }
        let mut answers: Vec<i64> = Vec::new();
        let mut pairs: Vec<(i64, i64)> = Vec::new();
        let mut k: usize = 0;
        while k < n
            invariant
                o == outcomes(res.outputs@),
                n == res.outputs@.len(),
                n == self.input_ids@.len(),
                forall|j: int| 0 <= j < n ==> o[j] is Ok,
                k <= n,
                answers@ == answers_of(o).take(k as int),
                pairs@.len() == k,
                forall|j: int|
                    0 <= j < k ==> #[trigger] pairs@[j] == (self.input_ids@[j], answers_of(o)[j]),
            decreases n - k,
        {
            let a = match &res.outputs[k] {
                Ok(a) => *a,
                Err(_) => {
                    assert(o[k as int] is Err);
                    0
                },
            };
            proof {
                assert(answers_of(o).take(k + 1) =~= answers_of(o).take(k as int).push(a));
            }
            answers.push(a);
            pairs.push((self.input_ids[k], a));
            k = k + 1;
        }
        assert(answers_of(o).take(n as int) =~= answers_of(o));
        self.answers = answers;
        self.times = res.times;
        self.phase = Phase::Recording;
        Action::RecordSolutions(pairs)
    }

    /// The answers were stored: ask for the consensus on the first input.
    pub fn on_solutions_recorded(&mut self) -> (r: Action)
        requires
            old(self).wf(),
        ensures
            final(self).wf(),
            final(self).run == old(self).run,
            final(self).day == old(self).day,
            final(self).min_inputs == old(self).min_inputs,
            old(self).phase == Phase::Recording ==> {
                &&& r == Action::QueryConsensus(old(self).input_ids@[0])
                &&& final(self).phase == Phase::AwaitingConsensus(0)
                &&& final(self).answers == old(self).answers
                &&& final(self).times == old(self).times
                &&& final(self).input_ids == old(self).input_ids
            },
            old(self).phase != Phase::Recording ==> r == Action::Nothing && *final(self)
                == *old(self),
    {
        if self.phase != Phase::Recording {
            return Action::Nothing;
        }
        proof {
            assert(self.answers@.take(0) =~= Seq::<i64>::empty());
            assert(self.seen@ =~= Seq::<i64>::empty());
            assert(self.times@.take(0) =~= Seq::<u64>::empty());
            assert(total_of(Seq::<u64>::empty()) == 0);
        }
        self.phase = Phase::AwaitingConsensus(0);
        self.confirmed_total = 0;
        Action::QueryConsensus(self.input_ids[0])
    }

    /// A consensus-formed signal for input `id`: query again if it is the
    /// input being waited on.
    pub fn on_consensus_changed(&mut self, id: i64) -> (r: Action)
        requires
            old(self).wf(),
        ensures
            *final(self) == *old(self),
            r == match old(self).phase {
                Phase::AwaitingConsensus(i) => if id == old(self).input_ids@[i as int] {
                    Action::QueryConsensus(id)
                } else {
                    Action::Nothing
                },
                _ => Action::Nothing,
            },
    {
        match self.phase {
            Phase::AwaitingConsensus(i) => {
                if id == self.input_ids[i] {
                    Action::QueryConsensus(id)
                } else {
                    Action::Nothing
                }
            },
            _ => Action::Nothing,
        }
    }

    /// The consensus on the input being checked. Undecided: wait for a
    /// signal. Different from this run's answer: reject. Equal: go on to the
    /// next input, and after the last one the run is accepted with the mean
    /// of its instruction counts as its score.
    pub fn on_consensus(&mut self, consensus: Option<i64>) -> (r: Action)
        requires
            old(self).wf(),
        ensures
            final(self).wf(),
            final(self).run == old(self).run,
            final(self).day == old(self).day,
            final(self).min_inputs == old(self).min_inputs,
            ({
                let n = old(self).input_ids@.len();
                match old(self).phase {
                    Phase::AwaitingConsensus(i) => {
                        let id = old(self).input_ids@[i as int];
                        let own = old(self).answers@[i as int];
                        &&& consensus is None ==> r == Action::WaitForConsensus(id) && *final(self)
                            == *old(self)
                        &&& consensus is Some && consensus->Some_0 != own ==> {
                            &&& r == Action::ReportMismatch(id)
                            &&& final(self).phase == Phase::Rejected(Rejection::Mismatch)
                        }
                        &&& consensus == Some(own) && i + 1 < n ==> {
                            &&& r == Action::QueryConsensus(old(self).input_ids@[i + 1])
                            &&& final(self).phase == Phase::AwaitingConsensus((i + 1) as usize)
                        }
                        &&& consensus == Some(own) && i + 1 == n ==> {
                            &&& r == Action::RecordScore(mean_of(old(self).times@) as u64)
                            &&& final(self).phase == Phase::Accepted(
                                mean_of(old(self).times@) as u64,
                            )
                        }
                    },
                    _ => r == Action::Nothing && *final(self) == *old(self),
                }
            }),
            final(self).input_ids == old(self).input_ids,
            final(self).answers == old(self).answers,
            final(self).times == old(self).times,
    {
        let i = match self.phase {
            Phase::AwaitingConsensus(i) => i,
            _ => {
                return Action::Nothing;
            },
        };
        let id = self.input_ids[i];
        let c = match consensus {
            None => {
                return Action::WaitForConsensus(id);
            },
            Some(c) => c,
        };
        if c != self.answers[i] {
            self.phase = Phase::Rejected(Rejection::Mismatch);
            return Action::ReportMismatch(id);
        }
        let n = self.input_ids.len();
        proof {
            assert(self.times@.take(i + 1).drop_last() =~= self.times@.take(i as int));
            assert(self.answers@.take(i + 1) =~= self.answers@.take(i as int).push(c));
            lemma_total_bound(self.times@.take(i + 1));
            assert((i + 1) * 0xffff_ffff_ffff_ffffnat <= 0xffff_ffff_ffff_ffffnat
                * 0xffff_ffff_ffff_ffffnat) by (nonlinear_arith)
                requires
                    i + 1 <= 0xffff_ffff_ffff_ffffnat,
            ;
        }
        self.confirmed_total = self.confirmed_total + self.times[i] as u128;
        self.seen = Ghost(self.seen@.push(c));
        if i + 1 < n {
            self.phase = Phase::AwaitingConsensus(i + 1);
            return Action::QueryConsensus(self.input_ids[i + 1]);
        }
        proof {
            assert(self.times@.take(n as int) =~= self.times@);
            assert(self.answers@.take(n as int) =~= self.answers@);
            lemma_total_bound(self.times@);
            assert(total_of(self.times@) / (n as nat) <= 0xffff_ffff_ffff_ffffnat) by (
            nonlinear_arith)
                requires
                    total_of(self.times@) <= n * 0xffff_ffff_ffff_ffffnat,
                    n > 0,
            ;
        }
        let score = (self.confirmed_total / (n as u128)) as u64;
        self.phase = Phase::Accepted(score);
        Action::RecordScore(score)
    }
}

/// An accepted run agreed with the consensus on every benchmarked input, and
/// its score is the mean of its own instruction counts, rounded down.
pub proof fn lemma_accepted_score_is_mean(s: Submission)
    requires
        s.wf(),
        s.phase is Accepted,
    ensures
        s.seen@ == s.answers@,
        s.answers@.len() == s.input_ids@.len(),
        s.phase->Accepted_0 == total_of(s.times@) / s.times@.len(),
{
}

} // verus!
