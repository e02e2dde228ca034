//! Judging code submitted for a daily puzzle by how fast it runs, on inputs
//! that the community supplies, without trusting any single submitter.
//!
//! - [`intake`]: whether a submitted input is stored for its day.
//! - [`protocol`]: the request and response exchanged with the sandbox, and
//!   their binary framing.
//! - [`worker`]: inside the sandbox, reading the benchmarking tool's report.
//! - [`consensus`]: the majority rule that settles the answer for an input.
//! - [`coordinator`]: the workflow of one code submission, from waiting for
//!   inputs to recording its score.
use vstd::prelude::*;

pub mod consensus;
pub mod coordinator;
pub mod intake;
pub mod protocol;
pub mod worker;

verus! {

} // verus!
