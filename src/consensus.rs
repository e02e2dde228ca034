//! The quorum rule: the answer that a strict majority of the recorded
//! solutions for one input agree on, once enough solutions exist.
use vstd::prelude::*;

verus! {

/// Solutions needed for an input before a consensus may be reported.
pub const DEFAULT_MIN_SOLUTIONS: usize = 3;

/// Number of entries of `s` equal to `a`.
pub open spec fn votes(s: Seq<i64>, a: i64) -> nat
    decreases s.len(),
{
    if s.len() == 0 {
        0
    } else {
        votes(s.drop_last(), a) + if s.last() == a { 1nat } else { 0nat }
    }
}

/// `a` is held by strictly more than half (rounded down) of `s`.
pub open spec fn is_majority(s: Seq<i64>, a: i64) -> bool {
    votes(s, a) > s.len() / 2
}

/// The consensus over the answers `s` with at least `min` of them required.
pub open spec fn consensus_of(s: Seq<i64>, min: nat) -> Option<i64> {
    if s.len() < min {
        None
    } else if exists|a: i64| is_majority(s, a) {
        Some(choose|a: i64| is_majority(s, a))
    } else {
        None
    }
}

proof fn lemma_votes_bound(s: Seq<i64>, a: i64)
    ensures
        votes(s, a) <= s.len(),
    decreases s.len(),
{
    if s.len() > 0 {
        lemma_votes_bound(s.drop_last(), a);
    }
}

proof fn lemma_votes_disjoint(s: Seq<i64>, a: i64, b: i64)
    requires
        a != b,
    ensures
        votes(s, a) + votes(s, b) <= s.len(),
    decreases s.len(),
{
    if s.len() > 0 {
        lemma_votes_disjoint(s.drop_last(), a, b);
    }
}

proof fn lemma_votes_witness(s: Seq<i64>, a: i64)
    requires
        votes(s, a) > 0,
    ensures
        exists|k: int| 0 <= k < s.len() && s[k] == a,
    decreases s.len(),
{
    if s.last() != a {
        lemma_votes_witness(s.drop_last(), a);
        let k = choose|k: int| 0 <= k < s.drop_last().len() && s.drop_last()[k] == a;
        assert(s[k] == a);
    }
}

proof fn lemma_votes_push(s: Seq<i64>, x: i64, a: i64)
    ensures
        votes(s.push(x), a) == votes(s, a) + if x == a { 1nat } else { 0nat },
{
    assert(s.push(x).drop_last() =~= s);
}

/// At most one answer holds a strict majority.
proof fn lemma_majority_unique(s: Seq<i64>, a: i64, b: i64)
    requires
        is_majority(s, a),
        is_majority(s, b),
    ensures
        a == b,
{
    if a != b {
        lemma_votes_disjoint(s, a, b);
    }
}

/// A strict majority answer is the consensus once `min` answers exist.
pub proof fn lemma_majority_is_consensus(s: Seq<i64>, min: nat, a: i64)
    requires
        s.len() >= min,
        is_majority(s, a),
    ensures
        consensus_of(s, min) == Some(a),
{
    let c = choose|c: i64| is_majority(s, c);
    lemma_majority_unique(s, a, c);
}

/// Adding solutions that agree with a reached consensus keeps that consensus.
pub proof fn lemma_consensus_stable(s: Seq<i64>, min: nat, extra: Seq<i64>, a: i64)
    requires
        consensus_of(s, min) == Some(a),
        forall|i: int| 0 <= i < extra.len() ==> extra[i] == a,
    ensures
        consensus_of(s + extra, min) == Some(a),
    decreases extra.len(),
{
    if extra.len() == 0 {
        assert(s + extra =~= s);
    } else {
        let init = extra.drop_last();
        lemma_consensus_stable(s, min, init, a);
        let t = s + init;
        assert(s + extra =~= t.push(a));
        lemma_votes_push(t, a, a);
        let c = choose|c: i64| is_majority(t, c);
        lemma_majority_unique(t, a, c);
        lemma_majority_is_consensus(t.push(a), min, a);
    }
}

/// Fewer than `min` solutions never give a consensus, whatever they hold.
pub proof fn lemma_undecided_below_minimum(s: Seq<i64>, min: nat)
    requires
        s.len() < min,
    ensures
        consensus_of(s, min) is None,
{
}

/// Counts the entries of `answers` equal to `a`.
pub fn count_votes(answers: &Vec<i64>, a: i64) -> (r: usize)
    ensures
        r == votes(answers@, a),
{
    let mut c: usize = 0;
    let mut j: usize = 0;
    while j < answers.len()
        invariant
            j <= answers.len(),
            c == votes(answers@.take(j as int), a),
        decreases answers.len() - j,
    {
        proof {
            assert(answers@.take(j + 1).drop_last() =~= answers@.take(j as int));
            lemma_votes_bound(answers@.take(j as int), a);
        }
        if answers[j] == a {
            c = c + 1;
        }
        j = j + 1;
    }
    assert(answers@.take(j as int) =~= answers@);
    c
}

/// The consensus among the recorded answers for one input: undecided below
/// `min_solutions` answers, otherwise the answer held by strictly more than
/// half of them, if any.
pub fn consensus(answers: &Vec<i64>, min_solutions: usize) -> (r: Option<i64>)
    ensures
        r == consensus_of(answers@, min_solutions as nat),
{
    let n = answers.len();
    if n < min_solutions {
        return None;
    }
    let majority = n / 2;
    let mut i: usize = 0;
    while i < n
        invariant
            n == answers.len(),
            majority == n / 2,
            n >= min_solutions,
            i <= n,
            forall|k: int| 0 <= k < i ==> !is_majority(answers@, #[trigger] answers@[k]),
        decreases n - i,
    {
        let c = count_votes(answers, answers[i]);
        if c > majority {
            proof {
                lemma_majority_is_consensus(answers@, min_solutions as nat, answers@[i as int]);
            }
            return Some(answers[i]);
        }
        i = i + 1;
    }
    proof {
        assert forall|a: i64| !is_majority(answers@, a) by {
            if is_majority(answers@, a) {
                lemma_votes_witness(answers@, a);
                let k = choose|k: int| 0 <= k < answers@.len() && answers@[k] == a;
                assert(!is_majority(answers@, answers@[k]));
            }
        }
    }
    None
}

} // verus!
