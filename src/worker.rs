//! Inside the sandbox: reading the benchmarking tool's report and turning it
//! into the response for a request.
use vstd::prelude::*;

use crate::protocol::{outcomes, Response};

verus! {

/// One line of the tool's report, classified.
#[derive(PartialEq, Eq, Structural, Debug, Clone, Copy)]
pub enum ReportLine {
    /// `Solution: <integer>`
    Answer(i64),
    /// `Instructions: <count>|<anything>`
    Sample(u64),
    /// A line of neither kind.
    Other,
    /// A line of one of the two kinds whose number cannot be read.
    Malformed,
}

/// ASCII whitespace.
pub open spec fn is_space(c: u8) -> bool {
    c == 32 || (9 <= c && c <= 13)
}

/// `s` without its leading whitespace.
pub open spec fn trim_start(s: Seq<u8>) -> Seq<u8>
    decreases s.len(),
{
    if s.len() > 0 && is_space(s[0]) {
        trim_start(s.drop_first())
    } else {
        s
    }
}

/// `s` without its trailing whitespace.
pub open spec fn trim_end(s: Seq<u8>) -> Seq<u8>
    decreases s.len(),
{
    if s.len() > 0 && is_space(s.last()) {
        trim_end(s.drop_last())
    } else {
        s
    }
}

/// Position of the first `c` in `s`, if any.
pub open spec fn find(s: Seq<u8>, c: u8) -> Option<int>
    decreases s.len(),
{
    if s.len() == 0 {
        None
    } else if s[0] == c {
        Some(0)
    } else {
        match find(s.drop_first(), c) {
            Some(k) => Some(k + 1),
            None => None,
        }
    }
}

/// An ASCII decimal digit.
pub open spec fn is_digit(c: u8) -> bool {
    48 <= c && c <= 57
}

/// The value of a string of decimal digits.
pub open spec fn digits_value(s: Seq<u8>) -> nat
    decreases s.len(),
{
    if s.len() == 0 {
        0
    } else {
        digits_value(s.drop_last()) * 10 + (s.last() - 48) as nat
    }
}

/// A nonempty string of decimal digits.
pub open spec fn is_numeral(s: Seq<u8>) -> bool {
    s.len() > 0 && forall|i: int| 0 <= i < s.len() ==> is_digit(#[trigger] s[i])
}

/// `s` read as an unsigned 64-bit integer: digits after an optional `+`.
pub open spec fn parse_u64(s: Seq<u8>) -> Option<u64> {
    let d = if s.len() > 0 && s[0] == 43 { s.drop_first() } else { s };
    if is_numeral(d) && digits_value(d) <= u64::MAX {
        Some(digits_value(d) as u64)
    } else {
        None
    }
}

/// `s` read as a signed 64-bit integer: digits after an optional `+` or `-`.
pub open spec fn parse_i64(s: Seq<u8>) -> Option<i64> {
    if s.len() > 0 && s[0] == 45 {
        let d = s.drop_first();
        if is_numeral(d) && digits_value(d) <= 0x8000_0000_0000_0000 {
            Some((0 - digits_value(d)) as i64)
        } else {
            None
        }
    } else {
        let d = if s.len() > 0 && s[0] == 43 { s.drop_first() } else { s };
        if is_numeral(d) && digits_value(d) <= i64::MAX {
            Some(digits_value(d) as i64)
        } else {
            None
        }
    }
}

/// The bytes of `Solution`.
pub open spec fn answer_key() -> Seq<u8> {
    seq![83u8, 111, 108, 117, 116, 105, 111, 110]
}

/// The bytes of `Instructions`.
pub open spec fn sample_key() -> Seq<u8> {
    seq![73u8, 110, 115, 116, 114, 117, 99, 116, 105, 111, 110, 115]
}

/// What one line of the report says. Leading whitespace is skipped; the key
/// runs up to the first `:`, and the value after it is trimmed. A timing is
/// the part of the value before its first `|`.
pub open spec fn line_kind(l: Seq<u8>) -> ReportLine {
    let t = trim_start(l);
    match find(t, 58) {
        None => ReportLine::Other,
        Some(k) => {
            let key = t.take(k);
            let value = trim_end(trim_start(t.skip(k + 1)));
            if key == answer_key() {
                match parse_i64(value) {
                    Some(a) => ReportLine::Answer(a),
                    None => ReportLine::Malformed,
                }
            } else if key == sample_key() {
                match find(value, 124) {
                    None => ReportLine::Malformed,
                    Some(j) => match parse_u64(value.take(j)) {
                        Some(v) => ReportLine::Sample(v),
                        None => ReportLine::Malformed,
                    },
                }
            } else {
                ReportLine::Other
            }
        },
    }
}

/// The lines of `b`, split at each newline; a final newline ends the last
/// line and opens none.
pub open spec fn lines_of(b: Seq<u8>) -> Seq<Seq<u8>>
    decreases b.len(),
{
    if b.len() == 0 {
        Seq::empty()
    } else {
        match find(b, 10) {
            None => seq![b],
            Some(k) => {
                if 0 <= k < b.len() {
                    seq![b.take(k)] + lines_of(b.skip(k + 1))
                } else {
                    seq![b]
                }
            },
        }
    }
}

/// The answers and timings that `lines` report, in order; none when a line
/// is malformed.
pub open spec fn report_of(lines: Seq<Seq<u8>>) -> Option<(Seq<i64>, Seq<u64>)>
    decreases lines.len(),
{
    if lines.len() == 0 {
        Some((Seq::empty(), Seq::empty()))
    } else {
        match report_of(lines.drop_first()) {
            None => None,
            Some((a, t)) => match line_kind(lines[0]) {
                ReportLine::Answer(x) => Some((seq![x] + a, t)),
                ReportLine::Sample(x) => Some((a, seq![x] + t)),
                ReportLine::Other => Some((a, t)),
                ReportLine::Malformed => None,
            },
        }
    }
}

/// What the report in `b` says.
pub open spec fn parse_report_spec(b: Seq<u8>) -> Option<(Seq<i64>, Seq<u64>)> {
    report_of(lines_of(b))
}

/// Prefixes `a` and `t` to the report `r`.
pub open spec fn glue(a: Seq<i64>, t: Seq<u64>, r: Option<(Seq<i64>, Seq<u64>)>) -> Option<
    (Seq<i64>, Seq<u64>),
> {
    match r {
        None => None,
        Some((x, y)) => Some((a + x, t + y)),
    }
}

proof fn lemma_find_bound(s: Seq<u8>, c: u8)
    ensures
        find(s, c) matches Some(k) ==> 0 <= k < s.len() && s[k] == c && forall|j: int|
            0 <= j < k ==> s[j] != c,
        find(s, c) is None ==> forall|j: int| 0 <= j < s.len() ==> s[j] != c,
    decreases s.len(),
{
    if s.len() > 0 {
        lemma_find_bound(s.drop_first(), c);
        assert forall|j: int| 1 <= j < s.len() implies s[j] == s.drop_first()[j - 1] by {}
    }
}

/// First position in `b[lo..hi]` holding `c`, counted from `lo`.
fn find_byte(b: &Vec<u8>, lo: usize, hi: usize, c: u8) -> (r: Option<usize>)
    requires
        lo <= hi <= b@.len(),
    ensures
        match r {
            Some(k) => find(b@.subrange(lo as int, hi as int), c) == Some(k as int),
            None => find(b@.subrange(lo as int, hi as int), c) is None,
        },
{
    let mut i: usize = lo;
    while i < hi
        invariant
            lo <= i <= hi <= b@.len(),
            forall|j: int| lo <= j < i ==> b@[j] != c,
        decreases hi - i,
    {
        if b[i] == c {
            proof {
                lemma_find_agrees(b@.subrange(lo as int, hi as int), c, (i - lo) as int);
            }
            return Some(i - lo);
        }
        i = i + 1;
    }
    proof {
        lemma_find_absent(b@.subrange(lo as int, hi as int), c);
    }
    None
}

proof fn lemma_find_agrees(s: Seq<u8>, c: u8, k: int)
    requires
        0 <= k < s.len(),
        s[k] == c,
        forall|j: int| 0 <= j < k ==> s[j] != c,
    ensures
        find(s, c) == Some(k),
    decreases s.len(),
{
    if k > 0 {
        let t = s.drop_first();
        assert forall|j: int| 0 <= j < k - 1 implies t[j] != c by {
            assert(t[j] == s[j + 1]);
        }
        lemma_find_agrees(t, c, k - 1);
    }
}

proof fn lemma_find_absent(s: Seq<u8>, c: u8)
    requires
        forall|j: int| 0 <= j < s.len() ==> s[j] != c,
    ensures
        find(s, c) is None,
    decreases s.len(),
{
    if s.len() > 0 {
        let t = s.drop_first();
        assert forall|j: int| 0 <= j < t.len() implies t[j] != c by {
            assert(t[j] == s[j + 1]);
        }
        lemma_find_absent(t, c);
    }
}

/// First position at or after `lo` that is not whitespace, up to `hi`.
fn skip_space(b: &Vec<u8>, lo: usize, hi: usize) -> (r: usize)
    requires
        lo <= hi <= b@.len(),
    ensures
        lo <= r <= hi,
        b@.subrange(r as int, hi as int) == trim_start(b@.subrange(lo as int, hi as int)),
{
    let mut i: usize = lo;
    while i < hi && (b[i] == 32 || (9 <= b[i] && b[i] <= 13))
        invariant
            lo <= i <= hi <= b@.len(),
            trim_start(b@.subrange(lo as int, hi as int)) == trim_start(
                b@.subrange(i as int, hi as int),
            ),
        decreases hi - i,
    {
        assert(b@.subrange(i as int, hi as int).drop_first() =~= b@.subrange(i + 1, hi as int));
        i = i + 1;
    }
    i
}

/// Last position, down to `lo`, after which `b[lo..hi]` holds only whitespace.
fn back_space(b: &Vec<u8>, lo: usize, hi: usize) -> (r: usize)
    requires
        lo <= hi <= b@.len(),
    ensures
        lo <= r <= hi,
        b@.subrange(lo as int, r as int) == trim_end(b@.subrange(lo as int, hi as int)),
{
    let mut i: usize = hi;
    while i > lo && (b[i - 1] == 32 || (9 <= b[i - 1] && b[i - 1] <= 13))
        invariant
            lo <= i <= hi <= b@.len(),
            trim_end(b@.subrange(lo as int, hi as int)) == trim_end(
                b@.subrange(lo as int, i as int),
            ),
        decreases i - lo,
    {
        assert(b@.subrange(lo as int, i as int).drop_last() =~= b@.subrange(lo as int, i - 1));
        i = i - 1;
    }
    i
}

/// The value of the digits `b[lo..hi]`, or none when it exceeds `limit`.
fn read_digits(b: &Vec<u8>, lo: usize, hi: usize, limit: u64) -> (r: Option<u64>)
    requires
        lo <= hi <= b@.len(),
        forall|i: int| lo <= i < hi ==> is_digit(#[trigger] b@[i]),
        limit >= 9,
    ensures
        match r {
            Some(v) => v == digits_value(b@.subrange(lo as int, hi as int)) && v <= limit,
            None => digits_value(b@.subrange(lo as int, hi as int)) > limit,
        },
{
    let mut v: u64 = 0;
    let mut i: usize = lo;
    while i < hi
        invariant
            lo <= i <= hi <= b@.len(),
            forall|k: int| lo <= k < hi ==> is_digit(#[trigger] b@[k]),
            v == digits_value(b@.subrange(lo as int, i as int)),
            v <= limit,
            limit >= 9,
        decreases hi - i,
    {
        let d = (b[i] - 48) as u64;
        assert(b@.subrange(lo as int, i + 1).drop_last() =~= b@.subrange(lo as int, i as int));
        if v > (limit - d) / 10 {
            proof {
                lemma_digits_grow(b@.subrange(lo as int, hi as int), (i + 1 - lo) as int);
                assert(b@.subrange(lo as int, hi as int).take((i + 1 - lo) as int) =~= b@.subrange(
                    lo as int,
                    i + 1,
                ));
                assert(v * 10 + d > limit) by (nonlinear_arith)
                    requires
                        v > (limit - d) / 10,
                        d <= 9,
                        limit >= 9,
                ;
            }
            return None;
        }
        proof {
            assert(v * 10 + d <= limit) by (nonlinear_arith)
                requires
                    v <= (limit - d) / 10,
                    d <= limit,
            ;
        }
        v = v * 10 + d;
        i = i + 1;
    }
    Some(v)
}

proof fn lemma_digits_grow(s: Seq<u8>, k: int)
    requires
        0 <= k <= s.len(),
        forall|i: int| 0 <= i < s.len() ==> is_digit(#[trigger] s[i]),
    ensures
        digits_value(s.take(k)) <= digits_value(s),
    decreases s.len() - k,
{
    if k < s.len() {
        lemma_digits_grow(s, k + 1);
        assert(s.take(k + 1).drop_last() =~= s.take(k));
    } else {
        assert(s.take(k) =~= s);
    }
}

/// Whether every byte of `b[lo..hi]` is a decimal digit.
fn all_digits(b: &Vec<u8>, lo: usize, hi: usize) -> (r: bool)
    requires
        lo <= hi <= b@.len(),
    ensures
        r == forall|i: int| lo <= i < hi ==> is_digit(#[trigger] b@[i]),
{
    let mut i: usize = lo;
    while i < hi
        invariant
            lo <= i <= hi <= b@.len(),
            forall|k: int| lo <= k < i ==> is_digit(#[trigger] b@[k]),
        decreases hi - i,
    {
        if !(48 <= b[i] && b[i] <= 57) {
            assert(!is_digit(b@[i as int]));
            return false;
        }
        i = i + 1;
    }
    true
}

proof fn lemma_numeral_range(b: Seq<u8>, lo: int, hi: int)
    requires
        0 <= lo <= hi <= b.len(),
    ensures
        is_numeral(b.subrange(lo, hi)) == (lo < hi && forall|i: int|
            lo <= i < hi ==> is_digit(#[trigger] b[i])),
{
    let s = b.subrange(lo, hi);
    if lo < hi && !is_numeral(s) {
        let i = choose|i: int| 0 <= i < s.len() && !is_digit(#[trigger] s[i]);
        assert(!is_digit(b[lo + i]));
    }
    if is_numeral(s) {
        assert forall|i: int| lo <= i < hi implies is_digit(#[trigger] b[i]) by {
            assert(s[i - lo] == b[i]);
        }
    }
}

/// `b[lo..hi]` read as an unsigned 64-bit integer.
fn read_u64(b: &Vec<u8>, lo: usize, hi: usize) -> (r: Option<u64>)
    requires
        lo <= hi <= b@.len(),
    ensures
        r == parse_u64(b@.subrange(lo as int, hi as int)),
{
    let ghost s = b@.subrange(lo as int, hi as int);
    let start = if lo < hi && b[lo] == 43 {
        assert(s.drop_first() =~= b@.subrange(lo + 1, hi as int));
        lo + 1
    } else {
        lo
    };
    proof {
        lemma_numeral_range(b@, start as int, hi as int);
    }
    if start == hi || !all_digits(b, start, hi) {
        return None;
    }
    read_digits(b, start, hi, u64::MAX)
}

/// `b[lo..hi]` read as a signed 64-bit integer.
fn read_i64(b: &Vec<u8>, lo: usize, hi: usize) -> (r: Option<i64>)
    requires
        lo <= hi <= b@.len(),
    ensures
        r == parse_i64(b@.subrange(lo as int, hi as int)),
{
    let ghost s = b@.subrange(lo as int, hi as int);
    if lo < hi && b[lo] == 45 {
        assert(s.drop_first() =~= b@.subrange(lo + 1, hi as int));
        proof {
            lemma_numeral_range(b@, lo + 1, hi as int);
        }
        if lo + 1 == hi || !all_digits(b, lo + 1, hi) {
            return None;
        }
        match read_digits(b, lo + 1, hi, 0x8000_0000_0000_0000) {
            None => None,
            Some(v) => {
                if v == 0x8000_0000_0000_0000 {
                    Some(i64::MIN)
                } else {
                    Some(-(v as i64))
                }
            },
        }
    } else {
        let start = if lo < hi && b[lo] == 43 {
            assert(s.drop_first() =~= b@.subrange(lo + 1, hi as int));
            lo + 1
        } else {
            lo
        };
        proof {
            lemma_numeral_range(b@, start as int, hi as int);
        }
        if start == hi || !all_digits(b, start, hi) {
            return None;
        }
        match read_digits(b, start, hi, 0x7fff_ffff_ffff_ffff) {
            None => None,
            Some(v) => Some(v as i64),
        }
    }
}

/// Whether `b[lo..hi]` holds exactly the bytes of `key`.
fn range_is(b: &Vec<u8>, lo: usize, hi: usize, key: &Vec<u8>) -> (r: bool)
    requires
        lo <= hi <= b@.len(),
    ensures
        r == (b@.subrange(lo as int, hi as int) == key@),
{
    if hi - lo != key.len() {
        return false;
    }
    let mut i: usize = 0;
    while i < key.len()
        invariant
            lo <= hi <= b@.len(),
            hi - lo == key@.len(),
            i <= key@.len(),
            forall|k: int| 0 <= k < i ==> b@[lo + k] == key@[k],
        decreases key.len() - i,
    {
        if b[lo + i] != key[i] {
            assert(b@.subrange(lo as int, hi as int)[i as int] != key@[i as int]);
            return false;
        }
        i = i + 1;
    }
    assert(b@.subrange(lo as int, hi as int) =~= key@);
    true
}

/// What the line `b[lo..hi]` of the report says.
pub fn classify_line(b: &Vec<u8>, lo: usize, hi: usize) -> (r: ReportLine)
    requires
        lo <= hi <= b@.len(),
    ensures
        r == line_kind(b@.subrange(lo as int, hi as int)),
{
    let ghost l = b@.subrange(lo as int, hi as int);
    let t0 = skip_space(b, lo, hi);
    let ghost t = b@.subrange(t0 as int, hi as int);
    proof {
        lemma_find_bound(t, 58);
    }
    let k = match find_byte(b, t0, hi, 58) {
        None => {
            return ReportLine::Other;
        },
        Some(k) => k,
    };
    assert(t.take(k as int) =~= b@.subrange(t0 as int, t0 + k));
    assert(t.skip(k + 1) =~= b@.subrange(t0 + k + 1, hi as int));
    let v0 = skip_space(b, t0 + k + 1, hi);
    let v1 = back_space(b, v0, hi);
    let ghost value = b@.subrange(v0 as int, v1 as int);
    assert(value == trim_end(trim_start(t.skip(k + 1))));
    let answer: Vec<u8> = vec![83u8, 111, 108, 117, 116, 105, 111, 110];
    let sample: Vec<u8> = vec![73u8, 110, 115, 116, 114, 117, 99, 116, 105, 111, 110, 115];
    assert(answer@ =~= answer_key());
    assert(sample@ =~= sample_key());
    if range_is(b, t0, t0 + k, &answer) {
        match read_i64(b, v0, v1) {
            Some(a) => ReportLine::Answer(a),
            None => ReportLine::Malformed,
        }
    } else if range_is(b, t0, t0 + k, &sample) {
        proof {
            lemma_find_bound(value, 124);
        }
        match find_byte(b, v0, v1, 124) {
            None => ReportLine::Malformed,
            Some(j) => {
                assert(value.take(j as int) =~= b@.subrange(v0 as int, v0 + j));
                match read_u64(b, v0, v0 + j) {
                    Some(x) => ReportLine::Sample(x),
                    None => ReportLine::Malformed,
                }
            },
        }
    } else {
        ReportLine::Other
    }
}

proof fn lemma_report_step(a: Seq<i64>, t: Seq<u64>, line: Seq<u8>, rest: Seq<Seq<u8>>)
    requires
        line_kind(line) != ReportLine::Malformed,
    ensures
        glue(a, t, report_of(seq![line] + rest)) == match line_kind(line) {
            ReportLine::Answer(x) => glue(a.push(x), t, report_of(rest)),
            ReportLine::Sample(x) => glue(a, t.push(x), report_of(rest)),
            _ => glue(a, t, report_of(rest)),
        },
{
    assert((seq![line] + rest).drop_first() =~= rest);
    assert((seq![line] + rest)[0] == line);
    match report_of(rest) {
        None => {},
        Some((x, y)) => match line_kind(line) {
            ReportLine::Answer(v) => {
                assert(a + (seq![v] + x) =~= a.push(v) + x);
            },
            ReportLine::Sample(v) => {
                assert(t + (seq![v] + y) =~= t.push(v) + y);
            },
            _ => {},
        },
    }
}

proof fn lemma_report_malformed(line: Seq<u8>, rest: Seq<Seq<u8>>)
    requires
        line_kind(line) == ReportLine::Malformed,
    ensures
        report_of(seq![line] + rest) is None,
{
    assert((seq![line] + rest).drop_first() =~= rest);
    assert((seq![line] + rest)[0] == line);
}

/// Reads the tool's report: the answers of the `Solution` lines and the
/// counts of the `Instructions` lines, each in order, or none when one of
/// those lines cannot be read.
pub fn parse_report(b: &Vec<u8>) -> (r: Option<(Vec<i64>, Vec<u64>)>)
    ensures
        match r {
            Some((a, t)) => parse_report_spec(b@) == Some((a@, t@)),
            None => parse_report_spec(b@) is None,
        },
{
    let n = b.len();
    let mut answers: Vec<i64> = Vec::new();
    let mut times: Vec<u64> = Vec::new();
    let mut pos: usize = 0;
    assert(b@.subrange(0, n as int) =~= b@);
    assert(answers@ + Seq::<i64>::empty() =~= answers@);
    while pos < n
        invariant
            n == b@.len(),
            pos <= n,
            parse_report_spec(b@) == glue(
                answers@,
                times@,
                report_of(lines_of(b@.subrange(pos as int, n as int))),
            ),
        decreases n - pos,
    {
        let ghost rest = b@.subrange(pos as int, n as int);
        proof {
            lemma_find_bound(rest, 10);
        }
        let end = match find_byte(b, pos, n, 10) {
            Some(k) => pos + k,
            None => n,
        };
        let ghost line = b@.subrange(pos as int, end as int);
        let ghost after = if end < n {
            b@.subrange(end + 1, n as int)
        } else {
            Seq::empty()
        };
        proof {
            if end < n {
                assert(rest.take(end - pos) =~= line);
                assert(rest.skip(end - pos + 1) =~= after);
                assert(lines_of(rest) == seq![line] + lines_of(after));
            } else {
                assert(rest =~= line);
                assert(lines_of(rest) == seq![line]);
                assert(seq![line] + lines_of(after) =~= seq![line]);
            }
        }
        let kind = classify_line(b, pos, end);
        match kind {
            ReportLine::Answer(x) => {
                proof {
                    lemma_report_step(answers@, times@, line, lines_of(after));
                }
                answers.push(x);
            },
            ReportLine::Sample(x) => {
                proof {
                    lemma_report_step(answers@, times@, line, lines_of(after));
                }
                times.push(x);
            },
            ReportLine::Other => {
                proof {
                    lemma_report_step(answers@, times@, line, lines_of(after));
                }
            },
            ReportLine::Malformed => {
                proof {
                    lemma_report_malformed(line, lines_of(after));
                }
                return None;
            },
        }
        if end < n {
            pos = end + 1;
        } else {
            pos = n;
            assert(b@.subrange(n as int, n as int) =~= Seq::<u8>::empty());
        }
    }
    assert(b@.subrange(n as int, n as int) =~= Seq::<u8>::empty());
    assert(answers@ + Seq::<i64>::empty() =~= answers@);
    assert(times@ + Seq::<u64>::empty() =~= times@);
    Some((answers, times))
}

/// `n` copies of the failure `text`.
pub open spec fn failures(n: nat, text: Seq<char>) -> Seq<Result<i64, Seq<char>>> {
    Seq::new(n, |_i: int| Err(text))
}

/// The answers of `a`, each as a success.
pub open spec fn successes(a: Seq<i64>) -> Seq<Result<i64, Seq<char>>> {
    a.map_values(|x: i64| Ok(x))
}

fn repeat_failure(n: usize, text: &String) -> (r: Vec<Result<i64, String>>)
    ensures
        outcomes(r@) == failures(n as nat, text@),
        r@.len() == n,
        forall|k: int| 0 <= k < n ==> #[trigger] r@[k] is Err,
{
    let mut v: Vec<Result<i64, String>> = Vec::new();
    let mut i: usize = 0;
    while i < n
        invariant
            i <= n,
            v@.len() == i,
            forall|k: int| 0 <= k < i ==> #[trigger] v@[k] == Err::<i64, String>(*text),
        decreases n - i,
    {
        v.push(Err(text.clone()));
        i = i + 1;
    }
    assert(outcomes(v@) =~= failures(n as nat, text@));
    v
}

/// The response to request `id` on `n_inputs` inputs, from how the
/// benchmarking tool ended. When it failed, every input fails with its
/// error output and no timing is given. When it succeeded, the answers and
/// timings of its report are given in order; a report that cannot be read
/// fails every input with a note saying so.
pub fn benchmark_response(
    id: i64,
    n_inputs: usize,
    succeeded: bool,
    stdout: &Vec<u8>,
    stderr: String,
) -> (r: Response)
    ensures
        r.id == id,
        !succeeded ==> outcomes(r.outputs@) == failures(n_inputs as nat, stderr@) && r.times@.len()
            == 0,
        succeeded ==> match parse_report_spec(stdout@) {
            Some((a, t)) => outcomes(r.outputs@) == successes(a) && r.times@ == t,
            None => r.outputs@.len() == n_inputs && r.times@.len() == 0 && forall|k: int|
                0 <= k < n_inputs ==> #[trigger] r.outputs@[k] is Err,
        },
{
    if !succeeded {
        return Response { id, outputs: repeat_failure(n_inputs, &stderr), times: Vec::new() };
    }
    match parse_report(stdout) {
        Some((answers, times)) => {
            let mut outputs: Vec<Result<i64, String>> = Vec::new();
            let mut i: usize = 0;
            while i < answers.len()
                invariant
                    i <= answers@.len(),
                    outputs@.len() == i,
                    forall|k: int| 0 <= k < i ==> #[trigger] outputs@[k] == Ok::<i64, String>(answers@[k]),
                decreases answers.len() - i,
            {
                outputs.push(Ok(answers[i]));
                i = i + 1;
            }
            assert(outcomes(outputs@) =~= successes(answers@));
            Response { id, outputs, times }
        },
        None => {
            let note = "the benchmark report could not be read".to_owned();
            let outputs = repeat_failure(n_inputs, &note);
            Response { id, outputs, times: Vec::new() }
        },
    }
}

/// The decimal digits of `n`, most significant first.
pub open spec fn decimal(n: nat) -> Seq<u8>
    decreases n,
{
    if n < 10 {
        seq![(48 + n) as u8]
    } else {
        decimal(n / 10).push((48 + n % 10) as u8)
    }
}

/// The bytes of `INPUT_`.
pub open spec fn input_prefix() -> Seq<u8> {
    seq![73u8, 78, 80, 85, 84, 95]
}

fn push_decimal(out: &mut Vec<u8>, n: usize)
    ensures
        final(out)@ == old(out)@ + decimal(n as nat),
    decreases n,
{
    if n >= 10 {
        push_decimal(out, n / 10);
    }
    out.push(48 + (n % 10) as u8);
    proof {
        if n < 10 {
            assert(old(out)@.push((48 + n) as u8) =~= old(out)@ + decimal(n as nat));
        } else {
            assert(old(out)@ + decimal(n as nat) =~= (old(out)@ + decimal((n / 10) as nat)).push(
                (48 + n % 10) as u8,
            ));
        }
    }
}

/// Name of the environment variable through which the benchmarked code
/// reads the input at `position`: `INPUT_0`, `INPUT_1`, ...
pub fn input_variable(position: usize) -> (r: Vec<u8>)
    ensures
        r@ == input_prefix() + decimal(position as nat),
{
    let mut name: Vec<u8> = vec![73u8, 78, 80, 85, 84, 95];
    assert(name@ =~= input_prefix());
    push_decimal(&mut name, position);
    name
}

} // verus!
