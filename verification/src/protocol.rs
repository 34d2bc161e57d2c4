//! The wire grammar: whitespace-delimited tokens on one line, semicolon
//! splitting for batches, and the `<digits>s | <digits>min | <digits>h`
//! time-to-live suffix grammar.

use vstd::prelude::*;
use vstd::slice::slice_to_vec;
use vstd::string::StringSliceAdditionalSpecFns;
use crate::ascii::{spec_is_ws, is_ws};
use crate::decimal::{spec_parse_u64, parse_u64};

verus! {

/// Length of the leading run of non-whitespace bytes.
pub open spec fn run_len(s: Seq<u8>) -> int
    decreases s.len(),
{
    if s.len() == 0 || spec_is_ws(s[0]) {
        0
    } else {
        1 + run_len(s.skip(1))
    }
}

pub proof fn lemma_run_len(s: Seq<u8>)
    ensures
        0 <= run_len(s) <= s.len(),
        forall|k: int| 0 <= k < run_len(s) ==> !spec_is_ws(#[trigger] s[k]),
        run_len(s) < s.len() ==> spec_is_ws(s[run_len(s)]),
        s.len() > 0 && !spec_is_ws(s[0]) ==> run_len(s) >= 1,
    decreases s.len(),
{
    if s.len() == 0 || spec_is_ws(s[0]) {
    } else {
        lemma_run_len(s.skip(1));
        assert forall|k: int| 0 <= k < run_len(s) implies !spec_is_ws(#[trigger] s[k]) by {
            if k > 0 {
                assert(s.skip(1)[k - 1] == s[k]);
            }
        }
        if run_len(s) < s.len() {
            assert(s.skip(1)[run_len(s) - 1] == s[run_len(s)]);
        }
    }
}

/// Only one length marks a maximal run: the scanner's stopping point is the
/// run length.
pub proof fn lemma_run_len_is(s: Seq<u8>, m: int)
    requires
        0 <= m <= s.len(),
        forall|k: int| 0 <= k < m ==> !spec_is_ws(#[trigger] s[k]),
        m == s.len() || spec_is_ws(s[m]),
    ensures
        run_len(s) == m,
    decreases s.len(),
{
    if s.len() == 0 || spec_is_ws(s[0]) {
    } else {
        assert(m >= 1);
        lemma_run_len_is(s.skip(1), m - 1);
    }
}

/// The tokens of a line: the maximal whitespace-free runs, in order.
pub open spec fn tokens_of(s: Seq<u8>) -> Seq<Seq<u8>>
    decreases s.len(),
    via tokens_of_dec
{
    if s.len() == 0 {
        Seq::empty()
    } else if spec_is_ws(s[0]) {
        tokens_of(s.skip(1))
    } else {
        seq![s.take(run_len(s))] + tokens_of(s.skip(run_len(s)))
    }
}

#[via_fn]
proof fn tokens_of_dec(s: Seq<u8>) {
    lemma_run_len(s);
}

/// The views of a vector of byte tokens.
pub open spec fn views_of(ts: Seq<Vec<u8>>) -> Seq<Seq<u8>> {
    Seq::new(ts.len(), |i: int| ts[i]@)
}

/// Split a line into its whitespace-delimited tokens.
pub fn tokenize(line: &[u8]) -> (r: Vec<Vec<u8>>)
    ensures
        views_of(r@) == tokens_of(line@),
{
    let n = line.len();
    let mut out: Vec<Vec<u8>> = Vec::new();
    let mut i: usize = 0;
    proof {
        assert(line@.skip(0) =~= line@);
        assert(views_of(out@) =~= Seq::<Seq<u8>>::empty());
        assert(views_of(out@) + tokens_of(line@) =~= tokens_of(line@));
    }
    while i < n
        invariant
            n == line@.len(),
            i <= n,
            tokens_of(line@) == views_of(out@) + tokens_of(line@.skip(i as int)),
        decreases n - i,
    {
        if is_ws(line[i]) {
            proof {
                assert(line@.skip(i as int).skip(1) =~= line@.skip(i + 1));
                assert(line@.skip(i as int)[0] == line@[i as int]);
            }
            i = i + 1;
        } else {
            let start = i;
            let mut j = i;
            while j < n && !is_ws(line[j])
                invariant
                    n == line@.len(),
                    start <= j <= n,
                    forall|k: int| start <= k < j ==> !spec_is_ws(#[trigger] line@[k]),
                decreases n - j,
            {
                j = j + 1;
            }
            let token_slice: &[u8] = &line[start..j];
            let token = slice_to_vec(token_slice);
            proof {
                let rest = line@.skip(start as int);
                assert forall|k: int| 0 <= k < j - start implies !spec_is_ws(#[trigger] rest[k]) by {
                    assert(rest[k] == line@[start + k]);
                }
                if j < n {
                    assert(rest[j - start] == line@[j as int]);
                }
                lemma_run_len_is(rest, j - start);
                assert(rest.take(j - start) =~= line@.subrange(start as int, j as int));
                assert(rest.skip(j - start) =~= line@.skip(j as int));
                assert(tokens_of(rest) == seq![token@] + tokens_of(line@.skip(j as int)));
                assert(views_of(out@.push(token)) =~= views_of(out@) + seq![token@]);
                assert((views_of(out@) + seq![token@]) + tokens_of(line@.skip(j as int))
                    =~= views_of(out@) + (seq![token@] + tokens_of(line@.skip(j as int))));
            }
            out.push(token);
            i = j;
        }
    }
    proof {
        assert(line@.skip(n as int) =~= Seq::<u8>::empty());
        assert(views_of(out@) + tokens_of(line@.skip(n as int)) =~= views_of(out@));
    }
    out
}

/// Index of the first occurrence of `b`, or the length when there is
/// none.
pub open spec fn sep_pos(s: Seq<u8>, b: u8) -> int
    decreases s.len(),
{
    if s.len() == 0 {
        0
    } else if s[0] == b {
        0
    } else {
        1 + sep_pos(s.skip(1), b)
    }
}

pub proof fn lemma_sep_pos(s: Seq<u8>, b: u8)
    ensures
        0 <= sep_pos(s, b) <= s.len(),
        forall|k: int| 0 <= k < sep_pos(s, b) ==> #[trigger] s[k] != b,
        sep_pos(s, b) < s.len() ==> s[sep_pos(s, b)] == b,
    decreases s.len(),
{
    if s.len() == 0 || s[0] == b {
    } else {
        lemma_sep_pos(s.skip(1), b);
        assert forall|k: int| 0 <= k < sep_pos(s, b) implies #[trigger] s[k] != b by {
            if k > 0 {
                assert(s.skip(1)[k - 1] == s[k]);
            }
        }
        if sep_pos(s, b) < s.len() {
            assert(s.skip(1)[sep_pos(s, b) - 1] == s[sep_pos(s, b)]);
        }
    }
}

pub proof fn lemma_sep_pos_is(s: Seq<u8>, b: u8, m: int)
    requires
        0 <= m <= s.len(),
        forall|k: int| 0 <= k < m ==> #[trigger] s[k] != b,
        m == s.len() || s[m] == b,
    ensures
        sep_pos(s, b) == m,
    decreases s.len(),
{
    if s.len() == 0 || s[0] == b {
    } else {
        assert(m >= 1);
        lemma_sep_pos_is(s.skip(1), b, m - 1);
    }
}

/// The pieces of `s` between occurrences of `b`, empty pieces kept.
pub open spec fn split_at_byte(s: Seq<u8>, b: u8) -> Seq<Seq<u8>>
    decreases s.len(),
    via split_at_byte_dec
{
    if sep_pos(s, b) == s.len() {
        seq![s]
    } else {
        seq![s.take(sep_pos(s, b))] + split_at_byte(s.skip(sep_pos(s, b) + 1), b)
    }
}

#[via_fn]
proof fn split_at_byte_dec(s: Seq<u8>, b: u8) {
    lemma_sep_pos(s, b);
}

/// The semicolon-separated pieces of a batch body.
pub open spec fn split_semi(s: Seq<u8>) -> Seq<Seq<u8>> {
    split_at_byte(s, 59)
}

/// Index of the first occurrence of `b`, if any.
pub fn find_byte(s: &[u8], b: u8) -> (r: Option<usize>)
    ensures
        match r {
            Some(i) => i == sep_pos(s@, b) && i < s@.len() && s@[i as int] == b,
            None => sep_pos(s@, b) == s@.len(),
        },
{
    let n = s.len();
    let mut j: usize = 0;
    while j < n
        invariant
            n == s@.len(),
            j <= n,
            forall|k: int| 0 <= k < j ==> #[trigger] s@[k] != b,
        decreases n - j,
    {
        if s[j] == b {
            proof {
                lemma_sep_pos_is(s@, b, j as int);
            }
            return Some(j);
        }
        j = j + 1;
    }
    proof {
        lemma_sep_pos_is(s@, b, n as int);
    }
    None
}

/// Split at every occurrence of `b`; empty pieces are kept, so the piece
/// count is one more than the number of separators.
pub fn split_byte(body: &[u8], b: u8) -> (r: Vec<Vec<u8>>)
    ensures
        views_of(r@) == split_at_byte(body@, b),
{
    let n = body.len();
    let mut out: Vec<Vec<u8>> = Vec::new();
    let mut start: usize = 0;
    let mut j: usize = 0;
    proof {
        assert(body@.skip(0) =~= body@);
        assert(views_of(out@) =~= Seq::<Seq<u8>>::empty());
        assert(views_of(out@) + split_at_byte(body@, b) =~= split_at_byte(body@, b));
    }
    while j < n
        invariant
            n == body@.len(),
            start <= j <= n,
            forall|k: int| start <= k < j ==> #[trigger] body@[k] != b,
            split_at_byte(body@, b) == views_of(out@) + split_at_byte(body@.skip(start as int), b),
        decreases n - j,
    {
        if body[j] == b {
            let piece_slice: &[u8] = &body[start..j];
            let piece = slice_to_vec(piece_slice);
            proof {
                let rest = body@.skip(start as int);
                assert forall|k: int| 0 <= k < j - start implies #[trigger] rest[k] != b by {
                    assert(rest[k] == body@[start + k]);
                }
                assert(rest[j - start] == body@[j as int]);
                lemma_sep_pos_is(rest, b, j - start);
                assert(rest.take(j - start) =~= body@.subrange(start as int, j as int));
                assert(rest.skip(j - start + 1) =~= body@.skip(j + 1));
                assert(split_at_byte(rest, b) == seq![piece@] + split_at_byte(body@.skip(j + 1), b));
                assert(views_of(out@.push(piece)) =~= views_of(out@) + seq![piece@]);
                assert((views_of(out@) + seq![piece@]) + split_at_byte(body@.skip(j + 1), b)
                    =~= views_of(out@) + (seq![piece@] + split_at_byte(body@.skip(j + 1), b)));
            }
            out.push(piece);
            start = j + 1;
        }
        j = j + 1;
    }
    let last_slice: &[u8] = &body[start..n];
    let last = slice_to_vec(last_slice);
    proof {
        let rest = body@.skip(start as int);
        assert forall|k: int| 0 <= k < n - start implies #[trigger] rest[k] != b by {
            assert(rest[k] == body@[start + k]);
        }
        lemma_sep_pos_is(rest, b, n - start);
        assert(rest =~= body@.subrange(start as int, n as int));
        assert(split_at_byte(rest, b) == seq![last@]);
        assert(views_of(out@.push(last)) =~= views_of(out@) + seq![last@]);
    }
    out.push(last);
    out
}

/// Split a batch body at every semicolon.
pub fn split_semicolons(body: &[u8]) -> (r: Vec<Vec<u8>>)
    ensures
        views_of(r@) == split_semi(body@),
{
    split_byte(body, 59)
}

/// Clamp a non-negative mathematical integer into `u64`.
pub open spec fn sat64_of(n: int) -> u64 {
    if n > u64::MAX {
        u64::MAX
    } else {
        (n) as u64
    }
}

/// The time-to-live grammar: a non-empty digit run with suffix `s`, `min`
/// or `h`, giving seconds, minutes or hours. The digits themselves must fit
/// in 64 bits; the scaled second count stops at the top of the range.
pub open spec fn spec_ttl(t: Seq<u8>) -> Option<u64> {
    if t.len() >= 1 && t.last() == 115 {  // ...s
        spec_parse_u64(t.drop_last())
    } else if t.len() >= 3 && t.subrange(t.len() - 3, t.len() as int) == seq![109u8, 105u8, 110u8] {  // ...min
        match spec_parse_u64(t.take(t.len() - 3)) {
            Some(v) => Some(sat64_of(v * 60)),
            None => None,
        }
    } else if t.len() >= 1 && t.last() == 104 {  // ...h
        match spec_parse_u64(t.drop_last()) {
            Some(v) => Some(sat64_of(v * 3600)),
            None => None,
        }
    } else {
        None
    }
}

/// Multiply, stopping at the top of the `u64` range.
fn sat_mul(a: u64, b: u64) -> (r: u64)
    ensures
        r == sat64_of((a as int) * (b as int)),
{
    match a.checked_mul(b) {
        Some(v) => v,
        None => u64::MAX,
    }
}

/// Parse a time-to-live suffix; `None` is an invalid expiration.
pub fn parse_ttl(t: &[u8]) -> (r: Option<u64>)
    ensures
        r == spec_ttl(t@),
{
    let n = t.len();
    if n >= 1 && t[n - 1] == 115 {
        let digits: &[u8] = &t[0..n - 1];
        assert(digits@ =~= t@.drop_last());
        parse_u64(digits)
    } else if n >= 3 && t[n - 3] == 109 && t[n - 2] == 105 && t[n - 1] == 110 {
        assert(t@.subrange(n - 3, n as int) =~= seq![109u8, 105u8, 110u8]);
        let digits: &[u8] = &t[0..n - 3];
        assert(digits@ =~= t@.take(n - 3));
        match parse_u64(digits) {
            Some(v) => Some(sat_mul(v, 60)),
            None => None,
        }
    } else if n >= 1 && t[n - 1] == 104 {
        proof {
            if n >= 3 {
                assert(t@.subrange(n - 3, n as int)[2] == t@[n - 1]);
            }
        }
        let digits: &[u8] = &t[0..n - 1];
        assert(digits@ =~= t@.drop_last());
        match parse_u64(digits) {
            Some(v) => Some(sat_mul(v, 3600)),
            None => None,
        }
    } else {
        proof {
            if n >= 3 && t@.subrange(n - 3, n as int) == seq![109u8, 105u8, 110u8] {
                assert(t@.subrange(n - 3, n as int)[0] == t@[n - 3]);
                assert(t@.subrange(n - 3, n as int)[1] == t@[n - 2]);
                assert(t@.subrange(n - 3, n as int)[2] == t@[n - 1]);
            }
        }
        None
    }
}

/// Parse a time-to-live suffix given as text, for callers that hold the
/// argument as a string; the result is a duration in whole seconds.
pub fn parse_expiration(exp_str: &str) -> (r: Option<u64>)
    ensures
        r == spec_ttl(exp_str.spec_bytes()),
{
    parse_ttl(exp_str.as_bytes())
}

} // verus!
