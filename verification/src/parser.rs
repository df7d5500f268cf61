//! The tolerant reply parser: extracts a (reason, score) pair from free-form
//! backend text, or classifies the text as malformed.
//!
//! The tolerated grammar, in order: optional leading and trailing fenced-block
//! markers are stripped; the last remaining line must carry the score, either
//! as `SCORE: <number>` (keyword case-insensitive) or as a bare number;
//! everything before that line is the reason segment. The number may be
//! signed and fractional. A reason segment that spans several lines is noted
//! (`multi_line`), because the session treats it as malformed on every
//! attempt but the last; the reason handed out is always the segment's last
//! line, whitespace-trimmed. A reply whose last line never yields a number
//! is malformed outright.
//!
//! The grammar is specified by index functions over the byte sequence: where
//! the fences end (`reply_lo`, `reply_hi`), where the score line starts
//! (`reply_score_start`), and what the score line is worth
//! (`score_line_milli`).

use vstd::prelude::*;

use crate::score::{Score, SCORE_MILLI_MAX};
use crate::text::{is_ws, is_ws_byte};

verus! {

/// Largest whole-unit value a parsed score can take before its magnitude
/// saturates; `SCORE_MILLI_MAX` in whole units.
pub const SCORE_UNITS_MAX: u64 = 1_000_000_000;

// --- index helpers over the raw bytes ---

/// First index at or after `i` (up to `hi`) holding a non-whitespace byte.
pub open spec fn skip_ws_idx(s: Seq<u8>, i: int, hi: int) -> int
    decreases hi - i,
{
    if i < hi && is_ws(s[i]) {
        skip_ws_idx(s, i + 1, hi)
    } else {
        i
    }
}

/// End of the range `[lo, hi)` once trailing whitespace is dropped.
pub open spec fn rtrim_idx(s: Seq<u8>, lo: int, hi: int) -> int
    decreases hi - lo,
{
    if hi > lo && is_ws(s[hi - 1]) {
        rtrim_idx(s, lo, hi - 1)
    } else {
        hi
    }
}

/// Last index in `[lo, hi)` holding a line feed, or `lo - 1` if none does.
pub open spec fn last_nl_idx(s: Seq<u8>, lo: int, hi: int) -> int
    decreases hi - lo,
{
    if hi <= lo {
        lo - 1
    } else if s[hi - 1] == 10 {
        hi - 1
    } else {
        last_nl_idx(s, lo, hi - 1)
    }
}

/// First index at or after `i` (up to `hi`) holding a non-digit byte.
pub open spec fn skip_digits_idx(s: Seq<u8>, i: int, hi: int) -> int
    decreases hi - i,
{
    if i < hi && is_digit(s[i]) {
        skip_digits_idx(s, i + 1, hi)
    } else {
        i
    }
}

/// An ASCII decimal digit.
pub open spec fn is_digit(b: u8) -> bool {
    48 <= b <= 57
}

/// Three backticks at positions `i`, `i + 1`, `i + 2`.
pub open spec fn fence_at(s: Seq<u8>, i: int) -> bool {
    s[i] == 96 && s[i + 1] == 96 && s[i + 2] == 96
}

// --- where the fences end ---

/// Start of the reply body: a leading fence marker and the whitespace after
/// it are stripped.
pub open spec fn reply_lo(s: Seq<u8>) -> int {
    if s.len() >= 3 && fence_at(s, 0) {
        skip_ws_idx(s, 3, s.len() as int)
    } else {
        0
    }
}

/// End of the reply body: trailing whitespace, then a trailing fence marker,
/// then the whitespace before it are stripped.
pub open spec fn reply_hi(s: Seq<u8>, lo: int) -> int {
    let h1 = rtrim_idx(s, lo, s.len() as int);
    if h1 - lo >= 3 && fence_at(s, h1 - 3) {
        rtrim_idx(s, lo, h1 - 3)
    } else {
        h1
    }
}

// --- the score line ---

/// Whether a case-insensitive `SCORE:` keyword stands at position `a`.
pub open spec fn score_kw_at(s: Seq<u8>, a: int) -> bool {
    &&& (s[a] == 115 || s[a] == 83)
    &&& (s[a + 1] == 99 || s[a + 1] == 67)
    &&& (s[a + 2] == 111 || s[a + 2] == 79)
    &&& (s[a + 3] == 114 || s[a + 3] == 82)
    &&& (s[a + 4] == 101 || s[a + 4] == 69)
    &&& s[a + 5] == 58
}

/// Where the number is sought on the score line `[a, b)`: after the
/// `SCORE:` keyword if one is present, else from the line's start.
pub open spec fn kw_end(s: Seq<u8>, a: int, b: int) -> int {
    if b - a >= 6 && score_kw_at(s, a) {
        a + 6
    } else {
        a
    }
}

/// Value of the digit run `s[a..b)` read as a decimal number.
pub open spec fn digits_val(s: Seq<u8>, a: int, b: int) -> int
    decreases b - a,
{
    if b <= a {
        0
    } else {
        digits_val(s, a, b - 1) * 10 + (s[b - 1] - 48)
    }
}

/// The fractional digits `s[a..b)` read as thousandths: the first three
/// digits weighted 100, 10 and 1; further digits are beyond the kept
/// precision.
pub open spec fn frac_milli(s: Seq<u8>, a: int, b: int) -> int {
    (if b - a >= 1 { (s[a] - 48) * 100 } else { 0 })
    + (if b - a >= 2 { (s[a + 1] - 48) * 10 } else { 0 })
    + (if b - a >= 3 { (s[a + 2] - 48) } else { 0 })
}

/// The signed score, in thousandths, for a numeral with whole-unit value
/// `units` and fractional thousandths `fm`; the magnitude saturates at
/// `SCORE_MILLI_MAX`.
pub open spec fn signed_milli(neg: bool, units: int, fm: int) -> int {
    let mag = units * 1000 + fm;
    let m = if mag > SCORE_MILLI_MAX as int { SCORE_MILLI_MAX as int } else { mag };
    if neg {
        -m
    } else {
        m
    }
}

/// What the score line `[a, b)` is worth: `Some` thousandths when the line
/// is an optional case-insensitive `SCORE:` keyword, optional whitespace, and
/// a complete signed decimal numeral; `None` otherwise.
pub open spec fn score_line_milli(s: Seq<u8>, a: int, b: int) -> Option<int> {
    let j = skip_ws_idx(s, kw_end(s, a, b), b);
    let neg = j < b && s[j] == 45;
    let j1 = if j < b && (s[j] == 45 || s[j] == 43) {
        j + 1
    } else {
        j
    };
    let k = skip_digits_idx(s, j1, b);
    if k == j1 {
        None
    } else if k == b {
        Some(signed_milli(neg, digits_val(s, j1, k), 0))
    } else if s[k] == 46 && b > k + 1 && skip_digits_idx(s, k + 1, b) == b {
        Some(signed_milli(neg, digits_val(s, j1, k), frac_milli(s, k + 1, b)))
    } else {
        None
    }
}

// --- the reply as a whole ---

/// Start of the score line within the body `[lo, hi)`: right after the last
/// line feed, or `lo` when the body is a single line.
pub open spec fn reply_score_start(s: Seq<u8>, lo: int, hi: int) -> int {
    last_nl_idx(s, lo, hi) + 1
}

/// End of the reason segment: the byte before the score line's line feed,
/// or `lo` when there is no reason segment.
pub open spec fn reply_reason_end(s: Seq<u8>, lo: int, hi: int) -> int {
    let a = reply_score_start(s, lo, hi);
    if a > lo {
        a - 1
    } else {
        lo
    }
}

/// What the reply's score line is worth, if anything.
pub open spec fn reply_milli(s: Seq<u8>) -> Option<int> {
    let lo = reply_lo(s);
    let hi = reply_hi(s, lo);
    score_line_milli(s, reply_score_start(s, lo, hi), hi)
}

/// Whether the reason segment spans more than one line.
pub open spec fn reply_multi(s: Seq<u8>) -> bool {
    let lo = reply_lo(s);
    let hi = reply_hi(s, lo);
    last_nl_idx(s, lo, reply_reason_end(s, lo, hi)) >= lo
}

/// The reason handed out: the reason segment's last line, trimmed of
/// surrounding whitespace.
pub open spec fn reply_reason(s: Seq<u8>) -> Seq<u8> {
    let lo = reply_lo(s);
    let hi = reply_hi(s, lo);
    let r_end = reply_reason_end(s, lo, hi);
    let piece = last_nl_idx(s, lo, r_end) + 1;
    let t1 = skip_ws_idx(s, piece, r_end);
    let t2 = rtrim_idx(s, t1, r_end);
    s.subrange(t1, t2)
}

/// The parse of a whole reply: `Some` of the trimmed last reason line and
/// the score in thousandths, or `None` for a reply with no score line.
pub open spec fn parse_reply_spec(s: Seq<u8>) -> Option<(Seq<u8>, int)> {
    match reply_milli(s) {
        Option::None => Option::None,
        Option::Some(m) => Option::Some((reply_reason(s), m)),
    }
}

// --- executable index helpers ---

fn skip_ws_exec(s: &Vec<u8>, i: usize, hi: usize) -> (j: usize)
    requires
        i <= hi <= s.len(),
    ensures
        j == skip_ws_idx(s@, i as int, hi as int),
        i <= j <= hi,
{
    let mut j = i;
    while j < hi && is_ws_byte(s[j])
        invariant
            i <= j <= hi <= s.len(),
            skip_ws_idx(s@, i as int, hi as int) == skip_ws_idx(s@, j as int, hi as int),
        decreases hi - j,
    {
        j = j + 1;
    }
    j
}

fn rtrim_exec(s: &Vec<u8>, lo: usize, hi: usize) -> (h: usize)
    requires
        lo <= hi <= s.len(),
    ensures
        h == rtrim_idx(s@, lo as int, hi as int),
        lo <= h <= hi,
{
    let mut h = hi;
    while h > lo && is_ws_byte(s[h - 1])
        invariant
            lo <= h <= hi <= s.len(),
            rtrim_idx(s@, lo as int, hi as int) == rtrim_idx(s@, lo as int, h as int),
        decreases h,
    {
        h = h - 1;
    }
    h
}

/// Returns the start of the last line of `[lo, hi)`: one past the last line
/// feed, or `lo` when the range holds none.
fn line_start_exec(s: &Vec<u8>, lo: usize, hi: usize) -> (a: usize)
    requires
        lo <= hi <= s.len(),
    ensures
        a == last_nl_idx(s@, lo as int, hi as int) + 1,
        lo <= a <= hi,
{
    let mut h = hi;
    while h > lo && s[h - 1] != 10
        invariant
            lo <= h <= hi <= s.len(),
            last_nl_idx(s@, lo as int, hi as int) == last_nl_idx(s@, lo as int, h as int),
        decreases h,
    {
        h = h - 1;
    }
    if h == lo {
        proof {
            assert(last_nl_idx(s@, lo as int, lo as int) == lo - 1);
        }
        lo
    } else {
        h
    }
}

/// Every byte the digit scan passed over is a digit, and the scan stops at
/// the first non-digit.
pub proof fn lemma_skip_digits_props(s: Seq<u8>, i: int, hi: int)
    requires
        0 <= i <= hi <= s.len(),
    ensures
        i <= skip_digits_idx(s, i, hi) <= hi,
        forall|t: int| i <= t < skip_digits_idx(s, i, hi) ==> is_digit(s[t]),
        skip_digits_idx(s, i, hi) < hi ==> !is_digit(s[skip_digits_idx(s, i, hi)]),
    decreases hi - i,
{
    if i < hi && is_digit(s[i]) {
        lemma_skip_digits_props(s, i + 1, hi);
    }
}

fn skip_digits_exec(s: &Vec<u8>, i: usize, hi: usize) -> (k: usize)
    requires
        i <= hi <= s.len(),
    ensures
        k == skip_digits_idx(s@, i as int, hi as int),
        i <= k <= hi,
{
    let mut k = i;
    while k < hi && 48 <= s[k] && s[k] <= 57
        invariant
            i <= k <= hi <= s.len(),
            skip_digits_idx(s@, i as int, hi as int) == skip_digits_idx(s@, k as int, hi as int),
        decreases hi - k,
    {
        k = k + 1;
    }
    k
}

/// Value of the digit run `[a, b)` in whole units, saturating above
/// `SCORE_UNITS_MAX`: the flag reports whether the true value is larger.
fn parse_units(s: &Vec<u8>, a: usize, b: usize) -> (r: (u64, bool))
    requires
        a <= b <= s.len(),
        forall|t: int| a <= t < b ==> is_digit(s@[t]),
    ensures
        !r.1 ==> r.0 == digits_val(s@, a as int, b as int) && r.0 <= SCORE_UNITS_MAX,
        r.1 ==> digits_val(s@, a as int, b as int) > SCORE_UNITS_MAX,
{
    let mut acc: u64 = 0;
    let mut sat: bool = false;
    let mut i = a;
    while i < b
        invariant
            a <= i <= b <= s.len(),
            forall|t: int| a <= t < b ==> is_digit(s@[t]),
            !sat ==> acc == digits_val(s@, a as int, i as int) && acc <= SCORE_UNITS_MAX,
            sat ==> digits_val(s@, a as int, i as int) > SCORE_UNITS_MAX,
        decreases b - i,
    {
        let d = s[i] - 48;
        proof {
            assert(digits_val(s@, a as int, i + 1) == digits_val(s@, a as int, i as int) * 10 + (
            s@[i as int] - 48));
        }
        if sat {
            proof {
                let v = digits_val(s@, a as int, i as int);
                assert(v * 10 + (s@[i as int] - 48) > SCORE_UNITS_MAX) by {
                    assert(v >= SCORE_UNITS_MAX + 1);
                    assert(v * 10 >= (SCORE_UNITS_MAX + 1) * 10) by (nonlinear_arith)
                        requires
                            v >= SCORE_UNITS_MAX + 1,
                    ;
                }
            }
        } else {
            let next = acc * 10 + (d as u64);
            if next > SCORE_UNITS_MAX {
                sat = true;
            } else {
                acc = next;
            }
        }
        i = i + 1;
    }
    (acc, sat)
}

/// The fractional digits `[a, b)` as thousandths.
fn parse_frac(s: &Vec<u8>, a: usize, b: usize) -> (f: u32)
    requires
        a < b <= s.len(),
        forall|t: int| a <= t < b ==> is_digit(s@[t]),
    ensures
        f == frac_milli(s@, a as int, b as int),
        f <= 999,
{
    let mut f: u32 = ((s[a] - 48) as u32) * 100;
    if b - a >= 2 {
        f = f + ((s[a + 1] - 48) as u32) * 10;
    }
    if b - a >= 3 {
        f = f + ((s[a + 2] - 48) as u32);
    }
    f
}

/// A successfully parsed backend reply.
#[derive(Clone, Debug)]
pub struct ParsedReply {
    /// The reason segment's last line, whitespace-trimmed.
    pub reason: Vec<u8>,
    /// Whether the reason segment spanned more than one line.
    pub multi_line: bool,
    /// The score the reply carried.
    pub score: Score,
}

/// Parse a raw backend reply under the tolerated grammar. Returns `None`
/// exactly when the reply's last line (fences discounted) yields no number.
#[verifier::rlimit(100)]
pub fn parse_reply(text: &Vec<u8>) -> (r: Option<ParsedReply>)
    ensures
        r is None <==> parse_reply_spec(text@) is None,
        r matches Some(p) ==> {
            &&& parse_reply_spec(text@) matches Some(pr)
            &&& p.reason@ == pr.0
            &&& p.score.milli == pr.1
            &&& p.score.wf()
            &&& p.multi_line == reply_multi(text@)
        },
{
    let n = text.len();
    // Strip a leading fence marker and the whitespace after it.
    let lo: usize = if n >= 3 && text[0] == 96 && text[1] == 96 && text[2] == 96 {
        skip_ws_exec(text, 3, n)
    } else {
        0
    };
    // Strip trailing whitespace, a trailing fence marker, and the
    // whitespace before it.
    let h1 = rtrim_exec(text, lo, n);
    let hi: usize = if h1 - lo >= 3 && text[h1 - 3] == 96 && text[h1 - 2] == 96 && text[h1 - 1]
        == 96 {
        rtrim_exec(text, lo, h1 - 3)
    } else {
        h1
    };
    proof {
        assert(lo == reply_lo(text@));
        assert(hi == reply_hi(text@, lo as int));
    }
    // The score line is the body's last line.
    let a = line_start_exec(text, lo, hi);
    // An optional case-insensitive `SCORE:` keyword.
    let kw: usize = if hi - a >= 6 && (text[a] == 115 || text[a] == 83) && (text[a + 1] == 99
        || text[a + 1] == 67) && (text[a + 2] == 111 || text[a + 2] == 79) && (text[a + 3] == 114
        || text[a + 3] == 82) && (text[a + 4] == 101 || text[a + 4] == 69) && text[a + 5] == 58 {
        a + 6
    } else {
        a
    };
    proof {
        assert(kw == kw_end(text@, a as int, hi as int));
    }
    let j = skip_ws_exec(text, kw, hi);
    // An optional sign.
    let neg = j < hi && text[j] == 45;
    let j1: usize = if j < hi && (text[j] == 45 || text[j] == 43) {
        j + 1
    } else {
        j
    };
    // The whole-unit digits.
    let k = skip_digits_exec(text, j1, hi);
    if k == j1 {
        return None;
    }
    proof {
        lemma_skip_digits_props(text@, j1 as int, hi as int);
    }
    let (units, units_sat) = parse_units(text, j1, k);
    // The optional fractional digits.
    let frac: u32 = if k == hi {
        0
    } else if text[k] == 46 && k + 1 < hi {
        let k2 = skip_digits_exec(text, k + 1, hi);
        if k2 != hi {
            return None;
        }
        proof {
            lemma_skip_digits_props(text@, k + 1, hi as int);
        }
        parse_frac(text, k + 1, k2)
    } else {
        return None;
    };
    // The signed value in thousandths, saturated in magnitude.
    let mag: i64 = if units_sat {
        proof {
            let v = digits_val(text@, j1 as int, k as int);
            assert(v * 1000 > SCORE_MILLI_MAX) by (nonlinear_arith)
                requires
                    v > SCORE_UNITS_MAX,
            ;
        }
        SCORE_MILLI_MAX
    } else {
        let m = units * 1000 + (frac as u64);
        if m > SCORE_MILLI_MAX as u64 {
            SCORE_MILLI_MAX
        } else {
            m as i64
        }
    };
    let milli: i64 = if neg {
        -mag
    } else {
        mag
    };
    // The reason segment and its last line, trimmed.
    let r_end: usize = if a > lo {
        a - 1
    } else {
        lo
    };
    let piece = line_start_exec(text, lo, r_end);
    let multi = piece > lo;
    let t1 = skip_ws_exec(text, piece, r_end);
    let t2 = rtrim_exec(text, t1, r_end);
    let mut reason: Vec<u8> = Vec::new();
    let mut idx = t1;
    while idx < t2
        invariant
            t1 <= idx <= t2 <= text.len(),
            reason@ == text@.subrange(t1 as int, idx as int),
        decreases t2 - idx,
    {
        reason.push(text[idx]);
        proof {
            assert(reason@ =~= text@.subrange(t1 as int, idx + 1));
        }
        idx = idx + 1;
    }
    proof {
        assert(reason@ =~= reply_reason(text@));
    }
    Some(ParsedReply { reason, multi_line: multi, score: Score { milli } })
}

/// What the parser reports for one reply on one attempt.
#[derive(Clone, Debug)]
pub enum ParseOutcome {
    /// A clean parse: the reason line and the score.
    Valid { reason: Vec<u8>, score: Score },
    /// No score could be extracted, or the reason spanned several lines on a
    /// non-final attempt.
    Malformed,
}

/// When a reply is accepted: it parses, and its reason is single-line —
/// except on the final attempt, where a multi-line reason is tolerated and
/// its last line kept, so that a stubborn backend still yields output.
pub open spec fn reply_valid_spec(s: Seq<u8>, final_attempt: bool) -> bool {
    parse_reply_spec(s) is Some && (final_attempt || !reply_multi(s))
}

/// Classify one reply. `final_attempt` says whether the session has no
/// retries left for this line.
pub fn parse_response(text: &Vec<u8>, final_attempt: bool) -> (r: ParseOutcome)
    ensures
        r is Valid <==> reply_valid_spec(text@, final_attempt),
        r matches ParseOutcome::Valid { reason, score } ==> {
            &&& parse_reply_spec(text@) matches Some(pr)
            &&& reason@ == pr.0
            &&& score.milli == pr.1
            &&& score.wf()
        },
{
    match parse_reply(text) {
        None => ParseOutcome::Malformed,
        Some(p) => {
            if p.multi_line && !final_attempt {
                ParseOutcome::Malformed
            } else {
                ParseOutcome::Valid { reason: p.reason, score: p.score }
            }
        },
    }
}

} // verus!
