//! The canonical form of an accepted reply, and the parser's idempotence on
//! it.
//!
//! An accepted reply boils down to a single-line reason and a score. Written
//! back canonically — the reason line, a line feed, and `SCORE: ` with the
//! score's numeral — the text parses again to exactly the same pair. That
//! law is [`lemma_parse_canonical`].

use vstd::prelude::*;

use vstd::arithmetic::div_mod::{
    lemma_div_denominator, lemma_fundamental_div_mod, lemma_mod_bound,
};

use crate::parser::{
    digits_val, fence_at, frac_milli, is_digit, kw_end, last_nl_idx, parse_reply_spec, reply_hi,
    reply_lo, reply_milli, reply_multi, reply_reason, reply_reason_end, reply_score_start,
    rtrim_idx, score_kw_at, score_line_milli, signed_milli, skip_digits_idx, skip_ws_idx,
};
use crate::score::SCORE_MILLI_MAX;
use crate::text::is_ws;

verus! {

/// Decimal digits of `n`, most significant first; `0` is the digit `0`.
pub open spec fn dec_digits(n: int) -> Seq<u8>
    decreases n,
{
    if n < 10 {
        seq![(48 + n) as u8]
    } else {
        dec_digits(n / 10).push((48 + n % 10) as u8)
    }
}

/// The fractional digits for `f` thousandths, `1 <= f <= 999`: a decimal
/// point and up to three digits, trailing zeros dropped.
pub open spec fn frac_digits(f: int) -> Seq<u8> {
    let d1 = (48 + f / 100) as u8;
    let d2 = (48 + (f / 10) % 10) as u8;
    let d3 = (48 + f % 10) as u8;
    if f % 10 != 0 {
        seq![46u8, d1, d2, d3]
    } else if (f / 10) % 10 != 0 {
        seq![46u8, d1, d2]
    } else {
        seq![46u8, d1]
    }
}

/// The canonical numeral for a score of `milli` thousandths: an optional
/// minus sign, the whole units, and the fraction if there is one.
pub open spec fn render_milli(milli: int) -> Seq<u8> {
    let mag = if milli < 0 {
        -milli
    } else {
        milli
    };
    let sign: Seq<u8> = if milli < 0 {
        seq![45u8]
    } else {
        Seq::empty()
    };
    let frac: Seq<u8> = if mag % 1000 == 0 {
        Seq::empty()
    } else {
        frac_digits(mag % 1000)
    };
    sign + dec_digits(mag / 1000) + frac
}

/// The bytes of `SCORE: `.
pub open spec fn score_prefix() -> Seq<u8> {
    seq![83u8, 67u8, 79u8, 82u8, 69u8, 58u8, 32u8]
}

/// The canonical text of an accepted reply: the reason line, a line feed,
/// and the score line.
pub open spec fn canonical_reply(reason: Seq<u8>, milli: int) -> Seq<u8> {
    reason + seq![10u8] + score_prefix() + render_milli(milli)
}

/// Every byte of `dec_digits(n)` is a digit, and there is at least one.
pub proof fn lemma_dec_digits_are_digits(n: int)
    requires
        n >= 0,
    ensures
        dec_digits(n).len() >= 1,
        forall|i: int| 0 <= i < dec_digits(n).len() ==> is_digit(#[trigger] dec_digits(n)[i]),
    decreases n,
{
    if n >= 10 {
        lemma_dec_digits_are_digits(n / 10);
        lemma_mod_bound(n, 10);
    }
}

/// A digit run that spells `dec_digits(n)` is worth `n`.
pub proof fn lemma_digits_val_of(s: Seq<u8>, a: int, b: int, n: int)
    requires
        0 <= a <= b <= s.len(),
        n >= 0,
        b - a == dec_digits(n).len(),
        forall|i: int| 0 <= i < dec_digits(n).len() ==> s[a + i] == #[trigger] dec_digits(n)[i],
    ensures
        digits_val(s, a, b) == n,
    decreases n,
{
    if n < 10 {
        assert(s[a + 0] == dec_digits(n)[0]);
        assert(dec_digits(n)[0] == (48 + n) as u8);
        assert(s[a] == 48 + n);
        assert(digits_val(s, a, a) == 0);
        assert(digits_val(s, a, b) == digits_val(s, a, a) * 10 + (s[a] - 48));
    } else {
        lemma_mod_bound(n, 10);
        let d = dec_digits(n / 10);
        assert(dec_digits(n) == d.push((48 + n % 10) as u8));
        assert(forall|i: int| 0 <= i < d.len() ==> s[a + i] == #[trigger] d[i]) by {
            assert(forall|i: int| 0 <= i < d.len() ==> #[trigger] d[i] == dec_digits(n)[i]);
        }
        lemma_digits_val_of(s, a, b - 1, n / 10);
        assert(s[a + d.len()] == dec_digits(n)[d.len() as int]);
        assert(s[b - 1] == 48 + n % 10);
        assert(digits_val(s, a, b) == digits_val(s, a, b - 1) * 10 + (s[b - 1] - 48));
        lemma_fundamental_div_mod(n, 10);
        assert(digits_val(s, a, b) == (n / 10) * 10 + n % 10);
    }
}

/// The digit scan over a digit run that ends at `q` stops exactly at `q`.
pub proof fn lemma_skip_digits_runs(s: Seq<u8>, i: int, q: int, hi: int)
    requires
        0 <= i <= q <= hi <= s.len(),
        forall|t: int| i <= t < q ==> is_digit(s[t]),
        q < hi ==> !is_digit(s[q]),
    ensures
        skip_digits_idx(s, i, hi) == q,
    decreases q - i,
{
    if i < q {
        lemma_skip_digits_runs(s, i + 1, q, hi);
    }
}

/// The whitespace scan over a whitespace run that ends at `q` stops exactly
/// at `q`.
pub proof fn lemma_skip_ws_runs(s: Seq<u8>, i: int, q: int, hi: int)
    requires
        0 <= i <= q <= hi <= s.len(),
        forall|t: int| i <= t < q ==> is_ws(s[t]),
        q < hi ==> !is_ws(s[q]),
    ensures
        skip_ws_idx(s, i, hi) == q,
    decreases q - i,
{
    if i < q {
        lemma_skip_ws_runs(s, i + 1, q, hi);
    }
}

/// A range with no line feed has no last line feed.
pub proof fn lemma_last_nl_none(s: Seq<u8>, lo: int, hi: int)
    requires
        0 <= lo <= hi <= s.len(),
        forall|t: int| lo <= t < hi ==> s[t] != 10,
    ensures
        last_nl_idx(s, lo, hi) == lo - 1,
    decreases hi - lo,
{
    if hi > lo {
        lemma_last_nl_none(s, lo, hi - 1);
    }
}

/// When position `q` holds the range's final line feed, the scan finds it.
pub proof fn lemma_last_nl_at(s: Seq<u8>, lo: int, hi: int, q: int)
    requires
        0 <= lo <= q < hi <= s.len(),
        s[q] == 10,
        forall|t: int| q < t < hi ==> s[t] != 10,
    ensures
        last_nl_idx(s, lo, hi) == q,
    decreases hi - q,
{
    if hi - 1 > q {
        lemma_last_nl_at(s, lo, hi - 1, q);
    }
}

/// The canonical numeral is an optional leading minus sign followed by
/// digits and at most one decimal point, and it ends in a digit.
pub proof fn lemma_render_shape(milli: int)
    requires
        -(SCORE_MILLI_MAX as int) <= milli <= SCORE_MILLI_MAX as int,
    ensures
        render_milli(milli).len() >= 1,
        forall|i: int|
            0 <= i < render_milli(milli).len() ==> (#[trigger] render_milli(milli)[i] == 45
                || render_milli(milli)[i] == 46 || is_digit(render_milli(milli)[i])),
        is_digit(render_milli(milli)[render_milli(milli).len() - 1]),
        milli < 0 ==> render_milli(milli)[0] == 45,
        milli >= 0 ==> is_digit(render_milli(milli)[0]),
{
    let mag = if milli < 0 {
        -milli
    } else {
        milli
    };
    let f = mag % 1000;
    lemma_fundamental_div_mod(mag, 1000);
    lemma_mod_bound(mag, 1000);
    lemma_dec_digits_are_digits(mag / 1000);
    if f != 0 {
        lemma_frac_breakdown(f);
    }
}

/// `f` decomposes into its hundreds, tens and units digits.
pub proof fn lemma_frac_breakdown(f: int)
    requires
        0 <= f <= 999,
    ensures
        f == 100 * (f / 100) + 10 * ((f / 10) % 10) + f % 10,
        0 <= f / 100 <= 9,
        0 <= (f / 10) % 10 <= 9,
        0 <= f % 10 <= 9,
    decreases f,
{
    lemma_fundamental_div_mod(f, 10);
    lemma_fundamental_div_mod(f / 10, 10);
    lemma_div_denominator(f, 10, 10);
    lemma_mod_bound(f, 10);
    lemma_fundamental_div_mod(f, 100);
    lemma_mod_bound(f, 100);
    lemma_mod_bound(f / 10, 10);
}

/// A line spelling `SCORE: ` and the canonical numeral for `milli`, running
/// to the end of the text, is worth exactly `milli`.
pub proof fn lemma_score_line_of_render(c: Seq<u8>, a: int, milli: int)
    requires
        -(SCORE_MILLI_MAX as int) <= milli <= SCORE_MILLI_MAX as int,
        0 <= a,
        a + 7 + render_milli(milli).len() == c.len(),
        forall|i: int| 0 <= i < 7 ==> c[a + i] == #[trigger] score_prefix()[i],
        forall|i: int|
            0 <= i < render_milli(milli).len() ==> c[a + 7 + i] == #[trigger] render_milli(
                milli,
            )[i],
    ensures
        score_line_milli(c, a, c.len() as int) == Some(milli),
{
    let n = c.len() as int;
    let num = render_milli(milli);
    let mag = if milli < 0 {
        -milli
    } else {
        milli
    };
    let units = mag / 1000;
    let f = mag % 1000;
    lemma_fundamental_div_mod(mag, 1000);
    lemma_mod_bound(mag, 1000);
    let ud = dec_digits(units);
    let du = ud.len() as int;
    lemma_dec_digits_are_digits(units);
    let sign: Seq<u8> = if milli < 0 {
        seq![45u8]
    } else {
        Seq::empty()
    };
    let sl = sign.len() as int;
    let fd: Seq<u8> = if f == 0 {
        Seq::empty()
    } else {
        frac_digits(f)
    };
    let fdl = fd.len() as int;
    assert(num == sign + ud + fd);
    assert(forall|i: int| 0 <= i < sl ==> #[trigger] num[i] == sign[i]);
    assert(forall|i: int| 0 <= i < du ==> #[trigger] num[sl + i] == ud[i]) by {
        assert(forall|i: int| 0 <= i < du ==> #[trigger] (sign + ud + fd)[sl + i] == ud[i]);
    }
    assert(forall|i: int| 0 <= i < fdl ==> #[trigger] num[sl + du + i] == fd[i]) by {
        assert(forall|i: int|
            0 <= i < fdl ==> #[trigger] (sign + ud + fd)[sl + du + i] == fd[i]);
    }
    // the keyword
    assert(score_kw_at(c, a)) by {
        assert(c[a + 0] == score_prefix()[0]);
        assert(c[a + 1] == score_prefix()[1]);
        assert(c[a + 2] == score_prefix()[2]);
        assert(c[a + 3] == score_prefix()[3]);
        assert(c[a + 4] == score_prefix()[4]);
        assert(c[a + 5] == score_prefix()[5]);
    }
    assert(kw_end(c, a, n) == a + 6);
    // the single space after it
    let j = a + 7;
    assert(c[a + 6] == 32) by {
        assert(c[a + 6] == score_prefix()[6]);
    }
    assert(c[j] == num[0]);
    lemma_render_shape(milli);
    assert(!is_ws(c[j]));
    lemma_skip_ws_runs(c, a + 6, j, n);
    // the sign
    let neg = milli < 0;
    let j1 = j + sl;
    if neg {
        assert(c[j] == num[0] && num[0] == sign[0] && sign[0] == 45);
    } else {
        assert(is_digit(c[j]));
    }
    assert((j < n && c[j] == 45) == neg);
    assert((if j < n && (c[j] == 45 || c[j] == 43) {
        j + 1
    } else {
        j
    }) == j1);
    // the whole-unit digits
    let k = j1 + du;
    assert forall|i: int| 0 <= i < du implies c[j1 + i] == #[trigger] ud[i] by {
        assert(c[a + 7 + (sl + i)] == num[sl + i]);
        assert(num[sl + i] == ud[i]);
    }
    assert forall|t: int| j1 <= t < k implies is_digit(c[t]) by {
        let i = t - j1;
        assert(c[j1 + i] == ud[i]);
        assert(is_digit(dec_digits(units)[i]));
    }
    if f == 0 {
        assert(k == n);
        lemma_skip_digits_runs(c, j1, k, n);
        lemma_digits_val_of(c, j1, k, units);
        assert(k != j1);
        assert(score_line_milli(c, a, n) == Some(signed_milli(neg, units, 0)));
        assert(units * 1000 + 0 == mag);
        assert(signed_milli(neg, units, 0) == milli);
    } else {
        lemma_frac_breakdown(f);
        assert forall|i: int| 1 <= i < fdl implies is_digit(#[trigger] fd[i]) by {
            if i == 1 {
                assert(fd[1] == (48 + f / 100) as u8);
            } else if i == 2 {
                assert(fd[2] == (48 + (f / 10) % 10) as u8);
            } else {
                assert(fd[3] == (48 + f % 10) as u8);
            }
        }
        assert(c[k] == num[sl + du + 0] && num[sl + du] == fd[0] && fd[0] == 46);
        lemma_skip_digits_runs(c, j1, k, n);
        lemma_digits_val_of(c, j1, k, units);
        assert(k != j1 && k != n);
        assert(n == k + fdl);
        assert(fdl >= 2);
        assert forall|i: int| 1 <= i < fdl implies c[k + i] == #[trigger] fd[i] by {
            assert(c[a + 7 + (sl + du + i)] == num[sl + du + i]);
            assert(num[sl + du + i] == fd[i]);
        }
        assert forall|t: int| k + 1 <= t < n implies is_digit(c[t]) by {
            assert(c[k + (t - k)] == fd[t - k]);
        }
        lemma_skip_digits_runs(c, k + 1, n, n);
        assert(n > k + 1);
        // the fraction's worth
        assert(c[k + 1] == fd[1]);
        assert(fd[1] == 48 + f / 100);
        let fm = frac_milli(c, k + 1, n);
        if f % 10 != 0 {
            assert(fdl == 4);
            assert(c[k + 2] == fd[2] && c[k + 3] == fd[3]);
            assert(fm == (f / 100) * 100 + ((f / 10) % 10) * 10 + f % 10);
        } else if (f / 10) % 10 != 0 {
            assert(fdl == 3);
            assert(c[k + 2] == fd[2]);
            assert(fm == (f / 100) * 100 + ((f / 10) % 10) * 10);
        } else {
            assert(fdl == 2);
            assert(fm == (f / 100) * 100);
        }
        assert(fm == f);
        assert(score_line_milli(c, a, n) == Some(signed_milli(neg, units, f)));
        assert(units * 1000 + f == mag);
        assert(signed_milli(neg, units, f) == milli);
    }
}

/// The parser is idempotent on its own accepted output: any single-line,
/// whitespace-trimmed reason that does not open with a fence marker, written
/// back canonically as `<reason>\nSCORE: <numeral>` with any in-range score,
/// parses again to exactly that reason and that score, with a single-line
/// reason segment.
pub proof fn lemma_parse_canonical(reason: Seq<u8>, milli: int)
    requires
        -(SCORE_MILLI_MAX as int) <= milli <= SCORE_MILLI_MAX as int,
        forall|i: int| 0 <= i < reason.len() ==> reason[i] != 10,
        reason.len() > 0 ==> !is_ws(reason[0]) && !is_ws(reason[reason.len() - 1]),
        !(reason.len() >= 3 && reason[0] == 96 && reason[1] == 96 && reason[2] == 96),
    ensures
        parse_reply_spec(canonical_reply(reason, milli)) == Some((reason, milli)),
        !reply_multi(canonical_reply(reason, milli)),
{
    let c = canonical_reply(reason, milli);
    let rl = reason.len() as int;
    let num = render_milli(milli);
    let nl = num.len() as int;
    let pre = score_prefix();
    lemma_render_shape(milli);
    let n = c.len() as int;
    assert(n == rl + 8 + nl);
    // where each byte of the canonical text comes from
    assert(forall|i: int| 0 <= i < rl ==> c[i] == reason[i]);
    assert(c[rl] == 10);
    assert forall|i: int| 0 <= i < 7 implies c[rl + 1 + i] == #[trigger] pre[i] by {
        assert((reason + seq![10u8] + pre + num)[rl + 1 + i] == pre[i]);
    }
    assert forall|i: int| 0 <= i < nl implies c[rl + 8 + i] == #[trigger] num[i] by {
        assert((reason + seq![10u8] + pre + num)[rl + 8 + i] == num[i]);
    }
    // no fence opens the text, so nothing is stripped in front
    assert(reply_lo(c) == 0) by {
        if rl >= 3 {
            assert(c[0] == reason[0] && c[1] == reason[1] && c[2] == reason[2]);
        } else {
            assert(c[rl] == 10 && rl < 3);
        }
    }
    // the text ends in a digit, so nothing is stripped behind
    assert(is_digit(c[n - 1])) by {
        assert(c[rl + 8 + (nl - 1)] == num[nl - 1]);
    }
    assert(rtrim_idx(c, 0, n) == n);
    assert(!fence_at(c, n - 3));
    assert(reply_hi(c, 0) == n);
    // the line feed before the score line is the last one
    assert forall|t: int| rl < t < n implies c[t] != 10 by {
        if t < rl + 8 {
            assert(c[rl + 1 + (t - rl - 1)] == pre[t - rl - 1]);
        } else {
            assert(c[rl + 8 + (t - rl - 8)] == num[t - rl - 8]);
        }
    }
    lemma_last_nl_at(c, 0, n, rl);
    let a = rl + 1;
    assert(reply_score_start(c, 0, n) == a);
    assert(reply_reason_end(c, 0, n) == rl);
    // the reason segment is the reason, single-line and already trimmed
    lemma_last_nl_none(c, 0, rl);
    assert(!reply_multi(c));
    assert(skip_ws_idx(c, 0, rl) == 0) by {
        if rl > 0 {
            assert(!is_ws(c[0]));
        }
    }
    assert(rtrim_idx(c, 0, rl) == rl) by {
        if rl > 0 {
            assert(!is_ws(c[rl - 1]));
        }
    }
    assert(reply_reason(c) == reason) by {
        assert(c.subrange(0, rl) =~= reason);
    }
    // the score line is worth the score
    assert forall|i: int| 0 <= i < 7 implies c[a + i] == #[trigger] score_prefix()[i] by {
        assert(c[rl + 1 + i] == pre[i]);
    }
    assert forall|i: int| 0 <= i < nl implies c[a + 7 + i] == #[trigger] render_milli(milli)[i] by {
        assert(c[rl + 8 + i] == num[i]);
    }
    lemma_score_line_of_render(c, a, milli);
    assert(reply_milli(c) == Some(milli));
}

} // verus!
