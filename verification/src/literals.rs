//! What a numeric literal is worth: the digits a literal with a fraction or an exponent
//! expands to denote its mantissa times the power of ten it is scaled by, and the token a
//! decimal literal lexes to carries exactly that value.

use crate::check::{lemma_digits_below, lemma_leading_at_least};
use crate::decimal::{lemma_pow10_pos, lemma_strip_zeros_value, pow10};
use crate::check::{all_digit_chars, digits_value};
use crate::lexer::{
    all_digits, before_exp, dec_value, exp_pos, exp_value, expand_pow10_spec, in_class, in_u256_range, is_digit,
    keep_only, number_finish, number_step, peek_at, run_end, step, strip_zeros, zeros, StepV, TokV, CLS_DIGIT,
    CLS_DIGIT_US,
};
use crate::limits::MAX_INPUT_BYTES;
use crate::text::ascii_chars;
use vstd::arithmetic::div_mod::{lemma_mod_multiples_vanish, lemma_small_mod};
use vstd::prelude::*;

verus! {

/// Digits written after others shift them up by their count.
proof fn lemma_dec_concat(a: Seq<u8>, b: Seq<u8>)
    ensures
        dec_value(a + b) == dec_value(a) * pow10(b.len()) + dec_value(b),
    decreases b.len(),
{
    if b.len() == 0 {
        assert(a + b =~= a);
        assert(dec_value(b) == 0);
        assert(pow10(0) == 1);
    } else {
        let b1 = b.drop_last();
        assert((a + b).drop_last() =~= a + b1);
        assert((a + b).last() == b.last());
        lemma_dec_concat(a, b1);
        let x: int = (b.last() - 48) as nat as int;
        let va: int = dec_value(a) as int;
        let p: int = pow10(b1.len()) as int;
        let vb: int = dec_value(b1) as int;
        assert(dec_value(a + b) == dec_value(a + b1) * 10 + x);
        assert(dec_value(b) == vb * 10 + x);
        assert(pow10(b.len()) == 10 * p);
        assert((va * p + vb) * 10 + x == va * (10 * p) + (vb * 10 + x)) by (nonlinear_arith);
    }
}

/// A digit string is worth nothing exactly when it is all zeros.
proof fn lemma_dec_zero(s: Seq<u8>)
    requires
        all_digits(s),
    ensures
        dec_value(s) == 0 <==> s == zeros(s.len()),
    decreases s.len(),
{
    if s.len() > 0 {
        let r = s.drop_last();
        assert(all_digits(r)) by {
            assert forall|k: int| 0 <= k < r.len() implies crate::lexer::is_digit(#[trigger] r[k]) by {
                assert(r[k] == s[k]);
            }
        }
        assert(crate::lexer::is_digit(s[s.len() - 1]));
        lemma_dec_zero(r);
        if s == zeros(s.len()) {
            assert(r =~= zeros(r.len()));
        }
        if dec_value(s) == 0 {
            assert(s =~= zeros(s.len())) by {
                assert(s =~= r.push(s.last()));
            }
        }
    } else {
        assert(s =~= zeros(0));
    }
}

/// `10^a <= 10^b` for `a <= b`.
proof fn lemma_pow10_mono(a: nat, b: nat)
    requires
        a <= b,
    ensures
        pow10(a) <= pow10(b),
    decreases b,
{
    if a < b {
        lemma_pow10_mono(a, (b - 1) as nat);
    }
}

/// A literal's mantissa scaled by `10^scale` (a fraction's length subtracted, an exponent
/// added): where the result is an integer it is given, as digits worth exactly
/// `mantissa × 10^scale`; it is refused exactly where a negative scale would drop a digit
/// that is not zero, that is where `10^-scale` does not divide the mantissa.
pub proof fn lemma_scaled_literal_value(mantissa: Seq<u8>, scale: int)
    requires
        all_digits(mantissa),
        scale < 100,
    ensures
        expand_pow10_spec(mantissa, scale) is None <==> (scale < 0 && dec_value(mantissa) % pow10((-scale) as nat) != 0),
        expand_pow10_spec(mantissa, scale) matches Some(t) ==> {
            &&& all_digits(t)
            &&& t.len() > 0
            &&& scale >= 0 ==> dec_value(t) == dec_value(mantissa) * pow10(scale as nat)
            &&& scale < 0 ==> dec_value(t) * pow10((-scale) as nat) == dec_value(mantissa)
        },
{
    let m = strip_zeros(mantissa);
    lemma_strip_zeros_value(mantissa);
    let v = dec_value(mantissa);
    if m.len() == 0 {
        assert(dec_value(m) == 0);
        let t = seq![48u8];
        assert(t.drop_last() =~= Seq::<u8>::empty());
        assert(t.last() == 48u8);
        assert(dec_value(Seq::<u8>::empty()) == 0);
        assert(dec_value(t) == dec_value(t.drop_last()) * 10 + (t.last() - 48) as nat);
        assert(dec_value(t) == 0);
        assert(all_digits(t));
        assert(expand_pow10_spec(mantissa, scale) == Some(t));
        assert(v == 0);
        if scale >= 0 {
            assert(dec_value(t) == v * pow10(scale as nat));
        }
        if scale < 0 {
            let p = pow10((-scale) as nat);
            lemma_pow10_pos((-scale) as nat);
            lemma_small_mod(0, p);
            assert(dec_value(t) * p == v);
        }
    } else if scale == 0 {
        assert(pow10(0) == 1);
        assert(expand_pow10_spec(mantissa, scale) == Some(m));
        assert(dec_value(m) * pow10(0) == v);
    } else if scale > 0 {
        let n = scale as nat;
        lemma_dec_concat(m, zeros(n));
        lemma_dec_zero(zeros(n));
        assert(zeros(n).len() == n);
        assert(all_digits(m + zeros(n))) by {
            assert forall|k: int| 0 <= k < (m + zeros(n)).len() implies crate::lexer::is_digit(#[trigger] (m + zeros(n))[k]) by {
                if k >= m.len() {
                    assert((m + zeros(n))[k] == 48u8);
                }
            }
        }
        assert(expand_pow10_spec(mantissa, scale) == Some(m + zeros(n)));
        assert(dec_value(m + zeros(n)) == v * pow10(n));
    } else {
        let n = (-scale) as nat;
        let p = pow10(n);
        lemma_pow10_pos(n);
        if n < m.len() {
            let t = m.take(m.len() - n);
            let u = m.skip(m.len() - n);
            assert(m =~= t + u);
            lemma_dec_concat(t, u);
            assert(u.len() == n);
            assert(all_digits(u)) by {
                assert forall|k: int| 0 <= k < u.len() implies crate::lexer::is_digit(#[trigger] u[k]) by {
                    assert(u[k] == m[k + m.len() - n]);
                }
            }
            assert(all_digits(t)) by {
                assert forall|k: int| 0 <= k < t.len() implies crate::lexer::is_digit(#[trigger] t[k]) by {
                    assert(t[k] == m[k]);
                }
            }
            lemma_dec_zero(u);
            lemma_digits_below(u);
            let q = dec_value(t) as int;
            let r = dec_value(u) as int;
            assert(v == p * q + r) by (nonlinear_arith)
                requires
                    v == q * p + r,
            ;
            lemma_mod_multiples_vanish(q, r, p as int);
            lemma_small_mod(r as nat, p);
            if u == zeros(n) {
                assert(expand_pow10_spec(mantissa, scale) == Some(t));
                assert(dec_value(t) * p == v);
            }
        } else {
            lemma_leading_at_least(m);
            lemma_digits_below(m);
            lemma_pow10_mono(m.len(), n);
            lemma_pow10_pos((m.len() - 1) as nat);
            lemma_small_mod(v, p);
        }
    }
}

// ── What a decimal literal is worth ─────────────────────────────────────────

/// The position of the first `.` of `s` at or after `k` (or the end).
pub open spec fn point_pos(s: Seq<u8>, k: int) -> int
    decreases s.len() - k,
{
    if k < 0 || k >= s.len() || s[k] == 46 {
        k
    } else {
        point_pos(s, k + 1)
    }
}

/// A `0x`/`0X` literal text.
pub open spec fn is_hex_text(lit: Seq<u8>) -> bool {
    lit.len() >= 2 && lit[0] == 48 && (lit[1] == 120 || lit[1] == 88)
}

/// The digits of a decimal literal before its exponent marker: its integer and fractional
/// digits, with the point and the `_` separators left out.
pub open spec fn mantissa_digits(lit: Seq<u8>) -> Seq<u8> {
    keep_only(before_exp(lit), CLS_DIGIT)
}

/// The number of fractional digits of a decimal literal: the digits after its point and
/// before its exponent marker.
pub open spec fn fraction_len(lit: Seq<u8>) -> nat {
    fraction_len_of(before_exp(lit))
}

/// The exponent of a decimal literal: the value of the digits after its `e`/`E` (and an
/// optional `+`), zero where it has none.
pub open spec fn exponent_value(lit: Seq<u8>) -> nat {
    let k = exp_pos(lit, 0);
    if k >= lit.len() {
        0
    } else {
        let r = lit.skip(k + 1);
        if r.len() > 0 && r[0] == 43 {
            dec_value(r.skip(1))
        } else {
            dec_value(r)
        }
    }
}

/// `10^(a+b) = 10^a * 10^b`.
proof fn lemma_pow10_add(a: nat, b: nat)
    ensures
        pow10(a + b) == pow10(a) * pow10(b),
    decreases b,
{
    if b > 0 {
        lemma_pow10_add(a, (b - 1) as nat);
        let x = pow10(a) as int;
        let y = pow10((b - 1) as nat) as int;
        assert(pow10(a + b) == 10 * pow10((a + b - 1) as nat));
        assert(pow10(b) == 10 * y);
        assert(x * (10 * y) == 10 * (x * y)) by (nonlinear_arith);
    } else {
        assert(pow10(0) == 1);
        assert(a + b == a);
    }
}

/// ASCII digit characters are worth what their bytes are.
proof fn lemma_ascii_digits_value(x: Seq<u8>)
    requires
        all_digits(x),
    ensures
        all_digit_chars(ascii_chars(x)),
        digits_value(ascii_chars(x)) == dec_value(x),
    decreases x.len(),
{
    let t = ascii_chars(x);
    assert forall|k: int| 0 <= k < t.len() implies crate::check::is_digit_char(#[trigger] t[k]) by {
        assert(is_digit(x[k]));
        assert(t[k] == x[k] as char);
    }
    if x.len() > 0 {
        let r = x.drop_last();
        assert(all_digits(r)) by {
            assert forall|k: int| 0 <= k < r.len() implies is_digit(#[trigger] r[k]) by {
                assert(r[k] == x[k]);
            }
        }
        lemma_ascii_digits_value(r);
        assert(t.drop_last() =~= ascii_chars(r));
        assert(t.last() == x.last() as char);
        assert(is_digit(x[x.len() - 1]));
    }
}

/// The first `e`/`E` at or after `k` is at `j` when none lies in between.
proof fn lemma_exp_pos_at(s: Seq<u8>, k: int, j: int)
    requires
        0 <= k <= j <= s.len(),
        forall|q: int| k <= q < j ==> s[q] != 101 && s[q] != 69,
        j == s.len() || s[j] == 101 || s[j] == 69,
    ensures
        exp_pos(s, k) == j,
    decreases j - k,
{
    if k < j {
        lemma_exp_pos_at(s, k + 1, j);
    }
}

/// The first `.` at or after `k` is at `j` when none lies in between.
proof fn lemma_point_pos_at(s: Seq<u8>, k: int, j: int)
    requires
        0 <= k <= j <= s.len(),
        forall|q: int| k <= q < j ==> s[q] != 46,
        j == s.len() || s[j] == 46,
    ensures
        point_pos(s, k) == j,
    decreases j - k,
{
    if k < j {
        lemma_point_pos_at(s, k + 1, j);
    }
}

/// Every byte of a run of digits and separators is one of them.
proof fn lemma_run_digits_us(b: Seq<u8>, k: int)
    requires
        0 <= k <= b.len(),
    ensures
        k <= run_end(b, k, CLS_DIGIT_US) <= b.len(),
        forall|j: int| k <= j < run_end(b, k, CLS_DIGIT_US) ==> is_digit(#[trigger] b[j]) || b[j] == 95,
    decreases b.len() - k,
{
    if k < b.len() && in_class(CLS_DIGIT_US, b[k]) {
        lemma_run_digits_us(b, k + 1);
    }
}

/// Every byte of a run of digits is a digit.
proof fn lemma_run_digits(b: Seq<u8>, k: int)
    requires
        0 <= k <= b.len(),
    ensures
        k <= run_end(b, k, CLS_DIGIT) <= b.len(),
        forall|j: int| k <= j < run_end(b, k, CLS_DIGIT) ==> is_digit(#[trigger] b[j]),
    decreases b.len() - k,
{
    if k < b.len() && in_class(CLS_DIGIT, b[k]) {
        lemma_run_digits(b, k + 1);
    }
}

/// Keeping the digits of a run of digits keeps it whole.
proof fn lemma_keep_digits(x: Seq<u8>)
    requires
        all_digits(x),
    ensures
        keep_only(x, CLS_DIGIT) == x,
    decreases x.len(),
{
    if x.len() > 0 {
        let r = x.drop_last();
        assert(all_digits(r)) by {
            assert forall|k: int| 0 <= k < r.len() implies is_digit(#[trigger] r[k]) by {
                assert(r[k] == x[k]);
            }
        }
        lemma_keep_digits(r);
        assert(is_digit(x[x.len() - 1]));
        assert(r.push(x.last()) =~= x);
    }
}

/// Keeping the digits gives digits only.
proof fn lemma_keep_only_digits(x: Seq<u8>)
    ensures
        all_digits(keep_only(x, CLS_DIGIT)),
    decreases x.len(),
{
    if x.len() > 0 {
        lemma_keep_only_digits(x.drop_last());
        let r = keep_only(x.drop_last(), CLS_DIGIT);
        if in_class(CLS_DIGIT, x.last()) {
            assert forall|k: int| 0 <= k < r.push(x.last()).len() implies is_digit(#[trigger] r.push(x.last())[k]) by {
                if k < r.len() {
                    assert(r.push(x.last())[k] == r[k]);
                }
            }
        }
    }
}

/// An oversized expansion of a non-zero mantissa is out of the u256 range.
proof fn lemma_padded_out_of_range(m: Seq<u8>)
    requires
        m.len() > 0,
        m[0] != 48,
    ensures
        !in_u256_range(m + zeros(100)),
{
    let t = m + zeros(100);
    assert(t[0] == m[0]);
    assert(strip_zeros(t) == t);
}

/// A run starting in bounds ends at or after its start.
proof fn lemma_run_end_ge(b: Seq<u8>, k: int, cls: u8)
    requires
        0 <= k <= b.len(),
    ensures
        k <= run_end(b, k, cls) <= b.len(),
    decreases b.len() - k,
{
    if k < b.len() && in_class(cls, b[k]) {
        lemma_run_end_ge(b, k + 1, cls);
    }
}

/// A `0x` literal's text starts with `0x`.
proof fn lemma_hex_end(b: Seq<u8>, s: int)
    requires
        0 <= s < b.len(),
        b[s] == 48,
        peek_at(b, s + 1) == Some(120u8) || peek_at(b, s + 1) == Some(88u8),
    ensures
        number_step(b, s) matches StepV::Emit(_, s2, e) ==> is_hex_text(b.subrange(s2, e)),
{
    lemma_run_end_ge(b, s + 2, crate::lexer::CLS_HEX_US);
}

/// What a mantissa scaled to an integer and range-checked is worth.
proof fn lemma_finish_value(b: Seq<u8>, s: int, e: int, scale: int, f: nat, x: nat)
    requires
        0 <= s <= e <= b.len(),
        f <= MAX_INPUT_BYTES,
        (x <= i64::MAX && scale == x - f) || (x > i64::MAX && scale == i64::MAX - f),
    ensures
        number_finish(b, s, e, scale) matches StepV::Emit(TokV::Num(t), _, _) ==> (all_digit_chars(t) && digits_value(t)
            * pow10(f) == dec_value(mantissa_digits(b.subrange(s, e))) * pow10(x)),
{
    let mant = mantissa_digits(b.subrange(s, e));
    lemma_keep_only_digits(before_exp(b.subrange(s, e)));
    lemma_strip_zeros_value(mant);
    let m = strip_zeros(mant);
    let dm = dec_value(mant);
    if number_finish(b, s, e, scale) is Emit {
        let t0 = expand_pow10_spec(mant, scale)->Some_0;
        if m.len() == 0 {
            let z = seq![48u8];
            assert(z.drop_last() =~= Seq::<u8>::empty());
            assert(dec_value(z) == dec_value(z.drop_last()) * 10 + (z.last() - 48) as nat);
            assert(all_digits(z));
            assert(t0 == z);
            lemma_ascii_digits_value(z);
            assert(dm == 0);
            assert(dec_value(z) == 0);
            assert(0 * pow10(f) == 0 * pow10(x));
        } else if scale >= 100 {
            lemma_padded_out_of_range(m);
            assert(t0 == m + zeros(100));
            assert(false);
        } else {
            assert(x <= i64::MAX);
            lemma_scaled_literal_value(mant, scale);
            lemma_ascii_digits_value(t0);
            let v = dec_value(t0) as int;
            if scale >= 0 {
                let a = scale as nat;
                lemma_pow10_add(a, f);
                assert(a + f == x);
                let pa = pow10(a) as int;
                let pf = pow10(f) as int;
                assert(v == dm * pa);
                assert(v * pf == dm * (pa * pf)) by (nonlinear_arith)
                    requires
                        v == dm * pa,
                ;
            } else {
                let a = (-scale) as nat;
                lemma_pow10_add(a, x);
                assert(a + x == f);
                let pa = pow10(a) as int;
                let px = pow10(x) as int;
                assert(v * pa == dm);
                assert(v * (pa * px) == dm * px) by (nonlinear_arith)
                    requires
                        v * pa == dm,
                ;
            }
        }
    }
}

/// The shape of a decimal literal's text: its value as `lemma_decimal_literal_value` states.
proof fn lemma_decimal_shape(b: Seq<u8>, s: int)
    requires
        0 <= s < b.len(),
        b.len() <= MAX_INPUT_BYTES,
        is_digit(b[s]),
        !(b[s] == 48 && (peek_at(b, s + 1) == Some(120u8) || peek_at(b, s + 1) == Some(88u8))),
    ensures
        number_step(b, s) matches StepV::Emit(TokV::Num(t), s2, e) ==> (all_digit_chars(t) && digits_value(t) * pow10(
            fraction_len(b.subrange(s2, e)),
        ) == dec_value(mantissa_digits(b.subrange(s2, e))) * pow10(exponent_value(b.subrange(s2, e)))),
{
    let e1 = run_end(b, s, CLS_DIGIT_US);
    lemma_run_digits_us(b, s);
    let has_pt = peek_at(b, e1) == Some(46u8);
    if has_pt {
        lemma_run_digits_us(b, e1 + 1);
    }
    let e2 = if has_pt {
        run_end(b, e1 + 1, CLS_DIGIT_US)
    } else {
        e1
    };
    let fl: nat = if has_pt {
        keep_only(b.subrange(e1 + 1, e2), CLS_DIGIT).len()
    } else {
        0
    };
    assert(s <= e1 <= e2 <= b.len());
    lemma_keep_only_len_le(b.subrange(e1 + 1, e2));
    // no byte before `e2` is an exponent marker, and the first point (if any) is at `e1`
    assert forall|q: int| s <= q < e2 implies b[q] != 101 && b[q] != 69 && (b[q] == 46 ==> q == e1) by {
        if q < e1 {
            assert(is_digit(b[q]) || b[q] == 95);
        } else if q > e1 {
            assert(is_digit(b[q]) || b[q] == 95);
        }
    }
    let has_exp = peek_at(b, e2) == Some(101u8) || peek_at(b, e2) == Some(69u8);
    let big = b.subrange(s, e2);
    if has_pt {
        lemma_point_pos_at(big, 0, e1 - s);
        assert(big.skip(e1 - s + 1) =~= b.subrange(e1 + 1, e2));
    } else {
        lemma_point_pos_at(big, 0, big.len() as int);
    }
    assert(fraction_len_of(big) == fl);
    if has_exp {
        let es = if peek_at(b, e2 + 1) == Some(43u8) {
            e2 + 2
        } else {
            e2 + 1
        };
        lemma_run_digits(b, es);
        let ee = run_end(b, es, CLS_DIGIT);
        if ee != es {
            let l = b.subrange(s, ee);
            lemma_exp_pos_at(l, 0, e2 - s);
            assert(before_exp(l) =~= big);
            let r = l.skip(e2 - s + 1);
            assert(r =~= b.subrange(e2 + 1, ee));
            if es == e2 + 2 {
                assert(r.skip(1) =~= b.subrange(es, ee));
            } else {
                assert(r =~= b.subrange(es, ee));
            }
            let x = dec_value(b.subrange(es, ee));
            assert(exponent_value(l) == x);
            assert(fraction_len(l) == fl);
            lemma_finish_value(b, s, ee, exp_value(b.subrange(es, ee)) - fl, fl, x);
        }
    } else {
        let l = big;
        lemma_exp_pos_at(l, 0, l.len() as int);
        assert(before_exp(l) =~= l);
        assert(exponent_value(l) == 0);
        assert(fraction_len(l) == fl);
        lemma_finish_value(b, s, e2, 0 - fl, fl, 0);
    }
}

/// The number of fractional digits of a text without an exponent marker.
pub open spec fn fraction_len_of(m: Seq<u8>) -> nat {
    let p = point_pos(m, 0);
    if p < m.len() {
        keep_only(m.skip(p + 1), CLS_DIGIT).len()
    } else {
        0
    }
}

proof fn lemma_keep_only_len_le(s: Seq<u8>)
    ensures
        keep_only(s, CLS_DIGIT).len() <= s.len(),
    decreases s.len(),
{
    if s.len() > 0 {
        lemma_keep_only_len_le(s.drop_last());
    }
}

/// The value a decimal literal lexes to, scaled by its fractional digits, is its mantissa
/// times ten to its exponent: `2.5e3` is 2500, `1_000` is 1000, `1e18` is 10^18. (A `0x`
/// literal keeps its hex digits.)
pub proof fn lemma_decimal_literal_value(b: Seq<u8>, i: int)
    requires
        0 <= i < b.len(),
        b.len() <= MAX_INPUT_BYTES,
    ensures
        step(b, i) matches StepV::Emit(TokV::Num(t), s, e) ==> (is_hex_text(b.subrange(s, e)) || (
        all_digit_chars(t) && digits_value(t) * pow10(fraction_len(b.subrange(s, e))) == dec_value(
            mantissa_digits(b.subrange(s, e)),
        ) * pow10(exponent_value(b.subrange(s, e))))),
{
    if is_digit(b[i]) {
        lemma_number_value(b, i);
    }
}

/// A numeric literal lexed at `s`: a `0x` text, or a decimal one worth its value.
proof fn lemma_number_value(b: Seq<u8>, s: int)
    requires
        0 <= s < b.len(),
        b.len() <= MAX_INPUT_BYTES,
        is_digit(b[s]),
    ensures
        number_step(b, s) matches StepV::Emit(TokV::Num(t), s2, e) ==> (is_hex_text(b.subrange(s2, e)) || (
        all_digit_chars(t) && digits_value(t) * pow10(fraction_len(b.subrange(s2, e))) == dec_value(
            mantissa_digits(b.subrange(s2, e)),
        ) * pow10(exponent_value(b.subrange(s2, e))))),
{
    if b[s] == 48 && (peek_at(b, s + 1) == Some(120u8) || peek_at(b, s + 1) == Some(88u8)) {
        if number_step(b, s) is Emit {
            let e = number_step(b, s)->Emit_2;
            lemma_hex_end(b, s);
            assert(is_hex_text(b.subrange(s, e)));
        }
    } else {
        lemma_decimal_shape(b, s);
    }
}

} // verus!
