//! Decimal digit strings as numbers: the exact product by a `u64` factor and the checked
//! constant exponentiation `base ** exp` bounded by the u256 range.

use crate::lexer::{all_digits, dec_value, in_u256_range, is_digit, strip_zeros, u256_decimal_in_range};
use vstd::prelude::*;
use vstd::slice::slice_to_vec;

verus! {

/// `10^n`.
pub open spec fn pow10(n: nat) -> nat
    decreases n,
{
    if n == 0 {
        1
    } else {
        10 * pow10((n - 1) as nat)
    }
}

/// `b^e` over the naturals.
pub open spec fn pow_nat(b: nat, e: nat) -> nat
    decreases e,
{
    if e == 0 {
        1
    } else {
        b * pow_nat(b, (e - 1) as nat)
    }
}

/// The canonical decimal digits of `v` (no leading zero; `"0"` for zero).
pub open spec fn dec_bytes(v: nat) -> Seq<u8>
    decreases v,
{
    if v < 10 {
        seq![(48 + v) as u8]
    } else {
        dec_bytes(v / 10).push((48 + v % 10) as u8)
    }
}

/// The value of little-endian digit values (least significant first).
pub open spec fn le_value(d: Seq<u8>) -> nat
    decreases d.len(),
{
    if d.len() == 0 {
        0
    } else {
        le_value(d.drop_last()) + (d.last() as nat) * pow10((d.len() - 1) as nat)
    }
}

/// Little-endian digit values written out most significant first, as ASCII digits.
pub open spec fn rev_ascii(d: Seq<u8>) -> Seq<u8> {
    Seq::new(d.len(), |j: int| (d[d.len() - 1 - j] + 48) as u8)
}

/// Every power `b^1 ..= b^e` is a u256 value (by its canonical digits).
pub open spec fn powers_in_range(b: nat, e: nat) -> bool {
    forall|k: nat| 1 <= k <= e ==> #[trigger] in_u256_range(dec_bytes(pow_nat(b, k)))
}

pub(crate) proof fn lemma_pow10_pos(n: nat)
    ensures
        pow10(n) >= 1,
    decreases n,
{
    if n > 0 {
        lemma_pow10_pos((n - 1) as nat);
    }
}

/// A leading digit contributes its value times `10^len(rest)`.
pub(crate) proof fn lemma_dec_prepend(c: u8, s: Seq<u8>)
    requires
        is_digit(c),
    ensures
        dec_value(seq![c] + s) == (c - 48) * pow10(s.len()) + dec_value(s),
    decreases s.len(),
{
    let t = seq![c] + s;
    if s.len() == 0 {
        assert(t =~= seq![c]);
        assert(t.drop_last() =~= Seq::<u8>::empty());
        assert(t.last() == c);
        assert(dec_value(t) == dec_value(t.drop_last()) * 10 + (t.last() - 48) as nat);
        assert(dec_value(s) == 0);
        assert(pow10(0) == 1);
        assert(dec_value(t) == (c - 48) as nat);
    } else {
        assert(t.drop_last() =~= seq![c] + s.drop_last());
        assert(t.last() == s.last());
        lemma_dec_prepend(c, s.drop_last());
        let a: int = (c - 48) as int;
        let p: int = pow10((s.len() - 1) as nat) as int;
        let q: int = dec_value(s.drop_last()) as int;
        let x: int = (s.last() - 48) as nat as int;
        assert(dec_value(t) == dec_value(t.drop_last()) * 10 + x);
        assert(dec_value(t.drop_last()) == a * p + q);
        assert(dec_value(s) == q * 10 + x);
        assert(pow10(s.len()) == 10 * p);
        assert((a * p + q) * 10 + x == a * (10 * p) + (q * 10 + x)) by (nonlinear_arith);
    }
}

/// `rev_ascii` reads back the little-endian value.
proof fn lemma_rev_ascii_value(d: Seq<u8>)
    requires
        forall|j: int| 0 <= j < d.len() ==> #[trigger] d[j] < 10,
    ensures
        all_digits(rev_ascii(d)),
        dec_value(rev_ascii(d)) == le_value(d),
    decreases d.len(),
{
    if d.len() > 0 {
        let r = d.drop_last();
        lemma_rev_ascii_value(r);
        assert(rev_ascii(d) =~= seq![(d.last() + 48) as u8] + rev_ascii(r));
        lemma_dec_prepend((d.last() + 48) as u8, rev_ascii(r));
    }
}

/// Leading zeros carry no value.
pub(crate) proof fn lemma_strip_zeros_value(s: Seq<u8>)
    requires
        all_digits(s),
    ensures
        dec_value(strip_zeros(s)) == dec_value(s),
        all_digits(strip_zeros(s)),
        strip_zeros(s).len() > 0 ==> strip_zeros(s)[0] != 48,
    decreases s.len(),
{
    if s.len() > 0 && s[0] == 48 {
        let t = s.drop_first();
        lemma_strip_zeros_value(t);
        assert(s =~= seq![s[0]] + t);
        lemma_dec_prepend(s[0], t);
    }
}

/// A digit string with a non-zero leading digit is the canonical text of its value.
pub(crate) proof fn lemma_canonical(t: Seq<u8>)
    requires
        all_digits(t),
        t.len() > 0,
        t[0] != 48,
    ensures
        dec_value(t) >= 1,
        t == dec_bytes(dec_value(t)),
    decreases t.len(),
{
    assert(is_digit(t[0]));
    if t.len() == 1 {
        assert(t.drop_last() =~= Seq::<u8>::empty());
        assert(t =~= seq![t[0]]);
        let v = dec_value(t);
        assert(t.last() == t[0]);
        assert(v == dec_value(t.drop_last()) * 10 + (t.last() - 48) as nat);
        assert(v == (t[0] - 48) as nat);
        assert(v < 10);
        assert(dec_bytes(v) == seq![(48 + v) as u8]);
        assert(((48 + v) as u8) == t[0]);
    } else {
        let r = t.drop_last();
        assert(r[0] == t[0]);
        assert(all_digits(r));
        lemma_canonical(r);
        let v = dec_value(t);
        let a = dec_value(r);
        assert(is_digit(t.last()));
        let b = (t.last() - 48) as nat;
        assert(v == a * 10 + b);
        assert(v / 10 == a && v % 10 == b) by (nonlinear_arith)
            requires
                v == a * 10 + b,
                b < 10,
        ;
        assert(v >= 10);
        assert(dec_bytes(v) == dec_bytes(v / 10).push((48 + v % 10) as u8));
        assert(((48 + b) as u8) == t.last());
        assert(t =~= r.push(t.last()));
    }
}

/// The u256 range test on digit strings depends only on the value.
proof fn lemma_range_by_value(s: Seq<u8>)
    requires
        all_digits(s),
    ensures
        in_u256_range(s) == in_u256_range(dec_bytes(dec_value(s))),
{
    let v = dec_value(s);
    lemma_strip_zeros_value(s);
    let c = dec_bytes(v);
    lemma_dec_bytes_digits(v);
    lemma_strip_zeros_value(c);
    let sc = strip_zeros(c);
    let ss = strip_zeros(s);
    if ss.len() > 0 {
        lemma_canonical(ss);
    }
    if sc.len() > 0 {
        lemma_canonical(sc);
    }
    if ss.len() > 0 && sc.len() > 0 {
        assert(ss == sc);
    } else if ss.len() == 0 && sc.len() > 0 {
        assert(false);
    } else if ss.len() > 0 && sc.len() == 0 {
        assert(false);
    }
}

/// Canonical digits are digits.
pub(crate) proof fn lemma_dec_bytes_digits(v: nat)
    ensures
        all_digits(dec_bytes(v)),
        dec_value(dec_bytes(v)) == v,
        dec_bytes(v).len() > 0,
    decreases v,
{
    let d = dec_bytes(v);
    if v >= 10 {
        lemma_dec_bytes_digits(v / 10);
        assert(d == dec_bytes(v / 10).push((48 + v % 10) as u8));
        assert(d.drop_last() =~= dec_bytes(v / 10));
        assert(d.last() == (48 + v % 10) as u8);
        assert(v == (v / 10) * 10 + v % 10) by (nonlinear_arith);
        assert(dec_value(d) == dec_value(d.drop_last()) * 10 + (d.last() - 48) as nat);
        assert forall|k: int| 0 <= k < d.len() implies is_digit(#[trigger] d[k]) by {
            if k < d.len() - 1 {
                assert(d[k] == dec_bytes(v / 10)[k]);
            }
        }
    } else {
        assert(d == seq![(48 + v) as u8]);
        assert(d.drop_last() =~= Seq::<u8>::empty());
        assert(dec_value(d) == dec_value(d.drop_last()) * 10 + (d.last() - 48) as nat);
    }
}

/// The decimal digits of `num × factor` (value-exact; `num` all digits).
pub fn mul_u64_decimal(num: &[u8], factor: u64) -> (r: Vec<u8>)
    requires
        all_digits(num@),
    ensures
        all_digits(r@),
        r@.len() > 0,
        dec_value(r@) == dec_value(num@) * factor,
        num@.len() > 0 && num@[0] != 48 && factor > 0 ==> r@[0] != 48,
{
    let n = num.len();
    let mut digits: Vec<u8> = Vec::new();
    let mut carry: u128 = 0;
    let mut k: usize = 0;
    assert(num@.skip(n as int) =~= Seq::<u8>::empty());
    assert(le_value(digits@) == 0);
    assert(dec_value(num@.skip(n as int)) == 0);
    assert(pow10(0) == 1);
    assert(0 * factor == 0);
    while k < n
        invariant
            k <= n == num@.len(),
            all_digits(num@),
            digits@.len() == k,
            forall|j: int| 0 <= j < digits@.len() ==> #[trigger] digits@[j] < 10,
            carry <= u64::MAX,
            le_value(digits@) + carry * pow10(k as nat) == dec_value(num@.skip(n - k)) * factor,
            k == n && n > 0 && num@[0] != 48 && factor > 0 ==> carry > 0 || digits@[k - 1] != 0,
        decreases n - k,
    {
        let c = num[n - 1 - k];
        assert(is_digit(num@[n - 1 - k]));
        let d: u128 = (c - 48) as u128;
        assert(d * (factor as u128) <= 9 * 0xffff_ffff_ffff_ffffu128) by (nonlinear_arith)
            requires
                d <= 9,
                factor <= 0xffff_ffff_ffff_ffffu64,
        ;
        let prod: u128 = d * (factor as u128) + carry;
        let x: u8 = (prod % 10) as u8;
        let ncarry: u128 = prod / 10;
        if k + 1 == n && c != 48 && factor > 0 {
            assert(prod >= 1) by (nonlinear_arith)
                requires
                    d >= 1,
                    factor >= 1,
                    prod == d * factor + carry,
            ;
            assert(ncarry > 0 || x != 0);
        }
        proof {
            let old_suffix = num@.skip(n - k);
            assert(num@.skip(n - k - 1) =~= seq![c] + old_suffix);
            lemma_dec_prepend(c, old_suffix);
            let p = pow10(k as nat);
            let le0 = le_value(digits@);
            let dv = dec_value(old_suffix);
            assert(digits@.push(x).drop_last() =~= digits@);
            assert(le_value(digits@.push(x)) == le0 + x * p);
            assert(pow10((k + 1) as nat) == 10 * p);
            assert(le0 + x * p + ncarry * (10 * p) == (dv + d * p) * factor) by (nonlinear_arith)
                requires
                    le0 + carry * p == dv * factor,
                    prod == d * factor + carry,
                    x == prod % 10,
                    ncarry == prod / 10,
            ;
        }
        digits.push(x);
        carry = ncarry;
        k = k + 1;
    }
    assert(num@.skip(0) =~= num@);
    let ghost total = dec_value(num@) * factor;
    while carry > 0
        invariant
            forall|j: int| 0 <= j < digits@.len() ==> #[trigger] digits@[j] < 10,
            le_value(digits@) + carry * pow10(digits@.len() as nat) == total,
            total == dec_value(num@) * factor,
            n > 0 && num@[0] != 48 && factor > 0 ==> digits@.len() > 0 && (carry > 0 || digits@.last() != 0),
        decreases carry,
    {
        let x: u8 = (carry % 10) as u8;
        let ncarry: u128 = carry / 10;
        proof {
            let p = pow10(digits@.len() as nat);
            let le0 = le_value(digits@);
            assert(digits@.push(x).drop_last() =~= digits@);
            assert(le_value(digits@.push(x)) == le0 + x * p);
            assert(pow10((digits@.len() + 1) as nat) == 10 * p);
            assert(le0 + x * p + ncarry * (10 * p) == le0 + carry * p) by (nonlinear_arith)
                requires
                    x == carry % 10,
                    ncarry == carry / 10,
            ;
        }
        digits.push(x);
        carry = ncarry;
    }
    if digits.len() == 0 {
        assert(le_value(digits@) == 0);
        let mut z: Vec<u8> = Vec::new();
        z.push(48u8);
        assert(z@ =~= seq![48u8]);
        assert(z@.drop_last() =~= Seq::<u8>::empty());
        assert(dec_value(z@) == dec_value(z@.drop_last()) * 10 + (z@.last() - 48) as nat);
        return z;
    }
    let mut out: Vec<u8> = Vec::new();
    let m = digits.len();
    let mut j: usize = 0;
    while j < m
        invariant
            j <= m == digits@.len(),
            forall|q: int| 0 <= q < digits@.len() ==> #[trigger] digits@[q] < 10,
            out@ =~= rev_ascii(digits@).take(j as int),
        decreases m - j,
    {
        out.push(digits[m - 1 - j] + 48);
        j = j + 1;
    }
    proof {
        assert(out@ =~= rev_ascii(digits@));
        lemma_rev_ascii_value(digits@);
        assert(out@[0] == digits@[m - 1] + 48);
    }
    out
}

/// A `u64` parse of a non-empty digit string: `None` beyond `u64::MAX`.
pub fn parse_u64_digits(s: &[u8]) -> (r: Option<u64>)
    requires
        all_digits(s@),
    ensures
        r == (if dec_value(s@) <= u64::MAX {
            Some(dec_value(s@) as u64)
        } else {
            None::<u64>
        }),
{
    let mut v: u64 = 0;
    let mut k: usize = 0;
    while k < s.len()
        invariant
            k <= s@.len(),
            all_digits(s@),
            v == dec_value(s@.take(k as int)),
        decreases s@.len() - k,
    {
        assert(s@.take(k + 1).drop_last() =~= s@.take(k as int));
        assert(is_digit(s@[k as int]));
        let d: u64 = (s[k] - 48) as u64;
        match v.checked_mul(10) {
            Some(t) => match t.checked_add(d) {
                Some(w) => {
                    v = w;
                },
                None => {
                    proof {
                        lemma_prefix_value_le(s@, k + 1);
                    }
                    return None;
                },
            },
            None => {
                proof {
                    lemma_prefix_value_le(s@, k + 1);
                }
                return None;
            },
        }
        k = k + 1;
    }
    assert(s@.take(s@.len() as int) =~= s@);
    Some(v)
}

/// The value of a digit string bounds the value of each of its prefixes.
proof fn lemma_prefix_value_le(s: Seq<u8>, k: int)
    requires
        0 <= k <= s.len(),
        all_digits(s),
    ensures
        dec_value(s.take(k)) <= dec_value(s),
    decreases s.len() - k,
{
    if k < s.len() {
        lemma_prefix_value_le(s, k + 1);
        assert(s.take(k + 1).drop_last() =~= s.take(k));
        assert(is_digit(s[k]));
    } else {
        assert(s.take(k) =~= s);
    }
}

/// `base ** exp` for decimal digit strings, folded to its decimal digits.
///
/// `x ** 0` is `"1"`, `x ** 1` is `x` itself, `0 ** n` is `"0"` and `1 ** n` is `"1"` for
/// `n ≥ 1`; otherwise each power `base^1 ..= base^exp` must stay in the u256 range. An exponent
/// (or, for `exp ≥ 2`, a base) beyond `u64::MAX`, an exponent above 4096 with a base of at least
/// two, or a power out of range gives `None`.
pub fn fold_pow_decimal(base: &[u8], exp: &[u8]) -> (r: Option<Vec<u8>>)
    requires
        all_digits(base@),
        base@.len() > 0,
        all_digits(exp@),
        exp@.len() > 0,
    ensures
        dec_value(exp@) > u64::MAX ==> r is None,
        dec_value(exp@) == 0 ==> (r matches Some(s) && s@ == seq![49u8]),
        dec_value(exp@) == 1 ==> (r matches Some(s) && s@ == base@),
        2 <= dec_value(exp@) <= u64::MAX && dec_value(base@) > u64::MAX ==> r is None,
        2 <= dec_value(exp@) <= u64::MAX && dec_value(base@) == 0 ==> (r matches Some(s) && s@
            == seq![48u8]),
        2 <= dec_value(exp@) <= u64::MAX && dec_value(base@) == 1 ==> (r matches Some(s) && s@
            == seq![49u8]),
        2 <= dec_value(exp@) && 2 <= dec_value(base@) <= u64::MAX && dec_value(exp@) > 4096
            ==> r is None,
        2 <= dec_value(exp@) <= 4096 && 2 <= dec_value(base@) <= u64::MAX ==> (r is Some
            <==> powers_in_range(dec_value(base@), dec_value(exp@))),
        2 <= dec_value(exp@) <= 4096 && 2 <= dec_value(base@) ==> (r matches Some(s) ==> all_digits(
            s@) && dec_value(s@) == pow_nat(dec_value(base@), dec_value(exp@)) && s@ == dec_bytes(
            pow_nat(dec_value(base@), dec_value(exp@)))),
{
    let exp_v = match parse_u64_digits(exp) {
        Some(v) => v,
        None => return None,
    };
    if exp_v == 0 {
        let mut one: Vec<u8> = Vec::new();
        one.push(49u8);
        assert(one@ =~= seq![49u8]);
        return Some(one);
    }
    if exp_v == 1 {
        return Some(slice_to_vec(base));
    }
    let base_v = match parse_u64_digits(base) {
        Some(v) => v,
        None => return None,
    };
    if base_v == 0 {
        let mut zero: Vec<u8> = Vec::new();
        zero.push(48u8);
        assert(zero@ =~= seq![48u8]);
        return Some(zero);
    }
    if base_v == 1 {
        let mut one: Vec<u8> = Vec::new();
        one.push(49u8);
        assert(one@ =~= seq![49u8]);
        return Some(one);
    }
    if exp_v > 4096 {
        return None;
    }
    let mut result: Vec<u8> = Vec::new();
    result.push(49u8);
    assert(result@ =~= seq![49u8]);
    assert(result@.drop_last() =~= Seq::<u8>::empty());
    assert(dec_value(result@) == dec_value(result@.drop_last()) * 10 + (result@.last() - 48) as nat);
    let mut i: u64 = 0;
    while i < exp_v
        invariant
            i <= exp_v,
            2 <= exp_v <= 4096,
            exp_v == dec_value(exp@),
            2 <= base_v,
            base_v == dec_value(base@),
            all_digits(result@),
            dec_value(result@) == pow_nat(base_v as nat, i as nat),
            result@.len() > 0 && result@[0] != 48,
            powers_in_range(base_v as nat, i as nat),
        decreases exp_v - i,
    {
        let next = mul_u64_decimal(result.as_slice(), base_v);
        assert(dec_value(next@) == pow_nat(base_v as nat, (i + 1) as nat)) by (nonlinear_arith)
            requires
                dec_value(next@) == dec_value(result@) * base_v,
                dec_value(result@) == pow_nat(base_v as nat, i as nat),
                pow_nat(base_v as nat, (i + 1) as nat) == base_v * pow_nat(base_v as nat, i as nat),
        ;
        proof {
            lemma_range_by_value(next@);
        }
        if !u256_decimal_in_range(next.as_slice()) {
            proof {
                assert(!in_u256_range(dec_bytes(pow_nat(base_v as nat, (i + 1) as nat))));
                assert(!powers_in_range(base_v as nat, exp_v as nat));
            }
            return None;
        }
        result = next;
        i = i + 1;
        assert forall|k: nat| 1 <= k <= i implies #[trigger] in_u256_range(
            dec_bytes(pow_nat(base_v as nat, k)),
        ) by {
            if k < i {
                assert(powers_in_range(base_v as nat, (i - 1) as nat));
            }
        }
    }
    proof {
        lemma_canonical(result@);
    }
    Some(result)
}

} // verus!
