//! Decoding a synthesized per-field map name `__fe_sm_<len>_<var>_<field>` back to
//! `<var>.<field>` for a diagnostic. The length prefix (the UTF-8 byte length of `<var>`)
//! pins the split, which makes the encoding injective.

use crate::parser::synth_name_spec;
use crate::text::{dec_chars, digit_char, string_push};
use vstd::string::StrSliceExecFns;
use vstd::utf8::{encode_scalar, encode_utf8};
use vstd::prelude::*;

verus! {

/// The number of bytes of a character's UTF-8 encoding.
pub open spec fn char_width(c: char) -> nat {
    let u = c as u32;
    if u <= 0x7F {
        1
    } else if u <= 0x7FF {
        2
    } else if u <= 0xFFFF {
        3
    } else {
        4
    }
}

/// The number of bytes of the UTF-8 encoding of a text.
pub open spec fn utf8_len(s: Seq<char>) -> nat
    decreases s.len(),
{
    if s.len() == 0 {
        0
    } else {
        char_width(s[0]) + utf8_len(s.drop_first())
    }
}

/// The character index at which the first `n` UTF-8 bytes of `s` end, when `n` falls on a
/// character boundary within `s`.
pub open spec fn split_at_bytes(s: Seq<char>, n: nat) -> Option<nat>
    decreases s.len(),
{
    if n == 0 {
        Some(0)
    } else if s.len() == 0 || char_width(s[0]) > n {
        None
    } else {
        match split_at_bytes(s.drop_first(), (n - char_width(s[0])) as nat) {
            Some(j) => Some(j + 1),
            None => None,
        }
    }
}

/// The index of the first `_` of a text.
pub open spec fn first_underscore(s: Seq<char>) -> Option<nat>
    decreases s.len(),
{
    if s.len() == 0 {
        None
    } else if s[0] == '_' {
        Some(0)
    } else {
        match first_underscore(s.drop_first()) {
            Some(j) => Some(j + 1),
            None => None,
        }
    }
}

/// An ASCII decimal digit.
pub open spec fn is_dec_digit(c: char) -> bool {
    '0' <= c && c <= '9'
}

/// The value of a run of decimal digits.
pub open spec fn digits_value(s: Seq<char>) -> nat
    decreases s.len(),
{
    if s.len() == 0 {
        0
    } else {
        digits_value(s.drop_last()) * 10 + ((s.last() as u32) - 48) as nat
    }
}

/// A number's text without its optional leading `+`.
pub open spec fn unsigned_digits(t: Seq<char>) -> Seq<char> {
    if t.len() > 0 && t[0] == '+' {
        t.drop_first()
    } else {
        t
    }
}

/// `usize`'s `FromStr`: an optional `+`, then at least one decimal digit, of a value that
/// fits.
pub open spec fn usize_from_text(t: Seq<char>) -> Option<nat> {
    let d = unsigned_digits(t);
    if d.len() > 0 && (forall|k: int| 0 <= k < d.len() ==> is_dec_digit(#[trigger] d[k])) && digits_value(d)
        <= usize::MAX {
        Some(digits_value(d))
    } else {
        None
    }
}

/// `<var>.<field>` for a name `__fe_sm_<len>_<var>_<field>` whose `<len>` (up to the first
/// `_` after the prefix) is the UTF-8 byte length of `<var>`; `None` for any other shape.
pub open spec fn decoded_map_name(n: Seq<char>) -> Option<Seq<char>> {
    if n.len() >= 8 && n.take(8) == "__fe_sm_"@ {
        let rest = n.skip(8);
        match first_underscore(rest) {
            None => None,
            Some(us) => match usize_from_text(rest.take(us as int)) {
                None => None,
                Some(len) => {
                    let after = rest.skip((us + 1) as int);
                    match split_at_bytes(after, len) {
                        Some(j) => if j < after.len() && after[j as int] == '_' {
                            Some(after.take(j as int) + seq!['.'] + after.skip((j + 1) as int))
                        } else {
                            None
                        },
                        None => None,
                    }
                },
            },
        }
    } else {
        None
    }
}

/// A character's UTF-8 width as a machine number.
fn width_of(c: char) -> (w: usize)
    ensures
        w == char_width(c),
{
    let u = c as u32;
    if u <= 0x7F {
        1
    } else if u <= 0x7FF {
        2
    } else if u <= 0xFFFF {
        3
    } else {
        4
    }
}

/// The value of a digit run grows by one digit at its end.
proof fn lemma_digits_push(s: Seq<char>, c: char)
    ensures
        digits_value(s.push(c)) == digits_value(s) * 10 + ((c as u32) - 48) as nat,
{
    assert(s.push(c).drop_last() =~= s);
}

/// A digit run's value is at least that of each of its prefixes.
proof fn lemma_digits_prefix_le(s: Seq<char>, k: int)
    requires
        0 <= k <= s.len(),
        forall|q: int| 0 <= q < s.len() ==> is_dec_digit(#[trigger] s[q]),
    ensures
        digits_value(s.take(k)) <= digits_value(s),
    decreases s.len() - k,
{
    if k < s.len() {
        lemma_digits_prefix_le(s, k + 1);
        assert(s.take(k + 1).drop_last() =~= s.take(k));
        assert(s.take(k + 1).last() == s[k]);
    } else {
        assert(s.take(k) =~= s);
    }
}

/// `first_underscore` of `s.skip(from)`, as an absolute index (`s.len()` for none).
fn find_underscore(name: &str, from: usize) -> (r: usize)
    requires
        from <= name@.len(),
    ensures
        from <= r <= name@.len(),
        r < name@.len() ==> first_underscore(name@.skip(from as int)) == Some((r - from) as nat),
        r == name@.len() ==> first_underscore(name@.skip(from as int)) is None,
{
    let ghost nv = name@;
    let ghost sf = nv.skip(from as int);
    let n = name.unicode_len();
    let mut u: usize = from;
    assert(sf.skip(0) =~= sf);
    while u < n && name.get_char(u) != '_'
        invariant
            from <= u <= n == nv.len(),
            nv == name@,
            sf == nv.skip(from as int),
            first_underscore(sf) == match first_underscore(sf.skip(u - from)) {
                Some(j) => Some((j + (u - from)) as nat),
                None => None::<nat>,
            },
        decreases n - u,
    {
        proof {
            assert(sf.skip(u - from).drop_first() =~= sf.skip(u + 1 - from));
        }
        u = u + 1;
    }
    if u < n {
        assert(sf.skip(u - from)[0] == '_');
    } else {
        assert(sf.skip(u - from).len() == 0);
    }
    u
}

/// `usize_from_text` of `name@.subrange(from, to)`.
fn parse_usize_text(name: &str, from: usize, to: usize) -> (r: Option<usize>)
    requires
        from <= to <= name@.len(),
    ensures
        match usize_from_text(name@.subrange(from as int, to as int)) {
            Some(v) => r == Some(v as usize),
            None => r is None,
        },
{
    let ghost nv = name@;
    let ghost t = nv.subrange(from as int, to as int);
    let mut d: usize = from;
    if d < to && name.get_char(d) == '+' {
        d = d + 1;
    }
    let ghost dd = nv.subrange(d as int, to as int);
    assert(dd =~= unsigned_digits(t));
    if d == to {
        assert(dd.len() == 0);
        return None;
    }
    let mut val: usize = 0;
    let mut m: usize = d;
    assert(nv.subrange(d as int, d as int) =~= Seq::<char>::empty());
    while m < to
        invariant
            d <= m <= to <= nv.len(),
            nv == name@,
            dd == nv.subrange(d as int, to as int),
            t == nv.subrange(from as int, to as int),
            dd == unsigned_digits(t),
            forall|q: int| d <= q < m ==> is_dec_digit(#[trigger] nv[q]),
            val == digits_value(nv.subrange(d as int, m as int)),
        decreases to - m,
    {
        let c = name.get_char(m);
        if !('0' <= c && c <= '9') {
            assert(!is_dec_digit(dd[m - d]));
            return None;
        }
        let dig: usize = ((c as u32) - 48) as usize;
        proof {
            assert(nv.subrange(d as int, m + 1) =~= nv.subrange(d as int, m as int).push(c));
            lemma_digits_push(nv.subrange(d as int, m as int), c);
        }
        if val > (usize::MAX - dig) / 10 {
            proof {
                assert(val * 10 + dig > usize::MAX) by (nonlinear_arith)
                    requires
                        val > (usize::MAX - dig) / 10,
                        dig <= 9,
                ;
                if forall|q: int| 0 <= q < dd.len() ==> is_dec_digit(#[trigger] dd[q]) {
                    lemma_digits_prefix_le(dd, (m + 1 - d) as int);
                    assert(dd.take((m + 1 - d) as int) =~= nv.subrange(d as int, m + 1));
                }
            }
            return None;
        }
        val = val * 10 + dig;
        m = m + 1;
    }
    assert(nv.subrange(d as int, m as int) =~= dd);
    Some(val)
}

/// `split_at_bytes(name@.skip(from), len)`, as an absolute index.
fn split_bytes(name: &str, from: usize, len: usize) -> (r: Option<usize>)
    requires
        from <= name@.len(),
    ensures
        match split_at_bytes(name@.skip(from as int), len as nat) {
            Some(x) => r == Some((x + from) as usize) && from + x <= name@.len(),
            None => r is None,
        },
{
    let ghost nv = name@;
    let ghost after = nv.skip(from as int);
    let n = name.unicode_len();
    assert(after.skip(0) =~= after);
    let mut j: usize = from;
    let mut acc: usize = 0;
    while acc < len && j < n
        invariant
            from <= j <= n == nv.len(),
            nv == name@,
            after == nv.skip(from as int),
            acc <= len,
            split_at_bytes(after, len as nat) == match split_at_bytes(after.skip(j - from), (len - acc) as nat) {
                Some(x) => Some((x + (j - from)) as nat),
                None => None::<nat>,
            },
        decreases n - j,
    {
        let w = width_of(name.get_char(j));
        proof {
            assert(after.skip(j - from)[0] == nv[j as int]);
            assert(after.skip(j - from).drop_first() =~= after.skip(j + 1 - from));
        }
        if w > len - acc {
            return None;
        }
        acc = acc + w;
        j = j + 1;
    }
    if acc < len {
        assert(after.skip(j - from).len() == 0);
        return None;
    }
    Some(j)
}

/// The characters `from..to` of `name`, appended to `out`.
fn push_chars(out: &mut String, name: &str, from: usize, to: usize)
    requires
        from <= to <= name@.len(),
    ensures
        final(out)@ == old(out)@ + name@.subrange(from as int, to as int),
{
    let ghost o = out@;
    let mut q: usize = from;
    while q < to
        invariant
            from <= q <= to <= name@.len(),
            out@ == o + name@.subrange(from as int, q as int),
        decreases to - q,
    {
        string_push(out, name.get_char(q));
        q = q + 1;
        assert(out@ =~= o + name@.subrange(from as int, q as int));
    }
}

/// Decodes `__fe_sm_<len>_<var>_<field>` to `<var>.<field>` (see `decoded_map_name`).
pub fn decode_struct_map_name(name: &str) -> (r: Option<String>)
    ensures
        match decoded_map_name(name@) {
            Some(t) => r matches Some(s) && s@ == t,
            None => r is None,
        },
{
    let ghost nv = name@;
    let n = name.unicode_len();
    let prefix = "__fe_sm_";
    proof {
        reveal_strlit("__fe_sm_");
    }
    if n < 8 {
        return None;
    }
    let mut k: usize = 0;
    while k < 8
        invariant
            k <= 8 <= n == nv.len(),
            nv == name@,
            prefix@ == "__fe_sm_"@,
            prefix@.len() == 8,
            forall|q: int| 0 <= q < k ==> nv[q] == prefix@[q],
        decreases 8 - k,
    {
        if name.get_char(k) != prefix.get_char(k) {
            assert(nv.take(8)[k as int] != "__fe_sm_"@[k as int]);
            return None;
        }
        k = k + 1;
    }
    assert(nv.take(8) =~= "__fe_sm_"@);
    let ghost rest = nv.skip(8);
    let u = find_underscore(name, 8);
    if u == n {
        return None;
    }
    let ghost us: nat = (u - 8) as nat;
    assert(rest.take(us as int) =~= nv.subrange(8, u as int));
    let len = match parse_usize_text(name, 8, u) {
        Some(v) => v,
        None => {
            return None;
        },
    };
    let a: usize = u + 1;
    let ghost after = rest.skip((us + 1) as int);
    assert(after =~= nv.skip(a as int));
    let j = match split_bytes(name, a, len) {
        Some(j) => j,
        None => {
            return None;
        },
    };
    if j >= n {
        return None;
    }
    if name.get_char(j) != '_' {
        return None;
    }
    let mut out = String::new();
    push_chars(&mut out, name, a, j);
    string_push(&mut out, '.');
    push_chars(&mut out, name, j + 1, n);
    assert(out@ =~= after.take((j - a) as int) + seq!['.'] + after.skip((j - a) + 1));
    Some(out)
}

// ── the round trip ────────────────────────────────────────────────────────────

/// A character's width is the length of its UTF-8 encoding.
proof fn lemma_char_width(c: char)
    ensures
        encode_scalar(c as u32).len() == char_width(c),
{
}

/// A text's byte length is the length of its UTF-8 encoding.
proof fn lemma_utf8_len(s: Seq<char>)
    ensures
        encode_utf8(s).len() == utf8_len(s),
    decreases s.len(),
{
    if s.len() > 0 {
        lemma_char_width(s[0]);
        lemma_utf8_len(s.drop_first());
    }
}

/// The first `utf8_len(v)` bytes of `v + t` end right after `v`.
proof fn lemma_split_after(v: Seq<char>, t: Seq<char>)
    ensures
        split_at_bytes(v + t, utf8_len(v)) == Some(v.len()),
    decreases v.len(),
{
    if v.len() > 0 {
        lemma_split_after(v.drop_first(), t);
        assert((v + t).drop_first() =~= v.drop_first() + t);
        assert((v + t)[0] == v[0]);
    }
}

/// Decimal text holds no `_`, so the first `_` after it is the one that follows.
proof fn lemma_first_underscore_after_digits(n: nat, t: Seq<char>)
    ensures
        first_underscore(dec_chars(n) + seq!['_'] + t) == Some(dec_chars(n).len()),
        dec_chars(n).len() > 0,
        forall|k: int| 0 <= k < dec_chars(n).len() ==> is_dec_digit(#[trigger] dec_chars(n)[k]),
        digits_value(dec_chars(n)) == n,
{
    lemma_dec_chars(n);
    lemma_first_underscore_digits(dec_chars(n), seq!['_'] + t);
    assert(dec_chars(n) + seq!['_'] + t =~= dec_chars(n) + (seq!['_'] + t));
}

/// The digits of `dec_chars(n)` and their value.
proof fn lemma_dec_chars(n: nat)
    ensures
        dec_chars(n).len() > 0,
        forall|k: int| 0 <= k < dec_chars(n).len() ==> is_dec_digit(#[trigger] dec_chars(n)[k]),
        digits_value(dec_chars(n)) == n,
    decreases n,
{
    if n >= 10 {
        lemma_dec_chars(n / 10);
        let c = digit_char(n % 10);
        lemma_digits_push(dec_chars(n / 10), c);
        assert(n == (n / 10) * 10 + n % 10) by (nonlinear_arith);
        assert forall|k: int| 0 <= k < dec_chars(n).len() implies is_dec_digit(#[trigger] dec_chars(n)[k]) by {
            if k < dec_chars(n / 10).len() {
                assert(dec_chars(n)[k] == dec_chars(n / 10)[k]);
            }
        }
    } else {
        lemma_digits_push(Seq::<char>::empty(), digit_char(n));
        assert(seq![digit_char(n)] =~= Seq::<char>::empty().push(digit_char(n)));
    }
}

/// The first `_` of `d + t`, for `d` of digits only, is that of `t` shifted.
proof fn lemma_first_underscore_digits(d: Seq<char>, t: Seq<char>)
    requires
        forall|k: int| 0 <= k < d.len() ==> is_dec_digit(#[trigger] d[k]),
        t.len() > 0 && t[0] == '_',
    ensures
        first_underscore(d + t) == Some(d.len()),
    decreases d.len(),
{
    if d.len() > 0 {
        assert(is_dec_digit(d[0]));
        assert((d + t).drop_first() =~= d.drop_first() + t);
        lemma_first_underscore_digits(d.drop_first(), t);
    } else {
        assert(d + t =~= t);
    }
}

/// Decimal text of a `usize`-sized number reads back as that number.
proof fn lemma_usize_text(len: nat)
    requires
        len <= usize::MAX,
    ensures
        usize_from_text(dec_chars(len)) == Some(len),
{
    lemma_dec_chars(len);
    assert(is_dec_digit(dec_chars(len)[0]));
    assert(unsigned_digits(dec_chars(len)) == dec_chars(len));
}

/// The pieces of a synthesized name: the prefix, then the decimal length, `_` and the rest.
proof fn lemma_synth_pieces(var: Seq<char>, field: Seq<char>, len: nat)
    requires
        len == encode_utf8(var).len(),
    ensures
        synth_name_spec(var, field).len() >= 8,
        synth_name_spec(var, field).take(8) == "__fe_sm_"@,
        synth_name_spec(var, field).skip(8) == dec_chars(len) + seq!['_'] + (var + seq!['_'] + field),
{
    reveal_strlit("__fe_sm_");
    reveal_strlit("_");
    let n = synth_name_spec(var, field);
    let body = dec_chars(len) + seq!['_'] + (var + seq!['_'] + field);
    assert(n =~= "__fe_sm_"@ + body);
    assert(n.take(8) =~= "__fe_sm_"@);
    assert(n.skip(8) =~= body);
}

/// The text after the length field: `var`, `_`, `field`, split at `var`'s byte length.
proof fn lemma_after_split(var: Seq<char>, field: Seq<char>)
    ensures
        ({
            let after = var + seq!['_'] + field;
            &&& split_at_bytes(after, utf8_len(var)) == Some(var.len())
            &&& var.len() < after.len()
            &&& after[var.len() as int] == '_'
            &&& after.take(var.len() as int) == var
            &&& after.skip((var.len() + 1) as int) == field
        }),
{
    let after = var + seq!['_'] + field;
    assert(after =~= var + (seq!['_'] + field));
    lemma_split_after(var, seq!['_'] + field);
    assert(after.take(var.len() as int) =~= var);
    assert(after.skip((var.len() + 1) as int) =~= field);
}

/// The synthesized name of `var` and `field` decodes back to `<var>.<field>` (for a `var`
/// whose byte length fits `usize`); in particular two pairs with the same name are equal.
pub proof fn lemma_synth_name_round_trip(var: Seq<char>, field: Seq<char>)
    requires
        encode_utf8(var).len() <= usize::MAX,
    ensures
        decoded_map_name(synth_name_spec(var, field)) == Some(var + seq!['.'] + field),
{
    let len = encode_utf8(var).len();
    lemma_utf8_len(var);
    lemma_synth_pieces(var, field, len);
    let tail = var + seq!['_'] + field;
    let rest = dec_chars(len) + seq!['_'] + tail;
    lemma_first_underscore_after_digits(len, tail);
    let us = dec_chars(len).len();
    assert(rest.take(us as int) =~= dec_chars(len));
    lemma_usize_text(len);
    assert(rest.skip((us + 1) as int) =~= tail);
    lemma_after_split(var, field);
}

/// Two `var`/`field` pairs with the same synthesized name are the same pair (for `var`s
/// whose byte length fits `usize`).
pub proof fn lemma_synth_name_injective(v1: Seq<char>, f1: Seq<char>, v2: Seq<char>, f2: Seq<char>)
    requires
        encode_utf8(v1).len() <= usize::MAX,
        encode_utf8(v2).len() <= usize::MAX,
        synth_name_spec(v1, f1) == synth_name_spec(v2, f2),
    ensures
        v1 == v2,
        f1 == f2,
{
    let l1 = encode_utf8(v1).len();
    let l2 = encode_utf8(v2).len();
    lemma_utf8_len(v1);
    lemma_utf8_len(v2);
    lemma_synth_pieces(v1, f1, l1);
    lemma_synth_pieces(v2, f2, l2);
    let t1 = v1 + seq!['_'] + f1;
    let t2 = v2 + seq!['_'] + f2;
    let rest = dec_chars(l1) + seq!['_'] + t1;
    assert(rest == dec_chars(l2) + seq!['_'] + t2);
    lemma_first_underscore_after_digits(l1, t1);
    lemma_first_underscore_after_digits(l2, t2);
    let us = dec_chars(l1).len();
    assert(dec_chars(l2).len() == us);
    assert(rest.take(us as int) =~= dec_chars(l1));
    assert(rest.take(us as int) =~= dec_chars(l2));
    lemma_usize_text(l1);
    lemma_usize_text(l2);
    assert(l1 == l2);
    assert(rest.skip((us + 1) as int) =~= t1);
    assert(rest.skip((us + 1) as int) =~= t2);
    lemma_after_split(v1, f1);
    lemma_after_split(v2, f2);
    assert(v1.len() == v2.len());
    assert(v1 == t1.take(v1.len() as int));
    assert(f1 == t1.skip((v1.len() + 1) as int));
}

} // verus!
