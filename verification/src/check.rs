//! The checker's version gate and type-width helpers: a `pragma solidity` must admit only
//! compilers `>= 0.8.0` (checked arithmetic by default), and narrow `uintN` widths are
//! recognized and range-checked here.

use crate::codes;
use crate::decimal::{dec_bytes, lemma_canonical, lemma_dec_bytes_digits, lemma_dec_prepend, lemma_pow10_pos, lemma_strip_zeros_value, mul_u64_decimal, pow10, pow_nat};
use crate::diag::{copy_span, FrontendDiag};
use crate::lexer::{all_digits, dec_value, is_digit, str_trim, strip_zeros, strip_zeros_bytes, trimmed};
use crate::text::{ascii_chars, ascii_string, clone_string, str_eq, string_eq_str};
use vstd::slice::{slice_subrange, slice_to_vec};
use vstd::utf8::encode_utf8;
use crate::parser::{char_is_whitespace, str_trim_start, trimmed_start, unicode_ws, MAX_NEST_DEPTH, AssignOp, BinOp, Constructor, Enum, Expr, Function, Param, Program, StateMutability, StateVar, Stmt, Struct, StructField, TypeRef, UnOp};
use std::ops::Range;
use vstd::prelude::*;

verus! {

// ── Version pragma ───────────────────────────────────────────────────────────

/// The white-space separated words of a text, in order (maximal runs of characters without
/// the Unicode `White_Space` property).
pub open spec fn ws_tokens(s: Seq<char>) -> Seq<Seq<char>>
    decreases s.len(),
{
    if s.len() == 0 {
        seq![]
    } else {
        let prev = ws_tokens(s.drop_last());
        let c = s.last();
        if unicode_ws(c) {
            prev
        } else if s.len() >= 2 && !unicode_ws(s[s.len() - 2]) {
            prev.drop_last().push(prev.last().push(c))
        } else {
            prev.push(seq![c])
        }
    }
}

/// The `.`-separated parts of a text, empty parts included (one part for a text without
/// `.`).
pub open spec fn dot_parts(s: Seq<char>) -> Seq<Seq<char>>
    decreases s.len(),
{
    if s.len() == 0 {
        seq![seq![]]
    } else {
        let prev = dot_parts(s.drop_last());
        if s.last() == '.' {
            prev.push(seq![])
        } else {
            prev.drop_last().push(prev.last().push(s.last()))
        }
    }
}

pub open spec fn is_digit_char(c: char) -> bool {
    '0' <= c && c <= '9'
}

/// The value of a run of decimal digit characters.
pub open spec fn digits_value(d: Seq<char>) -> nat
    decreases d.len(),
{
    if d.len() == 0 {
        0
    } else {
        digits_value(d.drop_last()) * 10 + ((d.last() as int - '0' as int) as nat)
    }
}

/// A text without its leading `+`, if it has one.
pub open spec fn unsigned_part(w: Seq<char>) -> Seq<char> {
    if w.len() > 0 && w[0] == '+' {
        w.drop_first()
    } else {
        w
    }
}

/// Every character of the text is a decimal digit.
pub open spec fn all_digit_chars(d: Seq<char>) -> bool {
    forall|i: int| 0 <= i < d.len() ==> is_digit_char(#[trigger] d[i])
}

/// std's `u32` parse of a text: an optional leading `+`, then at least one decimal digit,
/// with a value at most `u32::MAX`.
pub open spec fn u32_of(w: Seq<char>) -> Option<nat> {
    let d = unsigned_part(w);
    if d.len() > 0 && all_digit_chars(d) && digits_value(d) <= u32::MAX {
        Some(digits_value(d))
    } else {
        None
    }
}

/// A `major.minor[.patch]` version (the minor defaults to `0`); every present part must be a
/// number, and there are at most three parts.
pub open spec fn major_minor(v: Seq<char>) -> Option<(nat, nat)> {
    let p = dot_parts(v);
    if p.len() > 3 {
        None
    } else if u32_of(p[0]) is None || (p.len() > 1 && u32_of(p[1]) is None) || (p.len() > 2
        && u32_of(p[2]) is None) {
        None
    } else {
        Some((u32_of(p[0])->0, if p.len() > 1 { u32_of(p[1])->0 } else { 0 }))
    }
}

/// A version-constraint operator.
#[derive(Debug, Clone, Copy, PartialEq, Eq)]
pub enum VerOp {
    Ge,
    Le,
    Caret,
    Gt,
    Lt,
    Exact,
}

/// Whether the operator bounds the admitted range from below.
pub open spec fn is_lower(op: VerOp) -> bool {
    op == VerOp::Ge || op == VerOp::Caret || op == VerOp::Exact || op == VerOp::Gt
}

/// A word's operator prefix (`>=` and `<=` before `>`/`<`/`=`; a bare version is exact) and
/// the rest of the word.
pub open spec fn split_op(t: Seq<char>) -> (VerOp, Seq<char>) {
    if t.len() >= 2 && t[0] == '>' && t[1] == '=' {
        (VerOp::Ge, t.skip(2))
    } else if t.len() >= 2 && t[0] == '<' && t[1] == '=' {
        (VerOp::Le, t.skip(2))
    } else if t.len() >= 1 && t[0] == '^' {
        (VerOp::Caret, t.skip(1))
    } else if t.len() >= 1 && t[0] == '>' {
        (VerOp::Gt, t.skip(1))
    } else if t.len() >= 1 && t[0] == '<' {
        (VerOp::Lt, t.skip(1))
    } else if t.len() >= 1 && t[0] == '=' {
        (VerOp::Exact, t.skip(1))
    } else {
        (VerOp::Exact, t)
    }
}

/// The constraints written by the words from the `i`-th on: an operator with its version
/// in the same word, or a bare operator followed by its version as the next word; `None`
/// when a version is missing or malformed.
pub open spec fn constraints(toks: Seq<Seq<char>>, i: int) -> Option<Seq<(VerOp, (nat, nat))>>
    decreases toks.len() - i,
{
    if i < 0 || i >= toks.len() {
        Some(seq![])
    } else {
        let (op, r0) = split_op(toks[i]);
        if r0.len() == 0 && i + 1 >= toks.len() {
            None
        } else {
            let j = if r0.len() == 0 {
                i + 1
            } else {
                i
            };
            let v = if r0.len() == 0 {
                toks[i + 1]
            } else {
                r0
            };
            match major_minor(v) {
                None => None,
                Some(mm) => match constraints(toks, j + 1) {
                    None => None,
                    Some(rest) => Some(seq![(op, mm)] + rest),
                },
            }
        }
    }
}

/// The text holds `||`.
pub open spec fn has_disjunction(s: Seq<char>) -> bool {
    exists|i: int| 0 <= i < s.len() - 1 && s[i] == '|' && #[trigger] s[i + 1] == '|'
}

/// A version range provably `>= 0.8.0`: no `||`, every constraint well formed, at least
/// one lower bound, and every lower bound on the `0.8` line or later of major `0`.
pub open spec fn admits_only_0_8(ver: Seq<char>) -> bool {
    &&& !has_disjunction(ver)
    &&& constraints(ws_tokens(ver), 0) matches Some(cs)
    &&& exists|k: int| 0 <= k < cs.len() && is_lower((#[trigger] cs[k]).0)
    &&& forall|k: int| 0 <= k < cs.len() && is_lower((#[trigger] cs[k]).0) ==> cs[k].1.0 == 0 && cs[k].1.1
        >= 8
}

/// The version text of a pragma body: after the word `solidity` when the trimmed body
/// starts with it (else the whole body), trimmed.
pub open spec fn pragma_version(body: Seq<char>) -> Seq<char> {
    let t = trimmed_start(body);
    if t.len() >= 8 && t.take(8) == "solidity"@ {
        trimmed(t.skip(8))
    } else {
        trimmed(body)
    }
}

/// The views of a list of character vectors.
pub open spec fn char_views(v: Seq<Vec<char>>) -> Seq<Seq<char>> {
    v.map_values(|t: Vec<char>| t@)
}

/// The characters of a string slice.
fn chars_of(s: &str) -> (r: Vec<char>)
    ensures
        r@ == s@,
{
    let n = s.unicode_len();
    let mut out: Vec<char> = Vec::new();
    let mut i: usize = 0;
    while i < n
        invariant
            i <= n,
            n == s@.len(),
            out@ == s@.take(i as int),
        decreases n - i,
    {
        out.push(s.get_char(i));
        i = i + 1;
        assert(out@ =~= s@.take(i as int));
    }
    assert(s@.take(n as int) =~= s@);
    out
}

/// The characters of `t` from the `n`-th on.
fn skip_chars(t: &Vec<char>, n: usize) -> (r: Vec<char>)
    requires
        n <= t@.len(),
    ensures
        r@ == t@.skip(n as int),
{
    let mut out: Vec<char> = Vec::new();
    let mut i: usize = n;
    while i < t.len()
        invariant
            n <= i <= t@.len(),
            out@ == t@.subrange(n as int, i as int),
        decreases t@.len() - i,
    {
        out.push(t[i]);
        i = i + 1;
        assert(out@ =~= t@.subrange(n as int, i as int));
    }
    assert(t@.subrange(n as int, t@.len() as int) =~= t@.skip(n as int));
    out
}

/// A text whose last character is not white space has at least one word.
proof fn lemma_ws_tokens_nonempty(s: Seq<char>)
    requires
        s.len() > 0,
        !unicode_ws(s.last()),
    ensures
        ws_tokens(s).len() > 0,
    decreases s.len(),
{
    if s.len() >= 2 && !unicode_ws(s[s.len() - 2]) {
        assert(s.drop_last().last() == s[s.len() - 2]);
        lemma_ws_tokens_nonempty(s.drop_last());
    }
}

/// std `str::split_whitespace` on characters: the words of the text, in order.
fn split_ws(s: &Vec<char>) -> (r: Vec<Vec<char>>)
    ensures
        char_views(r@) == ws_tokens(s@),
{
    let mut toks: Vec<Vec<char>> = Vec::new();
    let mut prev_ws = true;
    let mut i: usize = 0;
    while i < s.len()
        invariant
            i <= s@.len(),
            char_views(toks@) == ws_tokens(s@.take(i as int)),
            i == 0 ==> prev_ws,
            i > 0 ==> prev_ws == unicode_ws(s@[i - 1]),
        decreases s@.len() - i,
    {
        let c = s[i];
        let ghost pre = s@.take(i as int);
        let ghost cur = s@.take(i + 1);
        assert(cur.drop_last() =~= pre);
        assert(cur.last() == c);
        let ws = char_is_whitespace(c);
        if ws {
            prev_ws = true;
        } else if !prev_ws {
            proof {
                assert(cur[cur.len() - 2] == s@[i - 1]);
                assert(pre.last() == s@[i - 1]);
                lemma_ws_tokens_nonempty(pre);
            }
            let mut last = toks.pop().unwrap();
            last.push(c);
            toks.push(last);
            proof {
                assert(char_views(toks@) =~= ws_tokens(pre).drop_last().push(ws_tokens(pre).last().push(c)));
            }
        } else {
            let mut w: Vec<char> = Vec::new();
            w.push(c);
            toks.push(w);
            proof {
                assert(i > 0 ==> cur[cur.len() - 2] == s@[i - 1]);
                assert(char_views(toks@) =~= ws_tokens(pre).push(seq![c]));
            }
            prev_ws = false;
        }
        i = i + 1;
    }
    assert(s@.take(s@.len() as int) =~= s@);
    toks
}

/// Every text has at least one `.`-part.
proof fn lemma_dot_parts_nonempty(s: Seq<char>)
    ensures
        dot_parts(s).len() > 0,
    decreases s.len(),
{
    if s.len() > 0 {
        lemma_dot_parts_nonempty(s.drop_last());
    }
}

/// std `str::split('.')` on characters.
fn split_dots(s: &Vec<char>) -> (r: Vec<Vec<char>>)
    ensures
        char_views(r@) == dot_parts(s@),
{
    let mut parts: Vec<Vec<char>> = Vec::new();
    parts.push(Vec::new());
    let mut i: usize = 0;
    assert(char_views(parts@) =~= dot_parts(s@.take(0)));
    while i < s.len()
        invariant
            i <= s@.len(),
            char_views(parts@) == dot_parts(s@.take(i as int)),
        decreases s@.len() - i,
    {
        let c = s[i];
        let ghost pre = s@.take(i as int);
        let ghost cur = s@.take(i + 1);
        assert(cur.drop_last() =~= pre);
        assert(cur.last() == c);
        proof {
            lemma_dot_parts_nonempty(pre);
        }
        if c == '.' {
            parts.push(Vec::new());
            proof {
                assert(char_views(parts@) =~= dot_parts(pre).push(seq![]));
            }
        } else {
            let mut last = parts.pop().unwrap();
            last.push(c);
            parts.push(last);
            proof {
                assert(char_views(parts@) =~= dot_parts(pre).drop_last().push(dot_parts(pre).last().push(c)));
            }
        }
        i = i + 1;
    }
    assert(s@.take(s@.len() as int) =~= s@);
    parts
}

/// A prefix of a run of digits is worth at most the whole run.
proof fn lemma_digits_prefix_le(d: Seq<char>, k: int)
    requires
        0 <= k <= d.len(),
    ensures
        digits_value(d.take(k)) <= digits_value(d),
    decreases d.len(),
{
    if k < d.len() {
        lemma_digits_prefix_le(d.drop_last(), k);
        assert(d.drop_last().take(k) =~= d.take(k));
    } else {
        assert(d.take(k) =~= d);
    }
}

/// std's `u32` parse of a character text (see `u32_of`).
fn parse_u32_chars(w: &Vec<char>) -> (r: Option<u32>)
    ensures
        match u32_of(w@) {
            Some(n) => r == Some(n as u32),
            None => r is None,
        },
{
    let plus = w.len() > 0 && w[0] == '+';
    let d = if plus {
        skip_chars(w, 1)
    } else {
        skip_chars(w, 0)
    };
    proof {
        if plus {
            assert(d@ =~= w@.drop_first());
        } else {
            assert(d@ =~= w@);
        }
        assert(d@ == unsigned_part(w@));
    }
    if d.len() == 0 {
        return None;
    }
    let mut acc: u64 = 0;
    let mut k: usize = 0;
    while k < d.len()
        invariant
            k <= d@.len(),
            forall|j: int| 0 <= j < k ==> is_digit_char(#[trigger] d@[j]),
            plus == (w@.len() > 0 && w@[0] == '+'),
            d@ == unsigned_part(w@),
            acc == digits_value(d@.take(k as int)),
            acc <= u32::MAX,
        decreases d@.len() - k,
    {
        let c = d[k];
        if !('0' <= c && c <= '9') {
            assert(!is_digit_char(d@[k as int]));
            return None;
        }
        let v: u64 = (c as u64) - ('0' as u64);
        let next: u64 = acc * 10 + v;
        proof {
            let t = d@.take(k + 1);
            assert(t.drop_last() =~= d@.take(k as int));
            assert(t.last() == c);
        }
        if next > 4294967295 {
            proof {
                lemma_digits_prefix_le(d@, k + 1);
            }
            return None;
        }
        acc = next;
        k = k + 1;
    }
    assert(d@.take(d@.len() as int) =~= d@);
    Some(acc as u32)
}

/// std's version-number reading: `major.minor[.patch]` (see `major_minor`).
fn parse_major_minor(v: &Vec<char>) -> (r: Option<(u32, u32)>)
    ensures
        match major_minor(v@) {
            Some((a, b)) => r == Some((a as u32, b as u32)),
            None => r is None,
        },
{
    let parts = split_dots(v);
    proof {
        lemma_dot_parts_nonempty(v@);
    }
    assert(parts@.len() == dot_parts(v@).len());
    if parts.len() > 3 {
        return None;
    }
    assert(parts@[0]@ == dot_parts(v@)[0]);
    let maj = match parse_u32_chars(&parts[0]) {
        Some(n) => n,
        None => {
            return None;
        },
    };
    let min: u32 = if parts.len() > 1 {
        assert(parts@[1]@ == dot_parts(v@)[1]);
        match parse_u32_chars(&parts[1]) {
            Some(n) => n,
            None => {
                return None;
            },
        }
    } else {
        0
    };
    if parts.len() > 2 {
        assert(parts@[2]@ == dot_parts(v@)[2]);
        match parse_u32_chars(&parts[2]) {
            Some(_) => {},
            None => {
                return None;
            },
        }
    }
    Some((maj, min))
}

/// Splits a word's operator prefix off (see `split_op`).
fn split_ver_op(t: &Vec<char>) -> (r: (VerOp, Vec<char>))
    ensures
        (r.0, r.1@) == split_op(t@),
{
    let n = t.len();
    if n >= 2 && t[0] == '>' && t[1] == '=' {
        (VerOp::Ge, skip_chars(t, 2))
    } else if n >= 2 && t[0] == '<' && t[1] == '=' {
        (VerOp::Le, skip_chars(t, 2))
    } else if n >= 1 && t[0] == '^' {
        (VerOp::Caret, skip_chars(t, 1))
    } else if n >= 1 && t[0] == '>' {
        (VerOp::Gt, skip_chars(t, 1))
    } else if n >= 1 && t[0] == '<' {
        (VerOp::Lt, skip_chars(t, 1))
    } else if n >= 1 && t[0] == '=' {
        (VerOp::Exact, skip_chars(t, 1))
    } else {
        let r = skip_chars(t, 0);
        assert(t@.skip(0) =~= t@);
        (VerOp::Exact, r)
    }
}

/// The spec view of read constraints.
pub open spec fn cs_view(v: Seq<(VerOp, u32, u32)>) -> Seq<(VerOp, (nat, nat))> {
    v.map_values(|x: (VerOp, u32, u32)| (x.0, (x.1 as nat, x.2 as nat)))
}

/// Reads every constraint of the words (see `constraints`).
fn read_constraints(toks: &Vec<Vec<char>>) -> (r: Option<Vec<(VerOp, u32, u32)>>)
    ensures
        match constraints(char_views(toks@), 0) {
            Some(cs) => r matches Some(v) && cs_view(v@) == cs,
            None => r is None,
        },
{
    let ghost tv = char_views(toks@);
    let mut out: Vec<(VerOp, u32, u32)> = Vec::new();
    let mut i: usize = 0;
    while i < toks.len()
        invariant
            i <= toks@.len(),
            tv == char_views(toks@),
            constraints(tv, 0) == match constraints(tv, i as int) {
                Some(rest) => Some(cs_view(out@) + rest),
                None => None::<Seq<(VerOp, (nat, nat))>>,
            },
        decreases toks@.len() - i,
    {
        assert(tv[i as int] == toks@[i as int]@);
        let (op, r0) = split_ver_op(&toks[i]);
        let mut j: usize = i;
        let v: Vec<char> = if r0.len() == 0 {
            if i + 1 >= toks.len() {
                return None;
            }
            j = i + 1;
            assert(tv[i + 1] == toks@[i + 1]@);
            skip_chars(&toks[i + 1], 0)
        } else {
            r0
        };
        assert(toks@[j as int]@.skip(0) =~= toks@[j as int]@);
        let mm = parse_major_minor(&v);
        match mm {
            None => {
                return None;
            },
            Some((a, b)) => {
                let ghost before = out@;
                out.push((op, a, b));
                proof {
                    assert(cs_view(out@) =~= cs_view(before).push((op, (a as nat, b as nat))));
                    match constraints(tv, j + 1) {
                        Some(rest) => {
                            assert(cs_view(out@) + rest =~= cs_view(before) + (seq![(op, (a as nat, b as nat))] + rest));
                        },
                        None => {},
                    }
                }
            },
        }
        i = j + 1;
    }
    assert(cs_view(out@) + seq![] =~= cs_view(out@));
    Some(out)
}

/// Whether the text holds `||`.
fn holds_disjunction(s: &Vec<char>) -> (r: bool)
    ensures
        r == has_disjunction(s@),
{
    let mut i: usize = 1;
    while i < s.len()
        invariant
            1 <= i,
            forall|j: int| 0 <= j < i - 1 && j < s@.len() - 1 ==> !(s@[j] == '|' && #[trigger] s@[j + 1] == '|'),
        decreases s@.len() - i,
    {
        if s[i - 1] == '|' && s[i] == '|' {
            assert(s@[(i - 1) + 1] == '|');
            return true;
        }
        i = i + 1;
    }
    false
}

/// Conservative whole-range `>= 0.8.0` check of a version text (see `admits_only_0_8`):
/// `^0.8.x`, `>=0.8.x` (optionally with an upper bound) or an exact `0.8.x` pass; a
/// disjunction, a pre-0.8 lower bound, a bare upper bound or a malformed form fail.
fn pragma_is_0_8_plus(ver: &str) -> (r: bool)
    ensures
        r == admits_only_0_8(ver@),
{
    let cs = chars_of(ver);
    if holds_disjunction(&cs) {
        return false;
    }
    let toks = split_ws(&cs);
    let cons = match read_constraints(&toks) {
        Some(v) => v,
        None => {
            return false;
        },
    };
    let ghost cv = cs_view(cons@);
    let mut saw_lower = false;
    let mut k: usize = 0;
    while k < cons.len()
        invariant
            k <= cons@.len(),
            cv == cs_view(cons@),
            !has_disjunction(ver@),
            constraints(ws_tokens(ver@), 0) == Some(cv),
            saw_lower <==> exists|j: int| 0 <= j < k && is_lower((#[trigger] cv[j]).0),
            forall|j: int| 0 <= j < k && is_lower((#[trigger] cv[j]).0) ==> cv[j].1.0 == 0 && cv[j].1.1 >= 8,
        decreases cons@.len() - k,
    {
        let (op, maj, min) = cons[k];
        assert(cv[k as int] == (op, (maj as nat, min as nat)));
        let lower = match op {
            VerOp::Ge => true,
            VerOp::Caret => true,
            VerOp::Exact => true,
            VerOp::Gt => true,
            VerOp::Le => false,
            VerOp::Lt => false,
        };
        assert(lower == is_lower(op));
        if lower {
            if !(maj == 0 && min >= 8) {
                assert(!admits_only_0_8(ver@));
                return false;
            }
            saw_lower = true;
        }
        k = k + 1;
    }
    saw_lower
}

/// Whether a raw pragma body (e.g. `solidity ^0.8.20`) admits only compilers `>= 0.8.0`.
pub fn pragma_body_is_0_8(body: &str) -> (r: bool)
    ensures
        r == admits_only_0_8(pragma_version(body@)),
{
    let t = str_trim_start(body);
    proof {
        reveal_strlit("solidity");
    }
    let n = t.unicode_len();
    let mut starts = n >= 8;
    let mut k: usize = 0;
    let word = "solidity";
    assert(word@.len() == 8);
    while starts && k < 8
        invariant
            k <= 8,
            n == t@.len(),
            t@ == trimmed_start(body@),
            word@ == "solidity"@,
            word@.len() == 8,
            starts ==> n >= 8 && forall|j: int| 0 <= j < k ==> t@[j] == word@[j],
            !starts ==> !(t@.len() >= 8 && t@.take(8) == "solidity"@),
        ensures
            starts ==> k == 8 && n >= 8 && forall|j: int| 0 <= j < 8 ==> t@[j] == word@[j],
            !starts ==> !(t@.len() >= 8 && t@.take(8) == "solidity"@),
        decreases 8 - k,
    {
        if t.get_char(k) != word.get_char(k) {
            starts = false;
            assert(t@.take(8)[k as int] != "solidity"@[k as int]);
            break;
        }
        k = k + 1;
    }
    let ver = if starts {
        assert(t@.take(8) =~= "solidity"@);
        let rest = t.substring_char(8, n);
        assert(rest@ =~= t@.skip(8));
        str_trim(rest)
    } else {
        str_trim(body)
    };
    pragma_is_0_8_plus(ver)
}

/// The version gate: a `pragma solidity` must be present (FE411 at `0..0` otherwise) and
/// admit only compilers `>= 0.8.0` (FE411 at the pragma otherwise).
pub fn check_pragma(p: &Program) -> (r: Result<(), FrontendDiag>)
    ensures
        p.pragma is None ==> (r matches Err(d) && d.code == codes::FE411_UNCHECKED_OR_PRAGMA && d.span == (
        0usize..0usize)),
        p.pragma matches Some(pr) ==> (r is Ok <==> admits_only_0_8(pragma_version(pr.0@))),
        p.pragma matches Some(pr) ==> (r matches Err(d) ==> d.code == codes::FE411_UNCHECKED_OR_PRAGMA
            && d.span == pr.1),
{
    match &p.pragma {
        None => Err(
            FrontendDiag::new(
                codes::FE411_UNCHECKED_OR_PRAGMA,
                "missing `pragma solidity >= 0.8.0;` (checked-by-default arithmetic is required)",
                0..0,
            ),
        ),
        Some((body, span)) => {
            if !pragma_body_is_0_8(body.as_str()) {
                return Err(
                    FrontendDiag::new(
                        codes::FE411_UNCHECKED_OR_PRAGMA,
                        "pragma is not provably >= 0.8.0; only `^0.8.x` / `>=0.8.y` (checked arithmetic) is admitted",
                        copy_span(span),
                    ),
                );
            }
            Ok(())
        },
    }
}

// ── Value types ──────────────────────────────────────────────────────────────

/// The checker's view of a value's type. `Num` is an integer literal (carrying its text),
/// polymorphic over the numeric types until a use site pins it; declared types never
/// resolve to `Num`. `Map` is the storage-mapping shape, not a value type.
#[derive(Debug)]
pub enum SolTy {
    Num { lit: String },
    U256,
    /// A narrow `uintN` (N a multiple of 8 in 8..=248) on the `u256` carrier.
    UintN(u16),
    Address,
    Bool,
    Mapping { key: Box<SolTy>, value: Box<SolTy> },
    /// A struct type, by name.
    Named(String),
    /// An enum type, by name.
    Enum(String),
    /// A dynamic array parameter of a scalar element.
    Array(Box<SolTy>),
}

/// The mathematical value of a type: names and literal texts as character sequences.
pub enum TyV {
    Num(Seq<char>),
    U256,
    UintN(u16),
    Address,
    Bool,
    Mapping(Box<TyV>, Box<TyV>),
    Named(Seq<char>),
    Enum(Seq<char>),
    Array(Box<TyV>),
}

pub open spec fn ty_view(t: SolTy) -> TyV
    decreases t,
{
    match t {
        SolTy::Num { lit } => TyV::Num(lit@),
        SolTy::U256 => TyV::U256,
        SolTy::UintN(n) => TyV::UintN(n),
        SolTy::Address => TyV::Address,
        SolTy::Bool => TyV::Bool,
        SolTy::Mapping { key, value } => TyV::Mapping(Box::new(ty_view(*key)), Box::new(ty_view(*value))),
        SolTy::Named(n) => TyV::Named(n@),
        SolTy::Enum(n) => TyV::Enum(n@),
        SolTy::Array(e) => TyV::Array(Box::new(ty_view(*e))),
    }
}

impl View for SolTy {
    type V = TyV;

    open spec fn view(&self) -> TyV {
        ty_view(*self)
    }
}

/// A copy of a type.
pub fn copy_ty(t: &SolTy) -> (r: SolTy)
    ensures
        r@ == t@,
    decreases t,
{
    match t {
        SolTy::Num { lit } => SolTy::Num { lit: clone_string(lit) },
        SolTy::U256 => SolTy::U256,
        SolTy::UintN(n) => SolTy::UintN(*n),
        SolTy::Address => SolTy::Address,
        SolTy::Bool => SolTy::Bool,
        SolTy::Mapping { key, value } => SolTy::Mapping {
            key: Box::new(copy_ty(key)),
            value: Box::new(copy_ty(value)),
        },
        SolTy::Named(n) => SolTy::Named(clone_string(n)),
        SolTy::Enum(n) => SolTy::Enum(clone_string(n)),
        SolTy::Array(e) => SolTy::Array(Box::new(copy_ty(e))),
    }
}

/// Byte-wise strict lexicographic order (std's order on string slices).
pub open spec fn bytes_lt(a: Seq<u8>, b: Seq<u8>) -> bool
    decreases a.len(),
{
    if a.len() == 0 {
        b.len() > 0
    } else if b.len() == 0 {
        false
    } else if a[0] < b[0] {
        true
    } else if a[0] > b[0] {
        false
    } else {
        bytes_lt(a.drop_first(), b.drop_first())
    }
}

/// Whether a literal text fits `bits` bits: a `0x`/`0X` hex text by its significant digit
/// count (4 bits each); otherwise the text with leading zeros dropped (`"0"` when nothing is
/// left) compared with the decimal digits of `2^bits`, by length and then byte-wise.
pub open spec fn lit_fits(lit: Seq<char>, bits: nat) -> bool {
    let b = encode_utf8(lit);
    if b.len() >= 2 && b[0] == 48 && (b[1] == 120 || b[1] == 88) {
        strip_zeros(b.skip(2)).len() * 4 <= bits
    } else {
        let t0 = strip_zeros(b);
        let t = if t0.len() == 0 {
            seq![48u8]
        } else {
            t0
        };
        let p = dec_bytes(pow_nat(2, bits));
        t.len() < p.len() || (t.len() == p.len() && bytes_lt(t, p))
    }
}

/// `10^m <= 10^n` for `m <= n`.
proof fn lemma_pow10_mono(m: nat, n: nat)
    requires
        m <= n,
    ensures
        pow10(m) <= pow10(n),
    decreases n,
{
    if m < n {
        lemma_pow10_mono(m, (n - 1) as nat);
        lemma_pow10_pos((n - 1) as nat);
    }
}

/// A run of `n` digits is worth less than `10^n`.
pub(crate) proof fn lemma_digits_below(s: Seq<u8>)
    requires
        all_digits(s),
    ensures
        dec_value(s) < pow10(s.len()),
    decreases s.len(),
{
    if s.len() > 0 {
        let r = s.drop_last();
        assert(all_digits(r)) by {
            assert forall|k: int| 0 <= k < r.len() implies is_digit(#[trigger] r[k]) by {
                assert(r[k] == s[k]);
            }
        }
        lemma_digits_below(r);
        assert(is_digit(s.last())) by {
            assert(s.last() == s[s.len() - 1]);
        }
        let v = dec_value(r);
        let d = (s.last() - 48) as nat;
        let p = pow10(r.len());
        assert(dec_value(s) == v * 10 + d);
        assert(pow10(s.len()) == 10 * p);
        assert(v * 10 + d < 10 * p) by (nonlinear_arith)
            requires
                v < p,
                d < 10,
        ;
    }
}

/// A digit text with a non-zero leading digit is worth at least `10^(n-1)`.
pub(crate) proof fn lemma_leading_at_least(s: Seq<u8>)
    requires
        all_digits(s),
        s.len() > 0,
        s[0] != 48,
    ensures
        dec_value(s) >= pow10((s.len() - 1) as nat),
{
    let r = s.drop_first();
    assert(s =~= seq![s[0]] + r);
    assert(is_digit(s[0]));
    lemma_dec_prepend(s[0], r);
    let a = (s[0] - 48) as nat;
    let p = pow10(r.len());
    assert(a * p >= p) by (nonlinear_arith)
        requires
            a >= 1,
    ;
}

/// Digit texts of equal length compare byte-wise as their values do.
proof fn lemma_same_len_order(a: Seq<u8>, b: Seq<u8>)
    requires
        all_digits(a),
        all_digits(b),
        a.len() == b.len(),
    ensures
        bytes_lt(a, b) <==> dec_value(a) < dec_value(b),
    decreases a.len(),
{
    if a.len() > 0 {
        let ar = a.drop_first();
        let br = b.drop_first();
        assert(a =~= seq![a[0]] + ar);
        assert(b =~= seq![b[0]] + br);
        assert(is_digit(a[0]) && is_digit(b[0]));
        assert(all_digits(ar)) by {
            assert forall|k: int| 0 <= k < ar.len() implies is_digit(#[trigger] ar[k]) by {
                assert(ar[k] == a[k + 1]);
            }
        }
        assert(all_digits(br)) by {
            assert forall|k: int| 0 <= k < br.len() implies is_digit(#[trigger] br[k]) by {
                assert(br[k] == b[k + 1]);
            }
        }
        lemma_dec_prepend(a[0], ar);
        lemma_dec_prepend(b[0], br);
        lemma_digits_below(ar);
        lemma_digits_below(br);
        let p = pow10(ar.len());
        let x = (a[0] - 48) as nat;
        let y = (b[0] - 48) as nat;
        let ra = dec_value(ar);
        let rb = dec_value(br);
        if a[0] == b[0] {
            lemma_same_len_order(ar, br);
        } else if a[0] < b[0] {
            assert(x * p + ra < y * p + rb) by (nonlinear_arith)
                requires
                    x < y,
                    ra < p,
            ;
        } else {
            assert(y * p + rb < x * p + ra) by (nonlinear_arith)
                requires
                    y < x,
                    rb < p,
            ;
        }
    }
}

/// The canonical digits of a positive value do not start with `0`.
proof fn lemma_dec_bytes_lead(v: nat)
    requires
        v >= 1,
    ensures
        dec_bytes(v)[0] != 48,
    decreases v,
{
    if v >= 10 {
        lemma_dec_bytes_lead(v / 10);
        lemma_dec_bytes_digits(v / 10);
    }
}

/// A decimal literal fits `bits` bits exactly when its value is below `2^bits`.
pub proof fn lemma_decimal_literal_fits(lit: Seq<char>, bits: nat)
    requires
        all_digits(encode_utf8(lit)),
    ensures
        lit_fits(lit, bits) <==> dec_value(encode_utf8(lit)) < pow_nat(2, bits),
{
    let b = encode_utf8(lit);
    if b.len() >= 2 {
        assert(is_digit(b[1]));
    }
    lemma_strip_zeros_value(b);
    let t0 = strip_zeros(b);
    let t = if t0.len() == 0 {
        seq![48u8]
    } else {
        t0
    };
    let v = dec_value(b);
    if t0.len() == 0 {
        assert(dec_value(t) == 0) by {
            assert(t.drop_last() =~= Seq::<u8>::empty());
            assert(t.last() == 48u8);
            assert(dec_value(t) == dec_value(t.drop_last()) * 10 + (t.last() - 48) as nat);
        }
        assert(all_digits(t));
    }
    assert(dec_value(t) == v);
    let big = pow_nat(2, bits);
    lemma_pow2_pos(bits);
    let p = dec_bytes(big);
    lemma_dec_bytes_digits(big);
    lemma_dec_bytes_lead(big);
    lemma_digits_below(t);
    lemma_digits_below(p);
    lemma_leading_at_least(p);
    if t.len() < p.len() {
        lemma_pow10_mono(t.len(), (p.len() - 1) as nat);
    } else if t.len() > p.len() {
        if t0.len() > 0 {
            lemma_leading_at_least(t);
            lemma_pow10_mono(p.len(), (t.len() - 1) as nat);
        }
    } else {
        lemma_same_len_order(t, p);
    }
}

/// The decimal digits of `2^bits`.
pub(crate) fn pow2_digits(bits: u16) -> (r: Vec<u8>)
    requires
        bits <= 256,
    ensures
        r@ == dec_bytes(pow_nat(2, bits as nat)),
{
    let mut digits: Vec<u8> = Vec::new();
    digits.push(49);
    let mut k: u16 = 0;
    proof {
        assert(pow_nat(2, 0) == 1);
        assert(dec_bytes(1) == seq![49u8]);
        assert(digits@ =~= seq![49u8]);
    }
    while k < bits
        invariant
            k <= bits <= 256,
            digits@ == dec_bytes(pow_nat(2, k as nat)),
        decreases bits - k,
    {
        proof {
            lemma_dec_bytes_digits(pow_nat(2, k as nat));
        }
        let doubled = mul_u64_decimal(digits.as_slice(), 2);
        let t = strip_zeros_bytes(doubled.as_slice());
        proof {
            lemma_strip_zeros_value(doubled@);
            assert(pow_nat(2, (k + 1) as nat) == 2 * pow_nat(2, k as nat));
            assert(pow_nat(2, k as nat) >= 1) by {
                lemma_pow2_pos(k as nat);
            }
            assert(dec_value(t@) >= 2);
            assert(t@.len() > 0) by {
                if t@.len() == 0 {
                    assert(dec_value(t@) == 0);
                }
            }
            lemma_canonical(t@);
        }
        digits = slice_to_vec(t);
        k = k + 1;
    }
    digits
}

pub(crate) proof fn lemma_pow2_pos(k: nat)
    ensures
        pow_nat(2, k) >= 1,
    decreases k,
{
    if k > 0 {
        lemma_pow2_pos((k - 1) as nat);
    }
}

/// `2^bits` in decimal.
pub fn pow2_decimal(bits: u16) -> (r: String)
    requires
        bits <= 256,
    ensures
        r@ == ascii_chars(dec_bytes(pow_nat(2, bits as nat))),
{
    let d = pow2_digits(bits);
    ascii_string(d.as_slice())
}

/// Whether a numeric literal text is `< 2^bits` (see `lit_fits`); used for the 160-bit
/// `address` range and every `uintN` width.
pub fn num_fits_width(text: &str, bits: u16) -> (r: bool)
    requires
        bits <= 256,
    ensures
        r == lit_fits(text@, bits as nat),
{
    let b = text.as_bytes();
    if b.len() >= 2 && b[0] == 48 && (b[1] == 120 || b[1] == 88) {
        let hex = slice_subrange(b, 2, b.len());
        assert(hex@ =~= b@.skip(2));
        let t = strip_zeros_bytes(hex);
        return t.len() <= (bits as usize) / 4;
    }
    let pow = pow2_digits(bits);
    let t0 = strip_zeros_bytes(b);
    let zero: [u8; 1] = [48u8];
    let t: &[u8] = if t0.len() == 0 {
        assert(zero@ =~= seq![48u8]);
        &zero
    } else {
        t0
    };
    if t.len() < pow.len() {
        return true;
    }
    if t.len() > pow.len() {
        return false;
    }
    let mut k: usize = 0;
    assert(t@.skip(0) =~= t@);
    assert(pow@.skip(0) =~= pow@);
    assert(lit_fits(text@, bits as nat) == bytes_lt(t@, pow@));
    while k < t.len()
        invariant
            k <= t@.len(),
            t@.len() == pow@.len(),
            lit_fits(text@, bits as nat) == bytes_lt(t@, pow@),
            bytes_lt(t@.skip(k as int), pow@.skip(k as int)) == bytes_lt(t@, pow@),
        decreases t@.len() - k,
    {
        assert(t@.skip(k as int).drop_first() =~= t@.skip(k + 1));
        assert(pow@.skip(k as int).drop_first() =~= pow@.skip(k + 1));
        assert(t@.skip(k as int)[0] == t@[k as int]);
        assert(pow@.skip(k as int)[0] == pow@[k as int]);
        if t[k] < pow[k] {
            return true;
        }
        if t[k] > pow[k] {
            return false;
        }
        k = k + 1;
    }
    assert(t@.skip(k as int) =~= Seq::<u8>::empty());
    false
}

// ── Operand and assignment compatibility ────────────────────────────────────

/// The outcome of a check that fails with one code at a given span.
pub open spec fn outcome(r: Result<(), FrontendDiag>, code: Option<&'static str>, span: Range<usize>) -> bool {
    match code {
        None => r is Ok,
        Some(c) => r matches Err(d) && d.code == c && d.span == span,
    }
}

pub open spec fn num_or_u256(t: TyV) -> bool {
    t is U256 || t is Num
}

pub open spec fn numeric(t: TyV) -> bool {
    t is U256 || t is Num || t is UintN
}

/// The code for operands that are not both numeric: an address (FE443) before a bool
/// (FE445) before a mapping (FE442); anything else is a kind mismatch (FE445).
pub open spec fn operand_kind_code(l: TyV, r: TyV) -> &'static str {
    if l is Address || r is Address {
        codes::FE443_ADDRESS_OP_SOL
    } else if l is Bool || r is Bool {
        codes::FE445_TYPE_MISMATCH_SOL
    } else if l is Mapping || r is Mapping {
        codes::FE442_BAD_INDEX_SOL
    } else {
        codes::FE445_TYPE_MISMATCH_SOL
    }
}

/// The result type of `+ - * / %`: `u256` among `uint256` and literals, `uintN` for the
/// same width (a literal must fit it, FE430), FE462 for mixed widths, and a kind code for
/// anything non-numeric.
pub open spec fn arith_spec(l: TyV, r: TyV) -> Result<TyV, &'static str> {
    if num_or_u256(l) && num_or_u256(r) {
        Ok(TyV::U256)
    } else {
        match (l, r) {
            (TyV::UintN(n), TyV::UintN(m)) => if n == m {
                Ok(TyV::UintN(n))
            } else {
                Err(codes::FE462_UINTN_WIDTH_SOL)
            },
            (TyV::UintN(n), TyV::Num(lit)) => if lit_fits(lit, n as nat) {
                Ok(TyV::UintN(n))
            } else {
                Err(codes::FE430_BAD_NUMBER_SOL)
            },
            (TyV::Num(lit), TyV::UintN(n)) => if lit_fits(lit, n as nat) {
                Ok(TyV::UintN(n))
            } else {
                Err(codes::FE430_BAD_NUMBER_SOL)
            },
            (TyV::UintN(_), TyV::U256) => Err(codes::FE462_UINTN_WIDTH_SOL),
            (TyV::U256, TyV::UintN(_)) => Err(codes::FE462_UINTN_WIDTH_SOL),
            _ => Err(operand_kind_code(l, r)),
        }
    }
}

/// A literal beside a `uintN` must fit that width (FE430); other pairs pass.
pub open spec fn lit_width_code(l: TyV, r: TyV) -> Option<&'static str> {
    match (l, r) {
        (TyV::UintN(n), TyV::Num(lit)) => if lit_fits(lit, n as nat) {
            None
        } else {
            Some(codes::FE430_BAD_NUMBER_SOL)
        },
        (TyV::Num(lit), TyV::UintN(n)) => if lit_fits(lit, n as nat) {
            None
        } else {
            Some(codes::FE430_BAD_NUMBER_SOL)
        },
        _ => None,
    }
}

/// `< <= > >=`: numeric operands (a literal fitting a `uintN` beside it) or the same enum;
/// an address has no order (FE443), any other pair is a mismatch (FE445, FE442 for a
/// mapping).
pub open spec fn ordered_code(l: TyV, r: TyV) -> Option<&'static str> {
    if numeric(l) && numeric(r) {
        lit_width_code(l, r)
    } else if l is Address || r is Address {
        Some(codes::FE443_ADDRESS_OP_SOL)
    } else if l is Bool || r is Bool {
        Some(codes::FE445_TYPE_MISMATCH_SOL)
    } else if l is Mapping || r is Mapping {
        Some(codes::FE442_BAD_INDEX_SOL)
    } else if l is Named || r is Named {
        Some(codes::FE445_TYPE_MISMATCH_SOL)
    } else {
        match (l, r) {
            (TyV::Enum(a), TyV::Enum(b)) => if a == b {
                None
            } else {
                Some(codes::FE445_TYPE_MISMATCH_SOL)
            },
            _ => Some(codes::FE445_TYPE_MISMATCH_SOL),
        }
    }
}

/// `== !=`: bools together, numbers together (a literal fitting a `uintN`, FE430), addresses
/// with addresses or 160-bit literals, the same enum; never an address with a `uint256` or
/// `uintN` (FE443); a mapping must be indexed first (FE442); anything else FE445.
pub open spec fn eq_code(l: TyV, r: TyV) -> Option<&'static str> {
    match (l, r) {
        (TyV::Bool, TyV::Bool) => None,
        (TyV::Address, TyV::Address) => None,
        (TyV::Address, TyV::Num(lit)) => if lit_fits(lit, 160) {
            None
        } else {
            Some(codes::FE430_BAD_NUMBER_SOL)
        },
        (TyV::Num(lit), TyV::Address) => if lit_fits(lit, 160) {
            None
        } else {
            Some(codes::FE430_BAD_NUMBER_SOL)
        },
        (TyV::Address, TyV::UintN(_)) => Some(codes::FE443_ADDRESS_OP_SOL),
        (TyV::UintN(_), TyV::Address) => Some(codes::FE443_ADDRESS_OP_SOL),
        (TyV::Address, TyV::U256) => Some(codes::FE443_ADDRESS_OP_SOL),
        (TyV::U256, TyV::Address) => Some(codes::FE443_ADDRESS_OP_SOL),
        (TyV::Enum(a), TyV::Enum(b)) => if a == b {
            None
        } else {
            Some(codes::FE445_TYPE_MISMATCH_SOL)
        },
        _ => if numeric(l) && numeric(r) {
            lit_width_code(l, r)
        } else if l is Mapping || r is Mapping {
            Some(codes::FE442_BAD_INDEX_SOL)
        } else {
            Some(codes::FE445_TYPE_MISMATCH_SOL)
        },
    }
}

/// A compound-assignment target on a mapping value must be `uint256`.
pub open spec fn arith_target_code(t: TyV) -> Option<&'static str> {
    match t {
        TyV::U256 => None,
        TyV::UintN(_) => Some(codes::FE462_UINTN_WIDTH_SOL),
        TyV::Address => Some(codes::FE443_ADDRESS_OP_SOL),
        _ => Some(codes::FE445_TYPE_MISMATCH_SOL),
    }
}

/// Whether a value of type `from` may flow into a slot of type `to`: `uint256` takes
/// numbers and any `uintN`; an address takes addresses and 160-bit literals; a `uintN`
/// takes narrower-or-equal widths and fitting literals (narrowing is FE462, an oversized
/// literal FE430); bools, structs and enums take only themselves (by name); a mapping or
/// an array is never a target. An address where a number is expected (or the reverse) is
/// FE443, a mapping used as a value FE442, any other mismatch FE445.
pub open spec fn assign_code(from: TyV, to: TyV) -> Option<&'static str> {
    match to {
        TyV::U256 => if numeric(from) {
            None
        } else if from is Address {
            Some(codes::FE443_ADDRESS_OP_SOL)
        } else if from is Mapping {
            Some(codes::FE442_BAD_INDEX_SOL)
        } else {
            Some(codes::FE445_TYPE_MISMATCH_SOL)
        },
        TyV::Address => match from {
            TyV::Address => None,
            TyV::Num(lit) => if lit_fits(lit, 160) {
                None
            } else {
                Some(codes::FE430_BAD_NUMBER_SOL)
            },
            TyV::U256 => Some(codes::FE443_ADDRESS_OP_SOL),
            TyV::UintN(_) => Some(codes::FE443_ADDRESS_OP_SOL),
            TyV::Mapping(_, _) => Some(codes::FE442_BAD_INDEX_SOL),
            _ => Some(codes::FE445_TYPE_MISMATCH_SOL),
        },
        TyV::Bool => match from {
            TyV::Bool => None,
            TyV::Mapping(_, _) => Some(codes::FE442_BAD_INDEX_SOL),
            _ => Some(codes::FE445_TYPE_MISMATCH_SOL),
        },
        TyV::Mapping(_, _) => Some(codes::FE442_BAD_INDEX_SOL),
        TyV::Named(tn) => match from {
            TyV::Named(f) => if f == tn {
                None
            } else {
                Some(codes::FE445_TYPE_MISMATCH_SOL)
            },
            _ => Some(codes::FE445_TYPE_MISMATCH_SOL),
        },
        TyV::UintN(n) => match from {
            TyV::UintN(m) => if m <= n {
                None
            } else {
                Some(codes::FE462_UINTN_WIDTH_SOL)
            },
            TyV::Num(lit) => if lit_fits(lit, n as nat) {
                None
            } else {
                Some(codes::FE430_BAD_NUMBER_SOL)
            },
            TyV::U256 => Some(codes::FE462_UINTN_WIDTH_SOL),
            TyV::Address => Some(codes::FE443_ADDRESS_OP_SOL),
            TyV::Mapping(_, _) => Some(codes::FE442_BAD_INDEX_SOL),
            _ => Some(codes::FE445_TYPE_MISMATCH_SOL),
        },
        TyV::Enum(tn) => match from {
            TyV::Enum(f) => if f == tn {
                None
            } else {
                Some(codes::FE445_TYPE_MISMATCH_SOL)
            },
            _ => Some(codes::FE445_TYPE_MISMATCH_SOL),
        },
        TyV::Array(_) => Some(codes::FE445_TYPE_MISMATCH_SOL),
        TyV::Num(_) => Some(codes::FE445_TYPE_MISMATCH_SOL),
    }
}

/// A type as the resolver produces it: `uintN` widths at most 256 and no literal type
/// inside a mapping.
pub open spec fn ty_wf(t: TyV) -> bool
    decreases t,
{
    match t {
        TyV::UintN(n) => n <= 256,
        TyV::Mapping(k, v) => !(*k is Num) && !(*v is Num) && ty_wf(*k) && ty_wf(*v),
        TyV::Array(e) => ty_wf(*e),
        _ => true,
    }
}

fn fail(code: &'static str, msg: &str, span: Range<usize>) -> (d: FrontendDiag)
    ensures
        d.code == code,
        d.span == span,
{
    FrontendDiag::new(code, msg, span)
}

/// The result type of an arithmetic operation (see `arith_spec`).
pub fn arith_result_ty(l: &SolTy, r: &SolTy, span: Range<usize>) -> (res: Result<SolTy, FrontendDiag>)
    requires
        ty_wf(l@),
        ty_wf(r@),
    ensures
        match arith_spec(l@, r@) {
            Ok(t) => res matches Ok(x) && x@ == t,
            Err(c) => res matches Err(d) && d.code == c && d.span == span,
        },
{
    match (l, r) {
        (SolTy::U256, SolTy::U256) | (SolTy::U256, SolTy::Num { .. }) | (SolTy::Num { .. }, SolTy::U256) | (
            SolTy::Num { .. },
            SolTy::Num { .. },
        ) => Ok(SolTy::U256),
        (SolTy::UintN(n), SolTy::UintN(m)) => {
            if *n == *m {
                Ok(SolTy::UintN(*n))
            } else {
                Err(fail(codes::FE462_UINTN_WIDTH_SOL, "mixed-width arithmetic requires both operands the same width (`uintN op uintN`)", span))
            }
        },
        (SolTy::UintN(n), SolTy::Num { lit }) | (SolTy::Num { lit }, SolTy::UintN(n)) => {
            if num_fits_width(lit.as_str(), *n) {
                Ok(SolTy::UintN(*n))
            } else {
                Err(fail(codes::FE430_BAD_NUMBER_SOL, "numeric literal exceeds the `uintN` range [0, 2^N)", span))
            }
        },
        (SolTy::UintN(_), SolTy::U256) | (SolTy::U256, SolTy::UintN(_)) => Err(
            fail(codes::FE462_UINTN_WIDTH_SOL, "mixed-width arithmetic requires both operands the same width (`uintN op uintN`)", span),
        ),
        (SolTy::Address, _) | (_, SolTy::Address) => Err(
            fail(codes::FE443_ADDRESS_OP_SOL, "arithmetic on an `address` is not allowed (address admits only `==`/`!=`)", span),
        ),
        (SolTy::Bool, _) | (_, SolTy::Bool) => Err(
            fail(codes::FE445_TYPE_MISMATCH_SOL, "arithmetic operand must be numeric (got `bool`)", span),
        ),
        (SolTy::Mapping { .. }, _) | (_, SolTy::Mapping { .. }) => Err(
            fail(codes::FE442_BAD_INDEX_SOL, "a mapping must be indexed (`m[k]`) before use as a value", span),
        ),
        _ => Err(fail(codes::FE445_TYPE_MISMATCH_SOL, "arithmetic operand must be numeric", span)),
    }
}

/// A literal beside a `uintN` must fit it (see `lit_width_code`).
fn lit_fits_operands(l: &SolTy, r: &SolTy, span: Range<usize>) -> (res: Result<(), FrontendDiag>)
    requires
        ty_wf(l@),
        ty_wf(r@),
    ensures
        outcome(res, lit_width_code(l@, r@), span),
{
    match (l, r) {
        (SolTy::UintN(n), SolTy::Num { lit }) | (SolTy::Num { lit }, SolTy::UintN(n)) => {
            if num_fits_width(lit.as_str(), *n) {
                Ok(())
            } else {
                Err(fail(codes::FE430_BAD_NUMBER_SOL, "numeric literal exceeds the `uintN` range [0, 2^N)", span))
            }
        },
        _ => Ok(()),
    }
}

/// Relational operand compatibility (see `ordered_code`).
pub fn require_ordered_compatible(l: &SolTy, r: &SolTy, span: Range<usize>) -> (res: Result<(), FrontendDiag>)
    requires
        ty_wf(l@),
        ty_wf(r@),
    ensures
        outcome(res, ordered_code(l@, r@), span),
{
    let ln = match l {
        SolTy::U256 | SolTy::Num { .. } | SolTy::UintN(_) => true,
        _ => false,
    };
    let rn = match r {
        SolTy::U256 | SolTy::Num { .. } | SolTy::UintN(_) => true,
        _ => false,
    };
    if ln && rn {
        return lit_fits_operands(l, r, span);
    }
    match (l, r) {
        (SolTy::Address, _) | (_, SolTy::Address) => Err(
            fail(codes::FE443_ADDRESS_OP_SOL, "an `address` has no ordering (`< <= > >=` are not allowed; use `==`/`!=`)", span),
        ),
        (SolTy::Bool, _) | (_, SolTy::Bool) => Err(
            fail(codes::FE445_TYPE_MISMATCH_SOL, "relational comparison operand must be numeric (got `bool`)", span),
        ),
        (SolTy::Mapping { .. }, _) | (_, SolTy::Mapping { .. }) => Err(
            fail(codes::FE442_BAD_INDEX_SOL, "a mapping must be indexed (`m[k]`) before use as a value", span),
        ),
        (SolTy::Named(_), _) | (_, SolTy::Named(_)) => Err(
            fail(codes::FE445_TYPE_MISMATCH_SOL, "relational comparison operand must be numeric (got a struct)", span),
        ),
        (SolTy::Enum(a), SolTy::Enum(b)) => {
            if str_eq(a.as_str(), b.as_str()) {
                Ok(())
            } else {
                Err(fail(codes::FE445_TYPE_MISMATCH_SOL, "relational comparison requires both operands the SAME enum", span))
            }
        },
        _ => Err(fail(codes::FE445_TYPE_MISMATCH_SOL, "relational comparison requires both operands the SAME enum", span)),
    }
}

/// `==`/`!=` operand compatibility (see `eq_code`).
pub fn require_eq_compatible(l: &SolTy, r: &SolTy, span: Range<usize>) -> (res: Result<(), FrontendDiag>)
    requires
        ty_wf(l@),
        ty_wf(r@),
    ensures
        outcome(res, eq_code(l@, r@), span),
{
    match (l, r) {
        (SolTy::Bool, SolTy::Bool) => Ok(()),
        (SolTy::Address, SolTy::Address) => Ok(()),
        (SolTy::Address, SolTy::Num { lit }) | (SolTy::Num { lit }, SolTy::Address) => {
            if num_fits_width(lit.as_str(), 160) {
                Ok(())
            } else {
                Err(fail(codes::FE430_BAD_NUMBER_SOL, "numeric literal compared to an `address` exceeds the 160-bit address range", span))
            }
        },
        (SolTy::Address, SolTy::UintN(_)) | (SolTy::UintN(_), SolTy::Address) | (SolTy::Address, SolTy::U256) | (
            SolTy::U256,
            SolTy::Address,
        ) => Err(fail(codes::FE443_ADDRESS_OP_SOL, "cannot compare an `address` with a number (distinct types; no implicit conversion)", span)),
        (SolTy::Enum(a), SolTy::Enum(b)) => {
            if str_eq(a.as_str(), b.as_str()) {
                Ok(())
            } else {
                Err(fail(codes::FE445_TYPE_MISMATCH_SOL, "incompatible operand types for `==`/`!=`", span))
            }
        },
        (SolTy::U256, _) | (SolTy::Num { .. }, _) | (SolTy::UintN(_), _) => {
            match r {
                SolTy::U256 | SolTy::Num { .. } | SolTy::UintN(_) => lit_fits_operands(l, r, span),
                SolTy::Mapping { .. } => Err(fail(codes::FE442_BAD_INDEX_SOL, "a mapping must be indexed (`m[k]`) before use in an expression", span)),
                _ => Err(fail(codes::FE445_TYPE_MISMATCH_SOL, "incompatible operand types for `==`/`!=`", span)),
            }
        },
        (SolTy::Mapping { .. }, _) | (_, SolTy::Mapping { .. }) => Err(
            fail(codes::FE442_BAD_INDEX_SOL, "a mapping must be indexed (`m[k]`) before use in an expression", span),
        ),
        _ => Err(fail(codes::FE445_TYPE_MISMATCH_SOL, "incompatible operand types for `==`/`!=`", span)),
    }
}

/// A compound-assignment target on a mapping value must be `uint256`.
pub fn require_arith_target(t: &SolTy, span: Range<usize>) -> (res: Result<(), FrontendDiag>)
    ensures
        outcome(res, arith_target_code(t@), span),
{
    match t {
        SolTy::U256 => Ok(()),
        SolTy::UintN(_) => Err(fail(codes::FE462_UINTN_WIDTH_SOL, "arithmetic on a narrow `uintN` mapping value is unsupported (the bounded map is u256-valued)", span)),
        SolTy::Address => Err(fail(codes::FE443_ADDRESS_OP_SOL, "compound arithmetic assignment to an `address` is not allowed", span)),
        _ => Err(fail(codes::FE445_TYPE_MISMATCH_SOL, "compound arithmetic assignment requires a `uint256` target", span)),
    }
}

/// Whether a value of type `from` may flow into a slot of type `to` (see `assign_code`).
pub fn require_assignable(from: &SolTy, to: &SolTy, span: Range<usize>) -> (res: Result<(), FrontendDiag>)
    requires
        ty_wf(from@),
        ty_wf(to@),
        !(to@ is Num),
    ensures
        outcome(res, assign_code(from@, to@), span),
{
    match to {
        SolTy::U256 => match from {
            SolTy::U256 | SolTy::Num { .. } | SolTy::UintN(_) => Ok(()),
            SolTy::Address => Err(fail(codes::FE443_ADDRESS_OP_SOL, "an `address` cannot be used where `uint256` is expected", span)),
            SolTy::Mapping { .. } => Err(fail(codes::FE442_BAD_INDEX_SOL, "a mapping must be indexed (`m[k]`) before use as a value", span)),
            _ => Err(fail(codes::FE445_TYPE_MISMATCH_SOL, "a non-numeric value cannot be used where `uint256` is expected", span)),
        },
        SolTy::Address => match from {
            SolTy::Address => Ok(()),
            SolTy::Num { lit } => {
                if num_fits_width(lit.as_str(), 160) {
                    Ok(())
                } else {
                    Err(fail(codes::FE430_BAD_NUMBER_SOL, "address literal exceeds the 160-bit address range [0, 2^160)", span))
                }
            },
            SolTy::U256 | SolTy::UintN(_) => Err(fail(codes::FE443_ADDRESS_OP_SOL, "a number cannot be used where `address` is expected", span)),
            SolTy::Mapping { .. } => Err(fail(codes::FE442_BAD_INDEX_SOL, "a mapping must be indexed (`m[k]`) before use as a value", span)),
            _ => Err(fail(codes::FE445_TYPE_MISMATCH_SOL, "a non-address value cannot be used where `address` is expected", span)),
        },
        SolTy::Bool => match from {
            SolTy::Bool => Ok(()),
            SolTy::Mapping { .. } => Err(fail(codes::FE442_BAD_INDEX_SOL, "a mapping must be indexed (`m[k]`) before use as a value", span)),
            _ => Err(fail(codes::FE445_TYPE_MISMATCH_SOL, "expected a `bool` value", span)),
        },
        SolTy::Mapping { .. } => Err(fail(codes::FE442_BAD_INDEX_SOL, "cannot assign to a mapping as a whole (assign an element with `m[k] = v`)", span)),
        SolTy::Named(tn) => match from {
            SolTy::Named(f) => {
                if str_eq(f.as_str(), tn.as_str()) {
                    Ok(())
                } else {
                    Err(fail(codes::FE445_TYPE_MISMATCH_SOL, "struct type mismatch (structs are nominal)", span))
                }
            },
            _ => Err(fail(codes::FE445_TYPE_MISMATCH_SOL, "struct type mismatch (structs are nominal)", span)),
        },
        SolTy::UintN(n) => match from {
            SolTy::UintN(m) => {
                if *m <= *n {
                    Ok(())
                } else {
                    Err(fail(codes::FE462_UINTN_WIDTH_SOL, "narrowing a wider `uintM` into a `uintN` requires an explicit cast", span))
                }
            },
            SolTy::Num { lit } => {
                if num_fits_width(lit.as_str(), *n) {
                    Ok(())
                } else {
                    Err(fail(codes::FE430_BAD_NUMBER_SOL, "numeric literal exceeds the `uintN` range [0, 2^N)", span))
                }
            },
            SolTy::U256 => Err(fail(codes::FE462_UINTN_WIDTH_SOL, "narrowing a `uint256` into a `uintN` requires an explicit cast", span)),
            SolTy::Address => Err(fail(codes::FE443_ADDRESS_OP_SOL, "an `address` cannot be used where a `uintN` is expected", span)),
            SolTy::Mapping { .. } => Err(fail(codes::FE442_BAD_INDEX_SOL, "a mapping must be indexed (`m[k]`) before use as a value", span)),
            _ => Err(fail(codes::FE445_TYPE_MISMATCH_SOL, "a non-numeric value cannot be used where a `uintN` is expected", span)),
        },
        SolTy::Enum(tn) => match from {
            SolTy::Enum(f) => {
                if str_eq(f.as_str(), tn.as_str()) {
                    Ok(())
                } else {
                    Err(fail(codes::FE445_TYPE_MISMATCH_SOL, "enum type mismatch (enums are nominal)", span))
                }
            },
            _ => Err(fail(codes::FE445_TYPE_MISMATCH_SOL, "enum type mismatch (enums are nominal)", span)),
        },
        SolTy::Array(_) => Err(fail(codes::FE445_TYPE_MISMATCH_SOL, "cannot assign to an array (arrays appear only as read-only airdrop parameters)", span)),
        SolTy::Num { .. } => Err(fail(codes::FE445_TYPE_MISMATCH_SOL, "a literal is never a target type", span)),
    }
}

// ── Declared types ───────────────────────────────────────────────────────────

/// Where a declared type appears: mappings are storage-only, arrays parameter-only.
#[derive(Debug, Clone, Copy, PartialEq, Eq)]
pub enum TyPos {
    StateField,
    Param,
    Return,
    Local,
}

/// std's `u16` parse of a text.
pub open spec fn u16_of(w: Seq<char>) -> Option<nat> {
    match u32_of(w) {
        Some(v) => if v <= 65535 {
            Some(v)
        } else {
            None
        },
        None => None,
    }
}

/// The width of a narrow `uintN` type name: N a multiple of 8 in `8..=248` (`uint256` and
/// `uint` are not narrow).
pub open spec fn uint_width(name: Seq<char>) -> Option<u16> {
    if name.len() >= 4 && name.take(4) == "uint"@ {
        match u16_of(name.skip(4)) {
            Some(n) => if 8 <= n <= 248 && n % 8 == 0 {
                Some(n as u16)
            } else {
                None
            },
            None => None,
        }
    } else {
        None
    }
}

/// The width of a narrow `uintN` type name (see `uint_width`).
pub fn parse_uint_width(name: &str) -> (r: Option<u16>)
    ensures
        r == uint_width(name@),
{
    proof {
        reveal_strlit("uint");
    }
    let n = name.unicode_len();
    if n < 4 {
        return None;
    }
    let word = "uint";
    let mut k: usize = 0;
    while k < 4
        invariant
            k <= 4,
            n == name@.len(),
            n >= 4,
            word@ == "uint"@,
            word@.len() == 4,
            forall|j: int| 0 <= j < k ==> name@[j] == word@[j],
        decreases 4 - k,
    {
        if name.get_char(k) != word.get_char(k) {
            assert(name@.take(4)[k as int] != "uint"@[k as int]);
            return None;
        }
        k = k + 1;
    }
    assert(name@.take(4) =~= "uint"@);
    let cs = chars_of(name);
    let rest = skip_chars(&cs, 4);
    match parse_u32_chars(&rest) {
        Some(v) => {
            if v > 65535 {
                return None;
            }
            let w: u16 = v as u16;
            if 8 <= w && w <= 248 && w % 8 == 0 {
                Some(w)
            } else {
                None
            }
        },
        None => None,
    }
}

/// Some enum of the list is named `n`.
pub open spec fn enum_named(enums: Seq<Enum>, n: Seq<char>) -> bool {
    exists|k: int| 0 <= k < enums.len() && (#[trigger] enums[k]).name@ == n
}

/// Some struct of the list is named `n`.
pub open spec fn struct_named(structs: Seq<Struct>, n: Seq<char>) -> bool {
    exists|k: int| 0 <= k < structs.len() && (#[trigger] structs[k]).name@ == n
}

/// The type a scalar type name denotes: the allow-set `uint256`/`uint`/`bytes32` (the
/// `u256` carrier), `address`, `bool`, a narrow `uintN`, then a declared enum, then a
/// declared struct.
pub open spec fn scalar_ty(name: Seq<char>, structs: Seq<Struct>, enums: Seq<Enum>) -> Option<TyV> {
    if name == "uint256"@ || name == "uint"@ || name == "bytes32"@ {
        Some(TyV::U256)
    } else if name == "address"@ {
        Some(TyV::Address)
    } else if name == "bool"@ {
        Some(TyV::Bool)
    } else if uint_width(name) is Some {
        Some(TyV::UintN(uint_width(name)->0))
    } else if enum_named(enums, name) {
        Some(TyV::Enum(name))
    } else if struct_named(structs, name) {
        Some(TyV::Named(name))
    } else {
        None
    }
}

/// A mapping key: `address`, `uint256`/`uint` or `bytes32`; any other scalar or an array is
/// FE441, a mapping FE440.
pub open spec fn map_key_spec(t: TypeRef) -> Result<TyV, (&'static str, Range<usize>)> {
    match t {
        TypeRef::Scalar { name, span } => if name@ == "uint256"@ || name@ == "uint"@ || name@
            == "bytes32"@ {
            Ok(TyV::U256)
        } else if name@ == "address"@ {
            Ok(TyV::Address)
        } else {
            Err((codes::FE441_BAD_MAP_KV_SOL, span))
        },
        TypeRef::Mapping { span, .. } => Err((codes::FE440_NESTED_MAPPING_SOL, span)),
        TypeRef::Array { span, .. } => Err((codes::FE441_BAD_MAP_KV_SOL, span)),
    }
}

/// A scalar mapping value: a key type or `bool`.
pub open spec fn map_value_scalar_spec(t: TypeRef) -> Result<TyV, (&'static str, Range<usize>)> {
    match t {
        TypeRef::Scalar { name, .. } => if name@ == "bool"@ {
            Ok(TyV::Bool)
        } else {
            map_key_spec(t)
        },
        _ => map_key_spec(t),
    }
}

/// A mapping value: a scalar, or one nested level of scalar key and scalar value.
pub open spec fn map_value_spec(t: TypeRef) -> Result<TyV, (&'static str, Range<usize>)> {
    match t {
        TypeRef::Scalar { .. } => map_value_scalar_spec(t),
        TypeRef::Mapping { key, value, .. } => match map_key_spec(*key) {
            Err(e) => Err(e),
            Ok(k) => match map_value_scalar_spec(*value) {
                Err(e) => Err(e),
                Ok(v) => Ok(TyV::Mapping(Box::new(k), Box::new(v))),
            },
        },
        TypeRef::Array { span, .. } => Err((codes::FE441_BAD_MAP_KV_SOL, span)),
    }
}

/// A declared type: a scalar of the allow-set (else FE410); a mapping only for a state
/// field (else FE410); an array of a key type only for a parameter (else FE491).
pub open spec fn resolve_spec(t: TypeRef, pos: TyPos, structs: Seq<Struct>, enums: Seq<Enum>) -> Result<
    TyV,
    (&'static str, Range<usize>),
> {
    match t {
        TypeRef::Scalar { name, span } => match scalar_ty(name@, structs, enums) {
            Some(x) => Ok(x),
            None => Err((codes::FE410_UNSUPPORTED_TYPE, span)),
        },
        TypeRef::Mapping { key, value, span } => if pos != TyPos::StateField {
            Err((codes::FE410_UNSUPPORTED_TYPE, span))
        } else {
            match map_key_spec(*key) {
                Err(e) => Err(e),
                Ok(k) => match map_value_spec(*value) {
                    Err(e) => Err(e),
                    Ok(v) => Ok(TyV::Mapping(Box::new(k), Box::new(v))),
                },
            }
        },
        TypeRef::Array { elem, span } => if pos != TyPos::Param {
            Err((codes::FE491_ARRAY_TYPE_SOL, span))
        } else {
            match map_key_spec(*elem) {
                Err(e) => Err(e),
                Ok(x) => Ok(TyV::Array(Box::new(x))),
            }
        },
    }
}

/// An exec type result agrees with a spec one.
pub open spec fn ty_outcome(r: Result<SolTy, FrontendDiag>, s: Result<TyV, (&'static str, Range<usize>)>) -> bool {
    match s {
        Ok(t) => r matches Ok(x) && x@ == t && ty_wf(x@),
        Err(e) => r matches Err(d) && d.code == e.0 && d.span == e.1,
    }
}

fn enum_exists(enums: &[Enum], n: &str) -> (r: bool)
    ensures
        r == enum_named(enums@, n@),
{
    let mut k: usize = 0;
    while k < enums.len()
        invariant
            k <= enums@.len(),
            forall|j: int| 0 <= j < k ==> (#[trigger] enums@[j]).name@ != n@,
        decreases enums@.len() - k,
    {
        if string_eq_str(&enums[k].name, n) {
            return true;
        }
        k = k + 1;
    }
    false
}

fn struct_exists(structs: &[Struct], n: &str) -> (r: bool)
    ensures
        r == struct_named(structs@, n@),
{
    let mut k: usize = 0;
    while k < structs.len()
        invariant
            k <= structs@.len(),
            forall|j: int| 0 <= j < k ==> (#[trigger] structs@[j]).name@ != n@,
        decreases structs@.len() - k,
    {
        if string_eq_str(&structs[k].name, n) {
            return true;
        }
        k = k + 1;
    }
    false
}

/// A mapping key type (see `map_key_spec`).
fn resolve_map_key(t: &TypeRef) -> (r: Result<SolTy, FrontendDiag>)
    ensures
        ty_outcome(r, map_key_spec(*t)),
{
    match t {
        TypeRef::Scalar { name, span } => {
            if string_eq_str(name, "uint256") || string_eq_str(name, "uint") || string_eq_str(name, "bytes32") {
                Ok(SolTy::U256)
            } else if string_eq_str(name, "address") {
                Ok(SolTy::Address)
            } else {
                Err(fail(codes::FE441_BAD_MAP_KV_SOL, "mapping key/value type is unsupported (keys: address/uint256/bytes32; values also bool)", copy_span(span)))
            }
        },
        TypeRef::Mapping { span, .. } => Err(fail(codes::FE440_NESTED_MAPPING_SOL, "mapping nesting deeper than 2 levels (or a mapping-typed key) is unsupported", copy_span(span))),
        TypeRef::Array { span, .. } => Err(fail(codes::FE441_BAD_MAP_KV_SOL, "an array type is not a valid mapping key or value", copy_span(span))),
    }
}

/// A scalar mapping value (see `map_value_scalar_spec`).
fn resolve_map_value_scalar(t: &TypeRef) -> (r: Result<SolTy, FrontendDiag>)
    ensures
        ty_outcome(r, map_value_scalar_spec(*t)),
{
    match t {
        TypeRef::Scalar { name, .. } => {
            if string_eq_str(name, "bool") {
                return Ok(SolTy::Bool);
            }
        },
        _ => {},
    }
    resolve_map_key(t)
}

/// A mapping value (see `map_value_spec`).
fn resolve_map_value(t: &TypeRef) -> (r: Result<SolTy, FrontendDiag>)
    ensures
        ty_outcome(r, map_value_spec(*t)),
{
    match t {
        TypeRef::Scalar { .. } => resolve_map_value_scalar(t),
        TypeRef::Mapping { key, value, .. } => {
            let k = match resolve_map_key(key) {
                Ok(k) => k,
                Err(d) => {
                    return Err(d);
                },
            };
            let v = match resolve_map_value_scalar(value) {
                Ok(v) => v,
                Err(d) => {
                    return Err(d);
                },
            };
            Ok(SolTy::Mapping { key: Box::new(k), value: Box::new(v) })
        },
        TypeRef::Array { span, .. } => Err(fail(codes::FE441_BAD_MAP_KV_SOL, "an array type is not a valid mapping value", copy_span(span))),
    }
}

/// Resolves a declared type against the allow-set (see `resolve_spec`).
pub fn resolve_ty(t: &TypeRef, pos: TyPos, structs: &[Struct], enums: &[Enum]) -> (r: Result<SolTy, FrontendDiag>)
    ensures
        ty_outcome(r, resolve_spec(*t, pos, structs@, enums@)),
{
    match t {
        TypeRef::Scalar { name, span } => {
            if string_eq_str(name, "uint256") || string_eq_str(name, "uint") || string_eq_str(name, "bytes32") {
                Ok(SolTy::U256)
            } else if string_eq_str(name, "address") {
                Ok(SolTy::Address)
            } else if string_eq_str(name, "bool") {
                Ok(SolTy::Bool)
            } else {
                match parse_uint_width(name.as_str()) {
                    Some(n) => Ok(SolTy::UintN(n)),
                    None => {
                        if enum_exists(enums, name.as_str()) {
                            Ok(SolTy::Enum(clone_string(name)))
                        } else if struct_exists(structs, name.as_str()) {
                            Ok(SolTy::Named(clone_string(name)))
                        } else {
                            Err(fail(codes::FE410_UNSUPPORTED_TYPE, "type is outside the allow-set {uint8..uint256 (x8), bool, address, bytes32, struct, enum}", copy_span(span)))
                        }
                    },
                }
            }
        },
        TypeRef::Mapping { key, value, span } => {
            match pos {
                TyPos::StateField => {},
                _ => {
                    return Err(fail(codes::FE410_UNSUPPORTED_TYPE, "a `mapping` type is only allowed for a state variable", copy_span(span)));
                },
            }
            let k = match resolve_map_key(key) {
                Ok(k) => k,
                Err(d) => {
                    return Err(d);
                },
            };
            let v = match resolve_map_value(value) {
                Ok(v) => v,
                Err(d) => {
                    return Err(d);
                },
            };
            Ok(SolTy::Mapping { key: Box::new(k), value: Box::new(v) })
        },
        TypeRef::Array { elem, span } => {
            match pos {
                TyPos::Param => {},
                _ => {
                    return Err(fail(codes::FE491_ARRAY_TYPE_SOL, "a dynamic array type is only allowed as a function parameter", copy_span(span)));
                },
            }
            let e = match resolve_map_key(elem) {
                Ok(e) => e,
                Err(d) => {
                    return Err(d);
                },
            };
            Ok(SolTy::Array(Box::new(e)))
        },
    }
}

// ── Expression types ─────────────────────────────────────────────────────────

/// A type environment as names and type values, in binding order.
pub open spec fn env_view(env: Seq<(String, SolTy)>) -> Seq<(Seq<char>, TyV)> {
    env.map_values(|b: (String, SolTy)| (b.0@, b.1@))
}

/// The type bound to `n` in an environment (the latest binding wins).
pub open spec fn env_lookup(env: Seq<(Seq<char>, TyV)>, n: Seq<char>) -> Option<TyV>
    decreases env.len(),
{
    if env.len() == 0 {
        None
    } else if env.last().0 == n {
        Some(env.last().1)
    } else {
        env_lookup(env.drop_last(), n)
    }
}

/// Every bound type is a well-formed declared type (never a literal type).
pub open spec fn env_ok(env: Seq<(Seq<char>, TyV)>) -> bool {
    forall|k: int| 0 <= k < env.len() ==> ty_wf((#[trigger] env[k]).1) && !(env[k].1 is Num)
}

/// The first struct from the `k`-th on named `n`.
pub open spec fn first_struct(structs: Seq<Struct>, n: Seq<char>, k: int) -> Option<int>
    decreases structs.len() - k,
{
    if k < 0 || k >= structs.len() {
        None
    } else if structs[k].name@ == n {
        Some(k)
    } else {
        first_struct(structs, n, k + 1)
    }
}

/// The first enum from the `k`-th on named `n`.
pub open spec fn first_enum(enums: Seq<Enum>, n: Seq<char>, k: int) -> Option<int>
    decreases enums.len() - k,
{
    if k < 0 || k >= enums.len() {
        None
    } else if enums[k].name@ == n {
        Some(k)
    } else {
        first_enum(enums, n, k + 1)
    }
}

/// The first field from the `k`-th on named `n`.
pub open spec fn first_field(fields: Seq<StructField>, n: Seq<char>, k: int) -> Option<int>
    decreases fields.len() - k,
{
    if k < 0 || k >= fields.len() {
        None
    } else if fields[k].name@ == n {
        Some(k)
    } else {
        first_field(fields, n, k + 1)
    }
}

/// Some text of the list is `n`.
pub open spec fn texts_has(v: Seq<String>, n: Seq<char>) -> bool {
    exists|i: int| 0 <= i < v.len() && (#[trigger] v[i])@ == n
}

/// The type of field `field` of the struct named `sname` (the first of each name), when the
/// field type resolves.
pub open spec fn struct_field_spec(structs: Seq<Struct>, enums: Seq<Enum>, sname: Seq<char>, field: Seq<char>) -> Option<TyV> {
    match first_struct(structs, sname, 0) {
        Some(i) => match first_field(structs[i].fields@, field, 0) {
            Some(j) => match resolve_spec(structs[i].fields@[j].ty, TyPos::Local, structs, enums) {
                Ok(t) => Some(t),
                Err(_) => None,
            },
            None => None,
        },
        None => None,
    }
}

pub open spec fn is_evm_global(g: Seq<char>) -> bool {
    g == "msg"@ || g == "tx"@ || g == "block"@
}

pub open spec fn is_arith(op: BinOp) -> bool {
    op == BinOp::Add || op == BinOp::Sub || op == BinOp::Mul || op == BinOp::Div || op == BinOp::Mod
}

pub open spec fn is_relational(op: BinOp) -> bool {
    op == BinOp::Lt || op == BinOp::Le || op == BinOp::Gt || op == BinOp::Ge
}

/// A member access on a value of type `bt`: an array's `length`, or a struct field.
pub open spec fn member_spec(
    bt: Result<TyV, (&'static str, Range<usize>)>,
    member: Seq<char>,
    span: Range<usize>,
    structs: Seq<Struct>,
    enums: Seq<Enum>,
) -> Result<TyV, (&'static str, Range<usize>)> {
    match bt {
        Err(x) => Err(x),
        Ok(t) => match t {
            TyV::Array(_) => if member == "length"@ {
                Ok(TyV::U256)
            } else {
                Err((codes::FE410_UNSUPPORTED_TYPE, span))
            },
            TyV::Named(sn) => match struct_field_spec(structs, enums, sn, member) {
                Some(ft) => Ok(ft),
                None => Err((codes::FE460_STRUCT_FIELD_MISMATCH_SOL, span)),
            },
            _ => Err((codes::FE410_UNSUPPORTED_TYPE, span)),
        },
    }
}

/// The type of an expression: literals, bound names (FE401 when unbound), `EnumName.Member`
/// (FE466 for a missing member), struct fields and an array's `length`, positional struct
/// construction (FE460 for a wrong arity; each value assignable to its field), a mapping
/// read with an assignable key (FE442 when not a mapping), `!`, and the binary operators
/// by the operand rules; calls, unary minus and `&&`/`||` are unsupported (FE401), as are
/// the EVM globals (FE410).
pub open spec fn infer_spec(e: Expr, env: Seq<(Seq<char>, TyV)>, structs: Seq<Struct>, enums: Seq<Enum>) -> Result<
    TyV,
    (&'static str, Range<usize>),
>
    decreases e,
{
    match e {
        Expr::Num(t, _) => Ok(TyV::Num(t@)),
        Expr::Bool(_, _) => Ok(TyV::Bool),
        Expr::Var(name, span) => match env_lookup(env, name@) {
            Some(t) => Ok(t),
            None => Err((codes::FE401_UNSUPPORTED_SOL, span)),
        },
        Expr::Member(base, member, span) => match *base {
            Expr::Var(g, _) => if is_evm_global(g@) {
                Err((codes::FE410_UNSUPPORTED_TYPE, span))
            } else if env_lookup(env, g@) is None && first_enum(enums, g@, 0) is Some {
                if texts_has(enums[first_enum(enums, g@, 0)->0].members@, member@) {
                    Ok(TyV::Enum(g@))
                } else {
                    Err((codes::FE466_BAD_ENUM_MEMBER_SOL, span))
                }
            } else {
                member_spec(infer_spec(*base, env, structs, enums), member@, span, structs, enums)
            },
            _ => member_spec(infer_spec(*base, env, structs, enums), member@, span, structs, enums),
        },
        Expr::Call(callee, args, span) => match *callee {
            Expr::Var(name, _) => match first_struct(structs, name@, 0) {
                Some(i) => if args@.len() != structs[i].fields@.len() {
                    Err((codes::FE460_STRUCT_FIELD_MISMATCH_SOL, span))
                } else {
                    proof {
                        assert(decreases_to!(e => args));
                        assert(decreases_to!(args => args@));
                    }
                    match args_spec(args@, structs[i].fields@, env, structs, enums) {
                        Some(x) => Err(x),
                        None => Ok(TyV::Named(name@)),
                    }
                },
                None => Err((codes::FE401_UNSUPPORTED_SOL, span)),
            },
            _ => Err((codes::FE401_UNSUPPORTED_SOL, span)),
        },
        Expr::Index(base, key, span) => match infer_spec(*base, env, structs, enums) {
            Err(x) => Err(x),
            Ok(bt) => match bt {
                TyV::Mapping(kt, vt) => match infer_spec(*key, env, structs, enums) {
                    Err(x) => Err(x),
                    Ok(kty) => match assign_code(kty, *kt) {
                        Some(c) => Err((c, key.spec_span())),
                        None => Ok(*vt),
                    },
                },
                _ => Err((codes::FE442_BAD_INDEX_SOL, span)),
            },
        },
        Expr::Unary(op, inner, span) => if op == UnOp::Not {
            match infer_spec(*inner, env, structs, enums) {
                Err(x) => Err(x),
                Ok(_) => Ok(TyV::Bool),
            }
        } else {
            Err((codes::FE401_UNSUPPORTED_SOL, span))
        },
        Expr::Bin(op, l, r, span) => match infer_spec(*l, env, structs, enums) {
            Err(x) => Err(x),
            Ok(lt) => match infer_spec(*r, env, structs, enums) {
                Err(x) => Err(x),
                Ok(rt) => if is_arith(op) {
                    match arith_spec(lt, rt) {
                        Ok(t) => Ok(t),
                        Err(c) => Err((c, span)),
                    }
                } else if is_relational(op) {
                    match ordered_code(lt, rt) {
                        Some(c) => Err((c, span)),
                        None => Ok(TyV::Bool),
                    }
                } else if op == BinOp::Eq || op == BinOp::Ne {
                    match eq_code(lt, rt) {
                        Some(c) => Err((c, span)),
                        None => Ok(TyV::Bool),
                    }
                } else {
                    Err((codes::FE401_UNSUPPORTED_SOL, span))
                },
            },
        },
    }
}

/// Positional struct construction: each value, in order, must be assignable to its field's
/// type; the first failure.
pub open spec fn args_spec(
    args: Seq<Expr>,
    fields: Seq<StructField>,
    env: Seq<(Seq<char>, TyV)>,
    structs: Seq<Struct>,
    enums: Seq<Enum>,
) -> Option<(&'static str, Range<usize>)>
    decreases args,
{
    if args.len() == 0 || fields.len() == 0 {
        None
    } else {
        match infer_spec(args[0], env, structs, enums) {
            Err(x) => Some(x),
            Ok(aty) => match resolve_spec(fields[0].ty, TyPos::Local, structs, enums) {
                Err(x) => Some(x),
                Ok(fty) => match assign_code(aty, fty) {
                    Some(c) => Some((c, args[0].spec_span())),
                    None => args_spec(
                        args.subrange(1, args.len() as int),
                        fields.subrange(1, fields.len() as int),
                        env,
                        structs,
                        enums,
                    ),
                },
            },
        }
    }
}

pub(crate) fn lookup_env(env: &Vec<(String, SolTy)>, n: &str) -> (r: Option<SolTy>)
    requires
        env_ok(env_view(env@)),
    ensures
        match env_lookup(env_view(env@), n@) {
            Some(t) => r matches Some(x) && x@ == t && ty_wf(t) && !(t is Num),
            None => r is None,
        },
{
    let ghost ev = env_view(env@);
    let mut k: usize = env.len();
    assert(ev.take(k as int) =~= ev);
    while k > 0
        invariant
            k <= env@.len(),
            ev == env_view(env@),
            env_ok(ev),
            env_lookup(ev, n@) == env_lookup(ev.take(k as int), n@),
        decreases k,
    {
        let ghost pre = ev.take(k as int);
        assert(pre.last() == ev[k - 1]);
        assert(ev[k - 1] == (env@[k - 1].0@, env@[k - 1].1@));
        assert(pre.drop_last() =~= ev.take(k - 1));
        if string_eq_str(&env[k - 1].0, n) {
            return Some(copy_ty(&env[k - 1].1));
        }
        k = k - 1;
    }
    None
}

pub(crate) fn find_struct(structs: &[Struct], n: &str) -> (r: Option<usize>)
    ensures
        match r {
            Some(i) => first_struct(structs@, n@, 0) == Some(i as int) && i < structs@.len(),
            None => first_struct(structs@, n@, 0) is None,
        },
{
    let mut k: usize = 0;
    while k < structs.len()
        invariant
            k <= structs@.len(),
            first_struct(structs@, n@, 0) == first_struct(structs@, n@, k as int),
        decreases structs@.len() - k,
    {
        if string_eq_str(&structs[k].name, n) {
            return Some(k);
        }
        k = k + 1;
    }
    None
}

fn find_enum(enums: &[Enum], n: &str) -> (r: Option<usize>)
    ensures
        match r {
            Some(i) => first_enum(enums@, n@, 0) == Some(i as int) && i < enums@.len(),
            None => first_enum(enums@, n@, 0) is None,
        },
{
    let mut k: usize = 0;
    while k < enums.len()
        invariant
            k <= enums@.len(),
            first_enum(enums@, n@, 0) == first_enum(enums@, n@, k as int),
        decreases enums@.len() - k,
    {
        if string_eq_str(&enums[k].name, n) {
            return Some(k);
        }
        k = k + 1;
    }
    None
}

fn find_field(fields: &Vec<StructField>, n: &str) -> (r: Option<usize>)
    ensures
        match r {
            Some(i) => first_field(fields@, n@, 0) == Some(i as int) && i < fields@.len(),
            None => first_field(fields@, n@, 0) is None,
        },
{
    let mut k: usize = 0;
    while k < fields.len()
        invariant
            k <= fields@.len(),
            first_field(fields@, n@, 0) == first_field(fields@, n@, k as int),
        decreases fields@.len() - k,
    {
        if string_eq_str(&fields[k].name, n) {
            return Some(k);
        }
        k = k + 1;
    }
    None
}

fn text_in(v: &Vec<String>, n: &str) -> (r: bool)
    ensures
        r == texts_has(v@, n@),
{
    let mut i: usize = 0;
    while i < v.len()
        invariant
            i <= v@.len(),
            forall|j: int| 0 <= j < i ==> (#[trigger] v@[j])@ != n@,
        decreases v@.len() - i,
    {
        if string_eq_str(&v[i], n) {
            return true;
        }
        i = i + 1;
    }
    false
}

/// The type of a struct's field (see `struct_field_spec`).
pub fn struct_field_ty(structs: &[Struct], enums: &[Enum], sname: &str, field: &str) -> (r: Option<SolTy>)
    ensures
        match struct_field_spec(structs@, enums@, sname@, field@) {
            Some(t) => r matches Some(x) && x@ == t && ty_wf(t),
            None => r is None,
        },
{
    let i = match find_struct(structs, sname) {
        Some(i) => i,
        None => {
            return None;
        },
    };
    let j = match find_field(&structs[i].fields, field) {
        Some(j) => j,
        None => {
            return None;
        },
    };
    assert(first_struct(structs@, sname@, 0) == Some(i as int));
    assert(first_field(structs@[i as int].fields@, field@, 0) == Some(j as int));
    let res = resolve_ty(&structs[i].fields[j].ty, TyPos::Local, structs, enums);
    match res {
        Ok(t) => Some(t),
        Err(_) => None,
    }
}

fn member_ty(bt: SolTy, member: &String, span: &Range<usize>, structs: &[Struct], enums: &[Enum]) -> (r: Result<SolTy, FrontendDiag>)
    requires
        ty_wf(bt@),
    ensures
        ty_outcome(r, member_spec(Ok(bt@), member@, *span, structs@, enums@)),
{
    match bt {
        SolTy::Array(_) => {
            if string_eq_str(member, "length") {
                Ok(SolTy::U256)
            } else {
                Err(fail(codes::FE410_UNSUPPORTED_TYPE, "member access on an array (only `.length` is supported)", copy_span(span)))
            }
        },
        SolTy::Named(sname) => match struct_field_ty(structs, enums, sname.as_str(), member.as_str()) {
            Some(t) => Ok(t),
            None => Err(fail(codes::FE460_STRUCT_FIELD_MISMATCH_SOL, "the struct has no such field", copy_span(span))),
        },
        _ => Err(fail(codes::FE410_UNSUPPORTED_TYPE, "member access on a non-struct value (no `msg.*`/`block.*`/`tx.*`)", copy_span(span))),
    }
}

/// The type of an expression (see `infer_spec`).
pub fn infer(e: &Expr, env: &Vec<(String, SolTy)>, structs: &[Struct], enums: &[Enum]) -> (r: Result<SolTy, FrontendDiag>)
    requires
        env_ok(env_view(env@)),
    ensures
        ty_outcome(r, infer_spec(*e, env_view(env@), structs@, enums@)),
    decreases e,
{
    match e {
        Expr::Num(t, _) => Ok(SolTy::Num { lit: clone_string(t) }),
        Expr::Bool(_, _) => Ok(SolTy::Bool),
        Expr::Var(name, span) => match lookup_env(env, name.as_str()) {
            Some(t) => Ok(t),
            None => Err(fail(codes::FE401_UNSUPPORTED_SOL, "unresolved reference", copy_span(span))),
        },
        Expr::Member(base, member, span) => {
            match &**base {
                Expr::Var(g, _) => {
                    if string_eq_str(g, "msg") || string_eq_str(g, "tx") || string_eq_str(g, "block") {
                        return Err(fail(codes::FE410_UNSUPPORTED_TYPE, "`msg.*`/`tx.*`/`block.*` members are unsupported", copy_span(span)));
                    }
                    if lookup_env(env, g.as_str()).is_none() {
                        match find_enum(enums, g.as_str()) {
                            Some(i) => {
                                if text_in(&enums[i].members, member.as_str()) {
                                    return Ok(SolTy::Enum(clone_string(g)));
                                } else {
                                    return Err(fail(codes::FE466_BAD_ENUM_MEMBER_SOL, "not a member of the enum", copy_span(span)));
                                }
                            },
                            None => {},
                        }
                    }
                },
                _ => {},
            }
            let bt = match infer(base, env, structs, enums) {
                Ok(t) => t,
                Err(d) => {
                    return Err(d);
                },
            };
            member_ty(bt, member, span, structs, enums)
        },
        Expr::Call(callee, args, span) => {
            match &**callee {
                Expr::Var(name, _) => {
                    match find_struct(structs, name.as_str()) {
                        Some(i) => {
                            let fields = &structs[i].fields;
                            if args.len() != fields.len() {
                                return Err(fail(codes::FE460_STRUCT_FIELD_MISMATCH_SOL, "positional struct construction must supply every field exactly once", copy_span(span)));
                            }
                            let mut k: usize = 0;
                            assert(args@.skip(0) =~= args@);
                            assert(fields@.skip(0) =~= fields@);
                            assert(infer_spec(*e, env_view(env@), structs@, enums@) == match args_spec(args@, fields@, env_view(env@), structs@, enums@) {
                                Some(x) => Err(x),
                                None => Ok(TyV::Named(name@)),
                            });
                            while k < args.len()
                                invariant
                                    k <= args@.len(),
                                    args@.len() == fields@.len(),
                                    infer_spec(*e, env_view(env@), structs@, enums@) == match args_spec(args@, fields@, env_view(env@), structs@, enums@) {
                                        Some(x) => Err(x),
                                        None => Ok(TyV::Named(name@)),
                                    },
                                    env_ok(env_view(env@)),
                                    *e == Expr::Call(*callee, *args, e.spec_span()),
                                    args_spec(args@, fields@, env_view(env@), structs@, enums@) == args_spec(
                                        args@.skip(k as int),
                                        fields@.skip(k as int),
                                        env_view(env@),
                                        structs@,
                                        enums@,
                                    ),
                                decreases args@.len() - k,
                            {
                                proof {
                                    assert(decreases_to!(*e => (*e)->Call_1));
                                    assert(decreases_to!(*args => args[k as int]));
                                    let a = args@.skip(k as int);
                                    let f = fields@.skip(k as int);
                                    assert(a[0] == args@[k as int]);
                                    assert(f[0] == fields@[k as int]);
                                    assert(a.subrange(1, a.len() as int) =~= args@.skip(k + 1));
                                    assert(f.subrange(1, f.len() as int) =~= fields@.skip(k + 1));
                                }
                                let aty = match infer(&args[k], env, structs, enums) {
                                    Ok(t) => t,
                                    Err(d) => {
                                        return Err(d);
                                    },
                                };
                                let fty = match resolve_ty(&fields[k].ty, TyPos::Local, structs, enums) {
                                    Ok(t) => t,
                                    Err(d) => {
                                        return Err(d);
                                    },
                                };
                                match require_assignable(&aty, &fty, args[k].span()) {
                                    Ok(()) => {},
                                    Err(d) => {
                                        return Err(d);
                                    },
                                }
                                k = k + 1;
                            }
                            proof {
                                assert(args@.skip(k as int).len() == 0);
                            }
                            Ok(SolTy::Named(clone_string(name)))
                        },
                        None => Err(fail(codes::FE401_UNSUPPORTED_SOL, "function calls are unsupported (no internal/external calls)", copy_span(span))),
                    }
                },
                _ => Err(fail(codes::FE401_UNSUPPORTED_SOL, "function calls are unsupported (no internal/external calls)", copy_span(span))),
            }
        },
        Expr::Index(base, key, span) => {
            let bt = match infer(base, env, structs, enums) {
                Ok(t) => t,
                Err(d) => {
                    return Err(d);
                },
            };
            match bt {
                SolTy::Mapping { key: kt, value: vt } => {
                    let kty = match infer(key, env, structs, enums) {
                        Ok(t) => t,
                        Err(d) => {
                            return Err(d);
                        },
                    };
                    match require_assignable(&kty, &kt, key.span()) {
                        Ok(()) => Ok(*vt),
                        Err(d) => Err(d),
                    }
                },
                _ => Err(fail(codes::FE442_BAD_INDEX_SOL, "index `[..]` applied to a value that is not a mapping", copy_span(span))),
            }
        },
        Expr::Unary(op, inner, span) => {
            match op {
                UnOp::Not => {
                    match infer(inner, env, structs, enums) {
                        Ok(_) => Ok(SolTy::Bool),
                        Err(d) => Err(d),
                    }
                },
                _ => Err(fail(codes::FE401_UNSUPPORTED_SOL, "unary minus is unsupported (u256 is unsigned)", copy_span(span))),
            }
        },
        Expr::Bin(op, l, r, span) => {
            let lt = match infer(l, env, structs, enums) {
                Ok(t) => t,
                Err(d) => {
                    return Err(d);
                },
            };
            let rt = match infer(r, env, structs, enums) {
                Ok(t) => t,
                Err(d) => {
                    return Err(d);
                },
            };
            match op {
                BinOp::Add | BinOp::Sub | BinOp::Mul | BinOp::Div | BinOp::Mod => arith_result_ty(&lt, &rt, copy_span(span)),
                BinOp::Lt | BinOp::Le | BinOp::Gt | BinOp::Ge => {
                    match require_ordered_compatible(&lt, &rt, copy_span(span)) {
                        Ok(()) => Ok(SolTy::Bool),
                        Err(d) => Err(d),
                    }
                },
                BinOp::Eq | BinOp::Ne => {
                    match require_eq_compatible(&lt, &rt, copy_span(span)) {
                        Ok(()) => Ok(SolTy::Bool),
                        Err(d) => Err(d),
                    }
                },
                BinOp::And | BinOp::Or => Err(fail(codes::FE401_UNSUPPORTED_SOL, "compound boolean `&&`/`||` is unsupported; use separate `require`s", copy_span(span))),
            }
        },
    }
}

// ── Enum and struct declarations ─────────────────────────────────────────────

/// Two texts of the list are equal.
pub open spec fn has_dup_text(v: Seq<String>) -> bool {
    exists|i: int, j: int| 0 <= i < j < v.len() && (#[trigger] v[i])@ == (#[trigger] v[j])@
}

/// An enum without members or with a repeated member.
pub open spec fn enum_bad(e: Enum) -> bool {
    e.members@.len() == 0 || has_dup_text(e.members@)
}

/// The first malformed enum from the `k`-th on.
pub open spec fn first_bad_enum(enums: Seq<Enum>, k: int) -> Option<int>
    decreases enums.len() - k,
{
    if k < 0 || k >= enums.len() {
        None
    } else if enum_bad(enums[k]) {
        Some(k)
    } else {
        first_bad_enum(enums, k + 1)
    }
}

fn texts_dup(v: &Vec<String>) -> (r: bool)
    ensures
        r == has_dup_text(v@),
{
    let mut j: usize = 0;
    while j < v.len()
        invariant
            j <= v@.len(),
            forall|a: int, b: int| 0 <= a < b < j ==> (#[trigger] v@[a])@ != (#[trigger] v@[b])@,
        decreases v@.len() - j,
    {
        let mut i: usize = 0;
        while i < j
            invariant
                i <= j < v@.len(),
                forall|a: int| 0 <= a < i ==> (#[trigger] v@[a])@ != v@[j as int]@,
            decreases j - i,
        {
            if str_eq(v[i].as_str(), v[j].as_str()) {
                assert(v@[i as int]@ == v@[j as int]@);
                return true;
            }
            i = i + 1;
        }
        j = j + 1;
    }
    false
}

/// Every enum has members, none repeated (FE467 at the first enum that fails).
pub fn validate_enum_defs(enums: &[Enum]) -> (r: Result<(), FrontendDiag>)
    ensures
        match first_bad_enum(enums@, 0) {
            Some(i) => r matches Err(d) && d.code == codes::FE467_BAD_ENUM_SHAPE_SOL && d.span == enums@[i].span,
            None => r is Ok,
        },
{
    let mut k: usize = 0;
    while k < enums.len()
        invariant
            k <= enums@.len(),
            first_bad_enum(enums@, 0) == first_bad_enum(enums@, k as int),
        decreases enums@.len() - k,
    {
        let e = &enums[k];
        if e.members.len() == 0 {
            return Err(fail(codes::FE467_BAD_ENUM_SHAPE_SOL, "an enum without members is unsupported", copy_span(&e.span)));
        }
        if texts_dup(&e.members) {
            return Err(fail(codes::FE467_BAD_ENUM_SHAPE_SOL, "an enum has a duplicate member", copy_span(&e.span)));
        }
        k = k + 1;
    }
    Ok(())
}

/// The `k`-th field repeats the name of an earlier one.
pub open spec fn field_dup_before(fields: Seq<StructField>, k: int) -> bool {
    exists|j: int| 0 <= j < k && (#[trigger] fields[j]).name@ == fields[k].name@
}

/// The first bad field from the `k`-th on: a repeated name (FE460), a mapping or array
/// field (FE461), or a type outside the allow-set.
pub open spec fn field_err(fields: Seq<StructField>, k: int, structs: Seq<Struct>, enums: Seq<Enum>) -> Option<
    (&'static str, Range<usize>),
>
    decreases fields.len() - k,
{
    if k < 0 || k >= fields.len() {
        None
    } else if field_dup_before(fields, k) {
        Some((codes::FE460_STRUCT_FIELD_MISMATCH_SOL, fields[k].span))
    } else {
        match fields[k].ty {
            TypeRef::Mapping { span, .. } => Some((codes::FE461_BAD_STRUCT_SHAPE_SOL, span)),
            TypeRef::Array { span, .. } => Some((codes::FE461_BAD_STRUCT_SHAPE_SOL, span)),
            TypeRef::Scalar { .. } => match resolve_spec(fields[k].ty, TyPos::Local, structs, enums) {
                Err(x) => Some(x),
                Ok(_) => field_err(fields, k + 1, structs, enums),
            },
        }
    }
}

/// What is wrong with a struct declaration: no fields (FE461) or a bad field.
pub open spec fn struct_err(s: Struct, structs: Seq<Struct>, enums: Seq<Enum>) -> Option<(&'static str, Range<usize>)> {
    if s.fields@.len() == 0 {
        Some((codes::FE461_BAD_STRUCT_SHAPE_SOL, s.span))
    } else {
        field_err(s.fields@, 0, structs, enums)
    }
}

/// The first struct declaration error from the `k`-th struct on.
pub open spec fn first_struct_err(structs: Seq<Struct>, enums: Seq<Enum>, k: int) -> Option<(&'static str, Range<usize>)>
    decreases structs.len() - k,
{
    if k < 0 || k >= structs.len() {
        None
    } else {
        match struct_err(structs[k], structs, enums) {
            Some(x) => Some(x),
            None => first_struct_err(structs, enums, k + 1),
        }
    }
}

/// The names of a list of texts.
pub open spec fn texts_view(v: Seq<String>) -> Seq<Seq<char>> {
    v.map_values(|s: String| s@)
}

/// The span of the struct named `n`, `0..0` when there is none.
pub open spec fn struct_span(structs: Seq<Struct>, n: Seq<char>) -> Range<usize> {
    match first_struct(structs, n, 0) {
        Some(i) => structs[i].span,
        None => 0usize..0usize,
    }
}

/// The depth-first walk over struct-typed fields from struct `name`, with `stack` the
/// structs being expanded and `done` those finished: a struct met again while on the
/// stack contains itself (FE461); a chain deeper than `MAX_NEST_DEPTH` is refused (FE402).
pub open spec fn visit_spec(structs: Seq<Struct>, name: Seq<char>, stack: Seq<Seq<char>>, done: Seq<Seq<char>>) -> Result<
    Seq<Seq<char>>,
    (&'static str, Range<usize>),
>
    decreases 2 * (MAX_NEST_DEPTH + 1 - stack.len()), 0int,
{
    if done.contains(name) {
        Ok(done)
    } else if stack.contains(name) {
        Err((codes::FE461_BAD_STRUCT_SHAPE_SOL, struct_span(structs, name)))
    } else if stack.len() >= MAX_NEST_DEPTH {
        Err((codes::FE402_TOO_LARGE_SOL, struct_span(structs, name)))
    } else {
        match first_struct(structs, name, 0) {
            Some(i) => match fields_visit(structs, structs[i].fields@, 0, stack.push(name), done) {
                Err(x) => Err(x),
                Ok(d) => Ok(d.push(name)),
            },
            None => Ok(done.push(name)),
        }
    }
}

/// The walk over the fields from the `i`-th on.
pub open spec fn fields_visit(
    structs: Seq<Struct>,
    fields: Seq<StructField>,
    i: int,
    stack: Seq<Seq<char>>,
    done: Seq<Seq<char>>,
) -> Result<Seq<Seq<char>>, (&'static str, Range<usize>)>
    decreases 2 * (MAX_NEST_DEPTH + 1 - stack.len()) + 1, fields.len() - i,
{
    if stack.len() > MAX_NEST_DEPTH || i < 0 || i >= fields.len() {
        Ok(done)
    } else {
        match fields[i].ty {
            TypeRef::Scalar { name, .. } => if struct_named(structs, name@) {
                match visit_spec(structs, name@, stack, done) {
                    Err(x) => Err(x),
                    Ok(d) => fields_visit(structs, fields, i + 1, stack, d),
                }
            } else {
                fields_visit(structs, fields, i + 1, stack, done)
            },
            _ => fields_visit(structs, fields, i + 1, stack, done),
        }
    }
}

/// The walk from every struct in order, sharing the finished set.
pub open spec fn cycles_spec(structs: Seq<Struct>, k: int, done: Seq<Seq<char>>) -> Option<(&'static str, Range<usize>)>
    decreases structs.len() - k,
{
    if k < 0 || k >= structs.len() {
        None
    } else {
        match visit_spec(structs, structs[k].name@, seq![], done) {
            Err(x) => Some(x),
            Ok(d) => cycles_spec(structs, k + 1, d),
        }
    }
}

fn text_vec_has(v: &Vec<String>, n: &str) -> (r: bool)
    ensures
        r == texts_view(v@).contains(n@),
{
    let mut i: usize = 0;
    while i < v.len()
        invariant
            i <= v@.len(),
            forall|j: int| 0 <= j < i ==> (#[trigger] v@[j])@ != n@,
        decreases v@.len() - i,
    {
        if string_eq_str(&v[i], n) {
            assert(texts_view(v@)[i as int] == n@);
            return true;
        }
        i = i + 1;
    }
    proof {
        if texts_view(v@).contains(n@) {
            let j = choose|j: int| 0 <= j < texts_view(v@).len() && texts_view(v@)[j] == n@;
            assert(v@[j]@ == n@);
        }
    }
    false
}

fn struct_span_of(structs: &[Struct], n: &str) -> (r: Range<usize>)
    ensures
        r == struct_span(structs@, n@),
{
    match find_struct(structs, n) {
        Some(i) => copy_span(&structs[i].span),
        None => 0..0,
    }
}

/// The depth-first walk from struct `name` (see `visit_spec`).
fn visit_struct(name: &String, structs: &[Struct], stack: &Vec<String>, done: &mut Vec<String>) -> (r: Result<(), FrontendDiag>)
    ensures
        match visit_spec(structs@, name@, texts_view(stack@), texts_view(old(done)@)) {
            Ok(d) => r is Ok && texts_view(final(done)@) == d,
            Err(x) => r matches Err(e) && e.code == x.0 && e.span == x.1,
        },
    decreases 2 * (MAX_NEST_DEPTH + 1 - stack@.len()), 0int,
{
    if text_vec_has(done, name.as_str()) {
        return Ok(());
    }
    if text_vec_has(stack, name.as_str()) {
        return Err(fail(codes::FE461_BAD_STRUCT_SHAPE_SOL, "a struct is self-referential (a struct cannot contain itself by value)", struct_span_of(structs, name.as_str())));
    }
    if stack.len() >= 12 {
        return Err(fail(codes::FE402_TOO_LARGE_SOL, "struct reference nesting exceeds the depth limit", struct_span_of(structs, name.as_str())));
    }
    let mut inner: Vec<String> = Vec::new();
    let mut k: usize = 0;
    while k < stack.len()
        invariant
            k <= stack@.len(),
            inner@.len() == k,
            forall|i: int| 0 <= i < k ==> (#[trigger] inner@[i])@ == stack@[i]@,
        decreases stack@.len() - k,
    {
        inner.push(clone_string(&stack[k]));
        k = k + 1;
    }
    inner.push(clone_string(name));
    assert(texts_view(inner@) =~= texts_view(stack@).push(name@));
    match find_struct(structs, name.as_str()) {
        Some(i) => {
            let fields = &structs[i].fields;
            let ghost stk = texts_view(inner@);
            let mut j: usize = 0;
            assert(fields_visit(structs@, fields@, 0, stk, texts_view(done@)) == fields_visit(
                structs@,
                fields@,
                j as int,
                stk,
                texts_view(done@),
            ));
            let ghost d0 = texts_view(done@);
            assert(visit_spec(structs@, name@, texts_view(stack@), d0) == match fields_visit(structs@, fields@, 0, stk, d0) {
                Err(x) => Err(x),
                Ok(d) => Ok(d.push(name@)),
            });
            while j < fields.len()
                invariant
                    j <= fields@.len(),
                    d0 == texts_view(old(done)@),
                    visit_spec(structs@, name@, texts_view(stack@), d0) == match fields_visit(structs@, fields@, 0, stk, d0) {
                        Err(x) => Err(x),
                        Ok(d) => Ok(d.push(name@)),
                    },
                    stk == texts_view(inner@),
                    stk.len() == stack@.len() + 1 <= MAX_NEST_DEPTH,
                    fields_visit(structs@, fields@, 0, stk, d0) == fields_visit(
                        structs@,
                        fields@,
                        j as int,
                        stk,
                        texts_view(done@),
                    ),
                decreases fields@.len() - j,
            {
                match &fields[j].ty {
                    TypeRef::Scalar { name: fname, .. } => {
                        if struct_exists(structs, fname.as_str()) {
                            match visit_struct(fname, structs, &inner, done) {
                                Ok(()) => {},
                                Err(e) => {
                                    return Err(e);
                                },
                            }
                        }
                    },
                    _ => {},
                }
                j = j + 1;
            }
            done.push(clone_string(name));
            proof {
                assert(texts_view(done@) =~= fields_visit(structs@, fields@, 0, stk, d0)->Ok_0.push(name@));
            }
            Ok(())
        },
        None => {
            done.push(clone_string(name));
            assert(texts_view(done@) =~= texts_view(old(done)@).push(name@));
            Ok(())
        },
    }
}

/// Rejects a struct that contains itself by value, directly or through other structs
/// (FE461), or whose struct nesting is deeper than `MAX_NEST_DEPTH` (FE402).
fn detect_struct_cycle(structs: &[Struct]) -> (r: Result<(), FrontendDiag>)
    ensures
        match cycles_spec(structs@, 0, seq![]) {
            Some(x) => r matches Err(e) && e.code == x.0 && e.span == x.1,
            None => r is Ok,
        },
{
    let mut done: Vec<String> = Vec::new();
    let mut k: usize = 0;
    assert(texts_view(done@) =~= Seq::<Seq<char>>::empty());
    while k < structs.len()
        invariant
            k <= structs@.len(),
            cycles_spec(structs@, 0, seq![]) == cycles_spec(structs@, k as int, texts_view(done@)),
        decreases structs@.len() - k,
    {
        let stack: Vec<String> = Vec::new();
        assert(texts_view(stack@) =~= Seq::<Seq<char>>::empty());
        match visit_struct(&structs[k].name, structs, &stack, &mut done) {
            Ok(()) => {},
            Err(e) => {
                return Err(e);
            },
        }
        k = k + 1;
    }
    Ok(())
}

fn field_dup_exec(fields: &Vec<StructField>, k: usize) -> (r: bool)
    requires
        k < fields@.len(),
    ensures
        r == field_dup_before(fields@, k as int),
{
    let mut j: usize = 0;
    while j < k
        invariant
            j <= k < fields@.len(),
            forall|a: int| 0 <= a < j ==> (#[trigger] fields@[a]).name@ != fields@[k as int].name@,
        decreases k - j,
    {
        if str_eq(fields[j].name.as_str(), fields[k].name.as_str()) {
            return true;
        }
        j = j + 1;
    }
    false
}

/// Every struct declaration is well formed (see `struct_err`), then none contains itself.
pub fn validate_struct_defs(structs: &[Struct], enums: &[Enum]) -> (r: Result<(), FrontendDiag>)
    ensures
        match first_struct_err(structs@, enums@, 0) {
            Some(x) => r matches Err(e) && e.code == x.0 && e.span == x.1,
            None => match cycles_spec(structs@, 0, seq![]) {
                Some(x) => r matches Err(e) && e.code == x.0 && e.span == x.1,
                None => r is Ok,
            },
        },
{
    let mut k: usize = 0;
    while k < structs.len()
        invariant
            k <= structs@.len(),
            first_struct_err(structs@, enums@, 0) == first_struct_err(structs@, enums@, k as int),
        decreases structs@.len() - k,
    {
        let s = &structs[k];
        if s.fields.len() == 0 {
            return Err(fail(codes::FE461_BAD_STRUCT_SHAPE_SOL, "a struct without fields is unsupported", copy_span(&s.span)));
        }
        let mut j: usize = 0;
        while j < s.fields.len()
            invariant
                j <= s.fields@.len(),
                k < structs@.len(),
                *s == structs@[k as int],
                s.fields@.len() > 0,
                first_struct_err(structs@, enums@, 0) == first_struct_err(structs@, enums@, k as int),
                field_err(s.fields@, 0, structs@, enums@) == field_err(s.fields@, j as int, structs@, enums@),
            decreases s.fields@.len() - j,
        {
            let f = &s.fields[j];
            if field_dup_exec(&s.fields, j) {
                return Err(fail(codes::FE460_STRUCT_FIELD_MISMATCH_SOL, "a struct has a duplicate field", copy_span(&f.span)));
            }
            match &f.ty {
                TypeRef::Mapping { span, .. } => {
                    return Err(fail(codes::FE461_BAD_STRUCT_SHAPE_SOL, "a struct field is a mapping; a struct may hold only scalars or other structs", copy_span(span)));
                },
                TypeRef::Array { span, .. } => {
                    return Err(fail(codes::FE461_BAD_STRUCT_SHAPE_SOL, "a struct field is an array; a struct may hold only scalars or other structs", copy_span(span)));
                },
                TypeRef::Scalar { .. } => {
                    match resolve_ty(&f.ty, TyPos::Local, structs, enums) {
                        Ok(_) => {},
                        Err(e) => {
                            return Err(e);
                        },
                    }
                },
            }
            j = j + 1;
        }
        k = k + 1;
    }
    detect_struct_cycle(structs)
}

// ── Statements: types and checks-then-effects ────────────────────────────────

/// What does not vary along a function body: the state-field names, the declared return
/// type, and whether the body is the constructor's (where a trap discards everything, so
/// the checks-then-effects rule is moot and `return` is refused).
pub struct FnCtx {
    pub state: Vec<String>,
    pub ret: Option<SolTy>,
    pub in_constructor: bool,
}

/// The checker state along one path: the type environment, the names declared locally
/// (params and locals, which shadow state fields), and whether a storage write has
/// committed.
pub type CkState = (Seq<(Seq<char>, TyV)>, Seq<Seq<char>>, bool);

/// A rejection: its code and span.
pub type Rejection = (&'static str, Range<usize>);

/// The function context as values: the state-field names, the declared return type, and
/// whether the body is the constructor's.
pub type CtxV = (Seq<Seq<char>>, Option<TyV>, bool);

pub open spec fn ctx_view(ctx: FnCtx) -> CtxV {
    (texts_view(ctx.state@), opt_ty(ctx.ret), ctx.in_constructor)
}

/// Whether an expression holds a checked `+ - * / %` (a trap-capable operation).
pub open spec fn has_checked_arith(e: Expr) -> bool
    decreases e,
{
    match e {
        Expr::Num(..) => false,
        Expr::Bool(..) => false,
        Expr::Var(..) => false,
        Expr::Member(b, _, _) => has_checked_arith(*b),
        Expr::Call(_, args, _) => exists|k: int| 0 <= k < args@.len() && has_checked_arith(#[trigger] args@[k]),
        Expr::Index(b, k, _) => has_checked_arith(*b) || has_checked_arith(*k),
        Expr::Unary(_, i, _) => has_checked_arith(*i),
        Expr::Bin(op, l, r, _) => is_arith(op) || has_checked_arith(*l) || has_checked_arith(*r),
    }
}

/// The type value of an optional return type.
pub open spec fn opt_ty(t: Option<SolTy>) -> Option<TyV> {
    match t {
        Some(x) => Some(x@),
        None => None,
    }
}

/// `e` is typed and assignable to `to`; else the first rejection.
pub open spec fn assign_err(e: Expr, to: TyV, env: Seq<(Seq<char>, TyV)>, structs: Seq<Struct>, enums: Seq<Enum>) -> Option<Rejection> {
    match infer_spec(e, env, structs, enums) {
        Err(x) => Some(x),
        Ok(t) => match assign_code(t, to) {
            Some(c) => Some((c, e.spec_span())),
            None => None,
        },
    }
}

/// The key and value types of a mapping bound to `m`.
pub open spec fn map_kv(env: Seq<(Seq<char>, TyV)>, m: Seq<char>) -> Option<(TyV, TyV)> {
    match env_lookup(env, m) {
        Some(t) => match t {
            TyV::Mapping(k, v) => Some((*k, *v)),
            _ => None,
        },
        None => None,
    }
}

/// The key types and value type of a two-key mapping bound to `m`.
pub open spec fn map2_kv(env: Seq<(Seq<char>, TyV)>, m: Seq<char>) -> Option<(TyV, TyV, TyV)> {
    match map_kv(env, m) {
        Some((k1, inner)) => match inner {
            TyV::Mapping(k2, v) => Some((k1, *k2, *v)),
            _ => None,
        },
        None => None,
    }
}

/// The commit flag after a storage write: set, except in a constructor.
pub open spec fn after_write(ctx: CtxV, cw: bool) -> bool {
    if ctx.2 {
        cw
    } else {
        true
    }
}

/// The first of two optional rejections.
pub open spec fn or_else(a: Option<Rejection>, b: Option<Rejection>) -> Option<Rejection> {
    if a is Some {
        a
    } else {
        b
    }
}

/// The checks of a storage operation on a mapping `m` (FE442 when `m` is not a mapping):
/// a `uint256` value type, then the operand checks given the key type; then the
/// checks-then-effects rule (FE412 after a committed write), and the write commits.
pub open spec fn map_op_spec(
    m: Seq<char>,
    operands: spec_fn(TyV) -> Option<Rejection>,
    span: Range<usize>,
    ctx: CtxV,
    st: CkState,
) -> Result<CkState, Rejection> {
    match map_kv(st.0, m) {
        None => Err((codes::FE442_BAD_INDEX_SOL, span)),
        Some((kt, vt)) => match arith_target_code(vt) {
            Some(c) => Err((c, span)),
            None => match operands(kt) {
                Some(x) => Err(x),
                None => if st.2 {
                    Err((codes::FE412_NON_CEI, span))
                } else {
                    Ok((st.0, st.1, after_write(ctx, st.2)))
                },
            },
        },
    }
}

/// An array parameter's element type, by name.
pub open spec fn array_elem(env: Seq<(Seq<char>, TyV)>, n: Seq<char>) -> Option<TyV> {
    match env_lookup(env, n) {
        Some(t) => match t {
            TyV::Array(e) => Some(*e),
            _ => None,
        },
        None => None,
    }
}

/// A plain or compound assignment of `value` to a slot of type `slot`: `=` needs an
/// assignable value; `op=` needs the arithmetic to type (at the statement span).
pub open spec fn assign_op_err(op: AssignOp, vty: TyV, slot: TyV, value: Expr, span: Range<usize>) -> Option<Rejection> {
    if op == AssignOp::Eq {
        match assign_code(vty, slot) {
            Some(c) => Some((c, value.spec_span())),
            None => None,
        }
    } else {
        match arith_spec(slot, vty) {
            Err(c) => Some((c, span)),
            Ok(_) => None,
        }
    }
}

/// A mapping-value write of `value`: `=` needs an assignable value and, for a `bool` value
/// type, a `true`/`false` literal (FE441); `op=` needs a `uint256` value type and a
/// `uint256`-assignable value.
pub open spec fn map_write_err(op: AssignOp, vty: TyV, vt: TyV, value: Expr, span: Range<usize>) -> Option<Rejection> {
    if op == AssignOp::Eq {
        match assign_code(vty, vt) {
            Some(c) => Some((c, value.spec_span())),
            None => if vt is Bool && !(value is Bool) {
                Some((codes::FE441_BAD_MAP_KV_SOL, value.spec_span()))
            } else {
                None
            },
        }
    } else {
        match arith_target_code(vt) {
            Some(c) => Some((c, span)),
            None => match assign_code(vty, TyV::U256) {
                Some(c) => Some((c, value.spec_span())),
                None => None,
            },
        }
    }
}

/// A write to the name `n` commits storage when `n` is a state field not shadowed by a
/// local, outside a constructor.
pub open spec fn writes_state(ctx: CtxV, locals: Seq<Seq<char>>, n: Seq<char>) -> bool {
    ctx.0.contains(n) && !locals.contains(n) && !ctx.2
}

/// One statement, from state `st`: its types, and the checks-then-effects rule (no
/// trap-capable operation after a committed storage write, FE412); the new state or the
/// first rejection. Internal forms that desugaring removes are FE500.
#[verifier::opaque]
pub open spec fn stmt_spec(s: Stmt, ctx: CtxV, st: CkState, structs: Seq<Struct>, enums: Seq<Enum>) -> Result<
    CkState,
    Rejection,
>
    decreases s,
{
    let env = st.0;
    let locals = st.1;
    let cw = st.2;
    match s {
        Stmt::CallStmt { span, .. } => Err((codes::FE500_INTERNAL_MALFORMED_SOL, span)),
        Stmt::Unchecked { span, .. } => Err((codes::FE500_INTERNAL_MALFORMED_SOL, span)),
        Stmt::AirdropLoop { span, .. } => Err((codes::FE500_INTERNAL_MALFORMED_SOL, span)),
        Stmt::Placeholder { span } => Err((codes::FE500_INTERNAL_MALFORMED_SOL, span)),
        Stmt::BatchTransfer { map, from, recipients, amounts, span } => match map_kv(env, map@) {
            None => Err((codes::FE442_BAD_INDEX_SOL, span)),
            Some((kt, vt)) => match arith_target_code(vt) {
                Some(c) => Err((c, span)),
                None => match assign_err(from, kt, env, structs, enums) {
                    Some(x) => Err(x),
                    None => match array_elem(env, recipients@) {
                        None => Err((codes::FE492_AIRDROP_SHAPE_SOL, span)),
                        Some(re) => match assign_code(re, kt) {
                            Some(c) => Err((c, span)),
                            None => match array_elem(env, amounts@) {
                                None => Err((codes::FE492_AIRDROP_SHAPE_SOL, span)),
                                Some(ae) => match assign_code(ae, TyV::U256) {
                                    Some(c) => Err((c, span)),
                                    None => if cw {
                                        Err((codes::FE412_NON_CEI, span))
                                    } else {
                                        Ok((env, locals, after_write(ctx, cw)))
                                    },
                                },
                            },
                        },
                    },
                },
            },
        },
        Stmt::Require { cond, span } => match infer_spec(cond, env, structs, enums) {
            Err(x) => Err(x),
            Ok(_) => if cw {
                Err((codes::FE412_NON_CEI, span))
            } else {
                Ok(st)
            },
        },
        Stmt::Assert { cond, span } => match infer_spec(cond, env, structs, enums) {
            Err(x) => Err(x),
            Ok(_) => if cw {
                Err((codes::FE412_NON_CEI, span))
            } else {
                Ok(st)
            },
        },
        Stmt::Revert { span } => if cw {
            Err((codes::FE412_NON_CEI, span))
        } else {
            Ok(st)
        },
        Stmt::Return { value, span } => if ctx.2 {
            Err((codes::FE464_UNSUPPORTED_CTOR_SOL, span))
        } else {
            match value {
                None => Ok(st),
                Some(v) => match infer_spec(v, env, structs, enums) {
                    Err(x) => Err(x),
                    Ok(vty) => match ctx.1 {
                        Some(rt) if assign_code(vty, rt) is Some => Err((assign_code(vty, rt)->0, v.spec_span())),
                        _ => if cw && has_checked_arith(v) {
                            Err((codes::FE412_NON_CEI, span))
                        } else {
                            Ok(st)
                        },
                    },
                },
            }
        },
        Stmt::LocalVar { name, ty, value, span } => match resolve_spec(ty, TyPos::Local, structs, enums) {
            Err(x) => Err(x),
            Ok(dty) => match assign_err(value, dty, env, structs, enums) {
                Some(x) => Err(x),
                None => if cw && has_checked_arith(value) {
                    Err((codes::FE412_NON_CEI, span))
                } else {
                    Ok((env.push((name@, dty)), locals.push(name@), cw))
                },
            },
        },
        Stmt::Assign { target, op, value, span } => match infer_spec(value, env, structs, enums) {
            Err(x) => Err(x),
            Ok(vty) => match env_lookup(env, target@) {
                None => Err((codes::FE401_UNSUPPORTED_SOL, span)),
                Some(tty) => match assign_op_err(op, vty, tty, value, span) {
                    Some(x) => Err(x),
                    None => if cw && (has_checked_arith(value) || op != AssignOp::Eq) {
                        Err((codes::FE412_NON_CEI, span))
                    } else {
                        Ok((env, locals, cw || writes_state(ctx, locals, target@)))
                    },
                },
            },
        },
        Stmt::FieldAssign { obj, field, op, value, span } => match env_lookup(env, obj@) {
            None => Err((codes::FE401_UNSUPPORTED_SOL, span)),
            Some(oty) => match oty {
                TyV::Named(sname) => match struct_field_spec(structs, enums, sname, field@) {
                    None => Err((codes::FE460_STRUCT_FIELD_MISMATCH_SOL, span)),
                    Some(fty) => match infer_spec(value, env, structs, enums) {
                        Err(x) => Err(x),
                        Ok(vty) => match assign_op_err(op, vty, fty, value, span) {
                            Some(x) => Err(x),
                            None => if cw && (has_checked_arith(value) || op != AssignOp::Eq) {
                                Err((codes::FE412_NON_CEI, span))
                            } else {
                                Ok((env, locals, cw || writes_state(ctx, locals, obj@)))
                            },
                        },
                    },
                },
                _ => Err((codes::FE410_UNSUPPORTED_TYPE, span)),
            },
        },
        Stmt::IndexAssign { map, key, op, value, span } => match map_kv(env, map@) {
            None => Err((codes::FE442_BAD_INDEX_SOL, span)),
            Some((kt, vt)) => match assign_err(key, kt, env, structs, enums) {
                Some(x) => Err(x),
                None => match infer_spec(value, env, structs, enums) {
                    Err(x) => Err(x),
                    Ok(vty) => match map_write_err(op, vty, vt, value, span) {
                        Some(x) => Err(x),
                        None => if cw {
                            Err((codes::FE412_NON_CEI, span))
                        } else {
                            Ok((env, locals, after_write(ctx, cw)))
                        },
                    },
                },
            },
        },
        Stmt::IndexAssign2 { map, k1, k2, op, value, span } => match map2_kv(env, map@) {
            None => Err((codes::FE442_BAD_INDEX_SOL, span)),
            Some((k1t, k2t, vt)) => match assign_err(k1, k1t, env, structs, enums) {
                Some(x) => Err(x),
                None => match assign_err(k2, k2t, env, structs, enums) {
                    Some(x) => Err(x),
                    None => match infer_spec(value, env, structs, enums) {
                        Err(x) => Err(x),
                        Ok(vty) => match map_write_err(op, vty, vt, value, span) {
                            Some(x) => Err(x),
                            None => if cw {
                                Err((codes::FE412_NON_CEI, span))
                            } else {
                                Ok((env, locals, after_write(ctx, cw)))
                            },
                        },
                    },
                },
            },
        },
        Stmt::MapTransfer { map, from, to, amount, span } => map_op_spec(
            map@,
            |kt: TyV|
                or_else(
                    assign_err(from, kt, env, structs, enums),
                    or_else(assign_err(to, kt, env, structs, enums), assign_err(amount, TyV::U256, env, structs, enums)),
                ),
            span,
            ctx,
            st,
        ),
        Stmt::MapSplitTransfer { map, from, amount, to, net, fee_to, fee, span } => map_op_spec(
            map@,
            |kt: TyV|
                or_else(
                    assign_err(from, kt, env, structs, enums),
                    or_else(
                        assign_err(to, kt, env, structs, enums),
                        or_else(
                            assign_err(fee_to, kt, env, structs, enums),
                            or_else(
                                assign_err(amount, TyV::U256, env, structs, enums),
                                or_else(
                                    assign_err(net, TyV::U256, env, structs, enums),
                                    assign_err(fee, TyV::U256, env, structs, enums),
                                ),
                            ),
                        ),
                    ),
                ),
            span,
            ctx,
            st,
        ),
        Stmt::Erc20Update { map, ts_field, from, to, value, span } => match map_kv(env, map@) {
            None => Err((codes::FE442_BAD_INDEX_SOL, span)),
            Some((kt, vt)) => match arith_target_code(vt) {
                Some(c) => Err((c, span)),
                None => match env_lookup(env, ts_field@) {
                    None => Err((codes::FE442_BAD_INDEX_SOL, span)),
                    Some(tsty) => match arith_target_code(tsty) {
                        Some(c) => Err((c, span)),
                        None => map_op_spec(
                            map@,
                            |kt: TyV|
                                or_else(
                                    assign_err(from, kt, env, structs, enums),
                                    or_else(assign_err(to, kt, env, structs, enums), assign_err(value, TyV::U256, env, structs, enums)),
                                ),
                            span,
                            ctx,
                            st,
                        ),
                    },
                },
            },
        },
        Stmt::Erc20TransferFrom { bal_map, alw_map, from, spender, to, amount, span, .. } => match map_kv(
            env,
            bal_map@,
        ) {
            None => Err((codes::FE442_BAD_INDEX_SOL, span)),
            Some((bk, bv)) => match arith_target_code(bv) {
                Some(c) => Err((c, span)),
                None => match map2_kv(env, alw_map@) {
                    None => Err((codes::FE442_BAD_INDEX_SOL, span)),
                    Some((ak1, ak2, av)) => match arith_target_code(av) {
                        Some(c) => Err((c, span)),
                        None => match or_else(
                            assign_err(from, bk, env, structs, enums),
                            or_else(
                                assign_err(from, ak1, env, structs, enums),
                                or_else(
                                    assign_err(spender, ak2, env, structs, enums),
                                    or_else(assign_err(to, bk, env, structs, enums), assign_err(amount, TyV::U256, env, structs, enums)),
                                ),
                            ),
                        ) {
                            Some(x) => Err(x),
                            None => if cw {
                                Err((codes::FE412_NON_CEI, span))
                            } else {
                                Ok((env, locals, after_write(ctx, cw)))
                            },
                        },
                    },
                },
            },
        },
        Stmt::If { cond, then_body, else_body, .. } => match infer_spec(cond, env, structs, enums) {
            Err(x) => Err(x),
            Ok(_) => if cw && has_checked_arith(cond) {
                Err((codes::FE412_NON_CEI, cond.spec_span()))
            } else {
                proof {
                    assert(decreases_to!(s => then_body));
                    assert(decreases_to!(then_body => then_body@));
                    assert(decreases_to!(s => else_body));
                    assert(decreases_to!(else_body => else_body@));
                }
                match stmts_spec(then_body@, ctx, st, structs, enums) {
                    Err(x) => Err(x),
                    Ok(t) => match stmts_spec(else_body@, ctx, st, structs, enums) {
                        Err(x) => Err(x),
                        Ok(e) => Ok((env, locals, t.2 || e.2)),
                    },
                }
            },
        },
        Stmt::ReservedBatch { transfer, writes, span } => if cw {
            Err((codes::FE412_NON_CEI, span))
        } else {
            proof {
                assert(decreases_to!(s => writes));
                assert(decreases_to!(writes => writes@));
            }
            let first: Result<CkState, Rejection> = match transfer {
                Some(t) => {
                    proof {
                        assert(decreases_to!(s => transfer));
                    }
                    match stmt_spec(*t, ctx, (env, locals, false), structs, enums) {
                        Err(x) => Err(x),
                        Ok(r) => Ok((r.0, r.1, cw)),
                    }
                },
                None => Ok(st),
            };
            match first {
                Err(x) => Err(x),
                Ok(f) => match batch_spec(writes@, ctx, f, structs, enums) {
                    Err(x) => Err(x),
                    Ok(b) => Ok((b.0, b.1, after_write(ctx, b.2))),
                },
            }
        },
    }
}

/// A statement list in order.
#[verifier::opaque]
pub open spec fn stmts_spec(stmts: Seq<Stmt>, ctx: CtxV, st: CkState, structs: Seq<Struct>, enums: Seq<Enum>) -> Result<
    CkState,
    Rejection,
>
    decreases stmts,
{
    if stmts.len() == 0 {
        Ok(st)
    } else {
        match stmt_spec(stmts[0], ctx, st, structs, enums) {
            Err(x) => Err(x),
            Ok(st2) => stmts_spec(stmts.subrange(1, stmts.len() as int), ctx, st2, structs, enums),
        }
    }
}

/// Whether a statement can trap where it stands (its own head, not its nested bodies):
/// `require`/`assert`/`revert`, checked arithmetic in what it evaluates, a compound
/// assignment, and every storage-map operation.
pub open spec fn stmt_traps(s: Stmt) -> bool {
    match s {
        Stmt::Require { .. } => true,
        Stmt::Assert { .. } => true,
        Stmt::Revert { .. } => true,
        Stmt::Return { value, .. } => value matches Some(v) && has_checked_arith(v),
        Stmt::LocalVar { value, .. } => has_checked_arith(value),
        Stmt::Assign { op, value, .. } => has_checked_arith(value) || op != AssignOp::Eq,
        Stmt::FieldAssign { op, value, .. } => has_checked_arith(value) || op != AssignOp::Eq,
        Stmt::If { cond, .. } => has_checked_arith(cond),
        Stmt::IndexAssign { .. } => true,
        Stmt::IndexAssign2 { .. } => true,
        Stmt::MapTransfer { .. } => true,
        Stmt::MapSplitTransfer { .. } => true,
        Stmt::Erc20Update { .. } => true,
        Stmt::Erc20TransferFrom { .. } => true,
        Stmt::BatchTransfer { .. } => true,
        Stmt::ReservedBatch { .. } => true,
        _ => false,
    }
}

/// Checks-then-effects along every path of a statement list run from state `st`: no
/// statement that can trap runs once a storage write has committed (the state's flag), in
/// the list itself and in each branch of every `if`.
pub open spec fn cei_holds(stmts: Seq<Stmt>, ctx: CtxV, st: CkState, structs: Seq<Struct>, enums: Seq<Enum>) -> bool
    decreases stmts,
{
    if stmts.len() == 0 {
        true
    } else {
        let s = stmts[0];
        &&& stmt_traps(s) ==> !st.2
        &&& match s {
            Stmt::If { then_body, else_body, .. } => {
                proof {
                    assert(decreases_to!(stmts => s));
                    assert(decreases_to!(s => then_body));
                    assert(decreases_to!(then_body => then_body@));
                    assert(decreases_to!(s => else_body));
                    assert(decreases_to!(else_body => else_body@));
                }
                cei_holds(then_body@, ctx, st, structs, enums) && cei_holds(else_body@, ctx, st, structs, enums)
            },
            _ => true,
        }
        &&& match stmt_spec(s, ctx, st, structs, enums) {
            Ok(st2) => cei_holds(stmts.subrange(1, stmts.len() as int), ctx, st2, structs, enums),
            Err(_) => true,
        }
    }
}

/// A statement list that the checker accepts keeps checks-then-effects on every path: no
/// trap-capable operation follows a committed storage write.
pub proof fn lemma_checked_is_cei(stmts: Seq<Stmt>, ctx: CtxV, st: CkState, structs: Seq<Struct>, enums: Seq<Enum>)
    requires
        stmts_spec(stmts, ctx, st, structs, enums) is Ok,
    ensures
        cei_holds(stmts, ctx, st, structs, enums),
    decreases stmts,
{
    reveal(stmts_spec);
    if stmts.len() > 0 {
        let s = stmts[0];
        reveal(stmt_spec);
        assert(stmt_spec(s, ctx, st, structs, enums) is Ok);
        if let Stmt::If { then_body, else_body, .. } = s {
            assert(decreases_to!(stmts => s));
            lemma_checked_is_cei(then_body@, ctx, st, structs, enums);
            lemma_checked_is_cei(else_body@, ctx, st, structs, enums);
        }
        if let Ok(st2) = stmt_spec(s, ctx, st, structs, enums) {
            lemma_checked_is_cei(stmts.subrange(1, stmts.len() as int), ctx, st2, structs, enums);
        }
    }
}

/// The writes of a reserved batch, each checked as if first (a fresh commit flag) while
/// the environment carries over; the batch's own flag is kept.
#[verifier::opaque]
pub open spec fn batch_spec(writes: Seq<Stmt>, ctx: CtxV, st: CkState, structs: Seq<Struct>, enums: Seq<Enum>) -> Result<
    CkState,
    Rejection,
>
    decreases writes,
{
    if writes.len() == 0 {
        Ok(st)
    } else {
        match stmt_spec(writes[0], ctx, (st.0, st.1, false), structs, enums) {
            Err(x) => Err(x),
            Ok(r) => batch_spec(writes.subrange(1, writes.len() as int), ctx, (r.0, r.1, st.2), structs, enums),
        }
    }
}

/// A statement list: empty, or its first statement then the rest.
#[verifier::spinoff_prover]
#[verifier::rlimit(100)]
proof fn lemma_stmts_step(stmts: Seq<Stmt>, ctx: CtxV, st: CkState, structs: Seq<Struct>, enums: Seq<Enum>)
    ensures
        stmts.len() == 0 ==> stmts_spec(stmts, ctx, st, structs, enums) == Ok::<CkState, Rejection>(st),
        stmts.len() > 0 ==> stmts_spec(stmts, ctx, st, structs, enums) == match stmt_spec(stmts[0], ctx, st, structs, enums) {
            Err(x) => Err(x),
            Ok(st2) => stmts_spec(stmts.subrange(1, stmts.len() as int), ctx, st2, structs, enums),
        },
{
    reveal(stmts_spec);
}

/// A batch: empty, or its first write (from a fresh flag) then the rest.
#[verifier::spinoff_prover]
#[verifier::rlimit(100)]
proof fn lemma_batch_step(writes: Seq<Stmt>, ctx: CtxV, st: CkState, structs: Seq<Struct>, enums: Seq<Enum>)
    ensures
        writes.len() == 0 ==> batch_spec(writes, ctx, st, structs, enums) == Ok::<CkState, Rejection>(st),
        writes.len() > 0 ==> batch_spec(writes, ctx, st, structs, enums) == match stmt_spec(writes[0], ctx, (st.0, st.1, false), structs, enums) {
            Err(x) => Err(x),
            Ok(r) => batch_spec(writes.subrange(1, writes.len() as int), ctx, (r.0, r.1, st.2), structs, enums),
        },
{
    reveal(batch_spec);
}

/// The check of an `if` statement.
#[verifier::spinoff_prover]
#[verifier::rlimit(100)]
proof fn lemma_if_unfold(s: Stmt, ctx: CtxV, st: CkState, structs: Seq<Struct>, enums: Seq<Enum>)
    requires
        s is If,
    ensures
        match s {
            Stmt::If { cond, then_body, else_body, .. } => stmt_spec(s, ctx, st, structs, enums) == match infer_spec(
                cond,
                st.0,
                structs,
                enums,
            ) {
                Err(x) => Err::<CkState, Rejection>(x),
                Ok(_) => if st.2 && has_checked_arith(cond) {
                    Err((codes::FE412_NON_CEI, cond.spec_span()))
                } else {
                    match stmts_spec(then_body@, ctx, st, structs, enums) {
                        Err(x) => Err(x),
                        Ok(t) => match stmts_spec(else_body@, ctx, st, structs, enums) {
                            Err(x) => Err(x),
                            Ok(e) => Ok((st.0, st.1, t.2 || e.2)),
                        },
                    }
                },
            },
            _ => true,
        },
{
    reveal(stmt_spec);
}

/// The check of a reserved batch.
#[verifier::spinoff_prover]
#[verifier::rlimit(100)]
proof fn lemma_batch_unfold(s: Stmt, ctx: CtxV, st: CkState, structs: Seq<Struct>, enums: Seq<Enum>)
    requires
        s is ReservedBatch,
    ensures
        match s {
            Stmt::ReservedBatch { transfer, writes, span } => stmt_spec(s, ctx, st, structs, enums) == if st.2 {
                Err::<CkState, Rejection>((codes::FE412_NON_CEI, span))
            } else {
                match (match transfer {
                    Some(t) => match stmt_spec(*t, ctx, (st.0, st.1, false), structs, enums) {
                        Err(x) => Err::<CkState, Rejection>(x),
                        Ok(r) => Ok((r.0, r.1, st.2)),
                    },
                    None => Ok(st),
                }) {
                    Err(x) => Err(x),
                    Ok(f) => match batch_spec(writes@, ctx, f, structs, enums) {
                        Err(x) => Err(x),
                        Ok(b) => Ok((b.0, b.1, after_write(ctx, b.2))),
                    },
                }
            },
            _ => true,
        },
{
    reveal(stmt_spec);
}

/// The declared return type is a well-formed declared type.
pub open spec fn ctx_ok(ctx: FnCtx) -> bool {
    match ctx.ret {
        Some(t) => ty_wf(t@) && !(t@ is Num),
        None => true,
    }
}

/// An exec statement check agrees with the spec: on success the final environment, locals
/// and commit flag are the spec's state.
pub open spec fn ck_outcome(
    r: Result<(), FrontendDiag>,
    sp: Result<CkState, Rejection>,
    env: Seq<(String, SolTy)>,
    locals: Seq<String>,
    cw: bool,
) -> bool {
    match sp {
        Ok(st) => r is Ok && st == (env_view(env), texts_view(locals), cw),
        Err(x) => r matches Err(d) && d.code == x.0 && d.span == x.1,
    }
}

fn non_cei(span: Range<usize>) -> (d: FrontendDiag)
    ensures
        d.code == codes::FE412_NON_CEI,
        d.span == span,
{
    fail(
        codes::FE412_NON_CEI,
        "non checks-then-effects: a trap-capable operation (require/revert/assert, checked arithmetic, or a map insert) follows a storage write; SIGIL's trap does not roll back prior writes, so run every guard and computation before writing storage",
        span,
    )
}

/// Whether an expression holds a checked `+ - * / %`.
pub fn expr_has_checked_arith(e: &Expr) -> (r: bool)
    ensures
        r == has_checked_arith(*e),
    decreases e,
{
    match e {
        Expr::Num(..) => false,
        Expr::Bool(..) => false,
        Expr::Var(..) => false,
        Expr::Member(b, _, _) => expr_has_checked_arith(b),
        Expr::Call(_, args, _) => {
            let mut k: usize = 0;
            while k < args.len()
                invariant
                    k <= args@.len(),
                    *e == Expr::Call(e->Call_0, *args, e.spec_span()),
                    forall|j: int| 0 <= j < k ==> !has_checked_arith(#[trigger] args@[j]),
                decreases args@.len() - k,
            {
                proof {
                    assert(decreases_to!(*e => (*e)->Call_1));
                    assert(decreases_to!(*args => args[k as int]));
                }
                if expr_has_checked_arith(&args[k]) {
                    return true;
                }
                k = k + 1;
            }
            false
        },
        Expr::Index(b, k, _) => expr_has_checked_arith(b) || expr_has_checked_arith(k),
        Expr::Unary(_, i, _) => expr_has_checked_arith(i),
        Expr::Bin(op, l, r, _) => {
            let arith = match op {
                BinOp::Add | BinOp::Sub | BinOp::Mul | BinOp::Div | BinOp::Mod => true,
                _ => false,
            };
            arith || expr_has_checked_arith(l) || expr_has_checked_arith(r)
        },
    }
}

/// `e` is typed and assignable to `to` (see `assign_err`).
fn assign_check(e: &Expr, to: &SolTy, env: &Vec<(String, SolTy)>, structs: &[Struct], enums: &[Enum]) -> (r: Result<(), FrontendDiag>)
    requires
        env_ok(env_view(env@)),
        ty_wf(to@),
        !(to@ is Num),
    ensures
        match assign_err(*e, to@, env_view(env@), structs@, enums@) {
            Some(x) => r matches Err(d) && d.code == x.0 && d.span == x.1,
            None => r is Ok,
        },
{
    let t = match infer(e, env, structs, enums) {
        Ok(t) => t,
        Err(d) => {
            return Err(d);
        },
    };
    require_assignable(&t, to, e.span())
}

/// The key and value types of the mapping bound to `m` (see `map_kv`).
fn map_types(env: &Vec<(String, SolTy)>, m: &String) -> (r: Option<(SolTy, SolTy)>)
    requires
        env_ok(env_view(env@)),
    ensures
        match map_kv(env_view(env@), m@) {
            Some(p) => r matches Some(q) && q.0@ == p.0 && q.1@ == p.1 && ty_wf(p.0) && ty_wf(p.1) && !(p.0 is Num)
                && !(p.1 is Num),
            None => r is None,
        },
{
    match lookup_env(env, m.as_str()) {
        Some(SolTy::Mapping { key, value }) => Some((*key, *value)),
        _ => None,
    }
}

/// The types of the two-key mapping bound to `m` (see `map2_kv`).
fn map2_types(env: &Vec<(String, SolTy)>, m: &String) -> (r: Option<(SolTy, SolTy, SolTy)>)
    requires
        env_ok(env_view(env@)),
    ensures
        match map2_kv(env_view(env@), m@) {
            Some(p) => r matches Some(q) && q.0@ == p.0 && q.1@ == p.1 && q.2@ == p.2 && ty_wf(p.0) && ty_wf(p.1)
                && ty_wf(p.2) && !(p.0 is Num) && !(p.1 is Num) && !(p.2 is Num),
            None => r is None,
        },
{
    match map_types(env, m) {
        Some((k1, SolTy::Mapping { key, value })) => Some((k1, *key, *value)),
        _ => None,
    }
}

/// The element type of the array parameter `n` (see `array_elem`).
fn array_elem_ty(env: &Vec<(String, SolTy)>, n: &String) -> (r: Option<SolTy>)
    requires
        env_ok(env_view(env@)),
    ensures
        match array_elem(env_view(env@), n@) {
            Some(t) => r matches Some(x) && x@ == t && ty_wf(t),
            None => r is None,
        },
{
    match lookup_env(env, n.as_str()) {
        Some(SolTy::Array(e)) => Some(*e),
        _ => None,
    }
}

/// The recognized airdrop batch transfer: a `uint256`-valued mapping, a sender of its key
/// type, recipient and amount array parameters (FE492 otherwise) of key and `uint256`
/// elements; then checks-then-effects.
fn check_batch_transfer(s: &Stmt, ctx: &FnCtx, env: &Vec<(String, SolTy)>, locals: &Vec<String>, cw: &mut bool, structs: &[Struct], enums: &[Enum]) -> (r: Result<(), FrontendDiag>)
    requires
        env_ok(env_view(env@)),
        ctx_ok(*ctx),
        *s is BatchTransfer,
    ensures
        ck_outcome(r, stmt_spec(*s, ctx_view(*ctx), (env_view(env@), texts_view(locals@), *old(cw)), structs@, enums@), env@, locals@, *final(cw)),
{
    proof {
        reveal(stmt_spec);
    }
    match s {
        Stmt::BatchTransfer { map, from, recipients, amounts, span } => {
            let (kt, vt) = match map_types(env, map) {
                Some(p) => p,
                None => {
                    return Err(fail(codes::FE442_BAD_INDEX_SOL, "an airdrop on something that is not a mapping", copy_span(span)));
                },
            };
            match require_arith_target(&vt, copy_span(span)) {
                Ok(()) => {},
                Err(d) => {
                    return Err(d);
                },
            }
            match assign_check(from, &kt, env, structs, enums) {
                Ok(()) => {},
                Err(d) => {
                    return Err(d);
                },
            }
            match array_elem_ty(env, recipients) {
                Some(elem) => match require_assignable(&elem, &kt, copy_span(span)) {
                    Ok(()) => {},
                    Err(d) => {
                        return Err(d);
                    },
                },
                None => {
                    return Err(fail(codes::FE492_AIRDROP_SHAPE_SOL, "airdrop recipients must be a dynamic-array parameter", copy_span(span)));
                },
            }
            match array_elem_ty(env, amounts) {
                Some(elem) => match require_assignable(&elem, &SolTy::U256, copy_span(span)) {
                    Ok(()) => {},
                    Err(d) => {
                        return Err(d);
                    },
                },
                None => {
                    return Err(fail(codes::FE492_AIRDROP_SHAPE_SOL, "airdrop amounts must be a dynamic-array parameter", copy_span(span)));
                },
            }
            if *cw {
                return Err(non_cei(copy_span(span)));
            }
            if !ctx.in_constructor {
                *cw = true;
            }
            Ok(())
        },
        _ => Ok(()),
    }
}

/// A `return`: refused in a constructor (FE464); the value typed and assignable to the
/// declared return type; no checked arithmetic after a committed write.
fn check_return(s: &Stmt, ctx: &FnCtx, env: &Vec<(String, SolTy)>, locals: &Vec<String>, cw: &mut bool, structs: &[Struct], enums: &[Enum]) -> (r: Result<(), FrontendDiag>)
    requires
        env_ok(env_view(env@)),
        ctx_ok(*ctx),
        *s is Return,
    ensures
        ck_outcome(r, stmt_spec(*s, ctx_view(*ctx), (env_view(env@), texts_view(locals@), *old(cw)), structs@, enums@), env@, locals@, *final(cw)),
{
    proof {
        reveal(stmt_spec);
    }
    match s {
        Stmt::Return { value, span } => {
            if ctx.in_constructor {
                return Err(fail(codes::FE464_UNSUPPORTED_CTOR_SOL, "an explicit `return` is unsupported in a constructor (it has no return value)", copy_span(span)));
            }
            match value {
                None => Ok(()),
                Some(v) => {
                    let vty = match infer(v, env, structs, enums) {
                        Ok(t) => t,
                        Err(d) => {
                            return Err(d);
                        },
                    };
                    match &ctx.ret {
                        Some(rt) => match require_assignable(&vty, rt, v.span()) {
                            Ok(()) => {},
                            Err(d) => {
                                return Err(d);
                            },
                        },
                        None => {},
                    }
                    if *cw && expr_has_checked_arith(v) {
                        return Err(non_cei(copy_span(span)));
                    }
                    Ok(())
                },
            }
        },
        _ => Ok(()),
    }
}

/// A plain or compound assignment to a name (see `assign_op_err`); a write to an
/// unshadowed state field commits (outside a constructor).
fn check_assign_stmt(s: &Stmt, ctx: &FnCtx, env: &Vec<(String, SolTy)>, locals: &Vec<String>, cw: &mut bool, structs: &[Struct], enums: &[Enum]) -> (r: Result<(), FrontendDiag>)
    requires
        env_ok(env_view(env@)),
        ctx_ok(*ctx),
        *s is Assign,
    ensures
        ck_outcome(r, stmt_spec(*s, ctx_view(*ctx), (env_view(env@), texts_view(locals@), *old(cw)), structs@, enums@), env@, locals@, *final(cw)),
{
    proof {
        reveal(stmt_spec);
    }
    match s {
        Stmt::Assign { target, op, value, span } => {
            let vty = match infer(value, env, structs, enums) {
                Ok(t) => t,
                Err(d) => {
                    return Err(d);
                },
            };
            let tty = match lookup_env(env, target.as_str()) {
                Some(t) => t,
                None => {
                    return Err(fail(codes::FE401_UNSUPPORTED_SOL, "assignment to an undeclared variable", copy_span(span)));
                },
            };
            let plain = match op {
                AssignOp::Eq => true,
                _ => false,
            };
            if plain {
                match require_assignable(&vty, &tty, value.span()) {
                    Ok(()) => {},
                    Err(d) => {
                        return Err(d);
                    },
                }
            } else {
                match arith_result_ty(&tty, &vty, copy_span(span)) {
                    Ok(_) => {},
                    Err(d) => {
                        return Err(d);
                    },
                }
            }
            if *cw && (expr_has_checked_arith(value) || !plain) {
                return Err(non_cei(copy_span(span)));
            }
            if text_vec_has(&ctx.state, target.as_str()) && !text_vec_has(locals, target.as_str()) && !ctx.in_constructor {
                *cw = true;
            }
            Ok(())
        },
        _ => Ok(()),
    }
}

/// A struct field write `obj.field op= value` (see `stmt_spec`).
fn check_field_assign(s: &Stmt, ctx: &FnCtx, env: &Vec<(String, SolTy)>, locals: &Vec<String>, cw: &mut bool, structs: &[Struct], enums: &[Enum]) -> (r: Result<(), FrontendDiag>)
    requires
        env_ok(env_view(env@)),
        ctx_ok(*ctx),
        *s is FieldAssign,
    ensures
        ck_outcome(r, stmt_spec(*s, ctx_view(*ctx), (env_view(env@), texts_view(locals@), *old(cw)), structs@, enums@), env@, locals@, *final(cw)),
{
    proof {
        reveal(stmt_spec);
    }
    match s {
        Stmt::FieldAssign { obj, field, op, value, span } => {
            let oty = match lookup_env(env, obj.as_str()) {
                Some(t) => t,
                None => {
                    return Err(fail(codes::FE401_UNSUPPORTED_SOL, "field assignment to an undeclared variable", copy_span(span)));
                },
            };
            let sname = match oty {
                SolTy::Named(n) => n,
                _ => {
                    return Err(fail(codes::FE410_UNSUPPORTED_TYPE, "a field write on a value that is not a struct", copy_span(span)));
                },
            };
            let fty = match struct_field_ty(structs, enums, sname.as_str(), field.as_str()) {
                Some(t) => t,
                None => {
                    return Err(fail(codes::FE460_STRUCT_FIELD_MISMATCH_SOL, "the struct has no such field", copy_span(span)));
                },
            };
            proof {
                assert(resolve_spec(
                    structs@[first_struct(structs@, sname@, 0)->0].fields@[first_field(
                        structs@[first_struct(structs@, sname@, 0)->0].fields@,
                        field@,
                        0,
                    )->0].ty,
                    TyPos::Local,
                    structs@,
                    enums@,
                ) is Ok);
            }
            let vty = match infer(value, env, structs, enums) {
                Ok(t) => t,
                Err(d) => {
                    return Err(d);
                },
            };
            let plain = match op {
                AssignOp::Eq => true,
                _ => false,
            };
            if plain {
                match require_assignable(&vty, &fty, value.span()) {
                    Ok(()) => {},
                    Err(d) => {
                        return Err(d);
                    },
                }
            } else {
                match arith_result_ty(&fty, &vty, copy_span(span)) {
                    Ok(_) => {},
                    Err(d) => {
                        return Err(d);
                    },
                }
            }
            if *cw && (expr_has_checked_arith(value) || !plain) {
                return Err(non_cei(copy_span(span)));
            }
            if text_vec_has(&ctx.state, obj.as_str()) && !text_vec_has(locals, obj.as_str()) && !ctx.in_constructor {
                *cw = true;
            }
            Ok(())
        },
        _ => Ok(()),
    }
}

/// A mapping-value write's value checks (see `map_write_err`).
fn map_write_check(op: &AssignOp, vty: &SolTy, vt: &SolTy, value: &Expr, span: &Range<usize>) -> (r: Result<(), FrontendDiag>)
    requires
        ty_wf(vty@),
        ty_wf(vt@),
        !(vt@ is Num),
    ensures
        match map_write_err(*op, vty@, vt@, *value, *span) {
            Some(x) => r matches Err(d) && d.code == x.0 && d.span == x.1,
            None => r is Ok,
        },
{
    match op {
        AssignOp::Eq => {
            match require_assignable(vty, vt, value.span()) {
                Ok(()) => {},
                Err(d) => {
                    return Err(d);
                },
            }
            let is_bool_ty = match vt {
                SolTy::Bool => true,
                _ => false,
            };
            let is_bool_lit = match value {
                Expr::Bool(..) => true,
                _ => false,
            };
            if is_bool_ty && !is_bool_lit {
                return Err(fail(codes::FE441_BAD_MAP_KV_SOL, "a bool-valued mapping write must be a `true`/`false` literal", value.span()));
            }
            Ok(())
        },
        _ => {
            match require_arith_target(vt, copy_span(span)) {
                Ok(()) => {},
                Err(d) => {
                    return Err(d);
                },
            }
            require_assignable(vty, &SolTy::U256, value.span())
        },
    }
}

/// A single-key mapping write `m[k] op= v`.
fn check_index_assign_stmt(s: &Stmt, ctx: &FnCtx, env: &Vec<(String, SolTy)>, locals: &Vec<String>, cw: &mut bool, structs: &[Struct], enums: &[Enum]) -> (r: Result<(), FrontendDiag>)
    requires
        env_ok(env_view(env@)),
        ctx_ok(*ctx),
        *s is IndexAssign,
    ensures
        ck_outcome(r, stmt_spec(*s, ctx_view(*ctx), (env_view(env@), texts_view(locals@), *old(cw)), structs@, enums@), env@, locals@, *final(cw)),
{
    proof {
        reveal(stmt_spec);
    }
    match s {
        Stmt::IndexAssign { map, key, op, value, span } => {
            let (kt, vt) = match map_types(env, map) {
                Some(p) => p,
                None => {
                    return Err(fail(codes::FE442_BAD_INDEX_SOL, "an index assignment to something that is not a mapping", copy_span(span)));
                },
            };
            match assign_check(key, &kt, env, structs, enums) {
                Ok(()) => {},
                Err(d) => {
                    return Err(d);
                },
            }
            let vty = match infer(value, env, structs, enums) {
                Ok(t) => t,
                Err(d) => {
                    return Err(d);
                },
            };
            match map_write_check(op, &vty, &vt, value, span) {
                Ok(()) => {},
                Err(d) => {
                    return Err(d);
                },
            }
            if *cw {
                return Err(non_cei(copy_span(span)));
            }
            if !ctx.in_constructor {
                *cw = true;
            }
            Ok(())
        },
        _ => Ok(()),
    }
}

/// A two-key mapping write `m[k1][k2] op= v`.
fn check_index_assign2(s: &Stmt, ctx: &FnCtx, env: &Vec<(String, SolTy)>, locals: &Vec<String>, cw: &mut bool, structs: &[Struct], enums: &[Enum]) -> (r: Result<(), FrontendDiag>)
    requires
        env_ok(env_view(env@)),
        ctx_ok(*ctx),
        *s is IndexAssign2,
    ensures
        ck_outcome(r, stmt_spec(*s, ctx_view(*ctx), (env_view(env@), texts_view(locals@), *old(cw)), structs@, enums@), env@, locals@, *final(cw)),
{
    proof {
        reveal(stmt_spec);
    }
    match s {
        Stmt::IndexAssign2 { map, k1, k2, op, value, span } => {
            let (k1t, k2t, vt) = match map2_types(env, map) {
                Some(p) => p,
                None => {
                    return Err(fail(codes::FE442_BAD_INDEX_SOL, "a two-key index assignment to something that is not a two-key mapping", copy_span(span)));
                },
            };
            match assign_check(k1, &k1t, env, structs, enums) {
                Ok(()) => {},
                Err(d) => {
                    return Err(d);
                },
            }
            match assign_check(k2, &k2t, env, structs, enums) {
                Ok(()) => {},
                Err(d) => {
                    return Err(d);
                },
            }
            let vty = match infer(value, env, structs, enums) {
                Ok(t) => t,
                Err(d) => {
                    return Err(d);
                },
            };
            match map_write_check(op, &vty, &vt, value, span) {
                Ok(()) => {},
                Err(d) => {
                    return Err(d);
                },
            }
            if *cw {
                return Err(non_cei(copy_span(span)));
            }
            if !ctx.in_constructor {
                *cw = true;
            }
            Ok(())
        },
        _ => Ok(()),
    }
}

/// A recognized atomic transfer between two keys of a mapping.
fn check_map_transfer_stmt(s: &Stmt, ctx: &FnCtx, env: &Vec<(String, SolTy)>, locals: &Vec<String>, cw: &mut bool, structs: &[Struct], enums: &[Enum]) -> (r: Result<(), FrontendDiag>)
    requires
        env_ok(env_view(env@)),
        ctx_ok(*ctx),
        *s is MapTransfer,
    ensures
        ck_outcome(r, stmt_spec(*s, ctx_view(*ctx), (env_view(env@), texts_view(locals@), *old(cw)), structs@, enums@), env@, locals@, *final(cw)),
{
    proof {
        reveal(stmt_spec);
    }
    match s {
        Stmt::MapTransfer { map, from, to, amount, span } => {
            let (kt, vt) = match map_types(env, map) {
                Some(p) => p,
                None => {
                    return Err(fail(codes::FE442_BAD_INDEX_SOL, "a transfer on something that is not a mapping", copy_span(span)));
                },
            };
            match require_arith_target(&vt, copy_span(span)) {
                Ok(()) => {},
                Err(d) => {
                    return Err(d);
                },
            }
            match assign_check(from, &kt, env, structs, enums) {
                Ok(()) => {},
                Err(d) => {
                    return Err(d);
                },
            }
            match assign_check(to, &kt, env, structs, enums) {
                Ok(()) => {},
                Err(d) => {
                    return Err(d);
                },
            }
            match assign_check(amount, &SolTy::U256, env, structs, enums) {
                Ok(()) => {},
                Err(d) => {
                    return Err(d);
                },
            }
            if *cw {
                return Err(non_cei(copy_span(span)));
            }
            if !ctx.in_constructor {
                *cw = true;
            }
            Ok(())
        },
        _ => Ok(()),
    }
}

/// A recognized fee-on-transfer split on one mapping.
fn check_split_transfer(s: &Stmt, ctx: &FnCtx, env: &Vec<(String, SolTy)>, locals: &Vec<String>, cw: &mut bool, structs: &[Struct], enums: &[Enum]) -> (r: Result<(), FrontendDiag>)
    requires
        env_ok(env_view(env@)),
        ctx_ok(*ctx),
        *s is MapSplitTransfer,
    ensures
        ck_outcome(r, stmt_spec(*s, ctx_view(*ctx), (env_view(env@), texts_view(locals@), *old(cw)), structs@, enums@), env@, locals@, *final(cw)),
{
    proof {
        reveal(stmt_spec);
    }
    match s {
        Stmt::MapSplitTransfer { map, from, amount, to, net, fee_to, fee, span } => {
            let (kt, vt) = match map_types(env, map) {
                Some(p) => p,
                None => {
                    return Err(fail(codes::FE442_BAD_INDEX_SOL, "a split transfer on something that is not a mapping", copy_span(span)));
                },
            };
            match require_arith_target(&vt, copy_span(span)) {
                Ok(()) => {},
                Err(d) => {
                    return Err(d);
                },
            }
            match assign_check(from, &kt, env, structs, enums) {
                Ok(()) => {},
                Err(d) => {
                    return Err(d);
                },
            }
            match assign_check(to, &kt, env, structs, enums) {
                Ok(()) => {},
                Err(d) => {
                    return Err(d);
                },
            }
            match assign_check(fee_to, &kt, env, structs, enums) {
                Ok(()) => {},
                Err(d) => {
                    return Err(d);
                },
            }
            match assign_check(amount, &SolTy::U256, env, structs, enums) {
                Ok(()) => {},
                Err(d) => {
                    return Err(d);
                },
            }
            match assign_check(net, &SolTy::U256, env, structs, enums) {
                Ok(()) => {},
                Err(d) => {
                    return Err(d);
                },
            }
            match assign_check(fee, &SolTy::U256, env, structs, enums) {
                Ok(()) => {},
                Err(d) => {
                    return Err(d);
                },
            }
            if *cw {
                return Err(non_cei(copy_span(span)));
            }
            if !ctx.in_constructor {
                *cw = true;
            }
            Ok(())
        },
        _ => Ok(()),
    }
}

/// A recognized token `_update` (mint/burn/transfer) with its total-supply field.
fn check_erc20_update(s: &Stmt, ctx: &FnCtx, env: &Vec<(String, SolTy)>, locals: &Vec<String>, cw: &mut bool, structs: &[Struct], enums: &[Enum]) -> (r: Result<(), FrontendDiag>)
    requires
        env_ok(env_view(env@)),
        ctx_ok(*ctx),
        *s is Erc20Update,
    ensures
        ck_outcome(r, stmt_spec(*s, ctx_view(*ctx), (env_view(env@), texts_view(locals@), *old(cw)), structs@, enums@), env@, locals@, *final(cw)),
{
    proof {
        reveal(stmt_spec);
    }
    match s {
        Stmt::Erc20Update { map, ts_field, from, to, value, span } => {
            let (kt, vt) = match map_types(env, map) {
                Some(p) => p,
                None => {
                    return Err(fail(codes::FE442_BAD_INDEX_SOL, "an update on something that is not a mapping", copy_span(span)));
                },
            };
            match require_arith_target(&vt, copy_span(span)) {
                Ok(()) => {},
                Err(d) => {
                    return Err(d);
                },
            }
            let tsty = match lookup_env(env, ts_field.as_str()) {
                Some(t) => t,
                None => {
                    return Err(fail(codes::FE442_BAD_INDEX_SOL, "an update targets an undeclared total-supply field", copy_span(span)));
                },
            };
            match require_arith_target(&tsty, copy_span(span)) {
                Ok(()) => {},
                Err(d) => {
                    return Err(d);
                },
            }
            match assign_check(from, &kt, env, structs, enums) {
                Ok(()) => {},
                Err(d) => {
                    return Err(d);
                },
            }
            match assign_check(to, &kt, env, structs, enums) {
                Ok(()) => {},
                Err(d) => {
                    return Err(d);
                },
            }
            match assign_check(value, &SolTy::U256, env, structs, enums) {
                Ok(()) => {},
                Err(d) => {
                    return Err(d);
                },
            }
            if *cw {
                return Err(non_cei(copy_span(span)));
            }
            if !ctx.in_constructor {
                *cw = true;
            }
            Ok(())
        },
        _ => Ok(()),
    }
}

/// A recognized atomic token `transferFrom` over a balances and an allowance mapping.
fn check_transfer_from(s: &Stmt, ctx: &FnCtx, env: &Vec<(String, SolTy)>, locals: &Vec<String>, cw: &mut bool, structs: &[Struct], enums: &[Enum]) -> (r: Result<(), FrontendDiag>)
    requires
        env_ok(env_view(env@)),
        ctx_ok(*ctx),
        *s is Erc20TransferFrom,
    ensures
        ck_outcome(r, stmt_spec(*s, ctx_view(*ctx), (env_view(env@), texts_view(locals@), *old(cw)), structs@, enums@), env@, locals@, *final(cw)),
{
    proof {
        reveal(stmt_spec);
    }
    match s {
        Stmt::Erc20TransferFrom { bal_map, alw_map, from, spender, to, amount, span, .. } => {
            let (bk, bv) = match map_types(env, bal_map) {
                Some(p) => p,
                None => {
                    return Err(fail(codes::FE442_BAD_INDEX_SOL, "transferFrom on a balances value that is not a mapping", copy_span(span)));
                },
            };
            match require_arith_target(&bv, copy_span(span)) {
                Ok(()) => {},
                Err(d) => {
                    return Err(d);
                },
            }
            let (ak1, ak2, av) = match map2_types(env, alw_map) {
                Some(p) => p,
                None => {
                    return Err(fail(codes::FE442_BAD_INDEX_SOL, "transferFrom on an allowance value that is not a two-key mapping", copy_span(span)));
                },
            };
            match require_arith_target(&av, copy_span(span)) {
                Ok(()) => {},
                Err(d) => {
                    return Err(d);
                },
            }
            match assign_check(from, &bk, env, structs, enums) {
                Ok(()) => {},
                Err(d) => {
                    return Err(d);
                },
            }
            match assign_check(from, &ak1, env, structs, enums) {
                Ok(()) => {},
                Err(d) => {
                    return Err(d);
                },
            }
            match assign_check(spender, &ak2, env, structs, enums) {
                Ok(()) => {},
                Err(d) => {
                    return Err(d);
                },
            }
            match assign_check(to, &bk, env, structs, enums) {
                Ok(()) => {},
                Err(d) => {
                    return Err(d);
                },
            }
            match assign_check(amount, &SolTy::U256, env, structs, enums) {
                Ok(()) => {},
                Err(d) => {
                    return Err(d);
                },
            }
            if *cw {
                return Err(non_cei(copy_span(span)));
            }
            if !ctx.in_constructor {
                *cw = true;
            }
            Ok(())
        },
        _ => Ok(()),
    }
}

pub(crate) fn clone_env(env: &Vec<(String, SolTy)>) -> (r: Vec<(String, SolTy)>)
    ensures
        env_view(r@) == env_view(env@),
{
    let mut out: Vec<(String, SolTy)> = Vec::new();
    let mut k: usize = 0;
    while k < env.len()
        invariant
            k <= env@.len(),
            out@.len() == k,
            forall|i: int| 0 <= i < k ==> (#[trigger] out@[i]).0@ == env@[i].0@ && out@[i].1@ == env@[i].1@,
        decreases env@.len() - k,
    {
        out.push((clone_string(&env[k].0), copy_ty(&env[k].1)));
        k = k + 1;
    }
    assert(env_view(out@) =~= env_view(env@));
    out
}

fn clone_texts(v: &Vec<String>) -> (r: Vec<String>)
    ensures
        texts_view(r@) == texts_view(v@),
{
    let mut out: Vec<String> = Vec::new();
    let mut k: usize = 0;
    while k < v.len()
        invariant
            k <= v@.len(),
            out@.len() == k,
            forall|i: int| 0 <= i < k ==> (#[trigger] out@[i])@ == v@[i]@,
        decreases v@.len() - k,
    {
        out.push(clone_string(&v[k]));
        k = k + 1;
    }
    assert(texts_view(out@) =~= texts_view(v@));
    out
}

/// One statement (see `stmt_spec`).
fn check_stmt(
    s: &Stmt,
    ctx: &FnCtx,
    env: &mut Vec<(String, SolTy)>,
    locals: &mut Vec<String>,
    cw: &mut bool,
    structs: &[Struct],
    enums: &[Enum],
) -> (r: Result<(), FrontendDiag>)
    requires
        env_ok(env_view(old(env)@)),
        ctx_ok(*ctx),
    ensures
        env_ok(env_view(final(env)@)),
        ck_outcome(
            r,
            stmt_spec(*s, ctx_view(*ctx), (env_view(old(env)@), texts_view(old(locals)@), *old(cw)), structs@, enums@),
            final(env)@,
            final(locals)@,
            *final(cw),
        ),
        is_residual(*s) ==> final(env)@ == old(env)@ && final(locals)@ == old(locals)@ && *final(cw) == *old(cw) && (r matches Err(
            d,
        ) && d.code == codes::FE500_INTERNAL_MALFORMED_SOL && d.span == s.spec_span()),
    decreases s, 1int,
{
    proof {
        reveal(stmt_spec);
    }
    match s {
        Stmt::CallStmt { span, .. } => Err(fail(codes::FE500_INTERNAL_MALFORMED_SOL, "internal: an internal call statement reached the checker", copy_span(span))),
        Stmt::Unchecked { span, .. } => Err(fail(codes::FE500_INTERNAL_MALFORMED_SOL, "internal: an `unchecked` block reached the checker", copy_span(span))),
        Stmt::AirdropLoop { span, .. } => Err(fail(codes::FE500_INTERNAL_MALFORMED_SOL, "internal: an airdrop loop reached the checker", copy_span(span))),
        Stmt::Placeholder { span } => Err(fail(codes::FE500_INTERNAL_MALFORMED_SOL, "internal: a modifier `_` placeholder reached the checker", copy_span(span))),
        Stmt::BatchTransfer { .. } => check_batch_transfer(s, ctx, &*env, &*locals, cw, structs, enums),
        Stmt::Require { cond, span } | Stmt::Assert { cond, span } => {
            match infer(cond, &*env, structs, enums) {
                Ok(_) => {},
                Err(d) => {
                    return Err(d);
                },
            }
            if *cw {
                return Err(non_cei(copy_span(span)));
            }
            Ok(())
        },
        Stmt::Revert { span } => {
            if *cw {
                return Err(non_cei(copy_span(span)));
            }
            Ok(())
        },
        Stmt::Return { .. } => check_return(s, ctx, &*env, &*locals, cw, structs, enums),
        Stmt::LocalVar { name, ty, value, span } => {
            let dty = match resolve_ty(ty, TyPos::Local, structs, enums) {
                Ok(t) => t,
                Err(d) => {
                    return Err(d);
                },
            };
            match assign_check(value, &dty, &*env, structs, enums) {
                Ok(()) => {},
                Err(d) => {
                    return Err(d);
                },
            }
            if *cw && expr_has_checked_arith(value) {
                return Err(non_cei(copy_span(span)));
            }
            let ghost ev = env_view(env@);
            locals.push(clone_string(name));
            env.push((clone_string(name), dty));
            proof {
                assert(env_view(env@) =~= ev.push((name@, dty@)));
                assert(texts_view(locals@) =~= texts_view(old(locals)@).push(name@));
            }
            Ok(())
        },
        Stmt::Assign { .. } => check_assign_stmt(s, ctx, &*env, &*locals, cw, structs, enums),
        Stmt::FieldAssign { .. } => check_field_assign(s, ctx, &*env, &*locals, cw, structs, enums),
        Stmt::IndexAssign { .. } => check_index_assign_stmt(s, ctx, &*env, &*locals, cw, structs, enums),
        Stmt::IndexAssign2 { .. } => check_index_assign2(s, ctx, &*env, &*locals, cw, structs, enums),
        Stmt::MapTransfer { .. } => check_map_transfer_stmt(s, ctx, &*env, &*locals, cw, structs, enums),
        Stmt::MapSplitTransfer { .. } => check_split_transfer(s, ctx, &*env, &*locals, cw, structs, enums),
        Stmt::Erc20Update { .. } => check_erc20_update(s, ctx, &*env, &*locals, cw, structs, enums),
        Stmt::Erc20TransferFrom { .. } => check_transfer_from(s, ctx, &*env, &*locals, cw, structs, enums),
        Stmt::If { .. } => check_if_stmt(s, ctx, &*env, &*locals, cw, structs, enums),
        Stmt::ReservedBatch { .. } => check_reserved_batch(s, ctx, env, locals, cw, structs, enums),
    }
}

/// A statement list in order (see `stmts_spec`).
/// A statement an earlier pass must have removed: an internal call, an `unchecked` block,
/// an airdrop loop or a modifier placeholder.
pub open spec fn is_residual(s: Stmt) -> bool {
    s is CallStmt || s is Unchecked || s is AirdropLoop || s is Placeholder
}

fn check_stmts(
    stmts: &Vec<Stmt>,
    ctx: &FnCtx,
    env: &mut Vec<(String, SolTy)>,
    locals: &mut Vec<String>,
    cw: &mut bool,
    structs: &[Struct],
    enums: &[Enum],
) -> (r: Result<(), FrontendDiag>)
    requires
        env_ok(env_view(old(env)@)),
        ctx_ok(*ctx),
    ensures
        env_ok(env_view(final(env)@)),
        ck_outcome(
            r,
            stmts_spec(stmts@, ctx_view(*ctx), (env_view(old(env)@), texts_view(old(locals)@), *old(cw)), structs@, enums@),
            final(env)@,
            final(locals)@,
            *final(cw),
        ),
        stmts@.len() > 0 && is_residual(stmts@[0]) ==> final(env)@ == old(env)@ && final(locals)@ == old(locals)@ && *final(cw)
            == *old(cw) && (r matches Err(d) && d.code == codes::FE500_INTERNAL_MALFORMED_SOL && d.span == stmts@[0].spec_span()),
    decreases stmts, 2int,
{
    let ghost st0: CkState = (env_view(env@), texts_view(locals@), *cw);
    let mut k: usize = 0;
    assert(stmts@.skip(0) =~= stmts@);
    while k < stmts.len()
        invariant
            k <= stmts@.len(),
            env_ok(env_view(env@)),
            ctx_ok(*ctx),
            st0 == (env_view(old(env)@), texts_view(old(locals)@), *old(cw)),
            k == 0 ==> env@ == old(env)@ && locals@ == old(locals)@ && *cw == *old(cw),
            stmts@.len() > 0 && is_residual(stmts@[0]) ==> k == 0,
            stmts_spec(stmts@, ctx_view(*ctx), st0, structs@, enums@) == stmts_spec(
                stmts@.skip(k as int),
                ctx_view(*ctx),
                (env_view(env@), texts_view(locals@), *cw),
                structs@,
                enums@,
            ),
        decreases stmts@.len() - k,
    {
        let ghost pre: CkState = (env_view(env@), texts_view(locals@), *cw);
        proof {
            assert(decreases_to!(*stmts => stmts[k as int]));
            let t = stmts@.skip(k as int);
            assert(t.len() > 0);
            assert(t[0] == stmts@[k as int]);
            assert(t.subrange(1, t.len() as int) =~= stmts@.skip(k + 1));
            lemma_stmts_step(t, ctx_view(*ctx), pre, structs@, enums@);
        }
        match check_stmt(&stmts[k], ctx, env, locals, cw, structs, enums) {
            Ok(()) => {},
            Err(d) => {
                assert(stmt_spec(stmts@[k as int], ctx_view(*ctx), pre, structs@, enums@) is Err);
                assert(stmts_spec(stmts@.skip(k as int), ctx_view(*ctx), pre, structs@, enums@) == stmt_spec(stmts@[k as int], ctx_view(*ctx), pre, structs@, enums@));
                return Err(d);
            },
        }
        k = k + 1;
    }
    proof {
        lemma_stmts_step(stmts@.skip(k as int), ctx_view(*ctx), (env_view(env@), texts_view(locals@), *cw), structs@, enums@);
    }
    Ok(())
}

/// An `if`: the condition typed (no checked arithmetic after a committed write), each
/// branch checked from the same state; afterwards a write has committed when either
/// branch committed one, and branch-local declarations are gone.
fn check_if_stmt(s: &Stmt, ctx: &FnCtx, env: &Vec<(String, SolTy)>, locals: &Vec<String>, cw: &mut bool, structs: &[Struct], enums: &[Enum]) -> (r: Result<(), FrontendDiag>)
    requires
        env_ok(env_view(env@)),
        ctx_ok(*ctx),
        *s is If,
    ensures
        ck_outcome(r, stmt_spec(*s, ctx_view(*ctx), (env_view(env@), texts_view(locals@), *old(cw)), structs@, enums@), env@, locals@, *final(cw)),
    decreases s, 0int,
{
    match s {
        Stmt::If { cond, then_body, else_body, .. } => {
            let ghost st0: CkState = (env_view(env@), texts_view(locals@), *cw);
            proof {
                lemma_if_unfold(*s, ctx_view(*ctx), st0, structs@, enums@);
            }
            match infer(cond, env, structs, enums) {
                Ok(_) => {},
                Err(d) => {
                    return Err(d);
                },
            }
            if *cw && expr_has_checked_arith(cond) {
                return Err(non_cei(cond.span()));
            }
            proof {
                assert(decreases_to!(*s => (*s)->If_then_body));
                assert(decreases_to!(*s => (*s)->If_else_body));
            }
            let mut then_write = *cw;
            let mut then_locals = clone_texts(locals);
            let mut then_env = clone_env(env);
            match check_stmts(then_body, ctx, &mut then_env, &mut then_locals, &mut then_write, structs, enums) {
                Ok(()) => {},
                Err(d) => {
                    return Err(d);
                },
            }
            let mut else_write = *cw;
            let mut else_locals = clone_texts(locals);
            let mut else_env = clone_env(env);
            match check_stmts(else_body, ctx, &mut else_env, &mut else_locals, &mut else_write, structs, enums) {
                Ok(()) => {},
                Err(d) => {
                    return Err(d);
                },
            }
            *cw = then_write || else_write;
            Ok(())
        },
        _ => Ok(()),
    }
}

/// A reserved batch of writes: refused after a committed write (FE412); its transfer and
/// writes are each checked as if first, and together they commit once.
fn check_reserved_batch(
    s: &Stmt,
    ctx: &FnCtx,
    env: &mut Vec<(String, SolTy)>,
    locals: &mut Vec<String>,
    cw: &mut bool,
    structs: &[Struct],
    enums: &[Enum],
) -> (r: Result<(), FrontendDiag>)
    requires
        env_ok(env_view(old(env)@)),
        ctx_ok(*ctx),
        *s is ReservedBatch,
    ensures
        env_ok(env_view(final(env)@)),
        ck_outcome(
            r,
            stmt_spec(*s, ctx_view(*ctx), (env_view(old(env)@), texts_view(old(locals)@), *old(cw)), structs@, enums@),
            final(env)@,
            final(locals)@,
            *final(cw),
        ),
    decreases s, 0int,
{
    match s {
        Stmt::ReservedBatch { transfer, writes, span } => {
            let ghost st0: CkState = (env_view(env@), texts_view(locals@), *cw);
            proof {
                lemma_batch_unfold(*s, ctx_view(*ctx), st0, structs@, enums@);
            }
            if *cw {
                return Err(non_cei(copy_span(span)));
            }
            let ghost first: Result<CkState, Rejection> = match transfer {
                Some(t) => match stmt_spec(**t, ctx_view(*ctx), (st0.0, st0.1, false), structs@, enums@) {
                    Err(x) => Err(x),
                    Ok(r) => Ok((r.0, r.1, st0.2)),
                },
                None => Ok(st0),
            };
            assert(stmt_spec(*s, ctx_view(*ctx), st0, structs@, enums@) == match first {
                Err(x) => Err::<CkState, Rejection>(x),
                Ok(f) => match batch_spec(writes@, ctx_view(*ctx), f, structs@, enums@) {
                    Err(x) => Err(x),
                    Ok(b) => Ok((b.0, b.1, after_write(ctx_view(*ctx), b.2))),
                },
            });
            match transfer {
                Some(t) => {
                    proof {
                        assert(decreases_to!(*s => (*s)->ReservedBatch_transfer));
                        assert(decreases_to!((*s)->ReservedBatch_transfer => t));
                    }
                    let mut inner = false;
                    match check_stmt(t, ctx, env, locals, &mut inner, structs, enums) {
                        Ok(()) => {},
                        Err(d) => {
                            return Err(d);
                        },
                    }
                },
                None => {},
            }
            let ghost f: CkState = (env_view(env@), texts_view(locals@), *cw);
            assert(first == Ok::<CkState, Rejection>(f));
            let mut k: usize = 0;
            assert(writes@.skip(0) =~= writes@);
            while k < writes.len()
                invariant
                    k <= writes@.len(),
                    env_ok(env_view(env@)),
                    ctx_ok(*ctx),
                    !*cw,
                    *s == (Stmt::ReservedBatch { transfer: *transfer, writes: *writes, span: *span }),
                    stmt_spec(*s, ctx_view(*ctx), st0, structs@, enums@) == match batch_spec(writes@, ctx_view(*ctx), f, structs@, enums@) {
                        Err(x) => Err::<CkState, Rejection>(x),
                        Ok(b) => Ok((b.0, b.1, after_write(ctx_view(*ctx), b.2))),
                    },
                    !st0.2,
                    st0 == (env_view(old(env)@), texts_view(old(locals)@), *old(cw)),
                    batch_spec(writes@, ctx_view(*ctx), f, structs@, enums@) == batch_spec(
                        writes@.skip(k as int),
                        ctx_view(*ctx),
                        (env_view(env@), texts_view(locals@), *cw),
                        structs@,
                        enums@,
                    ),
                decreases writes@.len() - k,
            {
                let ghost pre: CkState = (env_view(env@), texts_view(locals@), *cw);
                proof {
                    assert(decreases_to!(*s => (*s)->ReservedBatch_writes));
                    assert(decreases_to!(*writes => writes[k as int]));
                    let t = writes@.skip(k as int);
                    assert(t.len() > 0);
                    assert(t[0] == writes@[k as int]);
                    assert(t.subrange(1, t.len() as int) =~= writes@.skip(k + 1));
                    lemma_batch_step(t, ctx_view(*ctx), pre, structs@, enums@);
                }
                let mut inner = false;
                match check_stmt(&writes[k], ctx, env, locals, &mut inner, structs, enums) {
                    Ok(()) => {},
                    Err(d) => {
                        return Err(d);
                    },
                }
                k = k + 1;
            }
            proof {
                lemma_batch_step(writes@.skip(k as int), ctx_view(*ctx), (env_view(env@), texts_view(locals@), *cw), structs@, enums@);
            }
            if !ctx.in_constructor {
                *cw = true;
            }
            Ok(())
        },
        _ => Ok(()),
    }
}

// ── Functions, constructor, contract ────────────────────────────────────────

/// The parameters bound in order, each resolved as a parameter type.
pub open spec fn params_env(params: Seq<Param>, env: Seq<(Seq<char>, TyV)>, structs: Seq<Struct>, enums: Seq<Enum>) -> Result<
    Seq<(Seq<char>, TyV)>,
    Rejection,
>
    decreases params.len(),
{
    if params.len() == 0 {
        Ok(env)
    } else {
        match resolve_spec(params[0].ty, TyPos::Param, structs, enums) {
            Err(x) => Err(x),
            Ok(t) => params_env(params.subrange(1, params.len() as int), env.push((params[0].name@, t)), structs, enums),
        }
    }
}

pub open spec fn param_names(params: Seq<Param>) -> Seq<Seq<char>> {
    params.map_values(|p: Param| p.name@)
}

/// A function: its parameters and return type resolve, its body checks from the state
/// environment with nothing committed, and a `view`/`pure` function commits no write
/// (FE446).
pub open spec fn function_spec(f: Function, state: Seq<Seq<char>>, env0: Seq<(Seq<char>, TyV)>, structs: Seq<Struct>, enums: Seq<Enum>) -> Option<Rejection> {
    match params_env(f.params@, env0, structs, enums) {
        Err(x) => Some(x),
        Ok(env) => match (match f.ret {
            Some(rt) => match resolve_spec(rt, TyPos::Return, structs, enums) {
                Err(x) => Err::<Option<TyV>, Rejection>(x),
                Ok(t) => Ok(Some(t)),
            },
            None => Ok(None),
        }) {
            Err(x) => Some(x),
            Ok(ret) => match stmts_spec(f.body@, (state, ret, false), (env, param_names(f.params@), false), structs, enums) {
                Err(x) => Some(x),
                Ok(st) => if st.2 && (f.mutability == StateMutability::View || f.mutability == StateMutability::Pure) {
                    Some((codes::FE446_VIEW_WRITE_SOL, f.span))
                } else {
                    None
                },
            },
        },
    }
}

/// The constructor: its parameters resolve and its body checks as a constructor body.
pub open spec fn ctor_spec(c: Constructor, state: Seq<Seq<char>>, env0: Seq<(Seq<char>, TyV)>, structs: Seq<Struct>, enums: Seq<Enum>) -> Option<Rejection> {
    match params_env(c.params@, env0, structs, enums) {
        Err(x) => Some(x),
        Ok(env) => match stmts_spec(c.body@, (state, None, true), (env, param_names(c.params@), false), structs, enums) {
            Err(x) => Some(x),
            Ok(_) => None,
        },
    }
}

/// The state fields from the `k`-th on: each type resolves as a state-field type; an
/// initializer must be a literal (FE413) assignable to the field; the field is then bound.
pub open spec fn state_env_spec(state: Seq<StateVar>, k: int, env: Seq<(Seq<char>, TyV)>, structs: Seq<Struct>, enums: Seq<Enum>) -> Result<
    Seq<(Seq<char>, TyV)>,
    Rejection,
>
    decreases state.len() - k,
{
    if k < 0 || k >= state.len() {
        Ok(env)
    } else {
        match resolve_spec(state[k].ty, TyPos::StateField, structs, enums) {
            Err(x) => Err(x),
            Ok(sty) => match state[k].init {
                Some(init) => if !(init is Num || init is Bool) {
                    Err((codes::FE413_INDETERMINATE_INIT, init.spec_span()))
                } else {
                    match assign_err(init, sty, env, structs, enums) {
                        Some(x) => Err(x),
                        None => state_env_spec(state, k + 1, env.push((state[k].name@, sty)), structs, enums),
                    }
                },
                None => state_env_spec(state, k + 1, env.push((state[k].name@, sty)), structs, enums),
            },
        }
    }
}

/// The first function, from the `k`-th on, that is rejected.
pub open spec fn fns_spec(fns: Seq<Function>, k: int, state: Seq<Seq<char>>, env: Seq<(Seq<char>, TyV)>, structs: Seq<Struct>, enums: Seq<Enum>) -> Option<Rejection>
    decreases fns.len() - k,
{
    if k < 0 || k >= fns.len() {
        None
    } else {
        match function_spec(fns[k], state, env, structs, enums) {
            Some(x) => Some(x),
            None => fns_spec(fns, k + 1, state, env, structs, enums),
        }
    }
}

/// Each function of a list that passes from position `j` on passes its own check.
proof fn lemma_fns_spec_each(fns: Seq<Function>, j: int, k: int, state: Seq<Seq<char>>, env: Seq<(Seq<char>, TyV)>, structs: Seq<Struct>, enums: Seq<Enum>)
    requires
        0 <= j <= k < fns.len(),
        fns_spec(fns, j, state, env, structs, enums) is None,
    ensures
        function_spec(fns[k], state, env, structs, enums) is None,
    decreases k - j,
{
    if j < k {
        lemma_fns_spec_each(fns, j + 1, k, state, env, structs, enums);
    }
}

/// The return type a function declares, resolved (or its rejection).
pub open spec fn fn_ret(f: Function, structs: Seq<Struct>, enums: Seq<Enum>) -> Result<Option<TyV>, Rejection> {
    match f.ret {
        Some(rt) => match resolve_spec(rt, TyPos::Return, structs, enums) {
            Err(x) => Err(x),
            Ok(t) => Ok(Some(t)),
        },
        None => Ok(None),
    }
}

/// In a program that the checker accepts, every function body keeps checks-then-effects
/// on every path, from its entry state (its parameters in scope, no write committed).
pub proof fn lemma_accepted_program_is_cei(p: Program, k: int)
    requires
        check_spec(p) is None,
        0 <= k < p.contract.functions@.len(),
    ensures
        ({
            let c = p.contract;
            let f = c.functions@[k];
            let names = c.state@.map_values(|sv: StateVar| sv.name@);
            &&& state_env_spec(c.state@, 0, seq![], c.structs@, c.enums@) matches Ok(env)
            &&& params_env(f.params@, env, c.structs@, c.enums@) matches Ok(penv)
            &&& fn_ret(f, c.structs@, c.enums@) matches Ok(ret)
            &&& cei_holds(f.body@, (names, ret, false), (penv, param_names(f.params@), false), c.structs@, c.enums@)
        }),
{
    let c = p.contract;
    let names = c.state@.map_values(|sv: StateVar| sv.name@);
    let env = state_env_spec(c.state@, 0, seq![], c.structs@, c.enums@)->Ok_0;
    lemma_fns_spec_each(c.functions@, 0, k, names, env, c.structs@, c.enums@);
    let f = c.functions@[k];
    let penv = params_env(f.params@, env, c.structs@, c.enums@)->Ok_0;
    let ret = fn_ret(f, c.structs@, c.enums@)->Ok_0;
    lemma_checked_is_cei(f.body@, (names, ret, false), (penv, param_names(f.params@), false), c.structs@, c.enums@);
}

/// The pragma gate's rejection, if any.
pub open spec fn pragma_err(p: Program) -> Option<Rejection> {
    match p.pragma {
        None => Some((codes::FE411_UNCHECKED_OR_PRAGMA, 0usize..0usize)),
        Some(pr) => if admits_only_0_8(pragma_version(pr.0@)) {
            None
        } else {
            Some((codes::FE411_UNCHECKED_OR_PRAGMA, pr.1))
        },
    }
}

/// The whole check of a program, in order: the version pragma, the enum and struct
/// declarations, the state fields, every function, the constructor; the first rejection.
pub open spec fn check_spec(p: Program) -> Option<Rejection> {
    let c = p.contract;
    let structs = c.structs@;
    let enums = c.enums@;
    let names = c.state@.map_values(|sv: StateVar| sv.name@);
    if pragma_err(p) is Some {
        pragma_err(p)
    } else if first_bad_enum(enums, 0) is Some {
        Some((codes::FE467_BAD_ENUM_SHAPE_SOL, enums[first_bad_enum(enums, 0)->0].span))
    } else if first_struct_err(structs, enums, 0) is Some {
        first_struct_err(structs, enums, 0)
    } else if cycles_spec(structs, 0, seq![]) is Some {
        cycles_spec(structs, 0, seq![])
    } else {
        match state_env_spec(c.state@, 0, seq![], structs, enums) {
            Err(x) => Some(x),
            Ok(env) => match fns_spec(c.functions@, 0, names, env, structs, enums) {
                Some(x) => Some(x),
                None => match c.constructor {
                    Some(ct) => ctor_spec(ct, names, env, structs, enums),
                    None => None,
                },
            },
        }
    }
}

/// Binds the parameters after the environment (see `params_env`); also returns their names.
fn bind_params(params: &Vec<Param>, env: &mut Vec<(String, SolTy)>, structs: &[Struct], enums: &[Enum]) -> (r: Result<Vec<String>, FrontendDiag>)
    requires
        env_ok(env_view(old(env)@)),
    ensures
        env_ok(env_view(final(env)@)),
        match params_env(params@, env_view(old(env)@), structs@, enums@) {
            Ok(e) => r matches Ok(names) && env_view(final(env)@) == e && texts_view(names@) == param_names(params@),
            Err(x) => r matches Err(d) && d.code == x.0 && d.span == x.1,
        },
{
    let ghost e0 = env_view(env@);
    let mut names: Vec<String> = Vec::new();
    let mut k: usize = 0;
    assert(params@.skip(0) =~= params@);
    while k < params.len()
        invariant
            k <= params@.len(),
            env_ok(env_view(env@)),
            e0 == env_view(old(env)@),
            params_env(params@, e0, structs@, enums@) == params_env(params@.skip(k as int), env_view(env@), structs@, enums@),
            texts_view(names@) == param_names(params@).take(k as int),
        decreases params@.len() - k,
    {
        let p = &params[k];
        proof {
            let t = params@.skip(k as int);
            assert(t[0] == params@[k as int]);
            assert(t.subrange(1, t.len() as int) =~= params@.skip(k + 1));
        }
        let pty = match resolve_ty(&p.ty, TyPos::Param, structs, enums) {
            Ok(t) => t,
            Err(d) => {
                return Err(d);
            },
        };
        let ghost ev = env_view(env@);
        let ghost nv = texts_view(names@);
        env.push((clone_string(&p.name), pty));
        names.push(clone_string(&p.name));
        proof {
            assert(env_view(env@) =~= ev.push((p.name@, pty@)));
            assert(texts_view(names@) =~= nv.push(p.name@));
            assert(param_names(params@).take(k + 1) =~= param_names(params@).take(k as int).push(p.name@));
        }
        k = k + 1;
    }
    assert(params@.skip(k as int) =~= Seq::<Param>::empty());
    assert(param_names(params@).take(k as int) =~= param_names(params@));
    Ok(names)
}

/// One function (see `function_spec`).
fn check_function(f: &Function, state: &Vec<String>, state_env: &Vec<(String, SolTy)>, structs: &[Struct], enums: &[Enum]) -> (r: Result<(), FrontendDiag>)
    requires
        env_ok(env_view(state_env@)),
    ensures
        match function_spec(*f, texts_view(state@), env_view(state_env@), structs@, enums@) {
            Some(x) => r matches Err(d) && d.code == x.0 && d.span == x.1,
            None => r is Ok,
        },
{
    let mut env = clone_env(state_env);
    let mut locals = match bind_params(&f.params, &mut env, structs, enums) {
        Ok(n) => n,
        Err(d) => {
            return Err(d);
        },
    };
    let ret: Option<SolTy> = match &f.ret {
        Some(rt) => match resolve_ty(rt, TyPos::Return, structs, enums) {
            Ok(t) => Some(t),
            Err(d) => {
                return Err(d);
            },
        },
        None => None,
    };
    let ctx = FnCtx { state: clone_texts(state), ret, in_constructor: false };
    let mut committed = false;
    match check_stmts(&f.body, &ctx, &mut env, &mut locals, &mut committed, structs, enums) {
        Ok(()) => {},
        Err(d) => {
            return Err(d);
        },
    }
    let read_only = match f.mutability {
        StateMutability::View => true,
        StateMutability::Pure => true,
        StateMutability::NonPayable => false,
    };
    if committed && read_only {
        return Err(fail(codes::FE446_VIEW_WRITE_SOL, "a view/pure function writes contract state", copy_span(&f.span)));
    }
    Ok(())
}

/// The constructor (see `ctor_spec`).
fn check_constructor(c: &Constructor, state: &Vec<String>, state_env: &Vec<(String, SolTy)>, structs: &[Struct], enums: &[Enum]) -> (r: Result<(), FrontendDiag>)
    requires
        env_ok(env_view(state_env@)),
    ensures
        match ctor_spec(*c, texts_view(state@), env_view(state_env@), structs@, enums@) {
            Some(x) => r matches Err(d) && d.code == x.0 && d.span == x.1,
            None => r is Ok,
        },
{
    let mut env = clone_env(state_env);
    let mut locals = match bind_params(&c.params, &mut env, structs, enums) {
        Ok(n) => n,
        Err(d) => {
            return Err(d);
        },
    };
    let ctx = FnCtx { state: clone_texts(state), ret: None, in_constructor: true };
    let mut committed = false;
    check_stmts(&c.body, &ctx, &mut env, &mut locals, &mut committed, structs, enums)
}

/// The fail-closed checker (see `check_spec`): a program outside the supported subset, or
/// with a trap-capable operation after a storage write, is rejected with the first
/// rejection in program order.
pub fn check(p: &Program) -> (r: Result<(), FrontendDiag>)
    ensures
        match check_spec(*p) {
            Some(x) => r matches Err(d) && d.code == x.0 && d.span == x.1,
            None => r is Ok,
        },
{
    match check_pragma(p) {
        Ok(()) => {},
        Err(d) => {
            return Err(d);
        },
    }
    let c = &p.contract;
    let structs = c.structs.as_slice();
    let enums = c.enums.as_slice();
    match validate_enum_defs(enums) {
        Ok(()) => {},
        Err(d) => {
            return Err(d);
        },
    }
    match validate_struct_defs(structs, enums) {
        Ok(()) => {},
        Err(d) => {
            return Err(d);
        },
    }
    let ghost names_v = c.state@.map_values(|sv: StateVar| sv.name@);
    let mut names: Vec<String> = Vec::new();
    let mut env: Vec<(String, SolTy)> = Vec::new();
    let mut k: usize = 0;
    assert(env_view(env@) =~= Seq::<(Seq<char>, TyV)>::empty());
    while k < c.state.len()
        invariant
            k <= c.state@.len(),
            *c == p.contract,
            structs@ == c.structs@,
            enums@ == c.enums@,
            env_ok(env_view(env@)),
            check_spec(*p) == match state_env_spec(c.state@, k as int, env_view(env@), structs@, enums@) {
                Err(x) => Some(x),
                Ok(env) => match fns_spec(c.functions@, 0, names_v, env, structs@, enums@) {
                    Some(x) => Some(x),
                    None => match c.constructor {
                        Some(ct) => ctor_spec(ct, names_v, env, structs@, enums@),
                        None => None,
                    },
                },
            },
            texts_view(names@) == names_v.take(k as int),
            names_v == c.state@.map_values(|sv: StateVar| sv.name@),
        decreases c.state@.len() - k,
    {
        let sv = &c.state[k];
        let sty = match resolve_ty(&sv.ty, TyPos::StateField, structs, enums) {
            Ok(t) => t,
            Err(d) => {
                return Err(d);
            },
        };
        match &sv.init {
            Some(init) => {
                let literal = match init {
                    Expr::Num(..) => true,
                    Expr::Bool(..) => true,
                    _ => false,
                };
                if !literal {
                    return Err(fail(codes::FE413_INDETERMINATE_INIT, "a state-variable initializer must be a constant literal", init.span()));
                }
                match assign_check(init, &sty, &env, structs, enums) {
                    Ok(()) => {},
                    Err(d) => {
                        return Err(d);
                    },
                }
            },
            None => {},
        }
        let ghost ev = env_view(env@);
        let ghost nv = texts_view(names@);
        env.push((clone_string(&sv.name), sty));
        names.push(clone_string(&sv.name));
        proof {
            assert(env_view(env@) =~= ev.push((sv.name@, sty@)));
            assert(texts_view(names@) =~= nv.push(sv.name@));
            assert(names_v.take(k + 1) =~= names_v.take(k as int).push(sv.name@));
        }
        k = k + 1;
    }
    assert(names_v.take(k as int) =~= names_v);
    let mut j: usize = 0;
    while j < c.functions.len()
        invariant
            j <= c.functions@.len(),
            *c == p.contract,
            structs@ == c.structs@,
            enums@ == c.enums@,
            env_ok(env_view(env@)),
            texts_view(names@) == names_v,
            check_spec(*p) == match fns_spec(c.functions@, j as int, names_v, env_view(env@), structs@, enums@) {
                Some(x) => Some(x),
                None => match c.constructor {
                    Some(ct) => ctor_spec(ct, names_v, env_view(env@), structs@, enums@),
                    None => None,
                },
            },
        decreases c.functions@.len() - j,
    {
        match check_function(&c.functions[j], &names, &env, structs, enums) {
            Ok(()) => {},
            Err(d) => {
                return Err(d);
            },
        }
        j = j + 1;
    }
    match &c.constructor {
        Some(ct) => check_constructor(ct, &names, &env, structs, enums),
        None => Ok(()),
    }
}

// ── Laws ─────────────────────────────────────────────────────────────────────

/// A value of a value type may always flow into a slot of the same type.
pub proof fn lemma_assign_reflexive(t: TyV)
    requires
        !(t is Num),
        !(t is Mapping),
        !(t is Array),
    ensures
        assign_code(t, t) is None,
{
}

/// `address` never mixes with a number: no assignment either way between `address` and
/// `uint256` or `uintN`, no `==` between them, no ordering and no arithmetic on an
/// address (FE443 each time).
pub proof fn lemma_address_is_closed(n: u16, other: TyV)
    ensures
        assign_code(TyV::Address, TyV::U256) == Some(codes::FE443_ADDRESS_OP_SOL),
        assign_code(TyV::U256, TyV::Address) == Some(codes::FE443_ADDRESS_OP_SOL),
        assign_code(TyV::Address, TyV::UintN(n)) == Some(codes::FE443_ADDRESS_OP_SOL),
        assign_code(TyV::UintN(n), TyV::Address) == Some(codes::FE443_ADDRESS_OP_SOL),
        eq_code(TyV::Address, TyV::U256) == Some(codes::FE443_ADDRESS_OP_SOL),
        eq_code(TyV::UintN(n), TyV::Address) == Some(codes::FE443_ADDRESS_OP_SOL),
        ordered_code(TyV::Address, other) == Some(codes::FE443_ADDRESS_OP_SOL),
        arith_spec(other, TyV::Address) == Err::<TyV, &'static str>(codes::FE443_ADDRESS_OP_SOL),
{
}

/// After a storage write has committed, a guard (`require`, `assert`) or a `revert` is
/// always rejected: a trap would not undo the write.
pub proof fn lemma_no_trap_after_write(s: Stmt, ctx: CtxV, env: Seq<(Seq<char>, TyV)>, locals: Seq<Seq<char>>, structs: Seq<Struct>, enums: Seq<Enum>)
    requires
        s is Require || s is Assert || s is Revert,
    ensures
        stmt_spec(s, ctx, (env, locals, true), structs, enums) is Err,
{
    reveal(stmt_spec);
}

/// After a storage write has committed, every further mapping write is rejected.
pub proof fn lemma_no_map_write_after_write(s: Stmt, ctx: CtxV, env: Seq<(Seq<char>, TyV)>, locals: Seq<Seq<char>>, structs: Seq<Struct>, enums: Seq<Enum>)
    requires
        s is IndexAssign || s is IndexAssign2 || s is MapTransfer || s is MapSplitTransfer || s is Erc20Update
            || s is Erc20TransferFrom || s is BatchTransfer || s is ReservedBatch,
    ensures
        stmt_spec(s, ctx, (env, locals, true), structs, enums) is Err,
{
    reveal(stmt_spec);
}

/// Two values of the same value type can always be compared with `==` / `!=`: bools,
/// addresses, `uint256`, `uintN`, literals and values of one enum each compare with their
/// own kind.
pub proof fn lemma_eq_reflexive(t: TyV)
    requires
        !(t is Mapping),
        !(t is Named),
        !(t is Array),
    ensures
        eq_code(t, t) is None,
{
}

/// Whether `a == b` is accepted, and with which code it is refused, does not depend on
/// the order of the operands.
pub proof fn lemma_eq_symmetric(l: TyV, r: TyV)
    ensures
        eq_code(l, r) == eq_code(r, l),
{
}

/// Two numbers of one width can be ordered and combined by arithmetic, which gives that
/// width back; two values of one enum can be ordered.
pub proof fn lemma_order_and_arith_reflexive(t: TyV)
    requires
        t is U256 || t is UintN || t is Enum,
    ensures
        ordered_code(t, t) is None,
        !(t is Enum) ==> arith_spec(t, t) == Ok::<TyV, &'static str>(t),
{
}

/// Whether an ordering or an arithmetic operator is accepted, with which code it is
/// refused and of which type its result is, does not depend on the order of the operands.
pub proof fn lemma_order_and_arith_symmetric(l: TyV, r: TyV)
    ensures
        ordered_code(l, r) == ordered_code(r, l),
        arith_spec(l, r) == arith_spec(r, l),
{
}

/// A decimal literal can be compared with an address exactly when its value fits 160 bits,
/// and with a `uintN` exactly when it fits N bits (else FE430).
pub proof fn lemma_literal_comparison_fits(lit: Seq<char>, n: u16)
    requires
        all_digits(encode_utf8(lit)),
    ensures
        eq_code(TyV::Address, TyV::Num(lit)) is None <==> dec_value(encode_utf8(lit)) < pow_nat(2, 160),
        eq_code(TyV::UintN(n), TyV::Num(lit)) is None <==> dec_value(encode_utf8(lit)) < pow_nat(2, n as nat),
{
    lemma_decimal_literal_fits(lit, 160);
    lemma_decimal_literal_fits(lit, n as nat);
}

/// Assignment widens and never narrows: a `uintM` value flows into a `uintN` slot exactly
/// when M <= N, and into a `uint256` slot always, a `uint256` never into a `uintN` (FE462);
/// a decimal literal flows into a `uintN` slot exactly when its value fits N bits, into an
/// `address` slot exactly when it fits 160 bits (FE430 otherwise).
pub proof fn lemma_assign_widens(m: u16, n: u16, lit: Seq<char>)
    ensures
        assign_code(TyV::UintN(m), TyV::UintN(n)) is None <==> m <= n,
        assign_code(TyV::UintN(m), TyV::U256) is None,
        assign_code(TyV::U256, TyV::UintN(n)) == Some(codes::FE462_UINTN_WIDTH_SOL),
        all_digits(encode_utf8(lit)) ==> (assign_code(TyV::Num(lit), TyV::UintN(n)) is None <==> dec_value(
            encode_utf8(lit),
        ) < pow_nat(2, n as nat)),
        all_digits(encode_utf8(lit)) ==> (assign_code(TyV::Num(lit), TyV::Address) is None <==> dec_value(
            encode_utf8(lit),
        ) < pow_nat(2, 160)),
{
    if all_digits(encode_utf8(lit)) {
        lemma_decimal_literal_fits(lit, 160);
        lemma_decimal_literal_fits(lit, n as nat);
    }
}

} // verus!
