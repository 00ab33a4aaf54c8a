//! Rendering of lowered statements and expressions as SIGIL text: `require`/`assert`
//! become `trap_if(!(c))` (a literal `false` the divergent `trap()`), `revert` becomes
//! `trap_if(true)`, compound assignments
//! expand, mapping accesses become `get_or`/`insert` calls on the state record, and a bare
//! state-field name resolves to `recv.field` unless a local shadows it.

use crate::check::{find_struct, first_enum, first_struct, parse_uint_width, uint_width};
use crate::codes;
use crate::diag::{copy_span, FrontendDiag};
use crate::cap_guards::CapGuardInfo;
use crate::parser::{
    AssignOp, BinOp, Contract, Enum, Expr, Function, Param, StateMutability, Stmt, Struct, StructField, TypeRef, UnOp,
    Visibility,
};
use crate::text::{clone_string, str_eq, string_eq_str};
use std::ops::Range;
use vstd::prelude::*;

verus! {

/// A refusal while rendering: its code and span.
pub type EmitErr = (&'static str, Range<usize>);

// ── Names, operators, types ──────────────────────────────────────────────────

/// A bare name: `recv.name` for a state field no local shadows, else the name itself.
pub open spec fn resolve_spec(name: Seq<char>, state: Seq<Seq<char>>, locals: Seq<Seq<char>>, recv: Seq<char>) -> Seq<char> {
    if state.contains(name) && !locals.contains(name) {
        recv + "."@ + name
    } else {
        name
    }
}

/// The SIGIL spelling of a binary operator.
pub open spec fn bin_text(op: BinOp) -> Seq<char> {
    match op {
        BinOp::Add => "+"@,
        BinOp::Sub => "-"@,
        BinOp::Mul => "*"@,
        BinOp::Div => "/"@,
        BinOp::Mod => "%"@,
        BinOp::Eq => "=="@,
        BinOp::Ne => "!="@,
        BinOp::Lt => "<"@,
        BinOp::Le => "<="@,
        BinOp::Gt => ">"@,
        BinOp::Ge => ">="@,
        BinOp::And => "&&"@,
        BinOp::Or => "||"@,
    }
}

/// The SIGIL type of a declared type: the numeric family (`uint256`, `uint`, `address`,
/// `bytes32`, `uintN`, an enum) is the `u256` carrier, `bool` stays, another name is the
/// record of that struct; a mapping is the bounded one- or two-key map, an array the
/// bounded vector.
pub open spec fn type_text(t: TypeRef, enums: Seq<Enum>) -> Seq<char> {
    match t {
        TypeRef::Scalar { name, .. } => if name@ == "uint256"@ || name@ == "uint"@ || name@ == "address"@ || name@
            == "bytes32"@ {
            "u256"@
        } else if name@ == "bool"@ {
            "bool"@
        } else if uint_width(name@) is Some {
            "u256"@
        } else if first_enum(enums, name@, 0) is Some {
            "u256"@
        } else {
            name@
        },
        TypeRef::Mapping { value, .. } => match *value {
            TypeRef::Mapping { .. } => "BoundedMap2_u256_u256_u256_64"@,
            _ => "BoundedMap_u256_u256_64"@,
        },
        TypeRef::Array { .. } => "BoundedVec_u256_64"@,
    }
}

/// The texts joined with `sep` between them.
pub open spec fn join(ts: Seq<Seq<char>>, sep: Seq<char>) -> Seq<char>
    decreases ts.len(),
{
    if ts.len() == 0 {
        Seq::empty()
    } else if ts.len() == 1 {
        ts[0]
    } else {
        join(ts.drop_last(), sep) + sep + ts.last()
    }
}

/// `p` is a prefix of `s`.
pub open spec fn starts_with_chars(s: Seq<char>, p: Seq<char>) -> bool {
    p.len() <= s.len() && s.take(p.len() as int) == p
}

// ── Expressions ──────────────────────────────────────────────────────────────

/// The SIGIL text of an expression: literals as written, names resolved, `!(e)`,
/// `(l op r)`, `m.get_or(k, 0)` / `m.get_or(k1, k2, 0)` for one- and two-key mapping reads,
/// `b.len()` for `.length` and `b.f` for another member, a synthesized `__fe_` helper call
/// as written, and a struct constructor as a record literal pairing the fields with the
/// arguments in order. Unary minus and any other call are refused (FE401), as is an index
/// of another shape (FE442); operands are rendered left to right and the first refusal
/// wins.
pub open spec fn expr_text(e: Expr, state: Seq<Seq<char>>, locals: Seq<Seq<char>>, structs: Seq<Struct>, recv: Seq<char>) -> Result<Seq<char>, EmitErr>
    decreases e,
{
    match e {
        Expr::Num(t, _) => Ok(t@),
        Expr::Bool(b, _) => Ok(
            if b {
                "true"@
            } else {
                "false"@
            },
        ),
        Expr::Var(name, _) => Ok(resolve_spec(name@, state, locals, recv)),
        Expr::Unary(op, inner, span) => if op is Not {
            match expr_text(*inner, state, locals, structs, recv) {
                Ok(t) => Ok("!("@ + t + ")"@),
                Err(x) => Err(x),
            }
        } else {
            Err((codes::FE401_UNSUPPORTED_SOL, span))
        },
        Expr::Bin(op, l, r, _) => match expr_text(*l, state, locals, structs, recv) {
            Ok(lt) => match expr_text(*r, state, locals, structs, recv) {
                Ok(rt) => Ok("("@ + lt + " "@ + bin_text(op) + " "@ + rt + ")"@),
                Err(x) => Err(x),
            },
            Err(x) => Err(x),
        },
        Expr::Index(base, key, span) => match *base {
            Expr::Var(name, _) => match expr_text(*key, state, locals, structs, recv) {
                Ok(kt) => Ok(resolve_spec(name@, state, locals, recv) + ".get_or("@ + kt + ", 0)"@),
                Err(x) => Err(x),
            },
            Expr::Index(inner, k1, _) => match *inner {
                Expr::Var(name, _) => match expr_text(*k1, state, locals, structs, recv) {
                    Ok(k1t) => match expr_text(*key, state, locals, structs, recv) {
                        Ok(k2t) => Ok(
                            resolve_spec(name@, state, locals, recv) + ".get_or("@ + k1t + ", "@ + k2t + ", 0)"@,
                        ),
                        Err(x) => Err(x),
                    },
                    Err(x) => Err(x),
                },
                _ => Err((codes::FE442_BAD_INDEX_SOL, span)),
            },
            _ => Err((codes::FE442_BAD_INDEX_SOL, span)),
        },
        Expr::Member(base, field, _) => match expr_text(*base, state, locals, structs, recv) {
            Ok(bt) => Ok(
                if field@ == "length"@ {
                    bt + ".len()"@
                } else {
                    bt + "."@ + field@
                },
            ),
            Err(x) => Err(x),
        },
        Expr::Call(callee, args, span) => {
            proof {
                assert(decreases_to!(e => args));
                assert(decreases_to!(args => args@));
            }
            match *callee {
                Expr::Var(name, _) => if starts_with_chars(name@, "__fe_"@) {
                    match args_text(args@, args@.len(), state, locals, structs, recv) {
                        Ok(ts) => Ok(name@ + "("@ + join(ts, ", "@) + ")"@),
                        Err(x) => Err(x),
                    }
                } else {
                    match first_struct(structs, name@, 0) {
                        Some(i) => {
                            let fields = structs[i].fields@;
                            let z = if args@.len() <= fields.len() {
                                args@.len()
                            } else {
                                fields.len()
                            };
                            match args_text(args@, z, state, locals, structs, recv) {
                                Ok(ts) => Ok(
                                    name@ + " { "@ + join(field_parts(fields, ts), ", "@) + " }"@,
                                ),
                                Err(x) => Err(x),
                            }
                        },
                        None => Err((codes::FE401_UNSUPPORTED_SOL, span)),
                    }
                },
                _ => Err((codes::FE401_UNSUPPORTED_SOL, span)),
            }
        },
    }
}

/// The texts of the first `lim` expressions of a list, left to right; the first refusal
/// wins.
pub open spec fn args_text(es: Seq<Expr>, lim: nat, state: Seq<Seq<char>>, locals: Seq<Seq<char>>, structs: Seq<Struct>, recv: Seq<char>) -> Result<Seq<Seq<char>>, EmitErr>
    decreases es,
{
    if es.len() == 0 {
        Ok(Seq::empty())
    } else if es.len() > lim {
        args_text(es.drop_last(), lim, state, locals, structs, recv)
    } else {
        match args_text(es.drop_last(), lim, state, locals, structs, recv) {
            Ok(ts) => match expr_text(es.last(), state, locals, structs, recv) {
                Ok(t) => Ok(ts.push(t)),
                Err(x) => Err(x),
            },
            Err(x) => Err(x),
        }
    }
}

/// `field: value` for each rendered argument, paired with the fields in order.
pub open spec fn field_parts(fields: Seq<StructField>, ts: Seq<Seq<char>>) -> Seq<Seq<char>> {
    Seq::new(ts.len(), |i: int| fields[i].name@ + ": "@ + ts[i])
}

// ── Rendering expressions ────────────────────────────────────────────────────

/// The names of the list, as texts.
pub open spec fn names_of(v: Seq<String>) -> Seq<Seq<char>> {
    v.map_values(|s: String| s@)
}

pub(crate) fn listed(v: &Vec<String>, n: &str) -> (r: bool)
    ensures
        r == names_of(v@).contains(n@),
{
    let mut i: usize = 0;
    while i < v.len()
        invariant
            i <= v@.len(),
            forall|j: int| 0 <= j < i ==> (#[trigger] v@[j])@ != n@,
        decreases v@.len() - i,
    {
        if string_eq_str(&v[i], n) {
            assert(names_of(v@)[i as int] == n@);
            return true;
        }
        i = i + 1;
    }
    proof {
        if names_of(v@).contains(n@) {
            let j = choose|j: int| 0 <= j < names_of(v@).len() && names_of(v@)[j] == n@;
            assert(v@[j]@ == n@);
        }
    }
    false
}

/// A bare name resolved against the state fields and the locals in scope (see
/// `resolve_spec`).
pub fn resolve_name(name: &str, state: &Vec<String>, locals: &Vec<String>, recv: &str) -> (r: String)
    ensures
        r@ == resolve_spec(name@, names_of(state@), names_of(locals@), recv@),
{
    if listed(state, name) && !listed(locals, name) {
        let mut s = String::from_str(recv);
        s.append(".");
        s.append(name);
        s
    } else {
        String::from_str(name)
    }
}

/// The SIGIL spelling of a binary operator.
pub fn bin_op(op: BinOp) -> (r: &'static str)
    ensures
        r@ == bin_text(op),
{
    match op {
        BinOp::Add => "+",
        BinOp::Sub => "-",
        BinOp::Mul => "*",
        BinOp::Div => "/",
        BinOp::Mod => "%",
        BinOp::Eq => "==",
        BinOp::Ne => "!=",
        BinOp::Lt => "<",
        BinOp::Le => "<=",
        BinOp::Gt => ">",
        BinOp::Ge => ">=",
        BinOp::And => "&&",
        BinOp::Or => "||",
    }
}

/// Whether an enum is named `n`.
pub(crate) fn is_enum_name(enums: &Vec<Enum>, n: &str) -> (r: bool)
    ensures
        r == (first_enum(enums@, n@, 0) is Some),
{
    let mut k: usize = 0;
    while k < enums.len()
        invariant
            k <= enums@.len(),
            first_enum(enums@, n@, 0) == first_enum(enums@, n@, k as int),
        decreases enums@.len() - k,
    {
        if string_eq_str(&enums[k].name, n) {
            return true;
        }
        k = k + 1;
    }
    false
}

/// The SIGIL type of a declared type (see `type_text`).
pub fn map_type(t: &TypeRef, enums: &Vec<Enum>) -> (r: String)
    ensures
        r@ == type_text(*t, enums@),
{
    match t {
        TypeRef::Scalar { name, .. } => {
            if string_eq_str(name, "uint256") || string_eq_str(name, "uint") || string_eq_str(name, "address")
                || string_eq_str(name, "bytes32") {
                String::from_str("u256")
            } else if string_eq_str(name, "bool") {
                String::from_str("bool")
            } else if parse_uint_width(name.as_str()).is_some() {
                String::from_str("u256")
            } else if is_enum_name(enums, name.as_str()) {
                String::from_str("u256")
            } else {
                clone_string(name)
            }
        },
        TypeRef::Mapping { value, .. } => match &**value {
            TypeRef::Mapping { .. } => String::from_str("BoundedMap2_u256_u256_u256_64"),
            _ => String::from_str("BoundedMap_u256_u256_64"),
        },
        TypeRef::Array { .. } => String::from_str("BoundedVec_u256_64"),
    }
}

/// Whether `p` is a prefix of `s`, char by char.
pub(crate) fn has_char_prefix(s: &str, p: &str) -> (r: bool)
    ensures
        r == starts_with_chars(s@, p@),
{
    let n = s.unicode_len();
    let m = p.unicode_len();
    if m > n {
        return false;
    }
    let mut i: usize = 0;
    while i < m
        invariant
            i <= m,
            m == p@.len(),
            n == s@.len(),
            m <= n,
            forall|j: int| 0 <= j < i ==> s@[j] == p@[j],
        decreases m - i,
    {
        if s.get_char(i) != p.get_char(i) {
            return false;
        }
        i = i + 1;
    }
    assert(s@.take(m as int) =~= p@);
    true
}

/// The texts joined with `sep` (see `join`).
fn join_texts(ts: &Vec<String>, sep: &str) -> (r: String)
    ensures
        r@ == join(names_of(ts@), sep@),
{
    let mut out = String::new();
    let mut k: usize = 0;
    assert(names_of(ts@).take(0) =~= Seq::<Seq<char>>::empty());
    while k < ts.len()
        invariant
            k <= ts@.len(),
            out@ == join(names_of(ts@).take(k as int), sep@),
        decreases ts@.len() - k,
    {
        let ghost pre = names_of(ts@).take(k as int);
        if k > 0 {
            out.append(sep);
        }
        out.append(ts[k].as_str());
        proof {
            let nxt = names_of(ts@).take(k + 1);
            assert(nxt.drop_last() =~= pre);
            assert(nxt.last() == ts@[k as int]@);
            if k == 0 {
                assert(pre =~= Seq::<Seq<char>>::empty());
            }
        }
        k = k + 1;
    }
    assert(names_of(ts@).take(k as int) =~= names_of(ts@));
    out
}

fn emit_err(x: EmitErr) -> (d: FrontendDiag)
    ensures
        d.code == x.0,
        d.span == x.1,
{
    let msg = if str_eq(x.0, codes::FE442_BAD_INDEX_SOL) {
        "unsupported mapping index shape"
    } else {
        "construct reached emit but is outside the SOL0 subset"
    };
    FrontendDiag::new(x.0, msg, x.1)
}

/// The texts of the first `lim` arguments (see `args_text`).
fn emit_args(args: &Vec<Expr>, lim: usize, state: &Vec<String>, locals: &Vec<String>, structs: &Vec<Struct>, recv: &str) -> (r: Result<Vec<String>, FrontendDiag>)
    requires
        lim <= args@.len(),
    ensures
        match r {
            Ok(ts) => args_text(args@, lim as nat, names_of(state@), names_of(locals@), structs@, recv@) == Ok::<Seq<Seq<char>>, EmitErr>(names_of(ts@)) && ts@.len() == lim,
            Err(d) => args_text(args@, lim as nat, names_of(state@), names_of(locals@), structs@, recv@) == Err::<Seq<Seq<char>>, EmitErr>((d.code, d.span)),
        },
    decreases args,
{
    let ghost st = names_of(state@);
    let ghost lc = names_of(locals@);
    let mut out: Vec<String> = Vec::new();
    let mut k: usize = 0;
    proof {
        lemma_args_text_prefix(args@, lim as nat, st, lc, structs@, recv@, args@.len() as int);
        assert(args@.take(args@.len() as int) =~= args@);
        assert(args@.take(0) =~= Seq::<Expr>::empty());
        assert(names_of(out@) =~= Seq::<Seq<char>>::empty());
    }
    while k < lim
        invariant
            k <= lim,
            lim <= args@.len(),
            out@.len() == k,
            st == names_of(state@),
            lc == names_of(locals@),
            args_text(args@.take(k as int), lim as nat, st, lc, structs@, recv@) == Ok::<Seq<Seq<char>>, EmitErr>(names_of(out@)),
            args_text(args@, lim as nat, st, lc, structs@, recv@) == args_text(args@.take(lim as int), lim as nat, st, lc, structs@, recv@),
        decreases lim - k,
    {
        proof {
            assert(decreases_to!(*args => args[k as int]));
            assert(args@.take(k + 1).drop_last() =~= args@.take(k as int));
            assert(args@.take(k + 1).last() == args@[k as int]);
        }
        match emit_expr(&args[k], state, locals, structs, recv) {
            Ok(t) => {
                let ghost o0 = out@;
                out.push(t);
                proof {
                    assert(names_of(out@) =~= names_of(o0).push(out@.last()@));
                }
            },
            Err(d) => {
                proof {
                    lemma_args_text_err(args@, lim as nat, st, lc, structs@, recv@, k as int + 1);
                }
                return Err(d);
            },
        }
        k = k + 1;
    }
    Ok(out)
}

/// The texts of the first `lim` arguments depend on those arguments only.
proof fn lemma_args_text_prefix(es: Seq<Expr>, lim: nat, st: Seq<Seq<char>>, lc: Seq<Seq<char>>, structs: Seq<Struct>, recv: Seq<char>, k: int)
    requires
        lim <= k <= es.len(),
    ensures
        args_text(es.take(k), lim, st, lc, structs, recv) == args_text(es.take(lim as int), lim, st, lc, structs, recv),
    decreases k,
{
    if k > lim {
        assert(es.take(k).drop_last() =~= es.take(k - 1));
        lemma_args_text_prefix(es, lim, st, lc, structs, recv, k - 1);
    }
}

/// A refusal among the first `k` arguments is the refusal of the first `lim`.
proof fn lemma_args_text_err(es: Seq<Expr>, lim: nat, st: Seq<Seq<char>>, lc: Seq<Seq<char>>, structs: Seq<Struct>, recv: Seq<char>, k: int)
    requires
        0 <= k <= lim <= es.len(),
        args_text(es.take(k), lim, st, lc, structs, recv) is Err,
    ensures
        args_text(es.take(lim as int), lim, st, lc, structs, recv) == args_text(es.take(k), lim, st, lc, structs, recv),
    decreases lim - k,
{
    if k < lim {
        assert(es.take(k + 1).drop_last() =~= es.take(k));
        lemma_args_text_err(es, lim, st, lc, structs, recv, k + 1);
    }
}

/// The SIGIL text of an expression (see `expr_text`).
pub fn emit_expr(e: &Expr, state: &Vec<String>, locals: &Vec<String>, structs: &Vec<Struct>, recv: &str) -> (r: Result<String, FrontendDiag>)
    ensures
        match r {
            Ok(t) => expr_text(*e, names_of(state@), names_of(locals@), structs@, recv@) == Ok::<Seq<char>, EmitErr>(t@),
            Err(d) => expr_text(*e, names_of(state@), names_of(locals@), structs@, recv@) == Err::<Seq<char>, EmitErr>((d.code, d.span)),
        },
    decreases e,
{
    match e {
        Expr::Num(t, _) => Ok(clone_string(t)),
        Expr::Bool(b, _) => Ok(
            if *b {
                String::from_str("true")
            } else {
                String::from_str("false")
            },
        ),
        Expr::Var(name, _) => Ok(resolve_name(name.as_str(), state, locals, recv)),
        Expr::Unary(op, inner, span) => match op {
            UnOp::Not => {
                let ie = emit_expr(inner, state, locals, structs, recv)?;
                let mut s = String::from_str("!(");
                s.append(ie.as_str());
                s.append(")");
                Ok(s)
            },
            UnOp::Neg => Err(
                FrontendDiag::new(
                    codes::FE401_UNSUPPORTED_SOL,
                    "unary minus is unsupported (u256 is unsigned)",
                    copy_span(span),
                ),
            ),
        },
        Expr::Bin(op, l, r, _) => {
            let le = emit_expr(l, state, locals, structs, recv)?;
            let re = emit_expr(r, state, locals, structs, recv)?;
            let mut s = String::from_str("(");
            s.append(le.as_str());
            s.append(" ");
            s.append(bin_op(*op));
            s.append(" ");
            s.append(re.as_str());
            s.append(")");
            Ok(s)
        },
        Expr::Index(base, key, span) => match &**base {
            Expr::Var(name, _) => {
                let ke = emit_expr(key, state, locals, structs, recv)?;
                let mut s = resolve_name(name.as_str(), state, locals, recv);
                s.append(".get_or(");
                s.append(ke.as_str());
                s.append(", 0)");
                Ok(s)
            },
            Expr::Index(inner, k1, _) => match &**inner {
                Expr::Var(name, _) => {
                    let k1e = emit_expr(k1, state, locals, structs, recv)?;
                    let k2e = emit_expr(key, state, locals, structs, recv)?;
                    let mut s = resolve_name(name.as_str(), state, locals, recv);
                    s.append(".get_or(");
                    s.append(k1e.as_str());
                    s.append(", ");
                    s.append(k2e.as_str());
                    s.append(", 0)");
                    Ok(s)
                },
                _ => Err(
                    FrontendDiag::new(
                        codes::FE442_BAD_INDEX_SOL,
                        "mapping nesting deeper than 2 levels is unsupported",
                        copy_span(span),
                    ),
                ),
            },
            _ => Err(FrontendDiag::new(codes::FE442_BAD_INDEX_SOL, "unsupported mapping index shape", copy_span(span))),
        },
        Expr::Member(base, field, _) => {
            let mut s = emit_expr(base, state, locals, structs, recv)?;
            if string_eq_str(field, "length") {
                s.append(".len()");
            } else {
                s.append(".");
                s.append(field.as_str());
            }
            Ok(s)
        },
        Expr::Call(callee, args, span) => {
            match &**callee {
                Expr::Var(name, _) => {
                    if has_char_prefix(name.as_str(), "__fe_") {
                        let parts = emit_args(args, args.len(), state, locals, structs, recv)?;
                        let mut s = clone_string(name);
                        s.append("(");
                        s.append(join_texts(&parts, ", ").as_str());
                        s.append(")");
                        return Ok(s);
                    }
                    match find_struct(structs.as_slice(), name.as_str()) {
                        Some(i) => {
                            let fields = &structs[i].fields;
                            let z: usize = if args.len() <= fields.len() {
                                args.len()
                            } else {
                                fields.len()
                            };
                            let vals = emit_args(args, z, state, locals, structs, recv)?;
                            let mut parts: Vec<String> = Vec::new();
                            let mut k: usize = 0;
                            while k < vals.len()
                                invariant
                                    k <= vals@.len(),
                                    vals@.len() == z,
                                    z <= fields@.len(),
                                    names_of(parts@) =~= field_parts(fields@, names_of(vals@)).take(k as int),
                                decreases vals@.len() - k,
                            {
                                let mut p = clone_string(&fields[k].name);
                                p.append(": ");
                                p.append(vals[k].as_str());
                                let ghost p0 = parts@;
                                parts.push(p);
                                proof {
                                    assert(names_of(vals@)[k as int] == vals@[k as int]@);
                                    assert(parts@.last()@ == field_parts(fields@, names_of(vals@))[k as int]);
                                    assert(names_of(parts@) =~= names_of(p0).push(parts@.last()@));
                                    assert(field_parts(fields@, names_of(vals@)).take(k + 1) =~= field_parts(
                                        fields@,
                                        names_of(vals@),
                                    ).take(k as int).push(field_parts(fields@, names_of(vals@))[k as int]));
                                }
                                k = k + 1;
                            }
                            assert(field_parts(fields@, names_of(vals@)).take(k as int) =~= field_parts(fields@, names_of(vals@)));
                            let mut s = clone_string(name);
                            s.append(" { ");
                            s.append(join_texts(&parts, ", ").as_str());
                            s.append(" }");
                            Ok(s)
                        },
                        None => Err(
                            FrontendDiag::new(
                                codes::FE401_UNSUPPORTED_SOL,
                                "construct reached emit but is outside the SOL0 subset",
                                copy_span(span),
                            ),
                        ),
                    }
                },
                _ => Err(
                    FrontendDiag::new(
                        codes::FE401_UNSUPPORTED_SOL,
                        "construct reached emit but is outside the SOL0 subset",
                        copy_span(span),
                    ),
                ),
            }
        },
    }
}

// ── Statements ───────────────────────────────────────────────────────────────

/// `indent` levels of four spaces.
pub open spec fn pad(indent: nat) -> Seq<char>
    decreases indent,
{
    if indent == 0 {
        Seq::empty()
    } else {
        pad((indent - 1) as nat) + "    "@
    }
}

/// The stored value of `lhs op= ve`: `ve` itself for `=`, else `lhs op (ve)`.
pub open spec fn compound(op: AssignOp, lhs: Seq<char>, ve: Seq<char>) -> Seq<char> {
    match op {
        AssignOp::Eq => ve,
        AssignOp::Plus => lhs + " + ("@ + ve + ")"@,
        AssignOp::Minus => lhs + " - ("@ + ve + ")"@,
        AssignOp::Star => lhs + " * ("@ + ve + ")"@,
        AssignOp::Slash => lhs + " / ("@ + ve + ")"@,
        AssignOp::Percent => lhs + " % ("@ + ve + ")"@,
    }
}

/// How deep `if` statements nest in a statement (a reserved batch counts its transfer and
/// writes, rendered at its own level).
pub open spec fn stmt_nest(s: Stmt) -> nat
    decreases s,
{
    match s {
        Stmt::If { then_body, else_body, .. } => {
            proof {
                assert(decreases_to!(s => then_body));
                assert(decreases_to!(then_body => then_body@));
                assert(decreases_to!(s => else_body));
                assert(decreases_to!(else_body => else_body@));
            }
            let a = block_nest(then_body@);
            let b = block_nest(else_body@);
            1 + if a >= b {
                a
            } else {
                b
            }
        },
        Stmt::ReservedBatch { transfer, writes, .. } => {
            proof {
                assert(decreases_to!(s => writes));
                assert(decreases_to!(writes => writes@));
            }
            let a = match transfer {
                Some(t) => {
                    proof {
                        assert(decreases_to!(s => transfer));
                        assert(decreases_to!(transfer => t));
                    }
                    stmt_nest(*t)
                },
                None => 0,
            };
            let b = block_nest(writes@);
            if a >= b {
                a
            } else {
                b
            }
        },
        _ => 0,
    }
}

pub open spec fn block_nest(ss: Seq<Stmt>) -> nat
    decreases ss,
{
    if ss.len() == 0 {
        0
    } else {
        let a = block_nest(ss.drop_last());
        let b = stmt_nest(ss.last());
        if a >= b {
            a
        } else {
            b
        }
    }
}

/// What rendering leaves: the text and the locals in scope afterwards.
pub type Rendered = (Seq<char>, Seq<Seq<char>>);

/// The text of `pre` put before a rendering.
pub open spec fn prepend(pre: Seq<char>, r: Result<Rendered, EmitErr>) -> Result<Rendered, EmitErr> {
    match r {
        Ok((t, l)) => Ok((pre + t, l)),
        Err(x) => Err(x),
    }
}

/// The SIGIL text of a statement at `ind` levels, with the locals `lc` in scope; see the
/// module comment. A statement that other passes must have removed (an internal call, an
/// airdrop loop, an `unchecked` block, a placeholder, a reserved batch write that is not a
/// map insert) is an internal FE500 at its span.
pub open spec fn stmt_text(s: Stmt, st: Seq<Seq<char>>, lc: Seq<Seq<char>>, ind: nat, structs: Seq<Struct>, enums: Seq<Enum>, recv: Seq<char>) -> Result<Rendered, EmitErr>
    decreases s,
{
    let p = pad(ind);
    let ex = |e: Expr| expr_text(e, st, lc, structs, recv);
    let rs = |n: Seq<char>| resolve_spec(n, st, lc, recv);
    match s {
        Stmt::CallStmt { span, .. } => Err((codes::FE500_INTERNAL_MALFORMED_SOL, span)),
        Stmt::AirdropLoop { span, .. } => Err((codes::FE500_INTERNAL_MALFORMED_SOL, span)),
        Stmt::Unchecked { span, .. } => Err((codes::FE500_INTERNAL_MALFORMED_SOL, span)),
        Stmt::Placeholder { span } => Err((codes::FE500_INTERNAL_MALFORMED_SOL, span)),
        Stmt::BatchTransfer { map, from, recipients, amounts, .. } => match ex(from) {
            Ok(fe) => Ok(
                (
                    p + rs(map@) + ".batch_transfer("@ + fe + ", "@ + rs(recipients@) + ", "@ + rs(amounts@) + ");\n"@,
                    lc,
                ),
            ),
            Err(x) => Err(x),
        },
        Stmt::Require { cond, .. } => if cond matches Expr::Bool(false, _) {
            Ok((p + "trap();\n"@, lc))
        } else {
            match ex(cond) {
                Ok(ce) => Ok((p + "trap_if(!("@ + ce + "));\n"@, lc)),
                Err(x) => Err(x),
            }
        },
        Stmt::Assert { cond, .. } => if cond matches Expr::Bool(false, _) {
            Ok((p + "trap();\n"@, lc))
        } else {
            match ex(cond) {
                Ok(ce) => Ok((p + "trap_if(!("@ + ce + "));\n"@, lc)),
                Err(x) => Err(x),
            }
        },
        Stmt::Revert { .. } => Ok((p + "trap_if(true);\n"@, lc)),
        Stmt::Return { value, .. } => match value {
            Some(v) => match ex(v) {
                Ok(ve) => Ok((p + "return "@ + ve + ";\n"@, lc)),
                Err(x) => Err(x),
            },
            None => Ok((p + "return;\n"@, lc)),
        },
        Stmt::LocalVar { name, ty, value, .. } => match ex(value) {
            Ok(ve) => Ok((p + "let mut "@ + name@ + ": "@ + type_text(ty, enums) + " = "@ + ve + ";\n"@, lc.push(name@))),
            Err(x) => Err(x),
        },
        Stmt::Assign { target, op, value, .. } => match ex(value) {
            Ok(ve) => {
                let lhs = rs(target@);
                Ok((p + lhs + " = "@ + compound(op, lhs, ve) + ";\n"@, lc))
            },
            Err(x) => Err(x),
        },
        Stmt::FieldAssign { obj, field, op, value, .. } => match ex(value) {
            Ok(ve) => {
                let lhs = rs(obj@) + "."@ + field@;
                Ok((p + lhs + " = "@ + compound(op, lhs, ve) + ";\n"@, lc))
            },
            Err(x) => Err(x),
        },
        Stmt::IndexAssign { map, key, op, value, .. } => match ex(key) {
            Ok(ke) => match ex(value) {
                Ok(ve) => {
                    let m = rs(map@);
                    let stored = compound(op, m + ".get_or("@ + ke + ", 0)"@, ve);
                    Ok((p + m + ".insert("@ + ke + ", "@ + stored + ");\n"@, lc))
                },
                Err(x) => Err(x),
            },
            Err(x) => Err(x),
        },
        Stmt::IndexAssign2 { map, k1, k2, op, value, .. } => match ex(k1) {
            Ok(k1e) => match ex(k2) {
                Ok(k2e) => match ex(value) {
                    Ok(ve) => {
                        let m = rs(map@);
                        let stored = compound(op, m + ".get_or("@ + k1e + ", "@ + k2e + ", 0)"@, ve);
                        Ok((p + m + ".insert("@ + k1e + ", "@ + k2e + ", "@ + stored + ");\n"@, lc))
                    },
                    Err(x) => Err(x),
                },
                Err(x) => Err(x),
            },
            Err(x) => Err(x),
        },
        Stmt::MapTransfer { map, from, to, amount, .. } => match ex(from) {
            Ok(fe) => match ex(to) {
                Ok(te) => match ex(amount) {
                    Ok(ae) => Ok((p + rs(map@) + ".transfer("@ + fe + ", "@ + te + ", "@ + ae + ");\n"@, lc)),
                    Err(x) => Err(x),
                },
                Err(x) => Err(x),
            },
            Err(x) => Err(x),
        },
        Stmt::MapSplitTransfer { map, from, amount, to, net, fee_to, fee, .. } => match ex(from) {
            Ok(fe) => match ex(amount) {
                Ok(ae) => match ex(to) {
                    Ok(te) => match ex(net) {
                        Ok(ne) => match ex(fee_to) {
                            Ok(xe) => match ex(fee) {
                                Ok(ye) => Ok(
                                    (
                                        p + rs(map@) + ".transfer_split("@ + fe + ", "@ + ae + ", "@ + te + ", "@ + ne
                                            + ", "@ + xe + ", "@ + ye + ");\n"@,
                                        lc,
                                    ),
                                ),
                                Err(x) => Err(x),
                            },
                            Err(x) => Err(x),
                        },
                        Err(x) => Err(x),
                    },
                    Err(x) => Err(x),
                },
                Err(x) => Err(x),
            },
            Err(x) => Err(x),
        },
        Stmt::Erc20Update { map, ts_field, from, to, value, .. } => match ex(from) {
            Ok(fe) => match ex(to) {
                Ok(te) => match ex(value) {
                    Ok(ve) => {
                        let ts = rs(ts_field@);
                        Ok(
                            (
                                p + "let __fe_ts: u256 = "@ + rs(map@) + ".erc20_update("@ + ts + ", "@ + fe + ", "@ + te
                                    + ", "@ + ve + ");\n"@ + p + ts + " = __fe_ts;\n"@,
                                lc,
                            ),
                        )
                    },
                    Err(x) => Err(x),
                },
                Err(x) => Err(x),
            },
            Err(x) => Err(x),
        },
        Stmt::Erc20TransferFrom { bal_map, alw_map, from, spender, to, amount, oz5_infinite, .. } => match ex(from) {
            Ok(fe) => match ex(spender) {
                Ok(se) => match ex(to) {
                    Ok(te) => match ex(amount) {
                        Ok(ae) => {
                            let method = if oz5_infinite {
                                "erc20_transfer_from"@
                            } else {
                                "transfer_from"@
                            };
                            Ok(
                                (
                                    p + rs(alw_map@) + "."@ + method + "("@ + rs(bal_map@) + ", "@ + fe + ", "@ + se + ", "@
                                        + te + ", "@ + ae + ");\n"@,
                                    lc,
                                ),
                            )
                        },
                        Err(x) => Err(x),
                    },
                    Err(x) => Err(x),
                },
                Err(x) => Err(x),
            },
            Err(x) => Err(x),
        },
        Stmt::If { cond, then_body, else_body, .. } => {
            proof {
                assert(decreases_to!(s => then_body));
                assert(decreases_to!(then_body => then_body@));
                assert(decreases_to!(s => else_body));
                assert(decreases_to!(else_body => else_body@));
            }
            match ex(cond) {
                Ok(ce) => match stmts_text(then_body@, st, lc, ind + 1, structs, enums, recv) {
                    Ok((tt, _)) => if else_body@.len() == 0 {
                        Ok((p + "if "@ + ce + " {\n"@ + tt + p + "}\n"@, lc))
                    } else {
                        match stmts_text(else_body@, st, lc, ind + 1, structs, enums, recv) {
                            Ok((et, _)) => Ok((p + "if "@ + ce + " {\n"@ + tt + p + "} else {\n"@ + et + p + "}\n"@, lc)),
                            Err(x) => Err(x),
                        }
                    },
                    Err(x) => Err(x),
                },
                Err(x) => Err(x),
            }
        },
        Stmt::ReservedBatch { transfer, writes, span } => {
            proof {
                assert(decreases_to!(s => writes));
                assert(decreases_to!(writes => writes@));
            }
            match reserves_text(writes@, st, lc, ind, structs, recv, span) {
                Ok(rt) => {
                    let mid = match transfer {
                        Some(t) => {
                            proof {
                                assert(decreases_to!(s => transfer));
                                assert(decreases_to!(transfer => t));
                            }
                            stmt_text(*t, st, lc, ind, structs, enums, recv)
                        },
                        None => Ok((Seq::<char>::empty(), lc)),
                    };
                    match mid {
                        Ok((tt, l2)) => prepend(rt + tt, stmts_text(writes@, st, l2, ind, structs, enums, recv)),
                        Err(x) => Err(x),
                    }
                },
                Err(x) => Err(x),
            }
        },
    }
}

/// The text of a statement list: each statement in turn, a local bound by one in scope for
/// those after it; the first refusal wins.
pub open spec fn stmts_text(ss: Seq<Stmt>, st: Seq<Seq<char>>, lc: Seq<Seq<char>>, ind: nat, structs: Seq<Struct>, enums: Seq<Enum>, recv: Seq<char>) -> Result<Rendered, EmitErr>
    decreases ss,
{
    if ss.len() == 0 {
        Ok((Seq::empty(), lc))
    } else {
        match stmt_text(ss[0], st, lc, ind, structs, enums, recv) {
            Ok((t, l2)) => prepend(t, stmts_text(ss.drop_first(), st, l2, ind, structs, enums, recv)),
            Err(x) => Err(x),
        }
    }
}

/// The reservations of a reserved batch's writes: `m.reserve1(k);` or `m.reserve2(k1, k2);`
/// per write, in order; a write of another kind is an internal FE500 at the batch's span.
pub open spec fn reserves_text(ws: Seq<Stmt>, st: Seq<Seq<char>>, lc: Seq<Seq<char>>, ind: nat, structs: Seq<Struct>, recv: Seq<char>, span: Range<usize>) -> Result<Seq<char>, EmitErr>
    decreases ws.len(),
{
    if ws.len() == 0 {
        Ok(Seq::empty())
    } else {
        let p = pad(ind);
        let first = match ws[0] {
            Stmt::IndexAssign { map, key, .. } => match expr_text(key, st, lc, structs, recv) {
                Ok(ke) => Ok(p + resolve_spec(map@, st, lc, recv) + ".reserve1("@ + ke + ");\n"@),
                Err(x) => Err(x),
            },
            Stmt::IndexAssign2 { map, k1, k2, .. } => match expr_text(k1, st, lc, structs, recv) {
                Ok(k1e) => match expr_text(k2, st, lc, structs, recv) {
                    Ok(k2e) => Ok(p + resolve_spec(map@, st, lc, recv) + ".reserve2("@ + k1e + ", "@ + k2e + ");\n"@),
                    Err(x) => Err(x),
                },
                Err(x) => Err(x),
            },
            _ => Err((codes::FE500_INTERNAL_MALFORMED_SOL, span)),
        };
        match first {
            Ok(t) => match reserves_text(ws.drop_first(), st, lc, ind, structs, recv, span) {
                Ok(t2) => Ok(t + t2),
                Err(x) => Err(x),
            },
            Err(x) => Err(x),
        }
    }
}

// ── Rendering statements ─────────────────────────────────────────────────────

proof fn lemma_prepend_assoc(a: Seq<char>, b: Seq<char>, r: Result<Rendered, EmitErr>)
    ensures
        prepend(a, prepend(b, r)) == prepend(a + b, r),
{
    match r {
        Ok((t, l)) => {
            assert(a + (b + t) =~= (a + b) + t);
        },
        Err(_) => {},
    }
}

proof fn lemma_block_nest_bound(ss: Seq<Stmt>, k: int)
    requires
        0 <= k < ss.len(),
    ensures
        stmt_nest(ss[k]) <= block_nest(ss),
    decreases ss.len(),
{
    if k < ss.len() - 1 {
        lemma_block_nest_bound(ss.drop_last(), k);
    }
}

/// `indent` levels of four spaces (see `pad`).
fn pad_of(indent: usize) -> (r: String)
    ensures
        r@ == pad(indent as nat),
{
    let mut s = String::new();
    let mut i: usize = 0;
    while i < indent
        invariant
            i <= indent,
            s@ == pad(i as nat),
        decreases indent - i,
    {
        s.append("    ");
        i = i + 1;
    }
    s
}

fn copy_names(v: &Vec<String>) -> (r: Vec<String>)
    ensures
        names_of(r@) == names_of(v@),
{
    let mut out: Vec<String> = Vec::new();
    let mut k: usize = 0;
    while k < v.len()
        invariant
            k <= v@.len(),
            names_of(out@) =~= names_of(v@).take(k as int),
        decreases v@.len() - k,
    {
        let ghost o0 = out@;
        out.push(clone_string(&v[k]));
        proof {
            assert(names_of(out@) =~= names_of(o0).push(v@[k as int]@));
            assert(names_of(v@).take(k + 1) =~= names_of(v@).take(k as int).push(names_of(v@)[k as int]));
        }
        k = k + 1;
    }
    assert(names_of(v@).take(k as int) =~= names_of(v@));
    out
}

fn internal(msg: &str, span: &Range<usize>) -> (d: FrontendDiag)
    ensures
        d.code == codes::FE500_INTERNAL_MALFORMED_SOL,
        d.span == *span,
{
    FrontendDiag::new(codes::FE500_INTERNAL_MALFORMED_SOL, msg, copy_span(span))
}

/// The reservations of a reserved batch's writes (see `reserves_text`).
fn emit_reserves(ws: &Vec<Stmt>, state: &Vec<String>, locals: &Vec<String>, indent: usize, structs: &Vec<Struct>, recv: &str, span: &Range<usize>) -> (r: Result<String, FrontendDiag>)
    ensures
        match reserves_text(ws@, names_of(state@), names_of(locals@), indent as nat, structs@, recv@, *span) {
            Ok(t) => r is Ok && r->Ok_0@ == t,
            Err(x) => r is Err && r->Err_0.code == x.0 && r->Err_0.span == x.1,
        },
{
    let ghost st = names_of(state@);
    let ghost lc = names_of(locals@);
    let ghost full = reserves_text(ws@, st, lc, indent as nat, structs@, recv@, *span);
    let mut buf = String::new();
    let mut k: usize = 0;
    assert(ws@.skip(0) =~= ws@);
    while k < ws.len()
        invariant
            k <= ws@.len(),
            st == names_of(state@),
            lc == names_of(locals@),
            full == reserves_text(ws@, st, lc, indent as nat, structs@, recv@, *span),
            match reserves_text(ws@.skip(k as int), st, lc, indent as nat, structs@, recv@, *span) {
                Ok(t) => full == Ok::<Seq<char>, EmitErr>(buf@ + t),
                Err(x) => full == Err::<Seq<char>, EmitErr>(x),
            },
        decreases ws@.len() - k,
    {
        let ghost rest = ws@.skip(k as int);
        assert(rest[0] == ws@[k as int]);
        assert(rest.drop_first() =~= ws@.skip(k + 1));
        let ghost b0 = buf@;
        let p = pad_of(indent);
        match &ws[k] {
            Stmt::IndexAssign { map, key, .. } => {
                let ke = match emit_expr(key, state, locals, structs, recv) {
                    Ok(t) => t,
                    Err(d) => {
                        return Err(d);
                    },
                };
                let mut line = p;
                line.append(resolve_name(map.as_str(), state, locals, recv).as_str());
                line.append(".reserve1(");
                line.append(ke.as_str());
                line.append(");\n");
                buf.append(line.as_str());
                proof {
                    match reserves_text(ws@.skip(k + 1), st, lc, indent as nat, structs@, recv@, *span) {
                        Ok(t2) => {
                            assert(b0 + (line@ + t2) =~= buf@ + t2);
                        },
                        Err(_) => {},
                    }
                }
            },
            Stmt::IndexAssign2 { map, k1, k2, .. } => {
                let k1e = match emit_expr(k1, state, locals, structs, recv) {
                    Ok(t) => t,
                    Err(d) => {
                        return Err(d);
                    },
                };
                let k2e = match emit_expr(k2, state, locals, structs, recv) {
                    Ok(t) => t,
                    Err(d) => {
                        return Err(d);
                    },
                };
                let mut line = p;
                line.append(resolve_name(map.as_str(), state, locals, recv).as_str());
                line.append(".reserve2(");
                line.append(k1e.as_str());
                line.append(", ");
                line.append(k2e.as_str());
                line.append(");\n");
                buf.append(line.as_str());
                proof {
                    match reserves_text(ws@.skip(k + 1), st, lc, indent as nat, structs@, recv@, *span) {
                        Ok(t2) => {
                            assert(b0 + (line@ + t2) =~= buf@ + t2);
                        },
                        Err(_) => {},
                    }
                }
            },
            _ => {
                return Err(internal("internal: a ReservedBatch deferred write is not a map insert", span));
            },
        }
        k = k + 1;
    }
    proof {
        assert(ws@.skip(k as int) =~= Seq::<Stmt>::empty());
        assert(buf@ + Seq::<char>::empty() =~= buf@);
    }
    Ok(buf)
}

/// Renders one statement, appending its text to `out` and binding its local (see
/// `stmt_text`).
#[verifier::rlimit(100)]
#[verifier::spinoff_prover]
pub fn emit_stmt(out: &mut String, s: &Stmt, state: &Vec<String>, locals: &mut Vec<String>, indent: usize, structs: &Vec<Struct>, enums: &Vec<Enum>, recv: &str) -> (r: Result<(), FrontendDiag>)
    requires
        indent + stmt_nest(*s) <= usize::MAX,
    ensures
        match stmt_text(*s, names_of(state@), names_of(old(locals)@), indent as nat, structs@, enums@, recv@) {
            Ok((t, l2)) => r is Ok && final(out)@ == old(out)@ + t && names_of(final(locals)@) == l2,
            Err(x) => r is Err && r->Err_0.code == x.0 && r->Err_0.span == x.1,
        },
    decreases s,
{
    let p = pad_of(indent);
    let mut line = p;
    match s {
        Stmt::CallStmt { span, .. } => {
            return Err(internal("internal: an internal call statement reached emit (must be inlined by desugar)", span));
        },
        Stmt::AirdropLoop { span, .. } => {
            return Err(internal("internal: an airdrop loop reached emit (must be folded by recognize_airdrop)", span));
        },
        Stmt::Unchecked { span, .. } => {
            return Err(internal("internal: an `unchecked` block reached emit (should be spliced by unwrap_unchecked)", span));
        },
        Stmt::Placeholder { span } => {
            return Err(internal("internal: a modifier `_` placeholder reached emit", span));
        },
        Stmt::BatchTransfer { map, from, recipients, amounts, .. } => {
            let fe = emit_expr(from, state, locals, structs, recv)?;
            line.append(resolve_name(map.as_str(), state, locals, recv).as_str());
            line.append(".batch_transfer(");
            line.append(fe.as_str());
            line.append(", ");
            line.append(resolve_name(recipients.as_str(), state, locals, recv).as_str());
            line.append(", ");
            line.append(resolve_name(amounts.as_str(), state, locals, recv).as_str());
            line.append(");\n");
        },
        Stmt::Require { cond, .. } | Stmt::Assert { cond, .. } => {
            if matches!(cond, Expr::Bool(false, _)) {
                line.append("trap();\n");
            } else {
                let ce = emit_expr(cond, state, locals, structs, recv)?;
                line.append("trap_if(!(");
                line.append(ce.as_str());
                line.append("));\n");
            }
        },
        Stmt::Revert { .. } => {
            line.append("trap_if(true);\n");
        },
        Stmt::Return { value, .. } => match value {
            Some(v) => {
                let ve = emit_expr(v, state, locals, structs, recv)?;
                line.append("return ");
                line.append(ve.as_str());
                line.append(";\n");
            },
            None => {
                line.append("return;\n");
            },
        },
        Stmt::LocalVar { name, ty, value, .. } => {
            let ve = emit_expr(value, state, locals, structs, recv)?;
            line.append("let mut ");
            line.append(name.as_str());
            line.append(": ");
            line.append(map_type(ty, enums).as_str());
            line.append(" = ");
            line.append(ve.as_str());
            line.append(";\n");
            let ghost l0 = locals@;
            locals.push(clone_string(name));
            proof {
                assert(names_of(locals@) =~= names_of(l0).push(name@));
            }
        },
        Stmt::Assign { target, op, value, .. } => {
            let lhs = resolve_name(target.as_str(), state, locals, recv);
            let ve = emit_expr(value, state, locals, structs, recv)?;
            line.append(lhs.as_str());
            line.append(" = ");
            line.append(compound_text(*op, &lhs, &ve).as_str());
            line.append(";\n");
        },
        Stmt::FieldAssign { obj, field, op, value, .. } => {
            let ve = emit_expr(value, state, locals, structs, recv)?;
            let mut lhs = resolve_name(obj.as_str(), state, locals, recv);
            lhs.append(".");
            lhs.append(field.as_str());
            line.append(lhs.as_str());
            line.append(" = ");
            line.append(compound_text(*op, &lhs, &ve).as_str());
            line.append(";\n");
        },
        Stmt::IndexAssign { map, key, op, value, .. } => {
            let ke = emit_expr(key, state, locals, structs, recv)?;
            let ve = emit_expr(value, state, locals, structs, recv)?;
            let m = resolve_name(map.as_str(), state, locals, recv);
            let mut get = clone_string(&m);
            get.append(".get_or(");
            get.append(ke.as_str());
            get.append(", 0)");
            line.append(m.as_str());
            line.append(".insert(");
            line.append(ke.as_str());
            line.append(", ");
            line.append(compound_text(*op, &get, &ve).as_str());
            line.append(");\n");
        },
        Stmt::IndexAssign2 { map, k1, k2, op, value, .. } => {
            let k1e = emit_expr(k1, state, locals, structs, recv)?;
            let k2e = emit_expr(k2, state, locals, structs, recv)?;
            let ve = emit_expr(value, state, locals, structs, recv)?;
            let m = resolve_name(map.as_str(), state, locals, recv);
            let mut get = clone_string(&m);
            get.append(".get_or(");
            get.append(k1e.as_str());
            get.append(", ");
            get.append(k2e.as_str());
            get.append(", 0)");
            line.append(m.as_str());
            line.append(".insert(");
            line.append(k1e.as_str());
            line.append(", ");
            line.append(k2e.as_str());
            line.append(", ");
            line.append(compound_text(*op, &get, &ve).as_str());
            line.append(");\n");
        },
        Stmt::MapTransfer { map, from, to, amount, .. } => {
            let fe = emit_expr(from, state, locals, structs, recv)?;
            let te = emit_expr(to, state, locals, structs, recv)?;
            let ae = emit_expr(amount, state, locals, structs, recv)?;
            line.append(resolve_name(map.as_str(), state, locals, recv).as_str());
            line.append(".transfer(");
            line.append(fe.as_str());
            line.append(", ");
            line.append(te.as_str());
            line.append(", ");
            line.append(ae.as_str());
            line.append(");\n");
        },
        Stmt::MapSplitTransfer { map, from, amount, to, net, fee_to, fee, .. } => {
            let fe = emit_expr(from, state, locals, structs, recv)?;
            let ae = emit_expr(amount, state, locals, structs, recv)?;
            let te = emit_expr(to, state, locals, structs, recv)?;
            let ne = emit_expr(net, state, locals, structs, recv)?;
            let xe = emit_expr(fee_to, state, locals, structs, recv)?;
            let ye = emit_expr(fee, state, locals, structs, recv)?;
            line.append(resolve_name(map.as_str(), state, locals, recv).as_str());
            line.append(".transfer_split(");
            line.append(fe.as_str());
            line.append(", ");
            line.append(ae.as_str());
            line.append(", ");
            line.append(te.as_str());
            line.append(", ");
            line.append(ne.as_str());
            line.append(", ");
            line.append(xe.as_str());
            line.append(", ");
            line.append(ye.as_str());
            line.append(");\n");
        },
        Stmt::Erc20Update { map, ts_field, from, to, value, .. } => {
            let fe = emit_expr(from, state, locals, structs, recv)?;
            let te = emit_expr(to, state, locals, structs, recv)?;
            let ve = emit_expr(value, state, locals, structs, recv)?;
            let ts = resolve_name(ts_field.as_str(), state, locals, recv);
            line.append("let __fe_ts: u256 = ");
            line.append(resolve_name(map.as_str(), state, locals, recv).as_str());
            line.append(".erc20_update(");
            line.append(ts.as_str());
            line.append(", ");
            line.append(fe.as_str());
            line.append(", ");
            line.append(te.as_str());
            line.append(", ");
            line.append(ve.as_str());
            line.append(");\n");
            line.append(pad_of(indent).as_str());
            line.append(ts.as_str());
            line.append(" = __fe_ts;\n");
        },
        Stmt::Erc20TransferFrom { bal_map, alw_map, from, spender, to, amount, oz5_infinite, .. } => {
            let alw = resolve_name(alw_map.as_str(), state, locals, recv);
            let bal = resolve_name(bal_map.as_str(), state, locals, recv);
            let fe = emit_expr(from, state, locals, structs, recv)?;
            let se = emit_expr(spender, state, locals, structs, recv)?;
            let te = emit_expr(to, state, locals, structs, recv)?;
            let ae = emit_expr(amount, state, locals, structs, recv)?;
            let method = if *oz5_infinite {
                "erc20_transfer_from"
            } else {
                "transfer_from"
            };
            line.append(alw.as_str());
            line.append(".");
            line.append(method);
            line.append("(");
            line.append(bal.as_str());
            line.append(", ");
            line.append(fe.as_str());
            line.append(", ");
            line.append(se.as_str());
            line.append(", ");
            line.append(te.as_str());
            line.append(", ");
            line.append(ae.as_str());
            line.append(");\n");
        },
        Stmt::If { cond, then_body, else_body, .. } => {
            let ce = emit_expr(cond, state, locals, structs, recv)?;
            line.append("if ");
            line.append(ce.as_str());
            line.append(" {\n");
            let mut tb = String::new();
            let mut then_locals = copy_names(locals);
            emit_stmts(&mut tb, then_body, state, &mut then_locals, indent + 1, structs, enums, recv)?;
            line.append(tb.as_str());
            if else_body.len() == 0 {
                line.append(pad_of(indent).as_str());
                line.append("}\n");
            } else {
                line.append(pad_of(indent).as_str());
                line.append("} else {\n");
                let mut eb = String::new();
                let mut else_locals = copy_names(locals);
                emit_stmts(&mut eb, else_body, state, &mut else_locals, indent + 1, structs, enums, recv)?;
                line.append(eb.as_str());
                line.append(pad_of(indent).as_str());
                line.append("}\n");
            }
        },
        Stmt::ReservedBatch { transfer, writes, span } => {
            let rt = emit_reserves(writes, state, locals, indent, structs, recv, span)?;
            let mut buf = rt;
            match transfer {
                Some(t) => {
                    let mut tb = String::new();
                    emit_stmt(&mut tb, t, state, locals, indent, structs, enums, recv)?;
                    buf.append(tb.as_str());
                },
                None => {
                    proof {
                        assert(buf@ + Seq::<char>::empty() =~= buf@);
                    }
                },
            }
            let mut wb = String::new();
            emit_stmts(&mut wb, writes, state, locals, indent, structs, enums, recv)?;
            buf.append(wb.as_str());
            out.append(buf.as_str());
            return Ok(());
        },
    }
    out.append(line.as_str());
    Ok(())
}

/// `lhs op= ve`'s stored value (see `compound`).
fn compound_text(op: AssignOp, lhs: &String, ve: &String) -> (r: String)
    ensures
        r@ == compound(op, lhs@, ve@),
{
    let sym = match op {
        AssignOp::Eq => {
            return clone_string(ve);
        },
        AssignOp::Plus => " + (",
        AssignOp::Minus => " - (",
        AssignOp::Star => " * (",
        AssignOp::Slash => " / (",
        AssignOp::Percent => " % (",
    };
    let mut s = clone_string(lhs);
    s.append(sym);
    s.append(ve.as_str());
    s.append(")");
    s
}

/// Renders a statement list at `indent` levels, appending its text to `out` and binding its
/// locals (see `stmts_text`).
pub fn emit_stmts(out: &mut String, stmts: &Vec<Stmt>, state: &Vec<String>, locals: &mut Vec<String>, indent: usize, structs: &Vec<Struct>, enums: &Vec<Enum>, recv: &str) -> (r: Result<(), FrontendDiag>)
    requires
        indent + block_nest(stmts@) <= usize::MAX,
    ensures
        match stmts_text(stmts@, names_of(state@), names_of(old(locals)@), indent as nat, structs@, enums@, recv@) {
            Ok((t, l2)) => r is Ok && final(out)@ == old(out)@ + t && names_of(final(locals)@) == l2,
            Err(x) => r is Err && r->Err_0.code == x.0 && r->Err_0.span == x.1,
        },
    decreases stmts,
{
    let ghost st = names_of(state@);
    let ghost full = stmts_text(stmts@, st, names_of(locals@), indent as nat, structs@, enums@, recv@);
    let mut buf = String::new();
    let mut k: usize = 0;
    proof {
        assert(stmts@.skip(0) =~= stmts@);
        match full {
            Ok((t, l)) => {
                assert(Seq::<char>::empty() + t =~= t);
            },
            Err(_) => {},
        }
    }
    while k < stmts.len()
        invariant
            k <= stmts@.len(),
            st == names_of(state@),
            indent + block_nest(stmts@) <= usize::MAX,
            full == stmts_text(stmts@, st, names_of(old(locals)@), indent as nat, structs@, enums@, recv@),
            full == prepend(buf@, stmts_text(stmts@.skip(k as int), st, names_of(locals@), indent as nat, structs@, enums@, recv@)),
        decreases stmts@.len() - k,
    {
        let ghost rest = stmts@.skip(k as int);
        let ghost b0 = buf@;
        let ghost l0 = names_of(locals@);
        proof {
            assert(rest[0] == stmts@[k as int]);
            assert(rest.drop_first() =~= stmts@.skip(k + 1));
            assert(decreases_to!(*stmts => stmts[k as int]));
            lemma_block_nest_bound(stmts@, k as int);
        }
        let mut sb = String::new();
        match emit_stmt(&mut sb, &stmts[k], state, locals, indent, structs, enums, recv) {
            Ok(()) => {},
            Err(d) => {
                proof {
                    assert(stmt_text(rest[0], st, l0, indent as nat, structs@, enums@, recv@) is Err);
                    assert(stmts_text(rest, st, l0, indent as nat, structs@, enums@, recv@) == stmt_text(rest[0], st, l0, indent as nat, structs@, enums@, recv@));
                }
                return Err(d);
            },
        }
        buf.append(sb.as_str());
        proof {
            let t = sb@;
            assert(Seq::<char>::empty() + t =~= t);
            lemma_prepend_assoc(b0, t, stmts_text(stmts@.skip(k + 1), st, names_of(locals@), indent as nat, structs@, enums@, recv@));
        }
        k = k + 1;
    }
    proof {
        assert(stmts@.skip(k as int) =~= Seq::<Stmt>::empty());
        assert(buf@ + Seq::<char>::empty() =~= buf@);
    }
    out.append(buf.as_str());
    Ok(())
}

// ── Functions ────────────────────────────────────────────────────────────────

/// `, name: T` for each parameter, in order.
pub open spec fn params_text(ps: Seq<Param>, enums: Seq<Enum>) -> Seq<char>
    decreases ps.len(),
{
    if ps.len() == 0 {
        Seq::empty()
    } else {
        params_text(ps.drop_last(), enums) + ", "@ + ps.last().name@ + ": "@ + type_text(ps.last().ty, enums)
    }
}

/// The method guarded by the owner capability takes it right after `self`.
pub open spec fn cap_guarded(cap: Option<CapGuardInfo>, f: Function) -> bool {
    match cap {
        Some(info) => names_of(info.guarded_methods@).contains(f.name@),
        None => false,
    }
}

/// The SIGIL text of a method: `pub` unless private or internal, `self: C` (`@Mut` unless
/// view or pure), the owner capability when the method is guarded, the parameters, the
/// return type, then the body at two levels with the parameters in scope and state
/// fields read through `self`. A function that still applies a modifier is an internal
/// FE500 at its span: a guard was not inlined.
pub open spec fn function_text(c: Contract, f: Function, state: Seq<Seq<char>>, cap: Option<CapGuardInfo>) -> Result<Seq<char>, EmitErr> {
    if f.modifiers@.len() > 0 {
        Err((codes::FE500_INTERNAL_MALFORMED_SOL, f.span))
    } else {
        let pub_kw = match f.visibility {
            Visibility::Private => ""@,
            Visibility::Internal => ""@,
            _ => "pub "@,
        };
        let self_mut = match f.mutability {
            StateMutability::NonPayable => " @Mut"@,
            _ => ""@,
        };
        let owner = if cap_guarded(cap, f) {
            ", __fe_owner: &"@ + c.name@ + "_Owner"@
        } else {
            ""@
        };
        let ret = match f.ret {
            Some(t) => " -> "@ + type_text(t, c.enums@),
            None => ""@,
        };
        let head = "    "@ + pub_kw + "fn "@ + f.name@ + "(self: "@ + c.name@ + self_mut + owner + params_text(
            f.params@,
            c.enums@,
        ) + ")"@ + ret + " {\n"@;
        let lc = names_of(f.params@.map_values(|p: Param| p.name));
        match stmts_text(f.body@, state, lc, 2, c.structs@, c.enums@, "self"@) {
            Ok((t, _)) => Ok(head + t + "    }\n"@),
            Err(x) => Err(x),
        }
    }
}

/// Renders a method, appending its text to `out` (see `function_text`).
pub fn emit_function(out: &mut String, c: &Contract, f: &Function, state: &Vec<String>, cap: Option<&CapGuardInfo>) -> (r: Result<(), FrontendDiag>)
    requires
        2 + block_nest(f.body@) <= usize::MAX,
    ensures
        match function_text(*c, *f, names_of(state@), match cap { Some(i) => Some(*i), None => None }) {
            Ok(t) => r is Ok && final(out)@ == old(out)@ + t,
            Err(x) => r is Err && r->Err_0.code == x.0 && r->Err_0.span == x.1,
        },
{
    if f.modifiers.len() > 0 {
        return Err(
            FrontendDiag::new(
                codes::FE500_INTERNAL_MALFORMED_SOL,
                "internal: a function reached emit with un-inlined modifiers",
                copy_span(&f.span),
            ),
        );
    }
    let pub_kw = match f.visibility {
        Visibility::Private | Visibility::Internal => "",
        _ => "pub ",
    };
    let self_mut = match f.mutability {
        StateMutability::NonPayable => " @Mut",
        _ => "",
    };
    let mut head = String::from_str("    ");
    head.append(pub_kw);
    head.append("fn ");
    head.append(f.name.as_str());
    head.append("(self: ");
    head.append(c.name.as_str());
    head.append(self_mut);
    let guarded = match cap {
        Some(info) => listed(&info.guarded_methods, f.name.as_str()),
        None => false,
    };
    if guarded {
        head.append(", __fe_owner: &");
        head.append(c.name.as_str());
        head.append("_Owner");
    } else {
        proof {
            assert(head@ + ""@ =~= head@) by {
                reveal_strlit("");
            }
        }
    }
    let mut locals: Vec<String> = Vec::new();
    let mut ptext = String::new();
    let mut k: usize = 0;
    assert(f.params@.take(0) =~= Seq::<Param>::empty());
    while k < f.params.len()
        invariant
            k <= f.params@.len(),
            ptext@ == params_text(f.params@.take(k as int), c.enums@),
            names_of(locals@) =~= names_of(f.params@.map_values(|p: Param| p.name)).take(k as int),
        decreases f.params@.len() - k,
    {
        let p = &f.params[k];
        ptext.append(", ");
        ptext.append(p.name.as_str());
        ptext.append(": ");
        ptext.append(map_type(&p.ty, &c.enums).as_str());
        let ghost l0 = locals@;
        locals.push(clone_string(&p.name));
        proof {
            assert(f.params@.take(k + 1).drop_last() =~= f.params@.take(k as int));
            assert(f.params@.take(k + 1).last() == f.params@[k as int]);
            assert(names_of(locals@) =~= names_of(l0).push(p.name@));
            let all = names_of(f.params@.map_values(|p: Param| p.name));
            assert(all[k as int] == p.name@);
            assert(all.take(k + 1) =~= all.take(k as int).push(all[k as int]));
        }
        k = k + 1;
    }
    assert(f.params@.take(k as int) =~= f.params@);
    assert(names_of(f.params@.map_values(|p: Param| p.name)).take(k as int) =~= names_of(f.params@.map_values(|p: Param| p.name)));
    head.append(ptext.as_str());
    head.append(")");
    match &f.ret {
        Some(rt) => {
            head.append(" -> ");
            head.append(map_type(rt, &c.enums).as_str());
        },
        None => {
            proof {
                assert(head@ + ""@ =~= head@) by {
                    reveal_strlit("");
                }
            }
        },
    }
    head.append(" {\n");
    let mut body = String::new();
    emit_stmts(&mut body, &f.body, state, &mut locals, 2, &c.structs, &c.enums, "self")?;
    head.append(body.as_str());
    head.append("    }\n");
    out.append(head.as_str());
    Ok(())
}

} // verus!
