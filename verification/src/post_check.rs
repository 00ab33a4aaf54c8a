//! Post-check normalizations: bool-valued mappings are stored as `0`/`1` (a write of a
//! literal becomes the number, a read `m[k]` becomes `(m[k] == 1)`), and an enum member
//! `E.M` not shadowed by a binding becomes its index literal.

use crate::codes;
use crate::diag::{copy_span, FrontendDiag};
use crate::emit::{listed, names_of};
use crate::inlining::same_header;
use crate::check::{
    arith_result_ty, arith_spec, clone_env, env_lookup, env_ok, env_view, first_enum, infer, infer_spec, lookup_env, pow2_decimal,
    resolve_spec, resolve_ty, struct_field_spec, struct_field_ty, ty_wf, SolTy, TyPos, TyV,
};
use crate::decimal::{dec_bytes, pow_nat};
use crate::parser::{AssignOp, BinOp, Contract, Enum, Expr, Function, Param, Program, StateVar, Stmt, Struct, TypeRef};
use crate::text::{ascii_chars, clone_string, dec_chars, string_eq_str, usize_decimal};
use std::ops::Range;
use vstd::prelude::*;

verus! {

// ── Bool-valued map reads ────────────────────────────────────────────────────

/// After its children are rewritten, an index node is a complete bool-map read when its
/// base is a one-key bool map, or an index of a two-key bool map.
pub open spec fn wraps_bool_read(base: Expr, b1: Seq<Seq<char>>, b2: Seq<Seq<char>>) -> bool {
    match base {
        Expr::Var(m, _) => b1.contains(m@),
        Expr::Index(inner, _, _) => match *inner {
            Expr::Var(m, _) => b2.contains(m@),
            _ => false,
        },
        _ => false,
    }
}

/// `o` is `i` with its bool-map reads rewritten bottom-up: children first, then a complete
/// read `r` becomes `(r == 1)` at the read's span.
pub open spec fn bool_read_rewritten(o: Expr, i: Expr, b1: Seq<Seq<char>>, b2: Seq<Seq<char>>) -> bool
    decreases i,
{
    match i {
        Expr::Index(b, k, sp) => {
            let node_ok = |x: Expr|
                match x {
                    Expr::Index(b2x, k2x, s2) => bool_read_rewritten(*b2x, *b, b1, b2) && bool_read_rewritten(*k2x, *k, b1, b2)
                        && s2 == sp,
                    _ => false,
                };
            match o {
                Expr::Bin(BinOp::Eq, x, one, s4) => node_ok(*x) && match *x {
                    Expr::Index(b2x, _, _) => wraps_bool_read(*b2x, b1, b2),
                    _ => false,
                } && match *one {
                    Expr::Num(t, s3) => t@ == "1"@ && s3 == sp,
                    _ => false,
                } && s4 == sp,
                Expr::Index(b2x, _, _) => node_ok(o) && !wraps_bool_read(*b2x, b1, b2),
                _ => false,
            }
        },
        Expr::Unary(op, x, sp) => match o {
            Expr::Unary(op2, x2, s2) => op2 == op && s2 == sp && bool_read_rewritten(*x2, *x, b1, b2),
            _ => false,
        },
        Expr::Bin(op, l, r, sp) => match o {
            Expr::Bin(op2, l2, r2, s2) => op2 == op && s2 == sp && bool_read_rewritten(*l2, *l, b1, b2)
                && bool_read_rewritten(*r2, *r, b1, b2),
            _ => false,
        },
        Expr::Member(b, m, sp) => match o {
            Expr::Member(b2x, m2, s2) => m2 == m && s2 == sp && bool_read_rewritten(*b2x, *b, b1, b2),
            _ => false,
        },
        Expr::Call(c, args, sp) => match o {
            Expr::Call(c2, a2, s2) => {
                proof {
                    assert(decreases_to!(i => args));
                    assert(decreases_to!(args => args@));
                }
                &&& *c2 == *c
                &&& s2 == sp
                &&& a2@.len() == args@.len()
                &&& forall|q: int| 0 <= q < args@.len() ==> bool_read_rewritten(#[trigger] a2@[q], args@[q], b1, b2)
            },
            _ => false,
        },
        _ => o == i,
    }
}

fn wraps_bool_read_exec(base: &Expr, b1: &Vec<String>, b2: &Vec<String>) -> (r: bool)
    ensures
        r == wraps_bool_read(*base, names_of(b1@), names_of(b2@)),
{
    match base {
        Expr::Var(m, _) => listed(b1, m.as_str()),
        Expr::Index(inner, _, _) => match &**inner {
            Expr::Var(m, _) => listed(b2, m.as_str()),
            _ => false,
        },
        _ => false,
    }
}

/// Rewrites the bool-map reads of an expression (see `bool_read_rewritten`).
pub fn rewrite_bool_read(e: Expr, b1: &Vec<String>, b2: &Vec<String>) -> (r: Expr)
    ensures
        bool_read_rewritten(r, e, names_of(b1@), names_of(b2@)),
    decreases e,
{
    let ghost e0 = e;
    match e {
        Expr::Index(b, k, sp) => {
            let b2x = rewrite_bool_read(*b, b1, b2);
            let k2x = rewrite_bool_read(*k, b1, b2);
            let wrap = wraps_bool_read_exec(&b2x, b1, b2);
            let node = Expr::Index(Box::new(b2x), Box::new(k2x), copy_span(&sp));
            if wrap {
                Expr::Bin(BinOp::Eq, Box::new(node), Box::new(Expr::Num(String::from_str("1"), copy_span(&sp))), sp)
            } else {
                node
            }
        },
        Expr::Unary(op, x, sp) => Expr::Unary(op, Box::new(rewrite_bool_read(*x, b1, b2)), sp),
        Expr::Bin(op, l, r, sp) => {
            let l2 = rewrite_bool_read(*l, b1, b2);
            let r2 = rewrite_bool_read(*r, b1, b2);
            Expr::Bin(op, Box::new(l2), Box::new(r2), sp)
        },
        Expr::Member(b, m, sp) => Expr::Member(Box::new(rewrite_bool_read(*b, b1, b2)), m, sp),
        Expr::Call(c, args, sp) => {
            let ghost a0 = args@;
            let mut rest = args;
            let mut out: Vec<Expr> = Vec::new();
            let ghost mut k: int = 0;
            assert(a0.skip(0) =~= a0);
            while rest.len() > 0
                invariant
                    0 <= k <= a0.len(),
                    rest@ == a0.skip(k),
                    out@.len() == k,
                    e0 matches Expr::Call(_, ax, _) && ax@ == a0,
                    e0 == e,
                    forall|q: int| 0 <= q < k ==> bool_read_rewritten(#[trigger] out@[q], a0[q], names_of(b1@), names_of(b2@)),
                decreases rest@.len(),
            {
                let a = rest.remove(0);
                proof {
                    assert(a == a0[k]);
                    assert(decreases_to!(e0 => e0->Call_1));
                    assert(decreases_to!(e0->Call_1 => e0->Call_1@));
                    assert(decreases_to!(e0->Call_1@ => e0->Call_1@[k]));
                    assert(decreases_to!(e0 => a));
                }
                out.push(rewrite_bool_read(a, b1, b2));
                proof {
                    k = k + 1;
                }
                assert(rest@ =~= a0.skip(k));
            }
            Expr::Call(c, out, sp)
        },
        other => other,
    }
}

// ── Bool-valued map statements ───────────────────────────────────────────────

/// A bool-map write's stored value: the literal `true`/`false` as `1`/`0`.
pub open spec fn bool_write_lowered(o: Expr, v: Expr) -> bool {
    match v {
        Expr::Bool(b, sp) => match o {
            Expr::Num(t, s2) => t@ == (if b {
                "1"@
            } else {
                "0"@
            }) && s2 == sp,
            _ => false,
        },
        _ => false,
    }
}

/// Where a statement writes a bool-valued map with something other than a literal (the
/// first such write, descending into `if` branches and reserved batches): an internal
/// FE500 at the value's span.
pub open spec fn bool_stmt_err(s: Stmt, b1: Seq<Seq<char>>, b2: Seq<Seq<char>>) -> Option<Range<usize>>
    decreases s,
{
    match s {
        Stmt::IndexAssign { map, value, .. } => if b1.contains(map@) && !(value is Bool) {
            Some(value.spec_span())
        } else {
            None
        },
        Stmt::IndexAssign2 { map, value, .. } => if b2.contains(map@) && !(value is Bool) {
            Some(value.spec_span())
        } else {
            None
        },
        Stmt::If { then_body, else_body, .. } => {
            proof {
                assert(decreases_to!(s => then_body));
                assert(decreases_to!(then_body => then_body@));
                assert(decreases_to!(s => else_body));
                assert(decreases_to!(else_body => else_body@));
            }
            match bool_block_err(then_body@, b1, b2) {
                Some(x) => Some(x),
                None => bool_block_err(else_body@, b1, b2),
            }
        },
        Stmt::ReservedBatch { transfer, writes, .. } => {
            proof {
                assert(decreases_to!(s => writes));
                assert(decreases_to!(writes => writes@));
            }
            let t = match transfer {
                Some(b) => {
                    proof {
                        assert(decreases_to!(s => transfer));
                        assert(decreases_to!(transfer => b));
                    }
                    bool_stmt_err(*b, b1, b2)
                },
                None => None,
            };
            match t {
                Some(x) => Some(x),
                None => bool_block_err(writes@, b1, b2),
            }
        },
        _ => None,
    }
}

pub open spec fn bool_block_err(ss: Seq<Stmt>, b1: Seq<Seq<char>>, b2: Seq<Seq<char>>) -> Option<Range<usize>>
    decreases ss,
{
    if ss.len() == 0 {
        None
    } else {
        match bool_block_err(ss.drop_last(), b1, b2) {
            Some(x) => Some(x),
            None => bool_stmt_err(ss.last(), b1, b2),
        }
    }
}

/// `o` is statement `s` with its bool-map reads rewritten in every expression and a
/// bool-map write storing `1`/`0`; statements this pass does not look into are kept.
pub open spec fn bool_stmt_lowered(o: Stmt, s: Stmt, b1: Seq<Seq<char>>, b2: Seq<Seq<char>>) -> bool
    decreases s,
{
    let rd = |x: Expr, y: Expr| bool_read_rewritten(x, y, b1, b2);
    match (s, o) {
        (Stmt::Require { cond, span }, Stmt::Require { cond: c2, span: s2 }) => rd(c2, cond) && s2 == span,
        (Stmt::Assert { cond, span }, Stmt::Assert { cond: c2, span: s2 }) => rd(c2, cond) && s2 == span,
        (Stmt::Return { value: Some(v), span }, Stmt::Return { value: Some(w), span: s2 }) => rd(w, v) && s2 == span,
        (Stmt::LocalVar { name, ty, value, span }, Stmt::LocalVar { name: n2, ty: t2, value: v2, span: s2 }) => n2
            == name && t2 == ty && rd(v2, value) && s2 == span,
        (Stmt::Assign { target, op, value, span }, Stmt::Assign { target: t2, op: o2, value: v2, span: s2 }) => t2
            == target && o2 == op && rd(v2, value) && s2 == span,
        (
            Stmt::FieldAssign { obj, field, op, value, span },
            Stmt::FieldAssign { obj: b2x, field: f2, op: o2, value: v2, span: s2 },
        ) => b2x == obj && f2 == field && o2 == op && rd(v2, value) && s2 == span,
        (
            Stmt::IndexAssign { map, key, op, value, span },
            Stmt::IndexAssign { map: m2, key: k2, op: o2, value: v2, span: s2 },
        ) => m2 == map && o2 == op && s2 == span && rd(k2, key) && if b1.contains(map@) {
            bool_write_lowered(v2, value)
        } else {
            rd(v2, value)
        },
        (
            Stmt::IndexAssign2 { map, k1, k2, op, value, span },
            Stmt::IndexAssign2 { map: m2, k1: a2, k2: c2, op: o2, value: v2, span: s2 },
        ) => m2 == map && o2 == op && s2 == span && rd(a2, k1) && rd(c2, k2) && if b2.contains(map@) {
            bool_write_lowered(v2, value)
        } else {
            rd(v2, value)
        },
        (
            Stmt::MapTransfer { map, from, to, amount, span },
            Stmt::MapTransfer { map: m2, from: f2, to: t2, amount: a2, span: s2 },
        ) => m2 == map && s2 == span && rd(f2, from) && rd(t2, to) && rd(a2, amount),
        (
            Stmt::Erc20TransferFrom { bal_map, alw_map, from, spender, to, amount, oz5_infinite, span },
            Stmt::Erc20TransferFrom {
                bal_map: bm2,
                alw_map: am2,
                from: f2,
                spender: p2,
                to: t2,
                amount: a2,
                oz5_infinite: z2,
                span: s2,
            },
        ) => bm2 == bal_map && am2 == alw_map && z2 == oz5_infinite && s2 == span && rd(f2, from) && rd(p2, spender)
            && rd(t2, to) && rd(a2, amount),
        (
            Stmt::MapSplitTransfer { map, from, amount, to, net, fee_to, fee, span },
            Stmt::MapSplitTransfer { map: m2, from: f2, amount: a2, to: t2, net: n2, fee_to: x2, fee: y2, span: s2 },
        ) => m2 == map && s2 == span && rd(f2, from) && rd(a2, amount) && rd(t2, to) && rd(n2, net) && rd(x2, fee_to)
            && rd(y2, fee),
        (
            Stmt::Erc20Update { map, ts_field, from, to, value, span },
            Stmt::Erc20Update { map: m2, ts_field: ts2, from: f2, to: t2, value: v2, span: s2 },
        ) => m2 == map && ts2 == ts_field && s2 == span && rd(f2, from) && rd(t2, to) && rd(v2, value),
        (
            Stmt::BatchTransfer { map, from, recipients, amounts, span },
            Stmt::BatchTransfer { map: m2, from: f2, recipients: r2, amounts: a2, span: s2 },
        ) => m2 == map && r2 == recipients && a2 == amounts && s2 == span && rd(f2, from),
        (
            Stmt::If { cond, then_body, else_body, span },
            Stmt::If { cond: c2, then_body: t2, else_body: e2, span: s2 },
        ) => {
            proof {
                assert(decreases_to!(s => then_body));
                assert(decreases_to!(then_body => then_body@));
                assert(decreases_to!(s => else_body));
                assert(decreases_to!(else_body => else_body@));
            }
            rd(c2, cond) && s2 == span && bool_block_lowered(t2@, then_body@, b1, b2) && bool_block_lowered(
                e2@,
                else_body@,
                b1,
                b2,
            )
        },
        (
            Stmt::ReservedBatch { transfer, writes, span },
            Stmt::ReservedBatch { transfer: tr2, writes: w2, span: s2 },
        ) => {
            proof {
                assert(decreases_to!(s => writes));
                assert(decreases_to!(writes => writes@));
            }
            s2 == span && bool_block_lowered(w2@, writes@, b1, b2) && match (transfer, tr2) {
                (None, None) => true,
                (Some(a), Some(b)) => {
                    proof {
                        assert(decreases_to!(s => transfer));
                        assert(decreases_to!(transfer => a));
                    }
                    bool_stmt_lowered(*b, *a, b1, b2)
                },
                _ => false,
            }
        },
        (Stmt::Return { value: None, .. }, _) => o == s,
        (Stmt::Revert { .. }, _) => o == s,
        (Stmt::CallStmt { .. }, _) => o == s,
        (Stmt::AirdropLoop { .. }, _) => o == s,
        (Stmt::Unchecked { .. }, _) => o == s,
        (Stmt::Placeholder { .. }, _) => o == s,
        _ => false,
    }
}

pub open spec fn bool_block_lowered(o: Seq<Stmt>, i: Seq<Stmt>, b1: Seq<Seq<char>>, b2: Seq<Seq<char>>) -> bool
    decreases i,
{
    o.len() == i.len() && forall|k: int| 0 <= k < i.len() ==> bool_stmt_lowered(#[trigger] o[k], i[k], b1, b2)
}

/// A bool-map write's literal value as `1`/`0`; anything else is an internal FE500.
fn lower_bool_write_value(value: Expr) -> (r: Result<Expr, FrontendDiag>)
    ensures
        match r {
            Ok(v) => bool_write_lowered(v, value),
            Err(d) => !(value is Bool) && d.code == codes::FE500_INTERNAL_MALFORMED_SOL && d.span == value.spec_span(),
        },
{
    match value {
        Expr::Bool(b, span) => Ok(
            Expr::Num(
                if b {
                    String::from_str("1")
                } else {
                    String::from_str("0")
                },
                span,
            ),
        ),
        other => {
            let sp = other.span();
            Err(
                FrontendDiag::new(
                    codes::FE500_INTERNAL_MALFORMED_SOL,
                    "internal: a bool-valued mapping write survived check with a non-literal value",
                    sp,
                ),
            )
        },
    }
}

/// Lowers one statement's bool-map reads and writes (see `bool_stmt_lowered`).
#[verifier::rlimit(100)]
fn lower_bool_stmt(s: Stmt, b1: &Vec<String>, b2: &Vec<String>) -> (r: Result<Stmt, FrontendDiag>)
    ensures
        match r {
            Ok(o) => bool_stmt_err(s, names_of(b1@), names_of(b2@)) is None && bool_stmt_lowered(o, s, names_of(b1@), names_of(b2@)),
            Err(d) => bool_stmt_err(s, names_of(b1@), names_of(b2@)) == Some(d.span) && d.code == codes::FE500_INTERNAL_MALFORMED_SOL,
        },
    decreases s,
{
    let ghost s0 = s;
    match s {
        Stmt::Require { cond, span } => Ok(Stmt::Require { cond: rewrite_bool_read(cond, b1, b2), span }),
        Stmt::Assert { cond, span } => Ok(Stmt::Assert { cond: rewrite_bool_read(cond, b1, b2), span }),
        Stmt::Return { value, span } => match value {
            Some(v) => Ok(Stmt::Return { value: Some(rewrite_bool_read(v, b1, b2)), span }),
            None => Ok(Stmt::Return { value: None, span }),
        },
        Stmt::LocalVar { name, ty, value, span } => Ok(Stmt::LocalVar { name, ty, value: rewrite_bool_read(value, b1, b2), span }),
        Stmt::Assign { target, op, value, span } => Ok(Stmt::Assign { target, op, value: rewrite_bool_read(value, b1, b2), span }),
        Stmt::FieldAssign { obj, field, op, value, span } => Ok(
            Stmt::FieldAssign { obj, field, op, value: rewrite_bool_read(value, b1, b2), span },
        ),
        Stmt::IndexAssign { map, key, op, value, span } => {
            let key = rewrite_bool_read(key, b1, b2);
            let value = if listed(b1, map.as_str()) {
                lower_bool_write_value(value)?
            } else {
                rewrite_bool_read(value, b1, b2)
            };
            Ok(Stmt::IndexAssign { map, key, op, value, span })
        },
        Stmt::IndexAssign2 { map, k1, k2, op, value, span } => {
            let k1 = rewrite_bool_read(k1, b1, b2);
            let k2 = rewrite_bool_read(k2, b1, b2);
            let value = if listed(b2, map.as_str()) {
                lower_bool_write_value(value)?
            } else {
                rewrite_bool_read(value, b1, b2)
            };
            Ok(Stmt::IndexAssign2 { map, k1, k2, op, value, span })
        },
        Stmt::MapTransfer { map, from, to, amount, span } => Ok(
            Stmt::MapTransfer {
                map,
                from: rewrite_bool_read(from, b1, b2),
                to: rewrite_bool_read(to, b1, b2),
                amount: rewrite_bool_read(amount, b1, b2),
                span,
            },
        ),
        Stmt::Erc20TransferFrom { bal_map, alw_map, from, spender, to, amount, oz5_infinite, span } => Ok(
            Stmt::Erc20TransferFrom {
                bal_map,
                alw_map,
                from: rewrite_bool_read(from, b1, b2),
                spender: rewrite_bool_read(spender, b1, b2),
                to: rewrite_bool_read(to, b1, b2),
                amount: rewrite_bool_read(amount, b1, b2),
                oz5_infinite,
                span,
            },
        ),
        Stmt::MapSplitTransfer { map, from, amount, to, net, fee_to, fee, span } => Ok(
            Stmt::MapSplitTransfer {
                map,
                from: rewrite_bool_read(from, b1, b2),
                amount: rewrite_bool_read(amount, b1, b2),
                to: rewrite_bool_read(to, b1, b2),
                net: rewrite_bool_read(net, b1, b2),
                fee_to: rewrite_bool_read(fee_to, b1, b2),
                fee: rewrite_bool_read(fee, b1, b2),
                span,
            },
        ),
        Stmt::Erc20Update { map, ts_field, from, to, value, span } => Ok(
            Stmt::Erc20Update {
                map,
                ts_field,
                from: rewrite_bool_read(from, b1, b2),
                to: rewrite_bool_read(to, b1, b2),
                value: rewrite_bool_read(value, b1, b2),
                span,
            },
        ),
        Stmt::BatchTransfer { map, from, recipients, amounts, span } => Ok(
            Stmt::BatchTransfer { map, from: rewrite_bool_read(from, b1, b2), recipients, amounts, span },
        ),
        Stmt::If { cond, then_body, else_body, span } => {
            let cond = rewrite_bool_read(cond, b1, b2);
            let then_body = lower_bool_stmts(then_body, b1, b2)?;
            let else_body = lower_bool_stmts(else_body, b1, b2)?;
            Ok(Stmt::If { cond, then_body, else_body, span })
        },
        Stmt::ReservedBatch { transfer, writes, span } => {
            let transfer = match transfer {
                Some(t) => Some(Box::new(lower_bool_stmt(*t, b1, b2)?)),
                None => None,
            };
            let writes = lower_bool_stmts(writes, b1, b2)?;
            Ok(Stmt::ReservedBatch { transfer, writes, span })
        },
        other => Ok(other),
    }
}

/// Lowers the bool-map reads and writes of a block (see `bool_block_lowered`); the first
/// non-literal bool-map write is an internal FE500.
pub fn lower_bool_stmts(stmts: Vec<Stmt>, b1: &Vec<String>, b2: &Vec<String>) -> (r: Result<Vec<Stmt>, FrontendDiag>)
    ensures
        match r {
            Ok(v) => bool_block_err(stmts@, names_of(b1@), names_of(b2@)) is None && bool_block_lowered(v@, stmts@, names_of(b1@), names_of(b2@)),
            Err(d) => bool_block_err(stmts@, names_of(b1@), names_of(b2@)) == Some(d.span) && d.code == codes::FE500_INTERNAL_MALFORMED_SOL,
        },
    decreases stmts,
{
    let ghost g = stmts;
    let ghost orig = stmts@;
    let ghost n1 = names_of(b1@);
    let ghost n2 = names_of(b2@);
    let mut rest = stmts;
    let mut out: Vec<Stmt> = Vec::new();
    let ghost mut k: int = 0;
    assert(orig.take(0) =~= Seq::<Stmt>::empty());
    while rest.len() > 0
        invariant
            0 <= k <= orig.len(),
            rest@ == orig.skip(k),
            orig == g@,
            g == stmts,
            n1 == names_of(b1@),
            n2 == names_of(b2@),
            out@.len() == k,
            bool_block_err(orig.take(k), n1, n2) is None,
            forall|q: int| 0 <= q < k ==> bool_stmt_lowered(#[trigger] out@[q], orig[q], n1, n2),
        decreases rest@.len(),
    {
        let s = rest.remove(0);
        proof {
            assert(s == orig[k]);
            assert(orig.take(k + 1).drop_last() =~= orig.take(k));
            assert(orig.take(k + 1).last() == s);
            assert(decreases_to!(g => g@));
            assert(decreases_to!(g@ => g@[k]));
            assert(decreases_to!(g => s));
        }
        match lower_bool_stmt(s, b1, b2) {
            Ok(o) => {
                out.push(o);
            },
            Err(d) => {
                proof {
                    lemma_bool_err_prefix(orig, n1, n2, k + 1);
                }
                return Err(d);
            },
        }
        proof {
            k = k + 1;
        }
        assert(rest@ =~= orig.skip(k));
    }
    assert(orig.take(k) =~= orig);
    Ok(out)
}

/// An error found in a prefix is the block's error.
proof fn lemma_bool_err_prefix(ss: Seq<Stmt>, b1: Seq<Seq<char>>, b2: Seq<Seq<char>>, k: int)
    requires
        0 <= k <= ss.len(),
        bool_block_err(ss.take(k), b1, b2) is Some,
    ensures
        bool_block_err(ss, b1, b2) == bool_block_err(ss.take(k), b1, b2),
    decreases ss.len() - k,
{
    if k < ss.len() {
        assert(ss.take(k + 1).drop_last() =~= ss.take(k));
        lemma_bool_err_prefix(ss, b1, b2, k + 1);
    } else {
        assert(ss.take(k) =~= ss);
    }
}

// ── Bool-valued maps in a contract ───────────────────────────────────────────

/// 1 for `mapping(K => bool)`, 2 for `mapping(K => mapping(A => bool))`, 0 otherwise.
pub open spec fn bool_map_kind(t: TypeRef) -> nat {
    match t {
        TypeRef::Mapping { value, .. } => match *value {
            TypeRef::Scalar { name, .. } => if name@ == "bool"@ {
                1
            } else {
                0
            },
            TypeRef::Mapping { value: iv, .. } => match *iv {
                TypeRef::Scalar { name, .. } => if name@ == "bool"@ {
                    2
                } else {
                    0
                },
                _ => 0,
            },
            _ => 0,
        },
        _ => 0,
    }
}

/// The names of the state variables that are bool-valued maps of the given kind, in order.
pub open spec fn bool_map_names(state: Seq<StateVar>, kind: nat) -> Seq<Seq<char>>
    decreases state.len(),
{
    if state.len() == 0 {
        Seq::empty()
    } else if bool_map_kind(state.last().ty) == kind {
        bool_map_names(state.drop_last(), kind).push(state.last().name@)
    } else {
        bool_map_names(state.drop_last(), kind)
    }
}

/// The first non-literal bool-map write of the function bodies, then the constructor body.
pub open spec fn fns_bool_err(fns: Seq<Function>, b1: Seq<Seq<char>>, b2: Seq<Seq<char>>) -> Option<Range<usize>>
    decreases fns.len(),
{
    if fns.len() == 0 {
        None
    } else {
        match fns_bool_err(fns.drop_last(), b1, b2) {
            Some(x) => Some(x),
            None => bool_block_err(fns.last().body@, b1, b2),
        }
    }
}

pub open spec fn contract_bool_err(c: Contract, b1: Seq<Seq<char>>, b2: Seq<Seq<char>>) -> Option<Range<usize>> {
    match fns_bool_err(c.functions@, b1, b2) {
        Some(x) => Some(x),
        None => match c.constructor {
            Some(k) => bool_block_err(k.body@, b1, b2),
            None => None,
        },
    }
}

/// `g` is function `f` with its body lowered.
pub open spec fn fn_bool_lowered(g: Function, f: Function, b1: Seq<Seq<char>>, b2: Seq<Seq<char>>) -> bool {
    same_header(g, f) && g.modifiers == f.modifiers && bool_block_lowered(g.body@, f.body@, b1, b2)
}

/// Everything of the contract but its function and constructor bodies is as in `b`.
pub open spec fn same_but_bodies(a: Contract, b: Contract) -> bool {
    &&& a.name == b.name
    &&& a.kind == b.kind
    &&& a.bases == b.bases
    &&& a.structs == b.structs
    &&& a.state == b.state
    &&& a.modifiers == b.modifiers
    &&& a.enums == b.enums
    &&& a.span == b.span
    &&& a.functions@.len() == b.functions@.len()
    &&& (a.constructor is Some <==> b.constructor is Some)
    &&& (a.constructor is Some ==> {
        let x = a.constructor->Some_0;
        let y = b.constructor->Some_0;
        x.params == y.params && x.base_calls == y.base_calls && x.span == y.span
    })
}

fn lower_fn_bool(f: &mut Function, b1: &Vec<String>, b2: &Vec<String>) -> (r: Result<(), FrontendDiag>)
    ensures
        match r {
            Ok(()) => bool_block_err(old(f).body@, names_of(b1@), names_of(b2@)) is None && fn_bool_lowered(*final(f), *old(f), names_of(b1@), names_of(b2@)),
            Err(d) => bool_block_err(old(f).body@, names_of(b1@), names_of(b2@)) == Some(d.span) && d.code == codes::FE500_INTERNAL_MALFORMED_SOL,
        },
{
    let mut body: Vec<Stmt> = Vec::new();
    std::mem::swap(&mut body, &mut f.body);
    let lowered = lower_bool_stmts(body, b1, b2)?;
    f.body = lowered;
    Ok(())
}

/// Stores bool-valued maps as `0`/`1`: in every function and constructor body a write of
/// a literal to a one-key (`mapping(K => bool)`) or two-key
/// (`mapping(K => mapping(A => bool))`) bool map stores `1`/`0`, and a complete read
/// becomes `(read == 1)` (see `bool_stmt_lowered`). A contract without such maps is left as
/// it is; a non-literal write is an internal FE500 at its value.
pub fn lower_bool_maps(p: &mut Program) -> (r: Result<(), FrontendDiag>)
    ensures
        ({
            let c = old(p).contract;
            let b1 = bool_map_names(c.state@, 1);
            let b2 = bool_map_names(c.state@, 2);
            if b1.len() == 0 && b2.len() == 0 {
                r is Ok && *final(p) == *old(p)
            } else {
                &&& same_but_bodies(final(p).contract, c)
                &&& r is Ok <==> contract_bool_err(c, b1, b2) is None
                &&& r is Ok ==> (forall|j: int|
                    0 <= j < c.functions@.len() ==> fn_bool_lowered(
                        #[trigger] final(p).contract.functions@[j],
                        c.functions@[j],
                        b1,
                        b2,
                    )) && (c.constructor is Some ==> bool_block_lowered(
                    final(p).contract.constructor->Some_0.body@,
                    c.constructor->Some_0.body@,
                    b1,
                    b2,
                ))
                &&& r matches Err(d) ==> d.code == codes::FE500_INTERNAL_MALFORMED_SOL && contract_bool_err(c, b1, b2) == Some(d.span)
            }
        }),
{
    let ghost c0 = p.contract;
    let mut bool1: Vec<String> = Vec::new();
    let mut bool2: Vec<String> = Vec::new();
    let mut k: usize = 0;
    assert(c0.state@.take(0) =~= Seq::<StateVar>::empty());
    while k < p.contract.state.len()
        invariant
            k <= p.contract.state@.len(),
            p.contract == c0,
            names_of(bool1@) == bool_map_names(c0.state@.take(k as int), 1),
            names_of(bool2@) == bool_map_names(c0.state@.take(k as int), 2),
        decreases p.contract.state@.len() - k,
    {
        let sv = &p.contract.state[k];
        let kind: u8 = match &sv.ty {
            TypeRef::Mapping { value, .. } => match &**value {
                TypeRef::Scalar { name, .. } => if string_eq_str(name, "bool") {
                    1
                } else {
                    0
                },
                TypeRef::Mapping { value: iv, .. } => match &**iv {
                    TypeRef::Scalar { name, .. } => if string_eq_str(name, "bool") {
                        2
                    } else {
                        0
                    },
                    _ => 0,
                },
                _ => 0,
            },
            _ => 0,
        };
        proof {
            assert(kind as nat == bool_map_kind(sv.ty));
            assert(c0.state@.take(k + 1).drop_last() =~= c0.state@.take(k as int));
            assert(c0.state@.take(k + 1).last() == *sv);
        }
        let ghost o1 = bool1@;
        let ghost o2 = bool2@;
        if kind == 1 {
            bool1.push(clone_string(&sv.name));
            proof {
                assert(names_of(bool1@) =~= names_of(o1).push(sv.name@));
            }
        } else if kind == 2 {
            bool2.push(clone_string(&sv.name));
            proof {
                assert(names_of(bool2@) =~= names_of(o2).push(sv.name@));
            }
        }
        k = k + 1;
    }
    assert(c0.state@.take(k as int) =~= c0.state@);
    if bool1.len() == 0 && bool2.len() == 0 {
        return Ok(());
    }
    let ghost n1 = names_of(bool1@);
    let ghost n2 = names_of(bool2@);
    assert(n1.len() == bool1@.len());
    let mut fi: usize = 0;
    assert(c0.functions@.take(0) =~= Seq::<Function>::empty());
    while fi < p.contract.functions.len()
        invariant
            fi <= p.contract.functions@.len(),
            same_but_bodies(p.contract, c0),
            c0 == old(p).contract,
            p.contract.constructor == c0.constructor,
            n1 == bool_map_names(c0.state@, 1),
            n2 == bool_map_names(c0.state@, 2),
            !(n1.len() == 0 && n2.len() == 0),
            n1 == names_of(bool1@),
            n2 == names_of(bool2@),
            fns_bool_err(c0.functions@.take(fi as int), n1, n2) is None,
            forall|j: int| 0 <= j < fi ==> fn_bool_lowered(#[trigger] p.contract.functions@[j], c0.functions@[j], n1, n2),
            forall|j: int| fi <= j < p.contract.functions@.len() ==> #[trigger] p.contract.functions@[j] == c0.functions@[j],
        decreases p.contract.functions@.len() - fi,
    {
        proof {
            assert(c0.functions@.take(fi + 1).drop_last() =~= c0.functions@.take(fi as int));
            assert(c0.functions@.take(fi + 1).last() == c0.functions@[fi as int]);
        }
        let ghost before = p.contract.functions@;
        match lower_fn_bool(&mut p.contract.functions[fi], &bool1, &bool2) {
            Ok(()) => {},
            Err(d) => {
                proof {
                    lemma_fns_err_prefix(c0.functions@, n1, n2, fi + 1);
                    assert(p.contract.functions@ == before.update(fi as int, p.contract.functions@[fi as int]));
                    assert(same_but_bodies(p.contract, c0));
                }
                return Err(d);
            },
        }
        proof {
            assert(p.contract.functions@ == before.update(fi as int, p.contract.functions@[fi as int]));
        }
        fi = fi + 1;
    }
    assert(c0.functions@.take(fi as int) =~= c0.functions@);
    match &mut p.contract.constructor {
        Some(ctor) => {
            let mut body: Vec<Stmt> = Vec::new();
            std::mem::swap(&mut body, &mut ctor.body);
            let lowered = lower_bool_stmts(body, &bool1, &bool2)?;
            ctor.body = lowered;
        },
        None => {},
    }
    Ok(())
}

proof fn lemma_fns_err_prefix(fns: Seq<Function>, b1: Seq<Seq<char>>, b2: Seq<Seq<char>>, k: int)
    requires
        0 <= k <= fns.len(),
        fns_bool_err(fns.take(k), b1, b2) is Some,
    ensures
        fns_bool_err(fns, b1, b2) == fns_bool_err(fns.take(k), b1, b2),
    decreases fns.len() - k,
{
    if k < fns.len() {
        assert(fns.take(k + 1).drop_last() =~= fns.take(k));
        lemma_fns_err_prefix(fns, b1, b2, k + 1);
    } else {
        assert(fns.take(k) =~= fns);
    }
}

// ── Enum members ─────────────────────────────────────────────────────────────

/// The index of the first member named `m`.
pub open spec fn member_index(members: Seq<String>, m: Seq<char>, k: int) -> Option<int>
    decreases members.len() - k,
{
    if k < 0 || k >= members.len() {
        None
    } else if members[k]@ == m {
        Some(k)
    } else {
        member_index(members, m, k + 1)
    }
}

/// `E.M` with `E` an enum (the first of that name) not shadowed by a binding in scope: the
/// enum's index.
pub open spec fn enum_access(base: Expr, sc: Seq<Seq<char>>, enums: Seq<Enum>) -> Option<int> {
    match base {
        Expr::Var(name, _) => if !sc.contains(name@) {
            first_enum(enums, name@, 0)
        } else {
            None
        },
        _ => None,
    }
}

/// The first enum access in the expression naming no member of its enum (FE466, at the
/// access).
pub open spec fn enum_expr_err(e: Expr, sc: Seq<Seq<char>>, enums: Seq<Enum>) -> Option<Range<usize>>
    decreases e,
{
    match e {
        Expr::Member(b, m, sp) => match enum_access(*b, sc, enums) {
            Some(ei) => if member_index(enums[ei].members@, m@, 0) is Some {
                None
            } else {
                Some(sp)
            },
            None => enum_expr_err(*b, sc, enums),
        },
        Expr::Bin(_, l, r, _) => match enum_expr_err(*l, sc, enums) {
            Some(x) => Some(x),
            None => enum_expr_err(*r, sc, enums),
        },
        Expr::Call(_, args, _) => {
            proof {
                assert(decreases_to!(e => args));
                assert(decreases_to!(args => args@));
            }
            enum_exprs_err(args@, sc, enums)
        },
        Expr::Index(b, k, _) => match enum_expr_err(*b, sc, enums) {
            Some(x) => Some(x),
            None => enum_expr_err(*k, sc, enums),
        },
        Expr::Unary(_, x, _) => enum_expr_err(*x, sc, enums),
        _ => None,
    }
}

pub open spec fn enum_exprs_err(es: Seq<Expr>, sc: Seq<Seq<char>>, enums: Seq<Enum>) -> Option<Range<usize>>
    decreases es,
{
    if es.len() == 0 {
        None
    } else {
        match enum_exprs_err(es.drop_last(), sc, enums) {
            Some(x) => Some(x),
            None => enum_expr_err(es.last(), sc, enums),
        }
    }
}

/// `o` is `i` with every enum access `E.M` replaced by the member's index literal at the
/// access's span; a call's callee is kept.
pub open spec fn enum_rewritten(o: Expr, i: Expr, sc: Seq<Seq<char>>, enums: Seq<Enum>) -> bool
    decreases i,
{
    match i {
        Expr::Member(b, m, sp) => match enum_access(*b, sc, enums) {
            Some(ei) => match member_index(enums[ei].members@, m@, 0) {
                Some(idx) => match o {
                    Expr::Num(t, s2) => t@ == dec_chars(idx as nat) && s2 == sp,
                    _ => false,
                },
                None => false,
            },
            None => match o {
                Expr::Member(b2, m2, s2) => m2 == m && s2 == sp && enum_rewritten(*b2, *b, sc, enums),
                _ => false,
            },
        },
        Expr::Bin(op, l, r, sp) => match o {
            Expr::Bin(op2, l2, r2, s2) => op2 == op && s2 == sp && enum_rewritten(*l2, *l, sc, enums) && enum_rewritten(
                *r2,
                *r,
                sc,
                enums,
            ),
            _ => false,
        },
        Expr::Call(c, args, sp) => match o {
            Expr::Call(c2, a2, s2) => {
                proof {
                    assert(decreases_to!(i => args));
                    assert(decreases_to!(args => args@));
                }
                &&& *c2 == *c
                &&& s2 == sp
                &&& a2@.len() == args@.len()
                &&& forall|q: int| 0 <= q < args@.len() ==> enum_rewritten(#[trigger] a2@[q], args@[q], sc, enums)
            },
            _ => false,
        },
        Expr::Index(b, k, sp) => match o {
            Expr::Index(b2, k2, s2) => s2 == sp && enum_rewritten(*b2, *b, sc, enums) && enum_rewritten(*k2, *k, sc, enums),
            _ => false,
        },
        Expr::Unary(op, x, sp) => match o {
            Expr::Unary(op2, x2, s2) => op2 == op && s2 == sp && enum_rewritten(*x2, *x, sc, enums),
            _ => false,
        },
        _ => o == i,
    }
}

fn find_member(members: &Vec<String>, m: &str) -> (r: Option<usize>)
    ensures
        match r {
            Some(i) => member_index(members@, m@, 0) == Some(i as int),
            None => member_index(members@, m@, 0) is None,
        },
{
    let mut k: usize = 0;
    while k < members.len()
        invariant
            k <= members@.len(),
            member_index(members@, m@, 0) == member_index(members@, m@, k as int),
        decreases members@.len() - k,
    {
        if string_eq_str(&members[k], m) {
            return Some(k);
        }
        k = k + 1;
    }
    None
}

fn find_enum(enums: &Vec<Enum>, n: &str) -> (r: Option<usize>)
    ensures
        match r {
            Some(i) => first_enum(enums@, n@, 0) == Some(i as int) && i < enums@.len(),
            None => first_enum(enums@, n@, 0) is None,
        },
{
    let mut k: usize = 0;
    while k < enums.len()
        invariant
            k <= enums@.len(),
            first_enum(enums@, n@, 0) == first_enum(enums@, n@, k as int),
        decreases enums@.len() - k,
    {
        if string_eq_str(&enums[k].name, n) {
            return Some(k);
        }
        k = k + 1;
    }
    None
}

/// Rewrites the enum accesses of an expression (see `enum_rewritten`); the first access
/// to no member is refused (FE466).
pub fn rewrite_enum_expr(e: Expr, scope: &Vec<String>, enums: &Vec<Enum>) -> (r: Result<Expr, FrontendDiag>)
    ensures
        match r {
            Ok(o) => enum_expr_err(e, names_of(scope@), enums@) is None && enum_rewritten(o, e, names_of(scope@), enums@),
            Err(d) => enum_expr_err(e, names_of(scope@), enums@) == Some(d.span) && d.code == codes::FE466_BAD_ENUM_MEMBER_SOL,
        },
    decreases e,
{
    let ghost e0 = e;
    match e {
        Expr::Member(b, m, sp) => {
            let target: Option<usize> = match &*b {
                Expr::Var(name, _) => if !listed(scope, name.as_str()) {
                    find_enum(enums, name.as_str())
                } else {
                    None
                },
                _ => None,
            };
            match target {
                Some(ei) => match find_member(&enums[ei].members, m.as_str()) {
                    Some(idx) => Ok(Expr::Num(usize_decimal(idx), sp)),
                    None => Err(FrontendDiag::new(codes::FE466_BAD_ENUM_MEMBER_SOL, "not a member of the enum", sp)),
                },
                None => {
                    let b2 = rewrite_enum_expr(*b, scope, enums)?;
                    Ok(Expr::Member(Box::new(b2), m, sp))
                },
            }
        },
        Expr::Bin(op, l, r, sp) => {
            let l2 = rewrite_enum_expr(*l, scope, enums)?;
            let r2 = rewrite_enum_expr(*r, scope, enums)?;
            Ok(Expr::Bin(op, Box::new(l2), Box::new(r2), sp))
        },
        Expr::Call(c, args, sp) => {
            let ghost a0 = args@;
            let ghost sc = names_of(scope@);
            let mut rest = args;
            let mut out: Vec<Expr> = Vec::new();
            let ghost mut k: int = 0;
            assert(a0.skip(0) =~= a0);
            assert(a0.take(0) =~= Seq::<Expr>::empty());
            while rest.len() > 0
                invariant
                    0 <= k <= a0.len(),
                    rest@ == a0.skip(k),
                    out@.len() == k,
                    e0 matches Expr::Call(_, ax, _) && ax@ == a0,
                    e0 == e,
                    sc == names_of(scope@),
                    enum_exprs_err(a0.take(k), sc, enums@) is None,
                    forall|q: int| 0 <= q < k ==> enum_rewritten(#[trigger] out@[q], a0[q], sc, enums@),
                decreases rest@.len(),
            {
                let a = rest.remove(0);
                proof {
                    assert(a == a0[k]);
                    assert(decreases_to!(e0 => e0->Call_1));
                    assert(decreases_to!(e0->Call_1 => e0->Call_1@));
                    assert(decreases_to!(e0->Call_1@ => e0->Call_1@[k]));
                    assert(decreases_to!(e0 => a));
                    assert(a0.take(k + 1).drop_last() =~= a0.take(k));
                    assert(a0.take(k + 1).last() == a);
                }
                match rewrite_enum_expr(a, scope, enums) {
                    Ok(x) => out.push(x),
                    Err(d) => {
                        proof {
                            lemma_enum_exprs_err_prefix(a0, sc, enums@, k + 1);
                        }
                        return Err(d);
                    },
                }
                proof {
                    k = k + 1;
                }
                assert(rest@ =~= a0.skip(k));
            }
            assert(a0.take(k) =~= a0);
            Ok(Expr::Call(c, out, sp))
        },
        Expr::Index(b, k, sp) => {
            let b2 = rewrite_enum_expr(*b, scope, enums)?;
            let k2 = rewrite_enum_expr(*k, scope, enums)?;
            Ok(Expr::Index(Box::new(b2), Box::new(k2), sp))
        },
        Expr::Unary(op, x, sp) => {
            let x2 = rewrite_enum_expr(*x, scope, enums)?;
            Ok(Expr::Unary(op, Box::new(x2), sp))
        },
        other => Ok(other),
    }
}

proof fn lemma_enum_exprs_err_prefix(es: Seq<Expr>, sc: Seq<Seq<char>>, enums: Seq<Enum>, k: int)
    requires
        0 <= k <= es.len(),
        enum_exprs_err(es.take(k), sc, enums) is Some,
    ensures
        enum_exprs_err(es, sc, enums) == enum_exprs_err(es.take(k), sc, enums),
    decreases es.len() - k,
{
    if k < es.len() {
        assert(es.take(k + 1).drop_last() =~= es.take(k));
        lemma_enum_exprs_err_prefix(es, sc, enums, k + 1);
    } else {
        assert(es.take(k) =~= es);
    }
}

// ── Enum members in statements ───────────────────────────────────────────────

/// The bindings in scope after a statement: a local adds its name (a reserved batch's
/// transfer and writes are walked in the same scope).
pub open spec fn stmt_scope(s: Stmt, sc: Seq<Seq<char>>) -> Seq<Seq<char>>
    decreases s,
{
    match s {
        Stmt::LocalVar { name, .. } => sc.push(name@),
        Stmt::ReservedBatch { transfer, writes, .. } => {
            proof {
                assert(decreases_to!(s => writes));
                assert(decreases_to!(writes => writes@));
            }
            let sc1 = match transfer {
                Some(t) => {
                    proof {
                        assert(decreases_to!(s => transfer));
                        assert(decreases_to!(transfer => t));
                    }
                    stmt_scope(*t, sc)
                },
                None => sc,
            };
            block_scope(writes@, sc1)
        },
        _ => sc,
    }
}

pub open spec fn block_scope(ss: Seq<Stmt>, sc: Seq<Seq<char>>) -> Seq<Seq<char>>
    decreases ss,
{
    if ss.len() == 0 {
        sc
    } else {
        stmt_scope(ss.last(), block_scope(ss.drop_last(), sc))
    }
}

pub open spec fn or_span(a: Option<Range<usize>>, b: Option<Range<usize>>) -> Option<Range<usize>> {
    match a {
        Some(x) => Some(x),
        None => b,
    }
}

/// The first access to no member of its enum in a statement, in evaluation order,
/// descending into `if` branches (each in a scope of its own) and reserved batches.
pub open spec fn enum_stmt_err(s: Stmt, sc: Seq<Seq<char>>, enums: Seq<Enum>) -> Option<Range<usize>>
    decreases s,
{
    let ex = |e: Expr| enum_expr_err(e, sc, enums);
    match s {
        Stmt::Require { cond, .. } => ex(cond),
        Stmt::Assert { cond, .. } => ex(cond),
        Stmt::Return { value, .. } => match value {
            Some(v) => ex(v),
            None => None,
        },
        Stmt::LocalVar { value, .. } => ex(value),
        Stmt::Assign { value, .. } => ex(value),
        Stmt::FieldAssign { value, .. } => ex(value),
        Stmt::IndexAssign { key, value, .. } => or_span(ex(key), ex(value)),
        Stmt::IndexAssign2 { k1, k2, value, .. } => or_span(ex(k1), or_span(ex(k2), ex(value))),
        Stmt::MapTransfer { from, to, amount, .. } => or_span(ex(from), or_span(ex(to), ex(amount))),
        Stmt::Erc20TransferFrom { from, spender, to, amount, .. } => or_span(
            ex(from),
            or_span(ex(spender), or_span(ex(to), ex(amount))),
        ),
        Stmt::MapSplitTransfer { from, amount, to, net, fee_to, fee, .. } => or_span(
            ex(from),
            or_span(ex(amount), or_span(ex(to), or_span(ex(net), or_span(ex(fee_to), ex(fee))))),
        ),
        Stmt::Erc20Update { from, to, value, .. } => or_span(ex(from), or_span(ex(to), ex(value))),
        Stmt::BatchTransfer { from, .. } => ex(from),
        Stmt::If { cond, then_body, else_body, .. } => {
            proof {
                assert(decreases_to!(s => then_body));
                assert(decreases_to!(then_body => then_body@));
                assert(decreases_to!(s => else_body));
                assert(decreases_to!(else_body => else_body@));
            }
            or_span(ex(cond), or_span(enum_block_err(then_body@, sc, enums), enum_block_err(else_body@, sc, enums)))
        },
        Stmt::ReservedBatch { transfer, writes, .. } => {
            proof {
                assert(decreases_to!(s => writes));
                assert(decreases_to!(writes => writes@));
            }
            match transfer {
                Some(t) => {
                    proof {
                        assert(decreases_to!(s => transfer));
                        assert(decreases_to!(transfer => t));
                    }
                    or_span(enum_stmt_err(*t, sc, enums), enum_block_err(writes@, stmt_scope(*t, sc), enums))
                },
                None => enum_block_err(writes@, sc, enums),
            }
        },
        _ => None,
    }
}

pub open spec fn enum_block_err(ss: Seq<Stmt>, sc: Seq<Seq<char>>, enums: Seq<Enum>) -> Option<Range<usize>>
    decreases ss,
{
    if ss.len() == 0 {
        None
    } else {
        or_span(enum_block_err(ss.drop_last(), sc, enums), enum_stmt_err(ss.last(), block_scope(ss.drop_last(), sc), enums))
    }
}

/// `o` is statement `s` with the enum accesses of its expressions rewritten against the
/// bindings in scope; statements this pass does not look into are kept.
pub open spec fn enum_stmt_lowered(o: Stmt, s: Stmt, sc: Seq<Seq<char>>, enums: Seq<Enum>) -> bool
    decreases s,
{
    let rd = |x: Expr, y: Expr| enum_rewritten(x, y, sc, enums);
    match (s, o) {
        (Stmt::Require { cond, span }, Stmt::Require { cond: c2, span: s2 }) => rd(c2, cond) && s2 == span,
        (Stmt::Assert { cond, span }, Stmt::Assert { cond: c2, span: s2 }) => rd(c2, cond) && s2 == span,
        (Stmt::Return { value: Some(v), span }, Stmt::Return { value: Some(w), span: s2 }) => rd(w, v) && s2 == span,
        (Stmt::LocalVar { name, ty, value, span }, Stmt::LocalVar { name: n2, ty: t2, value: v2, span: s2 }) => n2
            == name && t2 == ty && rd(v2, value) && s2 == span,
        (Stmt::Assign { target, op, value, span }, Stmt::Assign { target: t2, op: o2, value: v2, span: s2 }) => t2
            == target && o2 == op && rd(v2, value) && s2 == span,
        (
            Stmt::FieldAssign { obj, field, op, value, span },
            Stmt::FieldAssign { obj: b2x, field: f2, op: o2, value: v2, span: s2 },
        ) => b2x == obj && f2 == field && o2 == op && rd(v2, value) && s2 == span,
        (
            Stmt::IndexAssign { map, key, op, value, span },
            Stmt::IndexAssign { map: m2, key: k2, op: o2, value: v2, span: s2 },
        ) => m2 == map && o2 == op && s2 == span && rd(k2, key) && rd(v2, value),
        (
            Stmt::IndexAssign2 { map, k1, k2, op, value, span },
            Stmt::IndexAssign2 { map: m2, k1: a2, k2: c2, op: o2, value: v2, span: s2 },
        ) => m2 == map && o2 == op && s2 == span && rd(a2, k1) && rd(c2, k2) && rd(v2, value),
        (
            Stmt::MapTransfer { map, from, to, amount, span },
            Stmt::MapTransfer { map: m2, from: f2, to: t2, amount: a2, span: s2 },
        ) => m2 == map && s2 == span && rd(f2, from) && rd(t2, to) && rd(a2, amount),
        (
            Stmt::Erc20TransferFrom { bal_map, alw_map, from, spender, to, amount, oz5_infinite, span },
            Stmt::Erc20TransferFrom {
                bal_map: bm2,
                alw_map: am2,
                from: f2,
                spender: p2,
                to: t2,
                amount: a2,
                oz5_infinite: z2,
                span: s2,
            },
        ) => bm2 == bal_map && am2 == alw_map && z2 == oz5_infinite && s2 == span && rd(f2, from) && rd(p2, spender)
            && rd(t2, to) && rd(a2, amount),
        (
            Stmt::MapSplitTransfer { map, from, amount, to, net, fee_to, fee, span },
            Stmt::MapSplitTransfer { map: m2, from: f2, amount: a2, to: t2, net: n2, fee_to: x2, fee: y2, span: s2 },
        ) => m2 == map && s2 == span && rd(f2, from) && rd(a2, amount) && rd(t2, to) && rd(n2, net) && rd(x2, fee_to)
            && rd(y2, fee),
        (
            Stmt::Erc20Update { map, ts_field, from, to, value, span },
            Stmt::Erc20Update { map: m2, ts_field: ts2, from: f2, to: t2, value: v2, span: s2 },
        ) => m2 == map && ts2 == ts_field && s2 == span && rd(f2, from) && rd(t2, to) && rd(v2, value),
        (
            Stmt::BatchTransfer { map, from, recipients, amounts, span },
            Stmt::BatchTransfer { map: m2, from: f2, recipients: r2, amounts: a2, span: s2 },
        ) => m2 == map && r2 == recipients && a2 == amounts && s2 == span && rd(f2, from),
        (
            Stmt::If { cond, then_body, else_body, span },
            Stmt::If { cond: c2, then_body: t2, else_body: e2, span: s2 },
        ) => {
            proof {
                assert(decreases_to!(s => then_body));
                assert(decreases_to!(then_body => then_body@));
                assert(decreases_to!(s => else_body));
                assert(decreases_to!(else_body => else_body@));
            }
            rd(c2, cond) && s2 == span && enum_block_lowered(t2@, then_body@, sc, enums) && enum_block_lowered(
                e2@,
                else_body@,
                sc,
                enums,
            )
        },
        (
            Stmt::ReservedBatch { transfer, writes, span },
            Stmt::ReservedBatch { transfer: tr2, writes: w2, span: s2 },
        ) => {
            proof {
                assert(decreases_to!(s => writes));
                assert(decreases_to!(writes => writes@));
            }
            s2 == span && match (transfer, tr2) {
                (None, None) => enum_block_lowered(w2@, writes@, sc, enums),
                (Some(a), Some(b)) => {
                    proof {
                        assert(decreases_to!(s => transfer));
                        assert(decreases_to!(transfer => a));
                    }
                    enum_stmt_lowered(*b, *a, sc, enums) && enum_block_lowered(w2@, writes@, stmt_scope(*a, sc), enums)
                },
                _ => false,
            }
        },
        (Stmt::Return { value: None, .. }, _) => o == s,
        (Stmt::Revert { .. }, _) => o == s,
        (Stmt::CallStmt { .. }, _) => o == s,
        (Stmt::AirdropLoop { .. }, _) => o == s,
        (Stmt::Unchecked { .. }, _) => o == s,
        (Stmt::Placeholder { .. }, _) => o == s,
        _ => false,
    }
}

pub open spec fn enum_block_lowered(o: Seq<Stmt>, i: Seq<Stmt>, sc: Seq<Seq<char>>, enums: Seq<Enum>) -> bool
    decreases i,
{
    o.len() == i.len() && forall|k: int|
        0 <= k < i.len() ==> enum_stmt_lowered(#[trigger] o[k], i[k], block_scope(i.take(k), sc), enums)
}

fn copy_scope(v: &Vec<String>) -> (r: Vec<String>)
    ensures
        names_of(r@) == names_of(v@),
{
    let mut out: Vec<String> = Vec::new();
    let mut k: usize = 0;
    while k < v.len()
        invariant
            k <= v@.len(),
            names_of(out@) =~= names_of(v@).take(k as int),
        decreases v@.len() - k,
    {
        let ghost o0 = out@;
        out.push(clone_string(&v[k]));
        proof {
            assert(names_of(out@) =~= names_of(o0).push(v@[k as int]@));
            assert(names_of(v@).take(k + 1) =~= names_of(v@).take(k as int).push(names_of(v@)[k as int]));
        }
        k = k + 1;
    }
    assert(names_of(v@).take(k as int) =~= names_of(v@));
    out
}

/// Lowers the enum accesses of one statement (see `enum_stmt_lowered`), binding its local.
#[verifier::rlimit(100)]
fn lower_enum_stmt(s: Stmt, scope: &mut Vec<String>, enums: &Vec<Enum>) -> (r: Result<Stmt, FrontendDiag>)
    ensures
        match r {
            Ok(o) => enum_stmt_err(s, names_of(old(scope)@), enums@) is None && enum_stmt_lowered(o, s, names_of(old(scope)@), enums@)
                && names_of(final(scope)@) == stmt_scope(s, names_of(old(scope)@)),
            Err(d) => enum_stmt_err(s, names_of(old(scope)@), enums@) == Some(d.span) && d.code == codes::FE466_BAD_ENUM_MEMBER_SOL,
        },
    decreases s,
{
    let ghost s0 = s;
    match s {
        Stmt::Require { cond, span } => Ok(Stmt::Require { cond: rewrite_enum_expr(cond, scope, enums)?, span }),
        Stmt::Assert { cond, span } => Ok(Stmt::Assert { cond: rewrite_enum_expr(cond, scope, enums)?, span }),
        Stmt::Return { value, span } => match value {
            Some(v) => Ok(Stmt::Return { value: Some(rewrite_enum_expr(v, scope, enums)?), span }),
            None => Ok(Stmt::Return { value: None, span }),
        },
        Stmt::LocalVar { name, ty, value, span } => {
            let value = rewrite_enum_expr(value, scope, enums)?;
            let ghost sc0 = scope@;
            scope.push(clone_string(&name));
            proof {
                assert(names_of(scope@) =~= names_of(sc0).push(name@));
            }
            Ok(Stmt::LocalVar { name, ty, value, span })
        },
        Stmt::Assign { target, op, value, span } => Ok(
            Stmt::Assign { target, op, value: rewrite_enum_expr(value, scope, enums)?, span },
        ),
        Stmt::FieldAssign { obj, field, op, value, span } => Ok(
            Stmt::FieldAssign { obj, field, op, value: rewrite_enum_expr(value, scope, enums)?, span },
        ),
        Stmt::IndexAssign { map, key, op, value, span } => {
            let key = rewrite_enum_expr(key, scope, enums)?;
            let value = rewrite_enum_expr(value, scope, enums)?;
            Ok(Stmt::IndexAssign { map, key, op, value, span })
        },
        Stmt::IndexAssign2 { map, k1, k2, op, value, span } => {
            let k1 = rewrite_enum_expr(k1, scope, enums)?;
            let k2 = rewrite_enum_expr(k2, scope, enums)?;
            let value = rewrite_enum_expr(value, scope, enums)?;
            Ok(Stmt::IndexAssign2 { map, k1, k2, op, value, span })
        },
        Stmt::MapTransfer { map, from, to, amount, span } => {
            let from = rewrite_enum_expr(from, scope, enums)?;
            let to = rewrite_enum_expr(to, scope, enums)?;
            let amount = rewrite_enum_expr(amount, scope, enums)?;
            Ok(Stmt::MapTransfer { map, from, to, amount, span })
        },
        Stmt::Erc20TransferFrom { bal_map, alw_map, from, spender, to, amount, oz5_infinite, span } => {
            let from = rewrite_enum_expr(from, scope, enums)?;
            let spender = rewrite_enum_expr(spender, scope, enums)?;
            let to = rewrite_enum_expr(to, scope, enums)?;
            let amount = rewrite_enum_expr(amount, scope, enums)?;
            Ok(Stmt::Erc20TransferFrom { bal_map, alw_map, from, spender, to, amount, oz5_infinite, span })
        },
        Stmt::MapSplitTransfer { map, from, amount, to, net, fee_to, fee, span } => {
            let from = rewrite_enum_expr(from, scope, enums)?;
            let amount = rewrite_enum_expr(amount, scope, enums)?;
            let to = rewrite_enum_expr(to, scope, enums)?;
            let net = rewrite_enum_expr(net, scope, enums)?;
            let fee_to = rewrite_enum_expr(fee_to, scope, enums)?;
            let fee = rewrite_enum_expr(fee, scope, enums)?;
            Ok(Stmt::MapSplitTransfer { map, from, amount, to, net, fee_to, fee, span })
        },
        Stmt::Erc20Update { map, ts_field, from, to, value, span } => {
            let from = rewrite_enum_expr(from, scope, enums)?;
            let to = rewrite_enum_expr(to, scope, enums)?;
            let value = rewrite_enum_expr(value, scope, enums)?;
            Ok(Stmt::Erc20Update { map, ts_field, from, to, value, span })
        },
        Stmt::BatchTransfer { map, from, recipients, amounts, span } => Ok(
            Stmt::BatchTransfer { map, from: rewrite_enum_expr(from, scope, enums)?, recipients, amounts, span },
        ),
        Stmt::If { cond, then_body, else_body, span } => {
            let cond = rewrite_enum_expr(cond, scope, enums)?;
            let mut t_scope = copy_scope(scope);
            let then_body = lower_enum_stmts(then_body, &mut t_scope, enums)?;
            let mut e_scope = copy_scope(scope);
            let else_body = lower_enum_stmts(else_body, &mut e_scope, enums)?;
            Ok(Stmt::If { cond, then_body, else_body, span })
        },
        Stmt::ReservedBatch { transfer, writes, span } => {
            let transfer = match transfer {
                Some(t) => Some(Box::new(lower_enum_stmt(*t, scope, enums)?)),
                None => None,
            };
            let writes = lower_enum_stmts(writes, scope, enums)?;
            Ok(Stmt::ReservedBatch { transfer, writes, span })
        },
        other => Ok(other),
    }
}

/// Lowers the enum accesses of a block (see `enum_block_lowered`), each local in scope for
/// the statements after it; the first access to no member is refused (FE466).
pub fn lower_enum_stmts(stmts: Vec<Stmt>, scope: &mut Vec<String>, enums: &Vec<Enum>) -> (r: Result<Vec<Stmt>, FrontendDiag>)
    ensures
        match r {
            Ok(v) => enum_block_err(stmts@, names_of(old(scope)@), enums@) is None && enum_block_lowered(v@, stmts@, names_of(old(scope)@), enums@)
                && names_of(final(scope)@) == block_scope(stmts@, names_of(old(scope)@)),
            Err(d) => enum_block_err(stmts@, names_of(old(scope)@), enums@) == Some(d.span) && d.code == codes::FE466_BAD_ENUM_MEMBER_SOL,
        },
    decreases stmts,
{
    let ghost g = stmts;
    let ghost orig = stmts@;
    let ghost sc0 = names_of(scope@);
    let mut rest = stmts;
    let mut out: Vec<Stmt> = Vec::new();
    let ghost mut k: int = 0;
    assert(orig.take(0) =~= Seq::<Stmt>::empty());
    while rest.len() > 0
        invariant
            0 <= k <= orig.len(),
            rest@ == orig.skip(k),
            orig == g@,
            g == stmts,
            sc0 == names_of(old(scope)@),
            out@.len() == k,
            names_of(scope@) == block_scope(orig.take(k), sc0),
            enum_block_err(orig.take(k), sc0, enums@) is None,
            forall|q: int| 0 <= q < k ==> enum_stmt_lowered(#[trigger] out@[q], orig[q], block_scope(orig.take(q), sc0), enums@),
        decreases rest@.len(),
    {
        let s = rest.remove(0);
        proof {
            assert(s == orig[k]);
            assert(orig.take(k + 1).drop_last() =~= orig.take(k));
            assert(orig.take(k + 1).last() == s);
            assert(decreases_to!(g => g@));
            assert(decreases_to!(g@ => g@[k]));
            assert(decreases_to!(g => s));
        }
        match lower_enum_stmt(s, scope, enums) {
            Ok(o) => {
                out.push(o);
            },
            Err(d) => {
                proof {
                    lemma_enum_err_prefix(orig, sc0, enums@, k + 1);
                }
                return Err(d);
            },
        }
        proof {
            k = k + 1;
        }
        assert(rest@ =~= orig.skip(k));
    }
    assert(orig.take(k) =~= orig);
    Ok(out)
}

proof fn lemma_enum_err_prefix(ss: Seq<Stmt>, sc: Seq<Seq<char>>, enums: Seq<Enum>, k: int)
    requires
        0 <= k <= ss.len(),
        enum_block_err(ss.take(k), sc, enums) is Some,
    ensures
        enum_block_err(ss, sc, enums) == enum_block_err(ss.take(k), sc, enums),
    decreases ss.len() - k,
{
    if k < ss.len() {
        assert(ss.take(k + 1).drop_last() =~= ss.take(k));
        lemma_enum_err_prefix(ss, sc, enums, k + 1);
    } else {
        assert(ss.take(k) =~= ss);
    }
}

// ── Enum members in a contract ───────────────────────────────────────────────

/// The bindings a body starts with: the state variables, then the parameters.
pub open spec fn body_scope(state: Seq<StateVar>, params: Seq<Param>) -> Seq<Seq<char>> {
    state.map_values(|sv: StateVar| sv.name@) + params.map_values(|p: Param| p.name@)
}

pub open spec fn fns_enum_err(fns: Seq<Function>, state: Seq<StateVar>, enums: Seq<Enum>) -> Option<Range<usize>>
    decreases fns.len(),
{
    if fns.len() == 0 {
        None
    } else {
        or_span(
            fns_enum_err(fns.drop_last(), state, enums),
            enum_block_err(fns.last().body@, body_scope(state, fns.last().params@), enums),
        )
    }
}

/// The first access to no enum member in the function bodies, then the constructor body.
pub open spec fn contract_enum_err(c: Contract) -> Option<Range<usize>> {
    or_span(
        fns_enum_err(c.functions@, c.state@, c.enums@),
        match c.constructor {
            Some(k) => enum_block_err(k.body@, body_scope(c.state@, k.params@), c.enums@),
            None => None,
        },
    )
}

fn scope_of(state: &Vec<StateVar>, params: &Vec<Param>) -> (r: Vec<String>)
    ensures
        names_of(r@) == body_scope(state@, params@),
{
    let mut out: Vec<String> = Vec::new();
    let mut k: usize = 0;
    while k < state.len()
        invariant
            k <= state@.len(),
            names_of(out@) =~= state@.map_values(|sv: StateVar| sv.name@).take(k as int),
        decreases state@.len() - k,
    {
        let ghost o0 = out@;
        out.push(clone_string(&state[k].name));
        proof {
            assert(names_of(out@) =~= names_of(o0).push(state@[k as int].name@));
        }
        k = k + 1;
    }
    let mut j: usize = 0;
    while j < params.len()
        invariant
            j <= params@.len(),
            names_of(out@) =~= state@.map_values(|sv: StateVar| sv.name@) + params@.map_values(|p: Param| p.name@).take(j as int),
        decreases params@.len() - j,
    {
        let ghost o0 = out@;
        out.push(clone_string(&params[j].name));
        proof {
            assert(names_of(out@) =~= names_of(o0).push(params@[j as int].name@));
        }
        j = j + 1;
    }
    assert(params@.map_values(|p: Param| p.name@).take(j as int) =~= params@.map_values(|p: Param| p.name@));
    out
}

fn lower_fn_enum(f: &mut Function, state: &Vec<StateVar>, enums: &Vec<Enum>) -> (r: Result<(), FrontendDiag>)
    ensures
        ({
            let sc = body_scope(state@, old(f).params@);
            match r {
                Ok(()) => enum_block_err(old(f).body@, sc, enums@) is None && same_header(*final(f), *old(f))
                    && final(f).modifiers == old(f).modifiers && enum_block_lowered(final(f).body@, old(f).body@, sc, enums@),
                Err(d) => enum_block_err(old(f).body@, sc, enums@) == Some(d.span) && d.code
                    == codes::FE466_BAD_ENUM_MEMBER_SOL,
            }
        }),
{
    let mut scope = scope_of(state, &f.params);
    let mut body: Vec<Stmt> = Vec::new();
    std::mem::swap(&mut body, &mut f.body);
    let lowered = lower_enum_stmts(body, &mut scope, enums)?;
    f.body = lowered;
    Ok(())
}

/// Replaces every enum member access `E.M` (an enum `E` not shadowed by a state variable,
/// parameter or local in scope) with the member's index, in every function and
/// constructor body (see `enum_block_lowered`); a contract without enums is left as it is.
/// The first access to no member of its enum is refused (FE466, at the access).
pub fn lower_enum_members(p: &mut Program) -> (r: Result<(), FrontendDiag>)
    ensures
        ({
            let c = old(p).contract;
            if c.enums@.len() == 0 {
                r is Ok && *final(p) == *old(p)
            } else {
                &&& same_but_bodies(final(p).contract, c)
                &&& r is Ok <==> contract_enum_err(c) is None
                &&& r is Ok ==> (forall|j: int|
                    0 <= j < c.functions@.len() ==> {
                        let g = #[trigger] final(p).contract.functions@[j];
                        let f = c.functions@[j];
                        same_header(g, f) && g.modifiers == f.modifiers && enum_block_lowered(
                            g.body@,
                            f.body@,
                            body_scope(c.state@, f.params@),
                            c.enums@,
                        )
                    }) && (c.constructor is Some ==> enum_block_lowered(
                    final(p).contract.constructor->Some_0.body@,
                    c.constructor->Some_0.body@,
                    body_scope(c.state@, c.constructor->Some_0.params@),
                    c.enums@,
                ))
                &&& r matches Err(d) ==> d.code == codes::FE466_BAD_ENUM_MEMBER_SOL && contract_enum_err(c) == Some(d.span)
            }
        }),
{
    if p.contract.enums.len() == 0 {
        return Ok(());
    }
    let ghost c0 = p.contract;
    let mut fi: usize = 0;
    assert(c0.functions@.take(0) =~= Seq::<Function>::empty());
    while fi < p.contract.functions.len()
        invariant
            fi <= p.contract.functions@.len(),
            same_but_bodies(p.contract, c0),
            c0 == old(p).contract,
            c0.enums@.len() > 0,
            p.contract.constructor == c0.constructor,
            fns_enum_err(c0.functions@.take(fi as int), c0.state@, c0.enums@) is None,
            forall|j: int| 0 <= j < fi ==> {
                let g = #[trigger] p.contract.functions@[j];
                let f = c0.functions@[j];
                same_header(g, f) && g.modifiers == f.modifiers && enum_block_lowered(
                    g.body@,
                    f.body@,
                    body_scope(c0.state@, f.params@),
                    c0.enums@,
                )
            },
            forall|j: int| fi <= j < p.contract.functions@.len() ==> #[trigger] p.contract.functions@[j] == c0.functions@[j],
        decreases p.contract.functions@.len() - fi,
    {
        proof {
            assert(c0.functions@.take(fi + 1).drop_last() =~= c0.functions@.take(fi as int));
            assert(c0.functions@.take(fi + 1).last() == c0.functions@[fi as int]);
        }
        let ghost before = p.contract.functions@;
        match lower_fn_enum(&mut p.contract.functions[fi], &p.contract.state, &p.contract.enums) {
            Ok(()) => {},
            Err(d) => {
                proof {
                    lemma_fns_enum_err_prefix(c0.functions@, c0.state@, c0.enums@, fi + 1);
                    assert(p.contract.functions@ == before.update(fi as int, p.contract.functions@[fi as int]));
                    assert(same_but_bodies(p.contract, c0));
                }
                return Err(d);
            },
        }
        proof {
            assert(p.contract.functions@ == before.update(fi as int, p.contract.functions@[fi as int]));
        }
        fi = fi + 1;
    }
    assert(c0.functions@.take(fi as int) =~= c0.functions@);
    match &mut p.contract.constructor {
        Some(ctor) => {
            let mut scope = scope_of(&p.contract.state, &ctor.params);
            let mut body: Vec<Stmt> = Vec::new();
            std::mem::swap(&mut body, &mut ctor.body);
            let lowered = lower_enum_stmts(body, &mut scope, &p.contract.enums)?;
            ctor.body = lowered;
        },
        None => {},
    }
    Ok(())
}

proof fn lemma_fns_enum_err_prefix(fns: Seq<Function>, state: Seq<StateVar>, enums: Seq<Enum>, k: int)
    requires
        0 <= k <= fns.len(),
        fns_enum_err(fns.take(k), state, enums) is Some,
    ensures
        fns_enum_err(fns, state, enums) == fns_enum_err(fns.take(k), state, enums),
    decreases fns.len() - k,
{
    if k < fns.len() {
        assert(fns.take(k + 1).drop_last() =~= fns.take(k));
        lemma_fns_enum_err_prefix(fns, state, enums, k + 1);
    } else {
        assert(fns.take(k) =~= fns);
    }
}

// ── Narrow-integer width traps ───────────────────────────────────────────────

/// Which width-trap helpers the lowering used.
#[derive(Clone, Copy)]
pub struct UintnHelpers {
    pub add: bool,
    pub mul: bool,
}

/// The helper of an operator: `__fe_add_checked` for `+`, `__fe_mul_checked` for `*`.
pub open spec fn helper_name(add: bool) -> Seq<char> {
    if add {
        "__fe_add_checked"@
    } else {
        "__fe_mul_checked"@
    }
}

/// The width trap a node gets, decided on its original operands: a `+` (`true`) or `*`
/// (`false`) whose operands type as the same `uintN`, with that width.
pub open spec fn uintn_rewrite(e: Expr, env: Seq<(Seq<char>, TyV)>, structs: Seq<Struct>, enums: Seq<Enum>) -> Option<(bool, u16)> {
    match e {
        Expr::Bin(op, l, r, _) => if op is Add || op is Mul {
            match (infer_spec(*l, env, structs, enums), infer_spec(*r, env, structs, enums)) {
                (Ok(a), Ok(b)) => match arith_spec(a, b) {
                    Ok(TyV::UintN(n)) => Some((op is Add, n)),
                    _ => None,
                },
                _ => None,
            }
        } else {
            None
        },
        _ => None,
    }
}

/// `o` is the checked call `helper(l, r, 2^n)` at `sp`.
pub open spec fn checked_call(o: Expr, add: bool, l: Expr, r: Expr, n: u16, sp: Range<usize>) -> bool {
    match o {
        Expr::Call(c, args, s) => {
            &&& s == sp
            &&& (match *c {
                Expr::Var(h, s1) => h@ == helper_name(add) && s1 == sp,
                _ => false,
            })
            &&& args@.len() == 3
            &&& args@[0] == l
            &&& args@[1] == r
            &&& match args@[2] {
                Expr::Num(t, s2) => t@ == ascii_chars(dec_bytes(pow_nat(2, n as nat))) && s2 == sp,
                _ => false,
            }
        },
        _ => false,
    }
}

/// `o` is `i` with every same-width `uintN` `+`/`*` (decided on its original operands,
/// children rewritten first) replaced by its checked helper call at the node's span; a
/// call's callee is kept.
pub open spec fn elaborated(o: Expr, i: Expr, env: Seq<(Seq<char>, TyV)>, structs: Seq<Struct>, enums: Seq<Enum>) -> bool
    decreases i,
{
    match i {
        Expr::Bin(op, l, r, sp) => match uintn_rewrite(i, env, structs, enums) {
            Some((add, n)) => match o {
                Expr::Call(_, args, _) => args@.len() == 3 && elaborated(args@[0], *l, env, structs, enums) && elaborated(
                    args@[1],
                    *r,
                    env,
                    structs,
                    enums,
                ) && checked_call(o, add, args@[0], args@[1], n, sp),
                _ => false,
            },
            None => match o {
                Expr::Bin(op2, l2, r2, s2) => op2 == op && s2 == sp && elaborated(*l2, *l, env, structs, enums)
                    && elaborated(*r2, *r, env, structs, enums),
                _ => false,
            },
        },
        Expr::Call(c, args, sp) => match o {
            Expr::Call(c2, a2, s2) => {
                proof {
                    assert(decreases_to!(i => args));
                    assert(decreases_to!(args => args@));
                }
                &&& *c2 == *c
                &&& s2 == sp
                &&& a2@.len() == args@.len()
                &&& forall|q: int| 0 <= q < args@.len() ==> elaborated(#[trigger] a2@[q], args@[q], env, structs, enums)
            },
            _ => false,
        },
        Expr::Index(b, k, sp) => match o {
            Expr::Index(b2, k2, s2) => s2 == sp && elaborated(*b2, *b, env, structs, enums) && elaborated(*k2, *k, env, structs, enums),
            _ => false,
        },
        Expr::Member(b, m, sp) => match o {
            Expr::Member(b2, m2, s2) => m2 == m && s2 == sp && elaborated(*b2, *b, env, structs, enums),
            _ => false,
        },
        Expr::Unary(op, x, sp) => match o {
            Expr::Unary(op2, x2, s2) => op2 == op && s2 == sp && elaborated(*x2, *x, env, structs, enums),
            _ => false,
        },
        _ => o == i,
    }
}

/// Some node of `i` gets the `+` (`add`) or `*` width trap.
pub open spec fn elab_uses(i: Expr, add: bool, env: Seq<(Seq<char>, TyV)>, structs: Seq<Struct>, enums: Seq<Enum>) -> bool
    decreases i,
{
    (match uintn_rewrite(i, env, structs, enums) {
        Some((a, _)) => a == add,
        None => false,
    }) || match i {
        Expr::Bin(_, l, r, _) => elab_uses(*l, add, env, structs, enums) || elab_uses(*r, add, env, structs, enums),
        Expr::Call(_, args, _) => {
            proof {
                assert(decreases_to!(i => args));
                assert(decreases_to!(args => args@));
            }
            exists|q: int| 0 <= q < args@.len() && elab_uses(#[trigger] args@[q], add, env, structs, enums)
        },
        Expr::Index(b, k, _) => elab_uses(*b, add, env, structs, enums) || elab_uses(*k, add, env, structs, enums),
        Expr::Member(b, _, _) => elab_uses(*b, add, env, structs, enums),
        Expr::Unary(_, x, _) => elab_uses(*x, add, env, structs, enums),
        _ => false,
    }
}

/// The width trap of the original node, if any (see `uintn_rewrite`).
fn bin_uintn_rewrite(e: &Expr, env: &Vec<(String, SolTy)>, structs: &Vec<Struct>, enums: &Vec<Enum>) -> (r: Option<(bool, u16)>)
    requires
        env_ok(env_view(env@)),
    ensures
        r == uintn_rewrite(*e, env_view(env@), structs@, enums@),
        r matches Some((_, n)) ==> n <= 256,
{
    match e {
        Expr::Bin(op, l, r, span) => {
            let add = match op {
                BinOp::Add => true,
                _ => false,
            };
            let mul = match op {
                BinOp::Mul => true,
                _ => false,
            };
            if !add && !mul {
                return None;
            }
            let a = match infer(l, env, structs.as_slice(), enums.as_slice()) {
                Ok(t) => t,
                Err(_) => {
                    return None;
                },
            };
            let b = match infer(r, env, structs.as_slice(), enums.as_slice()) {
                Ok(t) => t,
                Err(_) => {
                    return None;
                },
            };
            match arith_result_ty(&a, &b, copy_span(span)) {
                Ok(SolTy::UintN(n)) => Some((add, n)),
                _ => None,
            }
        },
        _ => None,
    }
}

/// `helper(l, r, 2^n)` at `span`.
fn make_checked_call(add: bool, l: Expr, r: Expr, n: u16, span: &Range<usize>) -> (o: Expr)
    requires
        n <= 256,
    ensures
        checked_call(o, add, l, r, n, *span),
{
    let name = if add {
        String::from_str("__fe_add_checked")
    } else {
        String::from_str("__fe_mul_checked")
    };
    let mut args: Vec<Expr> = Vec::new();
    args.push(l);
    args.push(r);
    args.push(Expr::Num(pow2_decimal(n), copy_span(span)));
    Expr::Call(Box::new(Expr::Var(name, copy_span(span))), args, copy_span(span))
}

/// Width-traps every same-width `uintN` `+`/`*` of an expression (see `elaborated`),
/// recording which helpers it used.
pub fn elaborate(e: Expr, env: &Vec<(String, SolTy)>, structs: &Vec<Struct>, enums: &Vec<Enum>, h: &mut UintnHelpers) -> (o: Expr)
    requires
        env_ok(env_view(env@)),
    ensures
        elaborated(o, e, env_view(env@), structs@, enums@),
        o.spec_span() == e.spec_span(),
        final(h).add == (old(h).add || elab_uses(e, true, env_view(env@), structs@, enums@)),
        final(h).mul == (old(h).mul || elab_uses(e, false, env_view(env@), structs@, enums@)),
    decreases e,
{
    let ghost e0 = e;
    let ghost ev = env_view(env@);
    let rewrite = bin_uintn_rewrite(&e, env, structs, enums);
    let out = match e {
        Expr::Bin(op, l, r, sp) => {
            let l2 = elaborate(*l, env, structs, enums, h);
            let r2 = elaborate(*r, env, structs, enums, h);
            match rewrite {
                Some((add, n)) => {
                    if add {
                        h.add = true;
                    } else {
                        h.mul = true;
                    }
                    make_checked_call(add, l2, r2, n, &sp)
                },
                None => Expr::Bin(op, Box::new(l2), Box::new(r2), sp),
            }
        },
        Expr::Call(c, args, sp) => {
            let ghost a0 = args@;
            let ghost h0 = *h;
            let mut rest = args;
            let mut out: Vec<Expr> = Vec::new();
            let ghost mut k: int = 0;
            assert(a0.skip(0) =~= a0);
            while rest.len() > 0
                invariant
                    0 <= k <= a0.len(),
                    rest@ == a0.skip(k),
                    out@.len() == k,
                    e0 matches Expr::Call(_, ax, _) && ax@ == a0,
                    e0 == e,
                    ev == env_view(env@),
                    env_ok(ev),
                    forall|q: int| 0 <= q < k ==> elaborated(#[trigger] out@[q], a0[q], ev, structs@, enums@),
                    h.add == (h0.add || exists|q: int| 0 <= q < k && elab_uses(#[trigger] a0[q], true, ev, structs@, enums@)),
                    h.mul == (h0.mul || exists|q: int| 0 <= q < k && elab_uses(#[trigger] a0[q], false, ev, structs@, enums@)),
                decreases rest@.len(),
            {
                let a = rest.remove(0);
                proof {
                    assert(a == a0[k]);
                    assert(decreases_to!(e0 => e0->Call_1));
                    assert(decreases_to!(e0->Call_1 => e0->Call_1@));
                    assert(decreases_to!(e0->Call_1@ => e0->Call_1@[k]));
                    assert(decreases_to!(e0 => a));
                }
                out.push(elaborate(a, env, structs, enums, h));
                proof {
                    k = k + 1;
                }
                assert(rest@ =~= a0.skip(k));
            }
            Expr::Call(c, out, sp)
        },
        Expr::Index(b, k, sp) => {
            let b2 = elaborate(*b, env, structs, enums, h);
            let k2 = elaborate(*k, env, structs, enums, h);
            Expr::Index(Box::new(b2), Box::new(k2), sp)
        },
        Expr::Member(b, m, sp) => Expr::Member(Box::new(elaborate(*b, env, structs, enums, h)), m, sp),
        Expr::Unary(op, x, sp) => Expr::Unary(op, Box::new(elaborate(*x, env, structs, enums, h)), sp),
        other => other,
    };
    out
}

// ── Width traps in statements ────────────────────────────────────────────────

/// The type environment after a statement: a local whose type resolves is bound (a
/// reserved batch's transfer and writes are walked in the same environment).
pub open spec fn stmt_env(s: Stmt, env: Seq<(Seq<char>, TyV)>, structs: Seq<Struct>, enums: Seq<Enum>) -> Seq<(Seq<char>, TyV)>
    decreases s,
{
    match s {
        Stmt::LocalVar { name, ty, .. } => match resolve_spec(ty, TyPos::Local, structs, enums) {
            Ok(t) => env.push((name@, t)),
            Err(_) => env,
        },
        Stmt::ReservedBatch { transfer, writes, .. } => {
            proof {
                assert(decreases_to!(s => writes));
                assert(decreases_to!(writes => writes@));
            }
            let e1 = match transfer {
                Some(t) => {
                    proof {
                        assert(decreases_to!(s => transfer));
                        assert(decreases_to!(transfer => t));
                    }
                    stmt_env(*t, env, structs, enums)
                },
                None => env,
            };
            block_env(writes@, e1, structs, enums)
        },
        _ => env,
    }
}

pub open spec fn block_env(ss: Seq<Stmt>, env: Seq<(Seq<char>, TyV)>, structs: Seq<Struct>, enums: Seq<Enum>) -> Seq<(Seq<char>, TyV)>
    decreases ss,
{
    if ss.len() == 0 {
        env
    } else {
        stmt_env(ss.last(), block_env(ss.drop_last(), env, structs, enums), structs, enums)
    }
}

/// `o` is a checked helper call's frame: the helper for `add` at `sp`, three arguments, the
/// last `2^n`.
pub open spec fn checked_shape(o: Expr, add: bool, n: u16, sp: Range<usize>) -> bool {
    match o {
        Expr::Call(c, args, s) => {
            &&& s == sp
            &&& (match *c {
                Expr::Var(h, s1) => h@ == helper_name(add) && s1 == sp,
                _ => false,
            })
            &&& args@.len() == 3
            &&& match args@[2] {
                Expr::Num(t, s2) => t@ == ascii_chars(dec_bytes(pow_nat(2, n as nat))) && s2 == sp,
                _ => false,
            }
        },
        _ => false,
    }
}

/// The width a compound `+=`/`*=` on a target of type `tty` traps at.
pub open spec fn compound_width(op: AssignOp, tty: Option<TyV>) -> Option<u16> {
    if op is Plus || op is Star {
        match tty {
            Some(TyV::UintN(n)) => Some(n),
            _ => None,
        }
    } else {
        None
    }
}

/// The target read of an assignment to `target` at `sp`.
pub open spec fn var_lhs(e: Expr, target: Seq<char>, sp: Range<usize>) -> bool {
    match e {
        Expr::Var(n, s) => n@ == target && s == sp,
        _ => false,
    }
}

/// The target read of a field assignment `obj.field` at `sp`.
pub open spec fn field_lhs(e: Expr, obj: Seq<char>, field: Seq<char>, sp: Range<usize>) -> bool {
    match e {
        Expr::Member(b, f, s) => f@ == field && s == sp && match *b {
            Expr::Var(n, s1) => n@ == obj && s1 == sp,
            _ => false,
        },
        _ => false,
    }
}

/// The type of field `field` of the struct-typed binding `obj`.
pub open spec fn field_target_ty(env: Seq<(Seq<char>, TyV)>, obj: Seq<char>, field: Seq<char>, structs: Seq<Struct>, enums: Seq<Enum>) -> Option<TyV> {
    match env_lookup(env, obj) {
        Some(TyV::Named(sname)) => struct_field_spec(structs, enums, sname, field),
        _ => None,
    }
}

/// An assignment's new operator and value: a `+=`/`*=` on a `uintN` target becomes `=`
/// of the checked helper over the target's read (`lhs`) and the lowered value; any other
/// keeps its operator over the lowered value.
pub open spec fn compound_lowered(
    o_op: AssignOp,
    o_val: Expr,
    op: AssignOp,
    value: Expr,
    tty: Option<TyV>,
    lhs: spec_fn(Expr) -> bool,
    env: Seq<(Seq<char>, TyV)>,
    structs: Seq<Struct>,
    enums: Seq<Enum>,
) -> bool {
    match compound_width(op, tty) {
        Some(n) => o_op is Eq && checked_shape(o_val, op is Plus, n, value.spec_span()) && lhs(o_val->Call_1@[0])
            && elaborated(o_val->Call_1@[1], value, env, structs, enums),
        None => o_op == op && elaborated(o_val, value, env, structs, enums),
    }
}

/// `o` is statement `s` width-trapped in the environment `env` (every expression
/// elaborated, compound `+=`/`*=` on a `uintN` target rewritten, `if` branches in copies
/// of the environment); statements this pass does not look into are kept.
pub open spec fn uintn_stmt_lowered(o: Stmt, s: Stmt, env: Seq<(Seq<char>, TyV)>, structs: Seq<Struct>, enums: Seq<Enum>) -> bool
    decreases s,
{
    let rd = |x: Expr, y: Expr| elaborated(x, y, env, structs, enums);
    match (s, o) {
        (Stmt::Require { cond, span }, Stmt::Require { cond: c2, span: s2 }) => rd(c2, cond) && s2 == span,
        (Stmt::Assert { cond, span }, Stmt::Assert { cond: c2, span: s2 }) => rd(c2, cond) && s2 == span,
        (Stmt::Return { value: Some(v), span }, Stmt::Return { value: Some(w), span: s2 }) => rd(w, v) && s2 == span,
        (Stmt::LocalVar { name, ty, value, span }, Stmt::LocalVar { name: n2, ty: t2, value: v2, span: s2 }) => n2
            == name && t2 == ty && rd(v2, value) && s2 == span,
        (Stmt::Assign { target, op, value, span }, Stmt::Assign { target: t2, op: o2, value: v2, span: s2 }) => t2
            == target && s2 == span && compound_lowered(
            o2,
            v2,
            op,
            value,
            env_lookup(env, target@),
            |e: Expr| var_lhs(e, target@, value.spec_span()),
            env,
            structs,
            enums,
        ),
        (
            Stmt::FieldAssign { obj, field, op, value, span },
            Stmt::FieldAssign { obj: b2x, field: f2, op: o2, value: v2, span: s2 },
        ) => b2x == obj && f2 == field && s2 == span && compound_lowered(
            o2,
            v2,
            op,
            value,
            field_target_ty(env, obj@, field@, structs, enums),
            |e: Expr| field_lhs(e, obj@, field@, value.spec_span()),
            env,
            structs,
            enums,
        ),
        (
            Stmt::IndexAssign { map, key, op, value, span },
            Stmt::IndexAssign { map: m2, key: k2, op: o2, value: v2, span: s2 },
        ) => m2 == map && o2 == op && s2 == span && rd(k2, key) && rd(v2, value),
        (
            Stmt::IndexAssign2 { map, k1, k2, op, value, span },
            Stmt::IndexAssign2 { map: m2, k1: a2, k2: c2, op: o2, value: v2, span: s2 },
        ) => m2 == map && o2 == op && s2 == span && rd(a2, k1) && rd(c2, k2) && rd(v2, value),
        (
            Stmt::MapTransfer { map, from, to, amount, span },
            Stmt::MapTransfer { map: m2, from: f2, to: t2, amount: a2, span: s2 },
        ) => m2 == map && s2 == span && rd(f2, from) && rd(t2, to) && rd(a2, amount),
        (
            Stmt::Erc20TransferFrom { bal_map, alw_map, from, spender, to, amount, oz5_infinite, span },
            Stmt::Erc20TransferFrom {
                bal_map: bm2,
                alw_map: am2,
                from: f2,
                spender: p2,
                to: t2,
                amount: a2,
                oz5_infinite: z2,
                span: s2,
            },
        ) => bm2 == bal_map && am2 == alw_map && z2 == oz5_infinite && s2 == span && rd(f2, from) && rd(p2, spender)
            && rd(t2, to) && rd(a2, amount),
        (
            Stmt::MapSplitTransfer { map, from, amount, to, net, fee_to, fee, span },
            Stmt::MapSplitTransfer { map: m2, from: f2, amount: a2, to: t2, net: n2, fee_to: x2, fee: y2, span: s2 },
        ) => m2 == map && s2 == span && rd(f2, from) && rd(a2, amount) && rd(t2, to) && rd(n2, net) && rd(x2, fee_to)
            && rd(y2, fee),
        (
            Stmt::Erc20Update { map, ts_field, from, to, value, span },
            Stmt::Erc20Update { map: m2, ts_field: ts2, from: f2, to: t2, value: v2, span: s2 },
        ) => m2 == map && ts2 == ts_field && s2 == span && rd(f2, from) && rd(t2, to) && rd(v2, value),
        (
            Stmt::BatchTransfer { map, from, recipients, amounts, span },
            Stmt::BatchTransfer { map: m2, from: f2, recipients: r2, amounts: a2, span: s2 },
        ) => m2 == map && r2 == recipients && a2 == amounts && s2 == span && rd(f2, from),
        (
            Stmt::If { cond, then_body, else_body, span },
            Stmt::If { cond: c2, then_body: t2, else_body: e2, span: s2 },
        ) => {
            proof {
                assert(decreases_to!(s => then_body));
                assert(decreases_to!(then_body => then_body@));
                assert(decreases_to!(s => else_body));
                assert(decreases_to!(else_body => else_body@));
            }
            rd(c2, cond) && s2 == span && uintn_block_lowered(t2@, then_body@, env, structs, enums) && uintn_block_lowered(
                e2@,
                else_body@,
                env,
                structs,
                enums,
            )
        },
        (
            Stmt::ReservedBatch { transfer, writes, span },
            Stmt::ReservedBatch { transfer: tr2, writes: w2, span: s2 },
        ) => {
            proof {
                assert(decreases_to!(s => writes));
                assert(decreases_to!(writes => writes@));
            }
            s2 == span && match (transfer, tr2) {
                (None, None) => uintn_block_lowered(w2@, writes@, env, structs, enums),
                (Some(a), Some(b)) => {
                    proof {
                        assert(decreases_to!(s => transfer));
                        assert(decreases_to!(transfer => a));
                    }
                    uintn_stmt_lowered(*b, *a, env, structs, enums) && uintn_block_lowered(
                        w2@,
                        writes@,
                        stmt_env(*a, env, structs, enums),
                        structs,
                        enums,
                    )
                },
                _ => false,
            }
        },
        (Stmt::Return { value: None, .. }, _) => o == s,
        (Stmt::Revert { .. }, _) => o == s,
        (Stmt::CallStmt { .. }, _) => o == s,
        (Stmt::AirdropLoop { .. }, _) => o == s,
        (Stmt::Unchecked { .. }, _) => o == s,
        (Stmt::Placeholder { .. }, _) => o == s,
        _ => false,
    }
}

pub open spec fn uintn_block_lowered(o: Seq<Stmt>, i: Seq<Stmt>, env: Seq<(Seq<char>, TyV)>, structs: Seq<Struct>, enums: Seq<Enum>) -> bool
    decreases i,
{
    o.len() == i.len() && forall|k: int|
        0 <= k < i.len() ==> uintn_stmt_lowered(#[trigger] o[k], i[k], block_env(i.take(k), env, structs, enums), structs, enums)
}

/// Some width trap a statement's lowering uses for `+` (`add`) or `*`.
pub open spec fn stmt_uses(s: Stmt, add: bool, env: Seq<(Seq<char>, TyV)>, structs: Seq<Struct>, enums: Seq<Enum>) -> bool
    decreases s,
{
    let ex = |e: Expr| elab_uses(e, add, env, structs, enums);
    match s {
        Stmt::Require { cond, .. } => ex(cond),
        Stmt::Assert { cond, .. } => ex(cond),
        Stmt::Return { value, .. } => match value {
            Some(v) => ex(v),
            None => false,
        },
        Stmt::LocalVar { value, .. } => ex(value),
        Stmt::Assign { target, op, value, .. } => ex(value) || (compound_width(op, env_lookup(env, target@)) is Some
            && (op is Plus) == add),
        Stmt::FieldAssign { obj, field, op, value, .. } => ex(value) || (compound_width(
            op,
            field_target_ty(env, obj@, field@, structs, enums),
        ) is Some && (op is Plus) == add),
        Stmt::IndexAssign { key, value, .. } => ex(key) || ex(value),
        Stmt::IndexAssign2 { k1, k2, value, .. } => ex(k1) || ex(k2) || ex(value),
        Stmt::MapTransfer { from, to, amount, .. } => ex(from) || ex(to) || ex(amount),
        Stmt::Erc20TransferFrom { from, spender, to, amount, .. } => ex(from) || ex(spender) || ex(to) || ex(amount),
        Stmt::MapSplitTransfer { from, amount, to, net, fee_to, fee, .. } => ex(from) || ex(amount) || ex(to) || ex(net)
            || ex(fee_to) || ex(fee),
        Stmt::Erc20Update { from, to, value, .. } => ex(from) || ex(to) || ex(value),
        Stmt::BatchTransfer { from, .. } => ex(from),
        Stmt::If { cond, then_body, else_body, .. } => {
            proof {
                assert(decreases_to!(s => then_body));
                assert(decreases_to!(then_body => then_body@));
                assert(decreases_to!(s => else_body));
                assert(decreases_to!(else_body => else_body@));
            }
            ex(cond) || block_uses(then_body@, add, env, structs, enums) || block_uses(else_body@, add, env, structs, enums)
        },
        Stmt::ReservedBatch { transfer, writes, .. } => {
            proof {
                assert(decreases_to!(s => writes));
                assert(decreases_to!(writes => writes@));
            }
            match transfer {
                Some(t) => {
                    proof {
                        assert(decreases_to!(s => transfer));
                        assert(decreases_to!(transfer => t));
                    }
                    stmt_uses(*t, add, env, structs, enums) || block_uses(
                        writes@,
                        add,
                        stmt_env(*t, env, structs, enums),
                        structs,
                        enums,
                    )
                },
                None => block_uses(writes@, add, env, structs, enums),
            }
        },
        _ => false,
    }
}

pub open spec fn block_uses(ss: Seq<Stmt>, add: bool, env: Seq<(Seq<char>, TyV)>, structs: Seq<Struct>, enums: Seq<Enum>) -> bool
    decreases ss,
{
    if ss.len() == 0 {
        false
    } else {
        block_uses(ss.drop_last(), add, env, structs, enums) || stmt_uses(
            ss.last(),
            add,
            block_env(ss.drop_last(), env, structs, enums),
            structs,
            enums,
        )
    }
}

/// A `+=`/`*=` on a `uintN` target becomes `=` of the checked helper over `lhs` and the
/// (lowered) value; any other assignment keeps its operator and value.
fn rewrite_compound(op: AssignOp, value: Expr, target_ty: Option<SolTy>, lhs: Expr, h: &mut UintnHelpers) -> (r: (AssignOp, Expr))
    requires
        target_ty matches Some(t) ==> ty_wf(t@),
    ensures
        match compound_width(op, match target_ty { Some(t) => Some(t@), None => None }) {
            Some(n) => r.0 is Eq && checked_call(r.1, op is Plus, lhs, value, n, value.spec_span()) && final(h).add == (old(h).add || op is Plus)
                && final(h).mul == (old(h).mul || op is Star),
            None => r.0 == op && r.1 == value && *final(h) == *old(h),
        },
{
    let n: u16 = match (&op, &target_ty) {
        (AssignOp::Plus, Some(SolTy::UintN(n))) => *n,
        (AssignOp::Star, Some(SolTy::UintN(n))) => *n,
        _ => {
            return (op, value);
        },
    };
    let add = match op {
        AssignOp::Plus => true,
        _ => false,
    };
    if add {
        h.add = true;
    } else {
        h.mul = true;
    }
    let span = value.span();
    (AssignOp::Eq, make_checked_call(add, lhs, value, n, &span))
}

/// Width-traps one statement (see `uintn_stmt_lowered`), binding its local.
#[verifier::rlimit(100)]
#[verifier::spinoff_prover]
fn lower_stmt(s: Stmt, env: &mut Vec<(String, SolTy)>, structs: &Vec<Struct>, enums: &Vec<Enum>, h: &mut UintnHelpers) -> (o: Stmt)
    requires
        env_ok(env_view(old(env)@)),
    ensures
        env_ok(env_view(final(env)@)),
        uintn_stmt_lowered(o, s, env_view(old(env)@), structs@, enums@),
        env_view(final(env)@) == stmt_env(s, env_view(old(env)@), structs@, enums@),
        final(h).add == (old(h).add || stmt_uses(s, true, env_view(old(env)@), structs@, enums@)),
        final(h).mul == (old(h).mul || stmt_uses(s, false, env_view(old(env)@), structs@, enums@)),
    decreases s,
{
    let ghost s0 = s;
    let ghost ev = env_view(env@);
    match s {
        Stmt::Require { cond, span } => Stmt::Require { cond: elaborate(cond, env, structs, enums, h), span },
        Stmt::Assert { cond, span } => Stmt::Assert { cond: elaborate(cond, env, structs, enums, h), span },
        Stmt::Return { value, span } => match value {
            Some(v) => Stmt::Return { value: Some(elaborate(v, env, structs, enums, h)), span },
            None => Stmt::Return { value: None, span },
        },
        Stmt::LocalVar { name, ty, value, span } => {
            let value = elaborate(value, env, structs, enums, h);
            match resolve_ty(&ty, TyPos::Local, structs.as_slice(), enums.as_slice()) {
                Ok(t) => {
                    env.push((clone_string(&name), t));
                    proof {
                        assert(env_view(env@) =~= ev.push((name@, env@.last().1@)));
                    }
                },
                Err(_) => {},
            }
            Stmt::LocalVar { name, ty, value, span }
        },
        Stmt::Assign { target, op, value, span } => {
            let value = elaborate(value, env, structs, enums, h);
            let tty = lookup_env(env, target.as_str());
            let vsp = value.span();
            let lhs = Expr::Var(clone_string(&target), vsp);
            let (op, value) = rewrite_compound(op, value, tty, lhs, h);
            Stmt::Assign { target, op, value, span }
        },
        Stmt::FieldAssign { obj, field, op, value, span } => {
            let value = elaborate(value, env, structs, enums, h);
            let fty = match lookup_env(env, obj.as_str()) {
                Some(SolTy::Named(sname)) => struct_field_ty(structs.as_slice(), enums.as_slice(), sname.as_str(), field.as_str()),
                _ => None,
            };
            let vsp = value.span();
            let lhs = Expr::Member(Box::new(Expr::Var(clone_string(&obj), copy_span(&vsp))), clone_string(&field), vsp);
            let (op, value) = rewrite_compound(op, value, fty, lhs, h);
            Stmt::FieldAssign { obj, field, op, value, span }
        },
        Stmt::IndexAssign { map, key, op, value, span } => {
            let key = elaborate(key, env, structs, enums, h);
            let value = elaborate(value, env, structs, enums, h);
            Stmt::IndexAssign { map, key, op, value, span }
        },
        Stmt::IndexAssign2 { map, k1, k2, op, value, span } => {
            let k1 = elaborate(k1, env, structs, enums, h);
            let k2 = elaborate(k2, env, structs, enums, h);
            let value = elaborate(value, env, structs, enums, h);
            Stmt::IndexAssign2 { map, k1, k2, op, value, span }
        },
        Stmt::MapTransfer { map, from, to, amount, span } => {
            let from = elaborate(from, env, structs, enums, h);
            let to = elaborate(to, env, structs, enums, h);
            let amount = elaborate(amount, env, structs, enums, h);
            Stmt::MapTransfer { map, from, to, amount, span }
        },
        Stmt::MapSplitTransfer { map, from, amount, to, net, fee_to, fee, span } => {
            let from = elaborate(from, env, structs, enums, h);
            let amount = elaborate(amount, env, structs, enums, h);
            let to = elaborate(to, env, structs, enums, h);
            let net = elaborate(net, env, structs, enums, h);
            let fee_to = elaborate(fee_to, env, structs, enums, h);
            let fee = elaborate(fee, env, structs, enums, h);
            Stmt::MapSplitTransfer { map, from, amount, to, net, fee_to, fee, span }
        },
        Stmt::Erc20Update { map, ts_field, from, to, value, span } => {
            let from = elaborate(from, env, structs, enums, h);
            let to = elaborate(to, env, structs, enums, h);
            let value = elaborate(value, env, structs, enums, h);
            Stmt::Erc20Update { map, ts_field, from, to, value, span }
        },
        Stmt::Erc20TransferFrom { bal_map, alw_map, from, spender, to, amount, oz5_infinite, span } => {
            let from = elaborate(from, env, structs, enums, h);
            let spender = elaborate(spender, env, structs, enums, h);
            let to = elaborate(to, env, structs, enums, h);
            let amount = elaborate(amount, env, structs, enums, h);
            Stmt::Erc20TransferFrom { bal_map, alw_map, from, spender, to, amount, oz5_infinite, span }
        },
        Stmt::BatchTransfer { map, from, recipients, amounts, span } => {
            let from = elaborate(from, env, structs, enums, h);
            Stmt::BatchTransfer { map, from, recipients, amounts, span }
        },
        Stmt::If { cond, then_body, else_body, span } => {
            let cond = elaborate(cond, env, structs, enums, h);
            let mut t_env = clone_env(env);
            let then_body = lower_stmts(then_body, &mut t_env, structs, enums, h);
            let mut e_env = clone_env(env);
            let else_body = lower_stmts(else_body, &mut e_env, structs, enums, h);
            Stmt::If { cond, then_body, else_body, span }
        },
        Stmt::ReservedBatch { transfer, writes, span } => {
            let transfer = match transfer {
                Some(t) => Some(Box::new(lower_stmt(*t, env, structs, enums, h))),
                None => None,
            };
            let writes = lower_stmts(writes, env, structs, enums, h);
            Stmt::ReservedBatch { transfer, writes, span }
        },
        other => other,
    }
}

/// Width-traps a block (see `uintn_block_lowered`), each local bound for the statements
/// after it.
pub fn lower_stmts(stmts: Vec<Stmt>, env: &mut Vec<(String, SolTy)>, structs: &Vec<Struct>, enums: &Vec<Enum>, h: &mut UintnHelpers) -> (r: Vec<Stmt>)
    requires
        env_ok(env_view(old(env)@)),
    ensures
        env_ok(env_view(final(env)@)),
        uintn_block_lowered(r@, stmts@, env_view(old(env)@), structs@, enums@),
        env_view(final(env)@) == block_env(stmts@, env_view(old(env)@), structs@, enums@),
        final(h).add == (old(h).add || block_uses(stmts@, true, env_view(old(env)@), structs@, enums@)),
        final(h).mul == (old(h).mul || block_uses(stmts@, false, env_view(old(env)@), structs@, enums@)),
    decreases stmts,
{
    let ghost g = stmts;
    let ghost orig = stmts@;
    let ghost e0 = env_view(env@);
    let ghost h0 = *h;
    let mut rest = stmts;
    let mut out: Vec<Stmt> = Vec::new();
    let ghost mut k: int = 0;
    assert(orig.take(0) =~= Seq::<Stmt>::empty());
    while rest.len() > 0
        invariant
            0 <= k <= orig.len(),
            rest@ == orig.skip(k),
            orig == g@,
            g == stmts,
            e0 == env_view(old(env)@),
            h0 == *old(h),
            env_ok(env_view(env@)),
            out@.len() == k,
            env_view(env@) == block_env(orig.take(k), e0, structs@, enums@),
            h.add == (h0.add || block_uses(orig.take(k), true, e0, structs@, enums@)),
            h.mul == (h0.mul || block_uses(orig.take(k), false, e0, structs@, enums@)),
            forall|q: int| 0 <= q < k ==> uintn_stmt_lowered(#[trigger] out@[q], orig[q], block_env(orig.take(q), e0, structs@, enums@), structs@, enums@),
        decreases rest@.len(),
    {
        let s = rest.remove(0);
        proof {
            assert(s == orig[k]);
            assert(orig.take(k + 1).drop_last() =~= orig.take(k));
            assert(orig.take(k + 1).last() == s);
            assert(decreases_to!(g => g@));
            assert(decreases_to!(g@ => g@[k]));
            assert(decreases_to!(g => s));
        }
        out.push(lower_stmt(s, env, structs, enums, h));
        proof {
            k = k + 1;
        }
        assert(rest@ =~= orig.skip(k));
    }
    assert(orig.take(k) =~= orig);
    out
}

// ── Width traps in a contract ────────────────────────────────────────────────

/// The environment of the state fields whose types resolve, in order.
pub open spec fn state_env(state: Seq<StateVar>, structs: Seq<Struct>, enums: Seq<Enum>) -> Seq<(Seq<char>, TyV)>
    decreases state.len(),
{
    if state.len() == 0 {
        Seq::empty()
    } else {
        let e = state_env(state.drop_last(), structs, enums);
        match resolve_spec(state.last().ty, TyPos::StateField, structs, enums) {
            Ok(t) => e.push((state.last().name@, t)),
            Err(_) => e,
        }
    }
}

/// `env` extended with the parameters whose types resolve, in order.
pub open spec fn with_params(params: Seq<Param>, env: Seq<(Seq<char>, TyV)>, structs: Seq<Struct>, enums: Seq<Enum>) -> Seq<(Seq<char>, TyV)>
    decreases params.len(),
{
    if params.len() == 0 {
        env
    } else {
        let e = with_params(params.drop_last(), env, structs, enums);
        match resolve_spec(params.last().ty, TyPos::Param, structs, enums) {
            Ok(t) => e.push((params.last().name@, t)),
            Err(_) => e,
        }
    }
}

/// The environment a body is lowered in: the state fields, then the parameters.
pub open spec fn body_env(c: Contract, params: Seq<Param>) -> Seq<(Seq<char>, TyV)> {
    with_params(params, state_env(c.state@, c.structs@, c.enums@), c.structs@, c.enums@)
}

/// Some function or constructor body uses the helper for `+` (`add`) or `*`.
pub open spec fn contract_uses(c: Contract, add: bool) -> bool {
    (exists|j: int|
        0 <= j < c.functions@.len() && block_uses(
            (#[trigger] c.functions@[j]).body@,
            add,
            body_env(c, c.functions@[j].params@),
            c.structs@,
            c.enums@,
        )) || match c.constructor {
        Some(k) => block_uses(k.body@, add, body_env(c, k.params@), c.structs@, c.enums@),
        None => false,
    }
}

fn env_with(params: &Vec<Param>, base: &Vec<(String, SolTy)>, structs: &Vec<Struct>, enums: &Vec<Enum>) -> (r: Vec<(String, SolTy)>)
    requires
        env_ok(env_view(base@)),
    ensures
        env_ok(env_view(r@)),
        env_view(r@) == with_params(params@, env_view(base@), structs@, enums@),
{
    let mut env = clone_env(base);
    let mut k: usize = 0;
    assert(params@.take(0) =~= Seq::<Param>::empty());
    while k < params.len()
        invariant
            k <= params@.len(),
            env_ok(env_view(env@)),
            env_view(env@) == with_params(params@.take(k as int), env_view(base@), structs@, enums@),
        decreases params@.len() - k,
    {
        proof {
            assert(params@.take(k + 1).drop_last() =~= params@.take(k as int));
            assert(params@.take(k + 1).last() == params@[k as int]);
        }
        let ghost ev = env_view(env@);
        match resolve_ty(&params[k].ty, TyPos::Param, structs.as_slice(), enums.as_slice()) {
            Ok(t) => {
                env.push((clone_string(&params[k].name), t));
                proof {
                    assert(env_view(env@) =~= ev.push((params@[k as int].name@, env@.last().1@)));
                }
            },
            Err(_) => {},
        }
        k = k + 1;
    }
    assert(params@.take(k as int) =~= params@);
    env
}

fn lower_fn_uintn(f: &mut Function, base: &Vec<(String, SolTy)>, structs: &Vec<Struct>, enums: &Vec<Enum>, h: &mut UintnHelpers)
    requires
        env_ok(env_view(base@)),
    ensures
        ({
            let env = with_params(old(f).params@, env_view(base@), structs@, enums@);
            &&& same_header(*final(f), *old(f))
            &&& final(f).modifiers == old(f).modifiers
            &&& uintn_block_lowered(final(f).body@, old(f).body@, env, structs@, enums@)
            &&& final(h).add == (old(h).add || block_uses(old(f).body@, true, env, structs@, enums@))
            &&& final(h).mul == (old(h).mul || block_uses(old(f).body@, false, env, structs@, enums@))
        }),
{
    let mut env = env_with(&f.params, base, structs, enums);
    let mut body: Vec<Stmt> = Vec::new();
    std::mem::swap(&mut body, &mut f.body);
    f.body = lower_stmts(body, &mut env, structs, enums, h);
}

/// Width-traps every same-width `uintN` `+`/`*` (and `+=`/`*=` on a `uintN` target) in
/// every function and constructor body (see `uintn_block_lowered`), each body in the
/// environment of the state fields and its parameters; returns which helpers it used.
pub fn lower_uintn_arith(p: &mut Program) -> (h: UintnHelpers)
    ensures
        ({
            let c = old(p).contract;
            &&& same_but_bodies(final(p).contract, c)
            &&& forall|j: int|
                0 <= j < c.functions@.len() ==> {
                    let g = #[trigger] final(p).contract.functions@[j];
                    let f = c.functions@[j];
                    same_header(g, f) && g.modifiers == f.modifiers && uintn_block_lowered(
                        g.body@,
                        f.body@,
                        body_env(c, f.params@),
                        c.structs@,
                        c.enums@,
                    )
                }
            &&& c.constructor is Some ==> uintn_block_lowered(
                final(p).contract.constructor->Some_0.body@,
                c.constructor->Some_0.body@,
                body_env(c, c.constructor->Some_0.params@),
                c.structs@,
                c.enums@,
            )
            &&& h.add == contract_uses(c, true)
            &&& h.mul == contract_uses(c, false)
        }),
{
    let ghost c0 = p.contract;
    let mut base: Vec<(String, SolTy)> = Vec::new();
    let mut k: usize = 0;
    assert(c0.state@.take(0) =~= Seq::<StateVar>::empty());
    while k < p.contract.state.len()
        invariant
            k <= p.contract.state@.len(),
            p.contract == c0,
            env_ok(env_view(base@)),
            env_view(base@) == state_env(c0.state@.take(k as int), c0.structs@, c0.enums@),
        decreases p.contract.state@.len() - k,
    {
        proof {
            assert(c0.state@.take(k + 1).drop_last() =~= c0.state@.take(k as int));
            assert(c0.state@.take(k + 1).last() == c0.state@[k as int]);
        }
        let ghost ev = env_view(base@);
        match resolve_ty(&p.contract.state[k].ty, TyPos::StateField, p.contract.structs.as_slice(), p.contract.enums.as_slice()) {
            Ok(t) => {
                base.push((clone_string(&p.contract.state[k].name), t));
                proof {
                    assert(env_view(base@) =~= ev.push((c0.state@[k as int].name@, base@.last().1@)));
                }
            },
            Err(_) => {},
        }
        k = k + 1;
    }
    assert(c0.state@.take(k as int) =~= c0.state@);
    let mut h = UintnHelpers { add: false, mul: false };
    let mut fi: usize = 0;
    while fi < p.contract.functions.len()
        invariant
            fi <= p.contract.functions@.len(),
            same_but_bodies(p.contract, c0),
            p.contract.constructor == c0.constructor,
            p.contract.structs == c0.structs,
            p.contract.enums == c0.enums,
            env_ok(env_view(base@)),
            env_view(base@) == state_env(c0.state@, c0.structs@, c0.enums@),
            forall|j: int| 0 <= j < fi ==> {
                let g = #[trigger] p.contract.functions@[j];
                let f = c0.functions@[j];
                same_header(g, f) && g.modifiers == f.modifiers && uintn_block_lowered(
                    g.body@,
                    f.body@,
                    body_env(c0, f.params@),
                    c0.structs@,
                    c0.enums@,
                )
            },
            forall|j: int| fi <= j < p.contract.functions@.len() ==> #[trigger] p.contract.functions@[j] == c0.functions@[j],
            h.add == exists|j: int| 0 <= j < fi && block_uses((#[trigger] c0.functions@[j]).body@, true, body_env(c0, c0.functions@[j].params@), c0.structs@, c0.enums@),
            h.mul == exists|j: int| 0 <= j < fi && block_uses((#[trigger] c0.functions@[j]).body@, false, body_env(c0, c0.functions@[j].params@), c0.structs@, c0.enums@),
        decreases p.contract.functions@.len() - fi,
    {
        let ghost before = p.contract.functions@;
        lower_fn_uintn(&mut p.contract.functions[fi], &base, &p.contract.structs, &p.contract.enums, &mut h);
        proof {
            assert(p.contract.functions@ == before.update(fi as int, p.contract.functions@[fi as int]));
        }
        fi = fi + 1;
    }
    match &mut p.contract.constructor {
        Some(ctor) => {
            let mut env = env_with(&ctor.params, &base, &p.contract.structs, &p.contract.enums);
            let mut body: Vec<Stmt> = Vec::new();
            std::mem::swap(&mut body, &mut ctor.body);
            ctor.body = lower_stmts(body, &mut env, &p.contract.structs, &p.contract.enums, &mut h);
        },
        None => {},
    }
    h
}

} // verus!
