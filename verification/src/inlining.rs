//! Modifier inlining: every applied modifier is spliced around the function it guards, its
//! single `_` replaced by the host body, with parameterized modifiers bound eval-once and
//! their parameter references renamed apart.

use crate::cap_guards::{first_reference, lemma_names_push, name_in, names_has, stmts_ref_span};
use crate::check::texts_view;
use crate::codes;
use crate::diag::{copy_span, FrontendDiag};
use crate::parser::{discard_safe, emit_arg_discard_safe, placeholders, Contract, Expr, Function, Modifier, ModifierApp, Param, StateVar, Stmt, TypeRef, MAX_NEST_DEPTH};
use crate::text::{clone_string, concat_str, dec_chars, str_eq, string_eq_str, usize_decimal};
use std::ops::Range;
use vstd::prelude::*;

verus! {

// ── Renaming ─────────────────────────────────────────────────────────────────

/// A name after renaming: prefixed when it is one of `names`.
pub open spec fn renamed_name(n: Seq<char>, names: Seq<Seq<char>>, prefix: Seq<char>) -> Seq<char> {
    if names.contains(n) {
        prefix + n
    } else {
        n
    }
}

/// Two type expressions are the same up to the texts of their names.
pub open spec fn same_type(o: TypeRef, i: TypeRef) -> bool
    decreases i,
{
    match (i, o) {
        (TypeRef::Scalar { name, span }, TypeRef::Scalar { name: n2, span: s2 }) => n2@ == name@ && s2 == span,
        (TypeRef::Mapping { key, value, span }, TypeRef::Mapping { key: k2, value: v2, span: s2 }) => same_type(*k2, *key)
            && same_type(*v2, *value) && s2 == span,
        (TypeRef::Array { elem, span }, TypeRef::Array { elem: e2, span: s2 }) => same_type(*e2, *elem) && s2 == span,
        _ => false,
    }
}

/// `o` is `i` with every name of `names` it reads renamed (see `renamed_name`); everything
/// else is kept.
pub open spec fn expr_renamed(o: Expr, i: Expr, names: Seq<Seq<char>>, prefix: Seq<char>) -> bool
    decreases i,
{
    match (i, o) {
        (Expr::Num(t, s), Expr::Num(t2, s2)) => t2@ == t@ && s2 == s,
        (Expr::Bool(b, s), Expr::Bool(b2, s2)) => b2 == b && s2 == s,
        (Expr::Var(n, s), Expr::Var(n2, s2)) => n2@ == renamed_name(n@, names, prefix) && s2 == s,
        (Expr::Member(b, m, s), Expr::Member(b2, m2, s2)) => expr_renamed(*b2, *b, names, prefix) && m2@ == m@
            && s2 == s,
        (Expr::Call(c, args, s), Expr::Call(c2, args2, s2)) => expr_renamed(*c2, *c, names, prefix) && args2@.len()
            == args@.len() && (forall|k: int|
            0 <= k < args@.len() ==> expr_renamed(#[trigger] args2@[k], args@[k], names, prefix)) && s2 == s,
        (Expr::Index(b, k, s), Expr::Index(b2, k2, s2)) => expr_renamed(*b2, *b, names, prefix) && expr_renamed(
            *k2,
            *k,
            names,
            prefix,
        ) && s2 == s,
        (Expr::Unary(op, b, s), Expr::Unary(op2, b2, s2)) => op2 == op && expr_renamed(*b2, *b, names, prefix) && s2
            == s,
        (Expr::Bin(op, l, r, s), Expr::Bin(op2, l2, r2, s2)) => op2 == op && expr_renamed(*l2, *l, names, prefix)
            && expr_renamed(*r2, *r, names, prefix) && s2 == s,
        _ => false,
    }
}

/// Renames every reference and every binding or write target of `names` (see
/// `renamed_name`) in an expression (a fresh copy).
pub fn rename_expr(e: &Expr, names: &Vec<String>, prefix: &str) -> (r: Expr)
    ensures
        expr_renamed(r, *e, texts_view(names@), prefix@),
    decreases e,
{
    match e {
        Expr::Num(t, s) => Expr::Num(clone_string(t), copy_span(s)),
        Expr::Bool(b, s) => Expr::Bool(*b, copy_span(s)),
        Expr::Var(n, s) => Expr::Var(rename_name(n, names, prefix), copy_span(s)),
        Expr::Member(b, m, s) => Expr::Member(Box::new(rename_expr(b, names, prefix)), clone_string(m), copy_span(s)),
        Expr::Call(c, args, s) => {
            let c2 = rename_expr(c, names, prefix);
            let mut out: Vec<Expr> = Vec::new();
            let mut k: usize = 0;
            while k < args.len()
                invariant
                    k <= args@.len(),
                    out@.len() == k,
                    *e == Expr::Call(*c, *args, e.spec_span()),
                    forall|j: int| 0 <= j < k ==> expr_renamed(#[trigger] out@[j], args@[j], texts_view(names@), prefix@),
                decreases args@.len() - k,
            {
                proof {
                    assert(decreases_to!(*e => (*e)->Call_1));
                    assert(decreases_to!(*args => args[k as int]));
                }
                out.push(rename_expr(&args[k], names, prefix));
                k = k + 1;
            }
            Expr::Call(Box::new(c2), out, copy_span(s))
        },
        Expr::Index(b, k, s) => Expr::Index(Box::new(rename_expr(b, names, prefix)), Box::new(rename_expr(k, names, prefix)), copy_span(s)),
        Expr::Unary(op, b, s) => Expr::Unary(*op, Box::new(rename_expr(b, names, prefix)), copy_span(s)),
        Expr::Bin(op, l, r, s) => Expr::Bin(*op, Box::new(rename_expr(l, names, prefix)), Box::new(rename_expr(r, names, prefix)), copy_span(s)),
    }
}

fn name_listed(names: &Vec<String>, n: &str) -> (r: bool)
    ensures
        r == texts_view(names@).contains(n@),
{
    let mut i: usize = 0;
    while i < names.len()
        invariant
            i <= names@.len(),
            forall|j: int| 0 <= j < i ==> (#[trigger] names@[j])@ != n@,
        decreases names@.len() - i,
    {
        if string_eq_str(&names[i], n) {
            assert(texts_view(names@)[i as int] == n@);
            return true;
        }
        i = i + 1;
    }
    proof {
        if texts_view(names@).contains(n@) {
            let j = choose|j: int| 0 <= j < texts_view(names@).len() && texts_view(names@)[j] == n@;
            assert(names@[j]@ == n@);
        }
    }
    false
}

/// A name after renaming (see `renamed_name`).
pub fn rename_name(n: &String, names: &Vec<String>, prefix: &str) -> (r: String)
    ensures
        r@ == renamed_name(n@, texts_view(names@), prefix@),
{
    if name_listed(names, n.as_str()) {
        let mut p = String::new();
        p = concat_str(p, prefix);
        concat_str(p, n.as_str())
    } else {
        clone_string(n)
    }
}

/// A copy of a type expression.
pub fn copy_type(t: &TypeRef) -> (r: TypeRef)
    ensures
        same_type(r, *t),
    decreases t,
{
    match t {
        TypeRef::Scalar { name, span } => TypeRef::Scalar { name: clone_string(name), span: copy_span(span) },
        TypeRef::Mapping { key, value, span } => TypeRef::Mapping {
            key: Box::new(copy_type(key)),
            value: Box::new(copy_type(value)),
            span: copy_span(span),
        },
        TypeRef::Array { elem, span } => TypeRef::Array { elem: Box::new(copy_type(elem)), span: copy_span(span) },
    }
}

/// Every statement of `o` is the renamed statement of `i` at the same place.
pub open spec fn stmts_renamed(o: Seq<Stmt>, i: Seq<Stmt>, names: Seq<Seq<char>>, prefix: Seq<char>) -> bool
    decreases i,
{
    o.len() == i.len() && forall|k: int| 0 <= k < i.len() ==> stmt_renamed(#[trigger] o[k], i[k], names, prefix)
}

/// Every expression of `o` is the renamed expression of `i` at the same place.
pub open spec fn exprs_renamed(o: Seq<Expr>, i: Seq<Expr>, names: Seq<Seq<char>>, prefix: Seq<char>) -> bool {
    o.len() == i.len() && forall|k: int| 0 <= k < i.len() ==> expr_renamed(#[trigger] o[k], i[k], names, prefix)
}

/// `o` is `i` with the names of `names` renamed in every reference and in every binding or
/// write target (local, assigned name, written mapping or struct, a transfer's mappings and
/// arrays, an airdrop loop's index and length array); a called function's name and struct
/// field names are kept.
pub open spec fn stmt_renamed(o: Stmt, i: Stmt, names: Seq<Seq<char>>, prefix: Seq<char>) -> bool
    decreases i,
{
    match (i, o) {
        (Stmt::Require { cond, span }, Stmt::Require { cond: c2, span: s2 }) => expr_renamed(c2, cond, names, prefix)
            && s2 == span,
        (Stmt::Assert { cond, span }, Stmt::Assert { cond: c2, span: s2 }) => expr_renamed(c2, cond, names, prefix)
            && s2 == span,
        (Stmt::Revert { span }, Stmt::Revert { span: s2 }) => s2 == span,
        (Stmt::Assign { target, op, value, span }, Stmt::Assign { target: t2, op: o2, value: v2, span: s2 }) => t2@
            == renamed_name(target@, names, prefix) && o2 == op && expr_renamed(v2, value, names, prefix) && s2
            == span,
        (
            Stmt::IndexAssign { map, key, op, value, span },
            Stmt::IndexAssign { map: m2, key: k2, op: o2, value: v2, span: s2 },
        ) => m2@ == renamed_name(map@, names, prefix) && expr_renamed(k2, key, names, prefix) && o2 == op
            && expr_renamed(v2, value, names, prefix) && s2 == span,
        (
            Stmt::IndexAssign2 { map, k1, k2, op, value, span },
            Stmt::IndexAssign2 { map: m2, k1: a2, k2: b2, op: o2, value: v2, span: s2 },
        ) => m2@ == renamed_name(map@, names, prefix) && expr_renamed(a2, k1, names, prefix) && expr_renamed(
            b2,
            k2,
            names,
            prefix,
        ) && o2 == op && expr_renamed(v2, value, names, prefix) && s2 == span,
        (
            Stmt::FieldAssign { obj, field, op, value, span },
            Stmt::FieldAssign { obj: ob2, field: f2, op: o2, value: v2, span: s2 },
        ) => ob2@ == renamed_name(obj@, names, prefix) && f2@ == field@ && o2 == op && expr_renamed(
            v2,
            value,
            names,
            prefix,
        ) && s2 == span,
        (Stmt::LocalVar { name, ty, value, span }, Stmt::LocalVar { name: n2, ty: t2, value: v2, span: s2 }) => n2@
            == renamed_name(name@, names, prefix) && same_type(t2, ty) && expr_renamed(v2, value, names, prefix)
            && s2 == span,
        (
            Stmt::If { cond, then_body, else_body, span },
            Stmt::If { cond: c2, then_body: t2, else_body: e2, span: s2 },
        ) => expr_renamed(c2, cond, names, prefix) && stmts_renamed(t2@, then_body@, names, prefix)
            && stmts_renamed(e2@, else_body@, names, prefix) && s2 == span,
        (Stmt::Return { value, span }, Stmt::Return { value: v2, span: s2 }) => s2 == span && match (value, v2) {
            (None, None) => true,
            (Some(v), Some(w)) => expr_renamed(w, v, names, prefix),
            _ => false,
        },
        (Stmt::CallStmt { callee, args, span }, Stmt::CallStmt { callee: c2, args: a2, span: s2 }) => c2@
            == callee@ && exprs_renamed(a2@, args@, names, prefix) && s2 == span,
        (Stmt::Unchecked { body, span }, Stmt::Unchecked { body: b2, span: s2 }) => stmts_renamed(
            b2@,
            body@,
            names,
            prefix,
        ) && s2 == span,
        (Stmt::Placeholder { span }, Stmt::Placeholder { span: s2 }) => s2 == span,
        (
            Stmt::MapTransfer { map, from, to, amount, span },
            Stmt::MapTransfer { map: m2, from: f2, to: t2, amount: a2, span: s2 },
        ) => m2@ == renamed_name(map@, names, prefix) && expr_renamed(f2, from, names, prefix) && expr_renamed(
            t2,
            to,
            names,
            prefix,
        ) && expr_renamed(a2, amount, names, prefix) && s2 == span,
        (
            Stmt::Erc20TransferFrom { bal_map, alw_map, from, spender, to, amount, oz5_infinite, span },
            Stmt::Erc20TransferFrom {
                bal_map: bm2,
                alw_map: am2,
                from: f2,
                spender: sp2,
                to: t2,
                amount: a2,
                oz5_infinite: z2,
                span: s2,
            },
        ) => bm2@ == renamed_name(bal_map@, names, prefix) && am2@ == renamed_name(alw_map@, names, prefix)
            && expr_renamed(f2, from, names, prefix) && expr_renamed(sp2, spender, names, prefix) && expr_renamed(
            t2,
            to,
            names,
            prefix,
        ) && expr_renamed(a2, amount, names, prefix) && z2 == oz5_infinite && s2 == span,
        (
            Stmt::AirdropLoop { idx, len_array, body, span },
            Stmt::AirdropLoop { idx: i2, len_array: l2, body: b2, span: s2 },
        ) => i2@ == renamed_name(idx@, names, prefix) && l2@ == renamed_name(len_array@, names, prefix)
            && stmts_renamed(b2@, body@, names, prefix) && s2 == span,
        (
            Stmt::ReservedBatch { transfer, writes, span },
            Stmt::ReservedBatch { transfer: t2, writes: w2, span: s2 },
        ) => stmts_renamed(w2@, writes@, names, prefix) && s2 == span && match (transfer, t2) {
            (None, None) => true,
            (Some(a), Some(b)) => stmt_renamed(*b, *a, names, prefix),
            _ => false,
        },
        (
            Stmt::MapSplitTransfer { map, from, amount, to, net, fee_to, fee, span },
            Stmt::MapSplitTransfer { map: m2, from: f2, amount: a2, to: t2, net: n2, fee_to: ft2, fee: fe2, span: s2 },
        ) => m2@ == renamed_name(map@, names, prefix) && expr_renamed(f2, from, names, prefix) && expr_renamed(
            a2,
            amount,
            names,
            prefix,
        ) && expr_renamed(t2, to, names, prefix) && expr_renamed(n2, net, names, prefix) && expr_renamed(
            ft2,
            fee_to,
            names,
            prefix,
        ) && expr_renamed(fe2, fee, names, prefix) && s2 == span,
        (
            Stmt::Erc20Update { map, ts_field, from, to, value, span },
            Stmt::Erc20Update { map: m2, ts_field: ts2, from: f2, to: t2, value: v2, span: s2 },
        ) => m2@ == renamed_name(map@, names, prefix) && ts2@ == renamed_name(ts_field@, names, prefix)
            && expr_renamed(f2, from, names, prefix) && expr_renamed(t2, to, names, prefix) && expr_renamed(
            v2,
            value,
            names,
            prefix,
        ) && s2 == span,
        (
            Stmt::BatchTransfer { map, from, recipients, amounts, span },
            Stmt::BatchTransfer { map: m2, from: f2, recipients: r2, amounts: a2, span: s2 },
        ) => m2@ == renamed_name(map@, names, prefix) && expr_renamed(f2, from, names, prefix) && r2@
            == renamed_name(recipients@, names, prefix) && a2@ == renamed_name(amounts@, names, prefix) && s2 == span,
        _ => false,
    }
}

fn rename_exprs(v: &Vec<Expr>, names: &Vec<String>, prefix: &str) -> (r: Vec<Expr>)
    ensures
        exprs_renamed(r@, v@, texts_view(names@), prefix@),
{
    let mut out: Vec<Expr> = Vec::new();
    let mut k: usize = 0;
    while k < v.len()
        invariant
            k <= v@.len(),
            out@.len() == k,
            forall|j: int| 0 <= j < k ==> expr_renamed(#[trigger] out@[j], v@[j], texts_view(names@), prefix@),
        decreases v@.len() - k,
    {
        out.push(rename_expr(&v[k], names, prefix));
        k = k + 1;
    }
    out
}

/// A copy of an expression (renaming nothing).
fn copy_expr(e: &Expr) -> (r: Expr)
    ensures
        expr_renamed(r, *e, seq![], seq![]),
{
    let none: Vec<String> = Vec::new();
    let empty = "";
    proof {
        assert(texts_view(none@) =~= Seq::<Seq<char>>::empty());
        reveal_strlit("");
        assert(empty@ =~= Seq::<char>::empty());
    }
    rename_expr(e, &none, empty)
}

/// Renames `names` throughout a statement list (a fresh copy; see `stmt_renamed`).
pub fn rename_body(v: &Vec<Stmt>, names: &Vec<String>, prefix: &str) -> (r: Vec<Stmt>)
    ensures
        stmts_renamed(r@, v@, texts_view(names@), prefix@),
    decreases v,
{
    let mut out: Vec<Stmt> = Vec::new();
    let mut k: usize = 0;
    while k < v.len()
        invariant
            k <= v@.len(),
            out@.len() == k,
            forall|j: int| 0 <= j < k ==> stmt_renamed(#[trigger] out@[j], v@[j], texts_view(names@), prefix@),
        decreases v@.len() - k,
    {
        proof {
            assert(decreases_to!(*v => v[k as int]));
        }
        out.push(rename_stmt(&v[k], names, prefix));
        k = k + 1;
    }
    out
}

/// Renames `names` throughout a statement (a fresh copy; see `stmt_renamed`).
pub fn rename_stmt(s: &Stmt, names: &Vec<String>, prefix: &str) -> (r: Stmt)
    ensures
        stmt_renamed(r, *s, texts_view(names@), prefix@),
    decreases s,
{
    match s {
        Stmt::Require { cond, span } => Stmt::Require { cond: rename_expr(cond, names, prefix), span: copy_span(span) },
        Stmt::Assert { cond, span } => Stmt::Assert { cond: rename_expr(cond, names, prefix), span: copy_span(span) },
        Stmt::Revert { span } => Stmt::Revert { span: copy_span(span) },
        Stmt::Assign { target, op, value, span } => Stmt::Assign {
            target: rename_name(target, names, prefix),
            op: *op,
            value: rename_expr(value, names, prefix),
            span: copy_span(span),
        },
        Stmt::IndexAssign { map, key, op, value, span } => Stmt::IndexAssign {
            map: rename_name(map, names, prefix),
            key: rename_expr(key, names, prefix),
            op: *op,
            value: rename_expr(value, names, prefix),
            span: copy_span(span),
        },
        Stmt::IndexAssign2 { map, k1, k2, op, value, span } => Stmt::IndexAssign2 {
            map: rename_name(map, names, prefix),
            k1: rename_expr(k1, names, prefix),
            k2: rename_expr(k2, names, prefix),
            op: *op,
            value: rename_expr(value, names, prefix),
            span: copy_span(span),
        },
        Stmt::FieldAssign { obj, field, op, value, span } => Stmt::FieldAssign {
            obj: rename_name(obj, names, prefix),
            field: clone_string(field),
            op: *op,
            value: rename_expr(value, names, prefix),
            span: copy_span(span),
        },
        Stmt::LocalVar { name, ty, value, span } => Stmt::LocalVar {
            name: rename_name(name, names, prefix),
            ty: copy_type(ty),
            value: rename_expr(value, names, prefix),
            span: copy_span(span),
        },
        Stmt::If { cond, then_body, else_body, span } => {
            proof {
                assert(decreases_to!(*s => (*s)->If_then_body));
                assert(decreases_to!(*s => (*s)->If_else_body));
            }
            Stmt::If {
                cond: rename_expr(cond, names, prefix),
                then_body: rename_body(then_body, names, prefix),
                else_body: rename_body(else_body, names, prefix),
                span: copy_span(span),
            }
        },
        Stmt::Return { value, span } => Stmt::Return {
            value: match value {
                Some(v) => Some(rename_expr(v, names, prefix)),
                None => None,
            },
            span: copy_span(span),
        },
        Stmt::CallStmt { callee, args, span } => Stmt::CallStmt {
            callee: clone_string(callee),
            args: rename_exprs(args, names, prefix),
            span: copy_span(span),
        },
        Stmt::Unchecked { body, span } => {
            proof {
                assert(decreases_to!(*s => (*s)->Unchecked_body));
            }
            Stmt::Unchecked { body: rename_body(body, names, prefix), span: copy_span(span) }
        },
        Stmt::Placeholder { span } => Stmt::Placeholder { span: copy_span(span) },
        Stmt::MapTransfer { map, from, to, amount, span } => Stmt::MapTransfer {
            map: rename_name(map, names, prefix),
            from: rename_expr(from, names, prefix),
            to: rename_expr(to, names, prefix),
            amount: rename_expr(amount, names, prefix),
            span: copy_span(span),
        },
        Stmt::Erc20TransferFrom { bal_map, alw_map, from, spender, to, amount, oz5_infinite, span } => Stmt::Erc20TransferFrom {
            bal_map: rename_name(bal_map, names, prefix),
            alw_map: rename_name(alw_map, names, prefix),
            from: rename_expr(from, names, prefix),
            spender: rename_expr(spender, names, prefix),
            to: rename_expr(to, names, prefix),
            amount: rename_expr(amount, names, prefix),
            oz5_infinite: *oz5_infinite,
            span: copy_span(span),
        },
        Stmt::AirdropLoop { idx, len_array, body, span } => {
            proof {
                assert(decreases_to!(*s => (*s)->AirdropLoop_body));
            }
            Stmt::AirdropLoop {
                idx: rename_name(idx, names, prefix),
                len_array: rename_name(len_array, names, prefix),
                body: rename_body(body, names, prefix),
                span: copy_span(span),
            }
        },
        Stmt::ReservedBatch { transfer, writes, span } => {
            proof {
                assert(decreases_to!(*s => (*s)->ReservedBatch_writes));
                assert(decreases_to!(*s => (*s)->ReservedBatch_transfer));
            }
            let t2 = match transfer {
                Some(t) => Some(Box::new(rename_stmt(t, names, prefix))),
                None => None,
            };
            Stmt::ReservedBatch { transfer: t2, writes: rename_body(writes, names, prefix), span: copy_span(span) }
        },
        Stmt::MapSplitTransfer { map, from, amount, to, net, fee_to, fee, span } => Stmt::MapSplitTransfer {
            map: rename_name(map, names, prefix),
            from: rename_expr(from, names, prefix),
            amount: rename_expr(amount, names, prefix),
            to: rename_expr(to, names, prefix),
            net: rename_expr(net, names, prefix),
            fee_to: rename_expr(fee_to, names, prefix),
            fee: rename_expr(fee, names, prefix),
            span: copy_span(span),
        },
        Stmt::Erc20Update { map, ts_field, from, to, value, span } => Stmt::Erc20Update {
            map: rename_name(map, names, prefix),
            ts_field: rename_name(ts_field, names, prefix),
            from: rename_expr(from, names, prefix),
            to: rename_expr(to, names, prefix),
            value: rename_expr(value, names, prefix),
            span: copy_span(span),
        },
        Stmt::BatchTransfer { map, from, recipients, amounts, span } => Stmt::BatchTransfer {
            map: rename_name(map, names, prefix),
            from: rename_expr(from, names, prefix),
            recipients: rename_name(recipients, names, prefix),
            amounts: rename_name(amounts, names, prefix),
            span: copy_span(span),
        },
    }
}

// ── Splicing ─────────────────────────────────────────────────────────────────

/// The host body still to splice after a statement list: consumed once the list holds a
/// placeholder.
pub open spec fn after(stmts: Seq<Stmt>, h: Option<Seq<Stmt>>) -> Option<Seq<Stmt>> {
    if placeholders(stmts) > 0 {
        None
    } else {
        h
    }
}

/// `out` is the modifier body `inp` with its first placeholder (in order, descending into
/// `if` branches) replaced by the host body `h`, any further placeholder dropped, and every
/// other statement kept.
pub open spec fn spliced(out: Seq<Stmt>, inp: Seq<Stmt>, h: Option<Seq<Stmt>>) -> bool
    decreases inp,
{
    if inp.len() == 0 {
        out.len() == 0
    } else {
        let pre = inp.drop_last();
        let hp = after(pre, h);
        match inp.last() {
            Stmt::Placeholder { .. } => match hp {
                Some(hs) => out.len() >= hs.len() && spliced(out.take(out.len() - hs.len()), pre, h) && out.skip(
                    out.len() - hs.len(),
                ) == hs,
                None => spliced(out, pre, h),
            },
            Stmt::If { cond, then_body, else_body, span } => out.len() > 0 && spliced(out.drop_last(), pre, h)
                && match out.last() {
                Stmt::If { cond: c2, then_body: t2, else_body: e2, span: s2 } => c2 == cond && s2 == span && spliced(
                    t2@,
                    then_body@,
                    hp,
                ) && spliced(e2@, else_body@, after(then_body@, hp)),
                _ => false,
            },
            _ => out.len() > 0 && spliced(out.drop_last(), pre, h) && out.last() == inp.last(),
        }
    }
}

pub open spec fn host_view(h: Option<Vec<Stmt>>) -> Option<Seq<Stmt>> {
    match h {
        Some(v) => Some(v@),
        None => None,
    }
}

/// The placeholder count of one more statement.
proof fn lemma_placeholders_push(pre: Seq<Stmt>, s: Stmt)
    ensures
        placeholders(pre.push(s)) == placeholders(pre) + match s {
            Stmt::Placeholder { .. } => 1nat,
            Stmt::If { then_body, else_body, .. } => placeholders(then_body@) + placeholders(else_body@),
            _ => 0nat,
        },
{
    assert(pre.push(s).drop_last() =~= pre);
}

/// Replaces the modifier body's placeholder with the host body (see `spliced`); the host is
/// taken at the first placeholder.
pub fn splice_stmts(stmts: Vec<Stmt>, host: &mut Option<Vec<Stmt>>) -> (r: Vec<Stmt>)
    ensures
        spliced(r@, stmts@, host_view(*old(host))),
        host_view(*final(host)) == after(stmts@, host_view(*old(host))),
    decreases stmts,
{
    let ghost g = stmts;
    let ghost orig = stmts@;
    let ghost h0 = host_view(*host);
    let mut rest = stmts;
    let mut out: Vec<Stmt> = Vec::new();
    let ghost mut k: int = 0;
    assert(orig.take(0) =~= Seq::<Stmt>::empty());
    while rest.len() > 0
        invariant
            0 <= k <= orig.len(),
            rest@ == orig.skip(k),
            spliced(out@, orig.take(k), h0),
            host_view(*host) == after(orig.take(k), h0),
            h0 == host_view(*old(host)),
            orig == stmts@,
            g == stmts,
        decreases rest@.len(),
    {
        let ghost pre = orig.take(k);
        let s = rest.remove(0);
        let ghost gs = s;
        assert(s == orig[k]);
        assert(orig.take(k + 1).drop_last() =~= pre);
        assert(orig.take(k + 1).last() == s);
        proof {
            lemma_placeholders_push(pre, s);
            assert(orig.take(k + 1) =~= pre.push(s));
        }
        match s {
            Stmt::Placeholder { span } => {
                let ghost o0 = out@;
                match host.take() {
                    Some(mut body) => {
                        let ghost hs = body@;
                        out.append(&mut body);
                        proof {
                            assert(out@.take(out@.len() - hs.len()) =~= o0);
                            assert(out@.skip(out@.len() - hs.len()) =~= hs);
                        }
                    },
                    None => {},
                }
            },
            Stmt::If { cond, then_body, else_body, span } => {
                proof {
                    assert(decreases_to!(g => g@));
                    assert(decreases_to!(g@ => g@[k]));
                    assert(decreases_to!(gs => gs->If_then_body));
                    assert(decreases_to!(gs => gs->If_else_body));
                }
                let t2 = splice_stmts(then_body, host);
                let e2 = splice_stmts(else_body, host);
                let ghost o0 = out@;
                out.push(Stmt::If { cond, then_body: t2, else_body: e2, span });
                proof {
                    assert(out@.drop_last() =~= o0);
                }
            },
            other => {
                let ghost o0 = out@;
                out.push(other);
                proof {
                    assert(out@.drop_last() =~= o0);
                }
            },
        }
        proof {
            k = k + 1;
        }
        assert(rest@ =~= orig.skip(k));
    }
    assert(orig.take(k) =~= orig);
    out
}

// ── Placeholder facts ────────────────────────────────────────────────────────

/// The placeholders one statement holds (itself, or inside its `if` branches).
pub open spec fn stmt_placeholders(s: Stmt) -> nat {
    match s {
        Stmt::Placeholder { .. } => 1nat,
        Stmt::If { then_body, else_body, .. } => placeholders(then_body@) + placeholders(else_body@),
        _ => 0nat,
    }
}

/// Placeholders add up over a concatenation.
proof fn lemma_placeholders_concat(a: Seq<Stmt>, b: Seq<Stmt>)
    ensures
        placeholders(a + b) == placeholders(a) + placeholders(b),
    decreases b.len(),
{
    if b.len() == 0 {
        assert(a + b =~= a);
    } else {
        lemma_placeholders_concat(a, b.drop_last());
        assert((a + b).drop_last() =~= a + b.drop_last());
        assert((a + b).last() == b.last());
    }
}

/// Renaming keeps every placeholder.
proof fn lemma_renamed_placeholders(o: Seq<Stmt>, i: Seq<Stmt>, names: Seq<Seq<char>>, prefix: Seq<char>)
    requires
        stmts_renamed(o, i, names, prefix),
    ensures
        placeholders(o) == placeholders(i),
    decreases i,
{
    if i.len() > 0 {
        let k = i.len() - 1;
        assert(stmt_renamed(o[k], i[k], names, prefix));
        assert(stmts_renamed(o.drop_last(), i.drop_last(), names, prefix)) by {
            assert forall|j: int| 0 <= j < i.drop_last().len() implies stmt_renamed(
                #[trigger] o.drop_last()[j],
                i.drop_last()[j],
                names,
                prefix,
            ) by {
                assert(stmt_renamed(o[j], i[j], names, prefix));
            }
        }
        lemma_renamed_placeholders(o.drop_last(), i.drop_last(), names, prefix);
        match (i[k], o[k]) {
            (Stmt::If { then_body, else_body, .. }, Stmt::If { then_body: t2, else_body: e2, .. }) => {
                assert(decreases_to!(i => i[k]));
                lemma_renamed_placeholders(t2@, then_body@, names, prefix);
                lemma_renamed_placeholders(e2@, else_body@, names, prefix);
            },
            _ => {},
        }
    }
}

/// What a splice leaves of placeholders: those of the host when the host was taken, none
/// otherwise.
proof fn lemma_spliced_placeholders(out: Seq<Stmt>, inp: Seq<Stmt>, h: Option<Seq<Stmt>>)
    requires
        spliced(out, inp, h),
    ensures
        placeholders(out) == match h {
            Some(hs) => if placeholders(inp) > 0 {
                placeholders(hs)
            } else {
                0nat
            },
            None => 0nat,
        },
    decreases inp,
{
    if inp.len() > 0 {
        let pre = inp.drop_last();
        let hp = after(pre, h);
        lemma_placeholders_push(pre, inp.last());
        assert(pre.push(inp.last()) =~= inp);
        match inp.last() {
            Stmt::Placeholder { .. } => match hp {
                Some(hs) => {
                    let head = out.take(out.len() - hs.len());
                    lemma_spliced_placeholders(head, pre, h);
                    lemma_placeholders_concat(head, hs);
                    assert(head + out.skip(out.len() - hs.len()) =~= out);
                },
                None => {
                    lemma_spliced_placeholders(out, pre, h);
                },
            },
            Stmt::If { cond, then_body, else_body, span } => {
                lemma_spliced_placeholders(out.drop_last(), pre, h);
                lemma_placeholders_push(out.drop_last(), out.last());
                assert(out.drop_last().push(out.last()) =~= out);
                match out.last() {
                    Stmt::If { then_body: t2, else_body: e2, .. } => {
                        assert(decreases_to!(inp => inp[inp.len() - 1]));
                        lemma_spliced_placeholders(t2@, then_body@, hp);
                        lemma_spliced_placeholders(e2@, else_body@, after(then_body@, hp));
                    },
                    _ => {},
                }
            },
            _ => {
                lemma_spliced_placeholders(out.drop_last(), pre, h);
                lemma_placeholders_push(out.drop_last(), out.last());
                assert(out.drop_last().push(out.last()) =~= out);
            },
        }
    }
}

/// Whether a statement list still holds a placeholder.
pub fn has_placeholder(stmts: &Vec<Stmt>) -> (r: bool)
    ensures
        r == (placeholders(stmts@) > 0),
    decreases stmts,
{
    let mut k: usize = 0;
    assert(stmts@.take(0) =~= Seq::<Stmt>::empty());
    while k < stmts.len()
        invariant
            k <= stmts@.len(),
            placeholders(stmts@.take(k as int)) == 0,
        decreases stmts@.len() - k,
    {
        proof {
            assert(decreases_to!(*stmts => stmts[k as int]));
            lemma_placeholders_push(stmts@.take(k as int), stmts@[k as int]);
            assert(stmts@.take(k as int).push(stmts@[k as int]) =~= stmts@.take(k + 1));
        }
        if stmt_contains_placeholder(&stmts[k]) {
            proof {
                lemma_placeholders_concat(stmts@.take(k + 1), stmts@.skip(k + 1));
                assert(stmts@.take(k + 1) + stmts@.skip(k + 1) =~= stmts@);
            }
            return true;
        }
        k = k + 1;
    }
    assert(stmts@.take(k as int) =~= stmts@);
    false
}

/// Whether a statement is or holds a placeholder.
pub fn stmt_contains_placeholder(s: &Stmt) -> (r: bool)
    ensures
        r == (stmt_placeholders(*s) > 0),
    decreases s,
{
    match s {
        Stmt::Placeholder { .. } => true,
        Stmt::If { then_body, else_body, .. } => has_placeholder(then_body) || has_placeholder(else_body),
        _ => false,
    }
}

/// Splices the host body into the modifier body's placeholder (see `spliced`). A modifier
/// body without a placeholder leaves the host unconsumed, an internal FE500.
pub fn splice(mod_body: Vec<Stmt>, inner: Vec<Stmt>) -> (r: Result<Vec<Stmt>, FrontendDiag>)
    ensures
        match r {
            Ok(v) => placeholders(mod_body@) > 0 && spliced(v@, mod_body@, Some(inner@)),
            Err(d) => placeholders(mod_body@) == 0 && d.code == codes::FE500_INTERNAL_MALFORMED_SOL
                && d.span == (0usize..0usize),
        },
{
    let ghost mb = mod_body@;
    let ghost hs = inner@;
    let mut host: Option<Vec<Stmt>> = Some(inner);
    let out = splice_stmts(mod_body, &mut host);
    if host.is_some() {
        return Err(
            FrontendDiag::new(
                codes::FE500_INTERNAL_MALFORMED_SOL,
                "internal: modifier placeholder not consumed during inlining",
                0..0,
            ),
        );
    }
    Ok(out)
}

/// Whether code follows the placeholder, scanning from statement `i`: the first statement
/// holding a placeholder must be the last one, and be either the placeholder itself or an
/// `if` whose placeholder-holding branch (the then-branch first) has no suffix in turn.
pub open spec fn suffix_from(stmts: Seq<Stmt>, i: int) -> bool
    decreases stmts, stmts.len() - i,
{
    if i < 0 || i >= stmts.len() {
        false
    } else if stmt_placeholders(stmts[i]) > 0 {
        if i + 1 != stmts.len() {
            true
        } else {
            match stmts[i] {
                Stmt::If { then_body, else_body, .. } => {
                    proof {
                        assert(decreases_to!(stmts => stmts[i]));
                    }
                    if placeholders(then_body@) > 0 {
                        suffix_from(then_body@, 0)
                    } else {
                        suffix_from(else_body@, 0)
                    }
                },
                _ => false,
            }
        }
    } else {
        suffix_from(stmts, i + 1)
    }
}

/// Whether any statement runs after the modifier's placeholder (a suffix, FE453).
pub fn placeholder_has_suffix(stmts: &Vec<Stmt>) -> (r: bool)
    ensures
        r == suffix_from(stmts@, 0),
    decreases stmts,
{
    let mut i: usize = 0;
    while i < stmts.len()
        invariant
            i <= stmts@.len(),
            suffix_from(stmts@, 0) == suffix_from(stmts@, i as int),
        decreases stmts@.len() - i,
    {
        proof {
            assert(decreases_to!(*stmts => stmts[i as int]));
        }
        let s = &stmts[i];
        if stmt_contains_placeholder(s) {
            if i + 1 != stmts.len() {
                return true;
            }
            return match s {
                Stmt::If { then_body, else_body, .. } => {
                    if has_placeholder(then_body) {
                        placeholder_has_suffix(then_body)
                    } else {
                        placeholder_has_suffix(else_body)
                    }
                },
                _ => false,
            };
        }
        i = i + 1;
    }
    false
}

// ── Local names ──────────────────────────────────────────────────────────────

/// The statement list binds a local named `n` (a `LocalVar`, also inside `if` branches).
pub open spec fn declares(stmts: Seq<Stmt>, n: Seq<char>) -> bool
    decreases stmts,
{
    if stmts.len() == 0 {
        false
    } else {
        declares(stmts.drop_last(), n) || stmt_declares(stmts.last(), n)
    }
}

/// The statement binds a local named `n`, itself or inside its `if` branches.
pub open spec fn stmt_declares(s: Stmt, n: Seq<char>) -> bool
    decreases s,
{
    match s {
        Stmt::LocalVar { name, .. } => name@ == n,
        Stmt::If { then_body, else_body, .. } => {
            proof {
                assert(decreases_to!(s => then_body));
                assert(decreases_to!(then_body => then_body@));
                assert(decreases_to!(s => else_body));
                assert(decreases_to!(else_body => else_body@));
            }
            declares(then_body@, n) || declares(else_body@, n)
        },
        _ => false,
    }
}

/// Adds the name of every local bound in `stmts` (inside `if` branches too) to `out`.
pub fn collect_local_names(stmts: &Vec<Stmt>, out: &mut Vec<String>)
    ensures
        forall|n: Seq<char>| #[trigger] names_has(final(out)@, n) <==> (names_has(old(out)@, n) || declares(stmts@, n)),
    decreases stmts,
{
    let ghost o0 = out@;
    let mut k: usize = 0;
    assert(stmts@.take(0) =~= Seq::<Stmt>::empty());
    while k < stmts.len()
        invariant
            k <= stmts@.len(),
            forall|n: Seq<char>| #[trigger] names_has(out@, n) <==> (names_has(o0, n) || declares(stmts@.take(k as int), n)),
        decreases stmts@.len() - k,
    {
        proof {
            assert(decreases_to!(*stmts => stmts[k as int]));
            assert(stmts@.take(k + 1).drop_last() =~= stmts@.take(k as int));
            assert(stmts@.take(k + 1).last() == stmts@[k as int]);
        }
        let ghost before = out@;
        match &stmts[k] {
            Stmt::LocalVar { name, .. } => {
                out.push(clone_string(name));
                proof {
                    lemma_names_push(before, out@.last());
                    assert(before.push(out@.last()) =~= out@);
                }
            },
            Stmt::If { then_body, else_body, .. } => {
                collect_local_names(then_body, out);
                collect_local_names(else_body, out);
            },
            _ => {},
        }
        proof {
            assert forall|n: Seq<char>| #[trigger] declares(stmts@.take(k + 1), n) == (declares(
                stmts@.take(k as int),
                n,
            ) || stmt_declares(stmts@[k as int], n)) by {}
        }
        k = k + 1;
    }
    assert(stmts@.take(k as int) =~= stmts@);
}

// ── Nesting depth ────────────────────────────────────────────────────────────

pub open spec fn max_nat(a: nat, b: nat) -> nat {
    if a >= b {
        a
    } else {
        b
    }
}

/// `x`, saturated at `u32::MAX`.
pub open spec fn cap32(x: nat) -> nat {
    if x > u32::MAX {
        u32::MAX as nat
    } else {
        x
    }
}

/// The AST depth of an expression: a leaf is 1, every operator, access or call one more
/// than its deepest operand.
pub open spec fn expr_depth_spec(e: Expr) -> nat
    decreases e,
{
    match e {
        Expr::Member(b, _, _) => 1 + expr_depth_spec(*b),
        Expr::Index(b, k, _) => 1 + max_nat(expr_depth_spec(*b), expr_depth_spec(*k)),
        Expr::Unary(_, x, _) => 1 + expr_depth_spec(*x),
        Expr::Bin(_, l, r, _) => 1 + max_nat(expr_depth_spec(*l), expr_depth_spec(*r)),
        Expr::Call(c, args, _) => {
            proof {
                assert(decreases_to!(e => args));
                assert(decreases_to!(args => args@));
            }
            1 + max_nat(expr_depth_spec(*c), exprs_depth_spec(args@))
        },
        _ => 1,
    }
}

/// The deepest of a list of expressions (0 for none).
pub open spec fn exprs_depth_spec(es: Seq<Expr>) -> nat
    decreases es,
{
    if es.len() == 0 {
        0
    } else {
        max_nat(exprs_depth_spec(es.drop_last()), expr_depth_spec(es.last()))
    }
}

/// The nesting depth of a statement list: its deepest statement (0 for none).
pub open spec fn block_depth_spec(stmts: Seq<Stmt>) -> nat
    decreases stmts,
{
    if stmts.len() == 0 {
        0
    } else {
        max_nat(block_depth_spec(stmts.drop_last()), stmt_depth_spec(stmts.last()))
    }
}

/// The nesting depth of a statement: an `if` or the airdrop loop is one more than what it
/// holds; another statement is as deep as its deepest expression.
pub open spec fn stmt_depth_spec(s: Stmt) -> nat
    decreases s,
{
    match s {
        Stmt::If { cond, then_body, else_body, .. } => {
            proof {
                assert(decreases_to!(s => then_body));
                assert(decreases_to!(then_body => then_body@));
                assert(decreases_to!(s => else_body));
                assert(decreases_to!(else_body => else_body@));
            }
            1 + max_nat(max_nat(expr_depth_spec(cond), block_depth_spec(then_body@)), block_depth_spec(else_body@))
        },
        Stmt::Require { cond, .. } => expr_depth_spec(cond),
        Stmt::Assert { cond, .. } => expr_depth_spec(cond),
        Stmt::Assign { value, .. } => expr_depth_spec(value),
        Stmt::LocalVar { value, .. } => expr_depth_spec(value),
        Stmt::IndexAssign { key, value, .. } => max_nat(expr_depth_spec(key), expr_depth_spec(value)),
        Stmt::FieldAssign { value, .. } => expr_depth_spec(value),
        Stmt::IndexAssign2 { k1, k2, value, .. } => max_nat(
            max_nat(expr_depth_spec(k1), expr_depth_spec(k2)),
            expr_depth_spec(value),
        ),
        Stmt::MapTransfer { from, to, amount, .. } => max_nat(
            max_nat(expr_depth_spec(from), expr_depth_spec(to)),
            expr_depth_spec(amount),
        ),
        Stmt::Erc20TransferFrom { from, spender, to, amount, .. } => max_nat(
            max_nat(max_nat(expr_depth_spec(from), expr_depth_spec(spender)), expr_depth_spec(to)),
            expr_depth_spec(amount),
        ),
        Stmt::Return { value, .. } => match value {
            Some(v) => expr_depth_spec(v),
            None => 0,
        },
        Stmt::CallStmt { args, .. } => exprs_depth_spec(args@),
        Stmt::AirdropLoop { body, .. } => {
            proof {
                assert(decreases_to!(s => body));
                assert(decreases_to!(body => body@));
            }
            1 + block_depth_spec(body@)
        },
        _ => 0,
    }
}

fn max_u32(a: u32, b: u32) -> (r: u32)
    ensures
        r == max_nat(a as nat, b as nat),
{
    if a >= b {
        a
    } else {
        b
    }
}

/// The deepest of the arguments (saturated).
fn args_depth(args: &Vec<Expr>) -> (r: u32)
    ensures
        r == cap32(exprs_depth_spec(args@)),
    decreases args,
{
    let mut m: u32 = 0;
    let mut k: usize = 0;
    assert(args@.take(0) =~= Seq::<Expr>::empty());
    while k < args.len()
        invariant
            k <= args@.len(),
            m == cap32(exprs_depth_spec(args@.take(k as int))),
        decreases args@.len() - k,
    {
        proof {
            assert(decreases_to!(*args => args[k as int]));
            assert(args@.take(k + 1).drop_last() =~= args@.take(k as int));
            assert(args@.take(k + 1).last() == args@[k as int]);
        }
        m = max_u32(m, expr_depth(&args[k]));
        k = k + 1;
    }
    assert(args@.take(k as int) =~= args@);
    m
}

/// The AST depth of an expression (see `expr_depth_spec`), saturated at `u32::MAX`.
pub fn expr_depth(e: &Expr) -> (r: u32)
    ensures
        r == cap32(expr_depth_spec(*e)),
    decreases e,
{
    match e {
        Expr::Member(b, _, _) => 1u32.saturating_add(expr_depth(b)),
        Expr::Index(b, k, _) => 1u32.saturating_add(max_u32(expr_depth(b), expr_depth(k))),
        Expr::Unary(_, x, _) => 1u32.saturating_add(expr_depth(x)),
        Expr::Bin(_, l, r, _) => 1u32.saturating_add(max_u32(expr_depth(l), expr_depth(r))),
        Expr::Call(c, args, _) => 1u32.saturating_add(max_u32(expr_depth(c), args_depth(args))),
        _ => 1,
    }
}

/// The nesting depth of a statement list (see `block_depth_spec`), saturated at
/// `u32::MAX`.
pub fn block_depth(stmts: &Vec<Stmt>) -> (r: u32)
    ensures
        r == cap32(block_depth_spec(stmts@)),
    decreases stmts,
{
    let mut m: u32 = 0;
    let mut k: usize = 0;
    assert(stmts@.take(0) =~= Seq::<Stmt>::empty());
    while k < stmts.len()
        invariant
            k <= stmts@.len(),
            m == cap32(block_depth_spec(stmts@.take(k as int))),
        decreases stmts@.len() - k,
    {
        proof {
            assert(decreases_to!(*stmts => stmts[k as int]));
            assert(stmts@.take(k + 1).drop_last() =~= stmts@.take(k as int));
            assert(stmts@.take(k + 1).last() == stmts@[k as int]);
        }
        m = max_u32(m, stmt_depth(&stmts[k]));
        k = k + 1;
    }
    assert(stmts@.take(k as int) =~= stmts@);
    m
}

/// The nesting depth of a statement (see `stmt_depth_spec`), saturated at `u32::MAX`.
pub fn stmt_depth(s: &Stmt) -> (r: u32)
    ensures
        r == cap32(stmt_depth_spec(*s)),
    decreases s,
{
    match s {
        Stmt::If { cond, then_body, else_body, .. } => 1u32.saturating_add(
            max_u32(max_u32(expr_depth(cond), block_depth(then_body)), block_depth(else_body)),
        ),
        Stmt::Require { cond, .. } => expr_depth(cond),
        Stmt::Assert { cond, .. } => expr_depth(cond),
        Stmt::Assign { value, .. } => expr_depth(value),
        Stmt::LocalVar { value, .. } => expr_depth(value),
        Stmt::IndexAssign { key, value, .. } => max_u32(expr_depth(key), expr_depth(value)),
        Stmt::FieldAssign { value, .. } => expr_depth(value),
        Stmt::IndexAssign2 { k1, k2, value, .. } => max_u32(max_u32(expr_depth(k1), expr_depth(k2)), expr_depth(value)),
        Stmt::MapTransfer { from, to, amount, .. } => max_u32(max_u32(expr_depth(from), expr_depth(to)), expr_depth(amount)),
        Stmt::Erc20TransferFrom { from, spender, to, amount, .. } => max_u32(
            max_u32(max_u32(expr_depth(from), expr_depth(spender)), expr_depth(to)),
            expr_depth(amount),
        ),
        Stmt::Return { value, .. } => match value {
            Some(v) => expr_depth(v),
            None => 0,
        },
        Stmt::CallStmt { args, .. } => args_depth(args),
        Stmt::AirdropLoop { body, .. } => 1u32.saturating_add(block_depth(body)),
        _ => 0,
    }
}

// ── Modifier lookup and resolution ───────────────────────────────────────────

/// The first modifier declared under the name `n`, looking from index `i` on.
pub open spec fn find_modifier_from(mods: Seq<Modifier>, n: Seq<char>, i: int) -> Option<int>
    decreases mods.len() - i,
{
    if i < 0 || i >= mods.len() {
        None
    } else if mods[i].name@ == n {
        Some(i)
    } else {
        find_modifier_from(mods, n, i + 1)
    }
}

/// The first modifier declared under the name `n`.
pub open spec fn find_modifier_spec(mods: Seq<Modifier>, n: Seq<char>) -> Option<int> {
    find_modifier_from(mods, n, 0)
}

/// Modifier `i` repeats the name of an earlier declaration.
pub open spec fn redeclared(mods: Seq<Modifier>, i: int) -> bool {
    find_modifier_spec(mods, mods[i].name@) != Some(i)
}

/// The first modifier, from index `i` on, that repeats an earlier declaration's name.
pub open spec fn first_redeclared_from(mods: Seq<Modifier>, i: int) -> Option<int>
    decreases mods.len() - i,
{
    if i < 0 || i >= mods.len() {
        None
    } else if redeclared(mods, i) {
        Some(i)
    } else {
        first_redeclared_from(mods, i + 1)
    }
}

proof fn lemma_find_modifier_bounds(mods: Seq<Modifier>, n: Seq<char>, i: int)
    requires
        0 <= i,
    ensures
        match find_modifier_from(mods, n, i) {
            Some(j) => i <= j < mods.len() && mods[j].name@ == n,
            None => true,
        },
    decreases mods.len() - i,
{
    if i < mods.len() && mods[i].name@ != n {
        lemma_find_modifier_bounds(mods, n, i + 1);
    }
}

/// The index of the first modifier declared under the name `n`.
pub fn find_modifier(mods: &Vec<Modifier>, n: &str) -> (r: Option<usize>)
    ensures
        match r {
            Some(i) => find_modifier_spec(mods@, n@) == Some(i as int) && i < mods@.len(),
            None => find_modifier_spec(mods@, n@) is None,
        },
{
    let mut i: usize = 0;
    while i < mods.len()
        invariant
            i <= mods@.len(),
            find_modifier_spec(mods@, n@) == find_modifier_from(mods@, n@, i as int),
        decreases mods@.len() - i,
    {
        if string_eq_str(&mods[i].name, n) {
            return Some(i);
        }
        i = i + 1;
    }
    None
}

/// What applying `a` is refused for, if anything: an undefined modifier (FE451), a modifier
/// with code after its placeholder (FE453), or an argument count unlike the declared
/// parameters (FE448).
pub open spec fn app_code(mods: Seq<Modifier>, a: ModifierApp) -> Option<&'static str> {
    match find_modifier_spec(mods, a.name@) {
        None => Some(codes::FE451_UNDEFINED_MODIFIER_SOL),
        Some(i) => if suffix_from(mods[i].body@, 0) {
            Some(codes::FE453_MODIFIER_SUFFIX_SOL)
        } else if mods[i].params@.len() != a.args@.len() {
            Some(codes::FE448_PARAMETERIZED_MODIFIER_SOL)
        } else {
            None
        },
    }
}

/// The first refusal among the applications from index `k` on.
pub open spec fn apps_code_from(mods: Seq<Modifier>, apps: Seq<ModifierApp>, k: int) -> Option<&'static str>
    decreases apps.len() - k,
{
    if k < 0 || k >= apps.len() {
        None
    } else {
        match app_code(mods, apps[k]) {
            Some(c) => Some(c),
            None => apps_code_from(mods, apps, k + 1),
        }
    }
}

/// The declaration each application resolves to.
pub open spec fn applied(mods: Seq<Modifier>, apps: Seq<ModifierApp>) -> Seq<Modifier> {
    Seq::new(
        apps.len(),
        |k: int|
            match find_modifier_spec(mods, apps[k].name@) {
                Some(i) => mods[i],
                None => mods[0],
            },
    )
}

/// Resolves every application to its declaration's index, or the first refusal's code.
fn resolve_applications(mods: &Vec<Modifier>, apps: &Vec<ModifierApp>) -> (r: Result<Vec<usize>, &'static str>)
    ensures
        match r {
            Ok(idx) => apps_code_from(mods@, apps@, 0) is None && idx@.len() == apps@.len() && forall|k: int|
                0 <= k < idx@.len() ==> find_modifier_spec(mods@, apps@[k].name@) == Some(
                    #[trigger] idx@[k] as int,
                ) && idx@[k] < mods@.len(),
            Err(c) => apps_code_from(mods@, apps@, 0) == Some(c),
        },
{
    let mut idx: Vec<usize> = Vec::new();
    let mut k: usize = 0;
    while k < apps.len()
        invariant
            k <= apps@.len(),
            apps_code_from(mods@, apps@, 0) == apps_code_from(mods@, apps@, k as int),
            idx@.len() == k,
            forall|j: int|
                0 <= j < k ==> find_modifier_spec(mods@, apps@[j].name@) == Some(#[trigger] idx@[j] as int)
                    && idx@[j] < mods@.len(),
        decreases apps@.len() - k,
    {
        let app = &apps[k];
        match find_modifier(mods, app.name.as_str()) {
            Some(i) => {
                if placeholder_has_suffix(&mods[i].body) {
                    return Err(codes::FE453_MODIFIER_SUFFIX_SOL);
                }
                if mods[i].params.len() != app.args.len() {
                    return Err(codes::FE448_PARAMETERIZED_MODIFIER_SOL);
                }
                idx.push(i);
            },
            None => {
                return Err(codes::FE451_UNDEFINED_MODIFIER_SOL);
            },
        }
        k = k + 1;
    }
    Ok(idx)
}

// ── Name collisions and state capture ────────────────────────────────────────

/// The function binds `n` itself: a parameter or a local of its body.
pub open spec fn host_binds(f: Function, n: Seq<char>) -> bool {
    (exists|i: int| 0 <= i < f.params@.len() && #[trigger] f.params@[i].name@ == n) || declares(f.body@, n)
}

/// A state variable is named `n`.
pub open spec fn state_named(state: Seq<StateVar>, n: Seq<char>) -> bool {
    exists|i: int| 0 <= i < state.len() && #[trigger] state[i].name@ == n
}

/// A name the `k`-th applied modifier's locals must avoid: one the host binds, a state
/// variable, or a local of an earlier applied modifier.
pub open spec fn taken_before(f: Function, state: Seq<StateVar>, ms: Seq<Modifier>, k: int, n: Seq<char>) -> bool {
    host_binds(f, n) || state_named(state, n) || exists|j: int| 0 <= j < k && #[trigger] declares(ms[j].body@, n)
}

/// A local of an applied modifier takes a name already in scope (FE449).
pub open spec fn local_collision(f: Function, state: Seq<StateVar>, ms: Seq<Modifier>) -> bool {
    exists|k: int, n: Seq<char>|
        0 <= k < ms.len() && #[trigger] declares(ms[k].body@, n) && taken_before(f, state, ms, k, n)
}

/// An applied modifier refers to a state variable whose name the host binds, so that the
/// spliced reference would read the host's binding (FE488).
pub open spec fn state_capture(f: Function, state: Seq<StateVar>, ms: Seq<Modifier>) -> bool {
    exists|k: int, i: int|
        0 <= k < ms.len() && 0 <= i < state.len() && host_binds(f, #[trigger] state[i].name@) && (stmts_ref_span(
            #[trigger] ms[k].body@,
            state[i].name@,
        ) is Some)
}

/// The declarations picked by `idx`.
pub open spec fn pick(mods: Seq<Modifier>, idx: Seq<usize>) -> Seq<Modifier> {
    Seq::new(idx.len(), |k: int| mods[idx[k] as int])
}

/// The names of the function's parameters and body locals.
fn host_names(f: &Function) -> (r: Vec<String>)
    ensures
        forall|n: Seq<char>| #[trigger] names_has(r@, n) <==> host_binds(*f, n),
{
    let mut out: Vec<String> = Vec::new();
    let mut k: usize = 0;
    while k < f.params.len()
        invariant
            k <= f.params@.len(),
            forall|n: Seq<char>|
                #[trigger] names_has(out@, n) <==> exists|i: int| 0 <= i < k && #[trigger] f.params@[i].name@ == n,
        decreases f.params@.len() - k,
    {
        let ghost before = out@;
        out.push(clone_string(&f.params[k].name));
        proof {
            lemma_names_push(before, out@.last());
            assert(before.push(out@.last()) =~= out@);
            assert forall|n: Seq<char>| #[trigger] names_has(out@, n) <==> exists|i: int|
                0 <= i < k + 1 && #[trigger] f.params@[i].name@ == n by {
                if names_has(before, n) {
                    let i = choose|i: int| 0 <= i < k && #[trigger] f.params@[i].name@ == n;
                }
                if out@.last()@ == n {
                    assert(f.params@[k as int].name@ == n);
                }
            }
        }
        k = k + 1;
    }
    collect_local_names(&f.body, &mut out);
    out
}

/// Whether some applied modifier's local takes a name already in scope (see
/// `local_collision`).
fn has_local_collision(f: &Function, state: &Vec<StateVar>, mods: &Vec<Modifier>, idx: &Vec<usize>) -> (r: bool)
    requires
        forall|k: int| 0 <= k < idx@.len() ==> #[trigger] idx@[k] < mods@.len(),
    ensures
        r == local_collision(*f, state@, pick(mods@, idx@)),
{
    let ghost ms = pick(mods@, idx@);
    let mut seen = host_names(f);
    let mut i: usize = 0;
    while i < state.len()
        invariant
            i <= state@.len(),
            forall|n: Seq<char>|
                #[trigger] names_has(seen@, n) <==> (host_binds(*f, n) || exists|j: int|
                    0 <= j < i && #[trigger] state@[j].name@ == n),
        decreases state@.len() - i,
    {
        let ghost before = seen@;
        seen.push(clone_string(&state[i].name));
        proof {
            lemma_names_push(before, seen@.last());
            assert(before.push(seen@.last()) =~= seen@);
            assert forall|n: Seq<char>| #[trigger] names_has(seen@, n) <==> (host_binds(*f, n) || exists|j: int|
                0 <= j < i + 1 && #[trigger] state@[j].name@ == n) by {
                if seen@.last()@ == n {
                    assert(state@[i as int].name@ == n);
                }
            }
        }
        i = i + 1;
    }
    let mut k: usize = 0;
    while k < idx.len()
        invariant
            k <= idx@.len(),
            ms == pick(mods@, idx@),
            forall|j: int| 0 <= j < idx@.len() ==> #[trigger] idx@[j] < mods@.len(),
            forall|n: Seq<char>| #[trigger] names_has(seen@, n) <==> taken_before(*f, state@, ms, k as int, n),
            forall|j: int, n: Seq<char>|
                0 <= j < k && #[trigger] declares(ms[j].body@, n) ==> !taken_before(*f, state@, ms, j, n),
        decreases idx@.len() - k,
    {
        let m = &mods[idx[k]];
        assert(ms[k as int] == *m);
        let mut mlocals: Vec<String> = Vec::new();
        collect_local_names(&m.body, &mut mlocals);
        let mut q: usize = 0;
        while q < mlocals.len()
            invariant
                q <= mlocals@.len(),
                k < idx@.len(),
                ms == pick(mods@, idx@),
                ms[k as int] == *m,
                forall|n: Seq<char>| #[trigger] names_has(mlocals@, n) <==> declares(m.body@, n),
                forall|n: Seq<char>| #[trigger] names_has(seen@, n) <==> taken_before(*f, state@, ms, k as int, n),
                forall|j: int| 0 <= j < q ==> !names_has(seen@, (#[trigger] mlocals@[j])@),
            decreases mlocals@.len() - q,
        {
            if name_in(&seen, mlocals[q].as_str()) {
                proof {
                    let n = mlocals@[q as int]@;
                    assert(names_has(mlocals@, n));
                    assert(declares(ms[k as int].body@, n));
                }
                return true;
            }
            q = q + 1;
        }
        proof {
            assert forall|n: Seq<char>| #[trigger] declares(ms[k as int].body@, n) implies !taken_before(
                *f,
                state@,
                ms,
                k as int,
                n,
            ) by {
                assert(names_has(mlocals@, n));
                let j = choose|j: int| 0 <= j < mlocals@.len() && (#[trigger] mlocals@[j])@ == n;
            }
        }
        let mut q: usize = 0;
        while q < mlocals.len()
            invariant
                q <= mlocals@.len(),
                forall|n: Seq<char>|
                    #[trigger] names_has(seen@, n) <==> (taken_before(*f, state@, ms, k as int, n) || exists|j: int|
                        0 <= j < q && (#[trigger] mlocals@[j])@ == n),
            decreases mlocals@.len() - q,
        {
            let ghost before = seen@;
            seen.push(clone_string(&mlocals[q]));
            proof {
                lemma_names_push(before, seen@.last());
                assert(before.push(seen@.last()) =~= seen@);
                assert forall|n: Seq<char>| #[trigger] names_has(seen@, n) <==> (taken_before(
                    *f,
                    state@,
                    ms,
                    k as int,
                    n,
                ) || exists|j: int| 0 <= j < q + 1 && (#[trigger] mlocals@[j])@ == n) by {
                    if seen@.last()@ == n {
                        assert(mlocals@[q as int]@ == n);
                    }
                }
            }
            q = q + 1;
        }
        proof {
            assert forall|n: Seq<char>| #[trigger] names_has(seen@, n) <==> taken_before(*f, state@, ms, k + 1, n) by {
                if names_has(mlocals@, n) {
                    assert(declares(ms[k as int].body@, n));
                }
                if declares(ms[k as int].body@, n) {
                    assert(names_has(mlocals@, n));
                }
                if exists|j: int| 0 <= j < k + 1 && #[trigger] declares(ms[j].body@, n) {
                    let j = choose|j: int| 0 <= j < k + 1 && #[trigger] declares(ms[j].body@, n);
                    if j < k {
                        assert(taken_before(*f, state@, ms, k as int, n));
                    }
                }
            }
        }
        k = k + 1;
    }
    false
}

/// Whether an applied modifier refers to a state variable whose name the host binds (see
/// `state_capture`).
fn has_state_capture(f: &Function, state: &Vec<StateVar>, mods: &Vec<Modifier>, idx: &Vec<usize>) -> (r: bool)
    requires
        forall|k: int| 0 <= k < idx@.len() ==> #[trigger] idx@[k] < mods@.len(),
    ensures
        r == state_capture(*f, state@, pick(mods@, idx@)),
{
    let ghost ms = pick(mods@, idx@);
    let names = host_names(f);
    let mut k: usize = 0;
    while k < idx.len()
        invariant
            k <= idx@.len(),
            ms == pick(mods@, idx@),
            forall|j: int| 0 <= j < idx@.len() ==> #[trigger] idx@[j] < mods@.len(),
            forall|n: Seq<char>| #[trigger] names_has(names@, n) <==> host_binds(*f, n),
            forall|j: int, i: int|
                0 <= j < k && 0 <= i < state@.len() && host_binds(*f, #[trigger] state@[i].name@) ==> (stmts_ref_span(
                    #[trigger] ms[j].body@,
                    state@[i].name@,
                ) is None),
        decreases idx@.len() - k,
    {
        let m = &mods[idx[k]];
        assert(ms[k as int] == *m);
        let mut i: usize = 0;
        while i < state.len()
            invariant
                i <= state@.len(),
                k < idx@.len(),
                ms == pick(mods@, idx@),
                ms[k as int] == *m,
                forall|n: Seq<char>| #[trigger] names_has(names@, n) <==> host_binds(*f, n),
                forall|q: int|
                    0 <= q < i && host_binds(*f, #[trigger] state@[q].name@) ==> (stmts_ref_span(
                        m.body@,
                        state@[q].name@,
                    ) is None),
            decreases state@.len() - i,
        {
            let sv = &state[i];
            if name_in(&names, sv.name.as_str()) && first_reference(&m.body, sv.name.as_str()).is_some() {
                proof {
                    assert(host_binds(*f, state@[i as int].name@));
                    assert(stmts_ref_span(ms[k as int].body@, state@[i as int].name@) is Some);
                }
                return true;
            }
            i = i + 1;
        }
        k = k + 1;
    }
    false
}

// ── Preparing a modifier body ────────────────────────────────────────────────

/// The names of the parameters.
pub open spec fn param_names(ps: Seq<Param>) -> Seq<Seq<char>> {
    ps.map_values(|p: Param| p.name@)
}

/// The prefix of the `n`-th parameterized application's bindings: `__fe_m{n}_`.
pub open spec fn mod_prefix(n: nat) -> Seq<char> {
    "__fe_m"@ + dec_chars(n) + "_"@
}

/// `s` binds parameter `p` to a copy of the application's argument, under the prefixed name.
pub open spec fn binds_param(s: Stmt, p: Param, arg: Expr, prefix: Seq<char>) -> bool {
    match s {
        Stmt::LocalVar { name, ty, value, span } => name@ == prefix + p.name@ && same_type(ty, p.ty)
            && expr_renamed(value, arg, seq![], seq![]) && span == p.span,
        _ => false,
    }
}

/// `out` is modifier `m` prepared for one application with `args`, numbered `n`: a
/// parameterless modifier is a copy of its body; otherwise the body comes after one
/// binding per parameter (paired with the arguments in order), with every reference to a
/// parameter renamed to its binding.
pub open spec fn prepared(out: Seq<Stmt>, m: Modifier, args: Seq<Expr>, n: nat) -> bool {
    let p = m.params@.len();
    if p == 0 {
        stmts_renamed(out, m.body@, seq![], seq![])
    } else {
        let z = if p <= args.len() {
            p
        } else {
            args.len()
        };
        &&& out.len() == z + m.body@.len()
        &&& forall|i: int| 0 <= i < z ==> binds_param(#[trigger] out[i], m.params@[i], args[i], mod_prefix(n))
        &&& stmts_renamed(out.skip(z as int), m.body@, param_names(m.params@), mod_prefix(n))
    }
}

/// A prepared body holds the placeholders of the modifier's body.
proof fn lemma_prepared_placeholders(out: Seq<Stmt>, m: Modifier, args: Seq<Expr>, n: nat)
    requires
        prepared(out, m, args, n),
    ensures
        placeholders(out) == placeholders(m.body@),
{
    let p = m.params@.len();
    if p == 0 {
        lemma_renamed_placeholders(out, m.body@, seq![], seq![]);
    } else {
        let z = if p <= args.len() {
            p
        } else {
            args.len()
        };
        lemma_renamed_placeholders(out.skip(z as int), m.body@, param_names(m.params@), mod_prefix(n));
        lemma_bindings_placeholders(out, z as int, m, args, n);
        lemma_placeholders_concat(out.take(z as int), out.skip(z as int));
        assert(out.take(z as int) + out.skip(z as int) =~= out);
    }
}

proof fn lemma_bindings_placeholders(out: Seq<Stmt>, z: int, m: Modifier, args: Seq<Expr>, n: nat)
    requires
        0 <= z <= out.len(),
        forall|i: int| 0 <= i < z ==> binds_param(#[trigger] out[i], m.params@[i], args[i], mod_prefix(n)),
    ensures
        placeholders(out.take(z)) == 0,
    decreases z,
{
    if z > 0 {
        lemma_bindings_placeholders(out, z - 1, m, args, n);
        assert(out.take(z).drop_last() =~= out.take(z - 1));
        assert(binds_param(out[z - 1], m.params@[z - 1], args[z - 1], mod_prefix(n)));
    }
}

/// Prepares modifier `m` for one application with `args`: a parameterless modifier is
/// copied; a parameterized one gets the next number from `counter`, binds each parameter
/// once to its argument under `__fe_m{n}_`, and has its parameter references renamed.
pub fn prepare_modifier_body(m: &Modifier, args: &Vec<Expr>, counter: &mut usize) -> (r: Vec<Stmt>)
    requires
        m.params@.len() > 0 ==> *old(counter) < usize::MAX,
    ensures
        prepared(r@, *m, args@, *old(counter) as nat),
        *final(counter) == *old(counter) + if m.params@.len() > 0 {
            1int
        } else {
            0int
        },
{
    if m.params.len() == 0 {
        let none: Vec<String> = Vec::new();
        let empty = "";
        proof {
            assert(texts_view(none@) =~= Seq::<Seq<char>>::empty());
            reveal_strlit("");
            assert(empty@ =~= Seq::<char>::empty());
        }
        return rename_body(&m.body, &none, empty);
    }
    let n = *counter;
    *counter = n + 1;
    let prefix = concat_str(concat_str(String::from_str("__fe_m"), usize_decimal(n).as_str()), "_");
    let mut names: Vec<String> = Vec::new();
    let mut k: usize = 0;
    while k < m.params.len()
        invariant
            k <= m.params@.len(),
            names@.len() == k,
            forall|i: int| 0 <= i < k ==> (#[trigger] names@[i])@ == m.params@[i].name@,
        decreases m.params@.len() - k,
    {
        names.push(clone_string(&m.params[k].name));
        k = k + 1;
    }
    assert(texts_view(names@) =~= param_names(m.params@));
    let mut renamed = rename_body(&m.body, &names, prefix.as_str());
    let z: usize = if m.params.len() <= args.len() {
        m.params.len()
    } else {
        args.len()
    };
    let mut out: Vec<Stmt> = Vec::new();
    let mut k: usize = 0;
    while k < z
        invariant
            k <= z,
            z <= m.params@.len(),
            z <= args@.len(),
            out@.len() == k,
            prefix@ == mod_prefix(n as nat),
            forall|i: int| 0 <= i < k ==> binds_param(#[trigger] out@[i], m.params@[i], args@[i], mod_prefix(n as nat)),
        decreases z - k,
    {
        let p = &m.params[k];
        out.push(
            Stmt::LocalVar {
                name: concat_str(clone_string(&prefix), p.name.as_str()),
                ty: copy_type(&p.ty),
                value: copy_expr(&args[k]),
                span: copy_span(&p.span),
            },
        );
        k = k + 1;
    }
    let ghost pre = out@;
    let ghost rn = renamed@;
    out.append(&mut renamed);
    proof {
        assert(out@.skip(z as int) =~= rn);
        assert forall|i: int| 0 <= i < z implies binds_param(
            #[trigger] out@[i],
            m.params@[i],
            args@[i],
            mod_prefix(n as nat),
        ) by {
            assert(out@[i] == pre[i]);
        }
    }
    out
}

// ── Inlining one function ────────────────────────────────────────────────────

/// `out` is `host` wrapped by the bodies, the first outermost, through the intermediate
/// results `mids`: `mids` runs from `out` to `host`, and each body's placeholder takes the
/// result after it.
pub open spec fn wrapped(out: Seq<Stmt>, bodies: Seq<Seq<Stmt>>, host: Seq<Stmt>, mids: Seq<Seq<Stmt>>) -> bool {
    &&& mids.len() == bodies.len() + 1
    &&& mids[0] == out
    &&& mids[bodies.len() as int] == host
    &&& forall|k: int| 0 <= k < bodies.len() ==> spliced(mids[k], #[trigger] bodies[k], Some(mids[k + 1]))
}

/// How many of the modifiers take parameters.
pub open spec fn param_count(ms: Seq<Modifier>) -> nat
    decreases ms.len(),
{
    if ms.len() == 0 {
        0
    } else {
        (if ms[0].params@.len() > 0 {
            1nat
        } else {
            0nat
        }) + param_count(ms.drop_first())
    }
}

proof fn lemma_param_count_bound(ms: Seq<Modifier>)
    ensures
        param_count(ms) <= ms.len(),
    decreases ms.len(),
{
    if ms.len() > 0 {
        lemma_param_count_bound(ms.drop_first());
    }
}

/// The function's name, parameters, return type, visibility, mutability, bodilessness and
/// span are those of `f`.
pub open spec fn same_header(g: Function, f: Function) -> bool {
    &&& g.name == f.name
    &&& g.params == f.params
    &&& g.ret == f.ret
    &&& g.visibility == f.visibility
    &&& g.mutability == f.mutability
    &&& g.bodiless == f.bodiless
    &&& g.span == f.span
}

/// `g` is `f` with its applied modifiers inlined: no modifier is left, and the body is the
/// host body wrapped by the prepared applications, the leftmost outermost; the
/// parameterized applications are numbered from `n` on, right to left.
pub open spec fn inlined_fn(g: Function, f: Function, mods: Seq<Modifier>, n: nat) -> bool {
    let ms = applied(mods, f.modifiers@);
    &&& same_header(g, f)
    &&& g.modifiers@.len() == 0
    &&& exists|pb: Seq<Seq<Stmt>>, mids: Seq<Seq<Stmt>>|
        #[trigger] wrapped(g.body@, pb, f.body@, mids) && pb.len() == ms.len() && forall|k: int|
            0 <= k < ms.len() ==> prepared(
                #[trigger] pb[k],
                ms[k],
                f.modifiers@[k].args@,
                n + param_count(ms.skip(k + 1)),
            )
}

/// The refusal found before any splicing: an application refused (see `app_code`), then a
/// local collision (FE449), then a state capture (FE488).
pub open spec fn pre_splice_code(f: Function, mods: Seq<Modifier>, state: Seq<StateVar>) -> Option<&'static str> {
    match apps_code_from(mods, f.modifiers@, 0) {
        Some(c) => Some(c),
        None => {
            let ms = applied(mods, f.modifiers@);
            if local_collision(f, state, ms) {
                Some(codes::FE449_MODIFIER_LOCAL_COLLISION_SOL)
            } else if state_capture(f, state, ms) {
                Some(codes::FE488_STATE_CAPTURE_SOL)
            } else {
                None
            }
        },
    }
}

/// Some applied modifier has no placeholder to take the host.
pub open spec fn unconsumed(ms: Seq<Modifier>) -> bool {
    exists|k: int| 0 <= k < ms.len() && placeholders(#[trigger] ms[k].body@) == 0
}

/// The outcome of inlining the modifiers of `f` (which applies at least one), `g` being the
/// function afterwards and `n` the first free application number: a refusal before
/// splicing leaves `f` as it was; a modifier without placeholder is an internal FE500 at
/// `0..0` and leaves the body empty; otherwise `g` is the inlined function, refused when a
/// placeholder survives (FE500) or when it nests deeper than `MAX_NEST_DEPTH` (FE402).
pub open spec fn fn_outcome(g: Function, f: Function, mods: Seq<Modifier>, state: Seq<StateVar>, n: nat, r: Result<(), FrontendDiag>) -> bool {
    let ms = applied(mods, f.modifiers@);
    match pre_splice_code(f, mods, state) {
        Some(c) => r is Err && r->Err_0.code == c && r->Err_0.span == f.span && g == f,
        None => if unconsumed(ms) {
            &&& r is Err
            &&& r->Err_0.code == codes::FE500_INTERNAL_MALFORMED_SOL
            &&& r->Err_0.span == (0usize..0usize)
            &&& same_header(g, f)
            &&& g.modifiers == f.modifiers
            &&& g.body@.len() == 0
        } else {
            &&& inlined_fn(g, f, mods, n)
            &&& if placeholders(f.body@) > 0 {
                r is Err && r->Err_0.code == codes::FE500_INTERNAL_MALFORMED_SOL && r->Err_0.span == f.span
            } else if block_depth_spec(g.body@) > MAX_NEST_DEPTH {
                r is Err && r->Err_0.code == codes::FE402_TOO_LARGE_SOL && r->Err_0.span == f.span
            } else {
                r is Ok
            }
        },
    }
}

/// A wrapped host keeps exactly its own placeholders when every wrapping body has one.
proof fn lemma_wrapped_placeholders(bodies: Seq<Seq<Stmt>>, mids: Seq<Seq<Stmt>>, k: int)
    requires
        0 <= k <= bodies.len(),
        mids.len() == bodies.len() + 1,
        forall|j: int| 0 <= j < bodies.len() ==> spliced(mids[j], #[trigger] bodies[j], Some(mids[j + 1])),
        forall|j: int| 0 <= j < bodies.len() ==> placeholders(#[trigger] bodies[j]) > 0,
    ensures
        placeholders(mids[k]) == placeholders(mids[bodies.len() as int]),
    decreases bodies.len() - k,
{
    if k < bodies.len() {
        lemma_wrapped_placeholders(bodies, mids, k + 1);
        assert(placeholders(bodies[k]) > 0);
        lemma_spliced_placeholders(mids[k], bodies[k], Some(mids[k + 1]));
    }
}

fn modifier_message(lead: &str, name: &String, tail: &str) -> (r: String)
    ensures
        r@ == lead@ + name@ + tail@,
{
    concat_str(concat_str(String::from_str(lead), name.as_str()), tail)
}

/// Inlines the modifiers applied to `f` (see `fn_outcome`), numbering the parameterized
/// applications from `counter`.
pub fn inline_function(f: &mut Function, mods: &Vec<Modifier>, state: &Vec<StateVar>, counter: &mut usize) -> (r: Result<(), FrontendDiag>)
    requires
        old(f).modifiers@.len() > 0,
        *old(counter) + old(f).modifiers@.len() <= usize::MAX,
    ensures
        fn_outcome(*final(f), *old(f), mods@, state@, *old(counter) as nat, r),
        r is Ok ==> *final(counter) == *old(counter) + param_count(applied(mods@, old(f).modifiers@)),
{
    let idx = match resolve_applications(mods, &f.modifiers) {
        Ok(v) => v,
        Err(c) => {
            return Err(FrontendDiag::new(c, modifier_message("a modifier applied to `", &f.name, "` cannot be inlined").as_str(), copy_span(&f.span)));
        },
    };
    let ghost ms = pick(mods@, idx@);
    proof {
        assert(ms =~= applied(mods@, f.modifiers@));
    }
    if has_local_collision(f, state, mods, &idx) {
        return Err(
            FrontendDiag::new(
                codes::FE449_MODIFIER_LOCAL_COLLISION_SOL,
                modifier_message("a modifier-introduced local collides with a function local/param, a state field, or another modifier's local in `", &f.name, "`").as_str(),
                copy_span(&f.span),
            ),
        );
    }
    if has_state_capture(f, state, mods, &idx) {
        return Err(
            FrontendDiag::new(
                codes::FE488_STATE_CAPTURE_SOL,
                modifier_message("inlining a modifier into `", &f.name, "` would capture a state-field reference under a parameter/local of the same name").as_str(),
                copy_span(&f.span),
            ),
        );
    }
    let ghost f0 = *f;
    let ghost n0 = *counter as nat;
    let mut inner: Vec<Stmt> = Vec::new();
    std::mem::swap(&mut inner, &mut f.body);
    let ghost host = inner@;
    let ghost f1 = *f;
    let mut k: usize = idx.len();
    let ghost mut pbs: Seq<Seq<Stmt>> = Seq::empty();
    let ghost mut mids: Seq<Seq<Stmt>> = seq![host];
    proof {
        assert(ms.skip(k as int) =~= Seq::<Modifier>::empty());
        assert(pbs.len() == 0);
    }
    while k > 0
        invariant
            k <= idx@.len(),
            idx@.len() == f0.modifiers@.len(),
            forall|j: int| 0 <= j < idx@.len() ==> #[trigger] idx@[j] < mods@.len(),
            ms == pick(mods@, idx@),
            ms == applied(mods@, f0.modifiers@),
            *f == f1,
            f0 == *old(f),
            f1.modifiers == f0.modifiers,
            same_header(f1, f0),
            f1.body@.len() == 0,
            pre_splice_code(f0, mods@, state@) is None,
            host == f0.body@,
            n0 + f0.modifiers@.len() <= usize::MAX,
            pbs.len() == idx@.len() - k,
            forall|j: int|
                0 <= j < pbs.len() ==> prepared(
                    #[trigger] pbs[j],
                    ms[k + j],
                    f0.modifiers@[k + j].args@,
                    n0 + param_count(ms.skip(k + j + 1)),
                ) && placeholders(ms[k + j].body@) > 0,
            wrapped(inner@, pbs, host, mids),
            *counter == n0 + param_count(ms.skip(k as int)),
        decreases k,
    {
        proof {
            lemma_param_count_bound(ms.skip(k as int));
        }
        k = k - 1;
        let m = &mods[idx[k]];
        assert(ms[k as int] == *m);
        proof {
            assert(ms.skip(k as int).drop_first() =~= ms.skip(k + 1));
        }
        let body = prepare_modifier_body(m, &f.modifiers[k].args, counter);
        let ghost b = body@;
        proof {
            lemma_prepared_placeholders(b, *m, f0.modifiers@[k as int].args@, n0 + param_count(ms.skip(k + 1)));
        }
        match splice(body, inner) {
            Ok(v) => {
                let ghost prev = inner@;
                let ghost pbs0 = pbs;
                let ghost mids0 = mids;
                inner = v;
                proof {
                    pbs = seq![b] + pbs0;
                    mids = seq![inner@] + mids0;
                    assert forall|j: int| 0 <= j < pbs.len() implies spliced(
                        mids[j],
                        #[trigger] pbs[j],
                        Some(mids[j + 1]),
                    ) by {
                        if j > 0 {
                            assert(pbs[j] == pbs0[j - 1]);
                            assert(mids[j] == mids0[j - 1]);
                            assert(mids[j + 1] == mids0[j]);
                        }
                    }
                    assert forall|j: int| 0 <= j < pbs.len() implies prepared(
                        #[trigger] pbs[j],
                        ms[k + j],
                        f0.modifiers@[k + j].args@,
                        n0 + param_count(ms.skip(k + j + 1)),
                    ) && placeholders(ms[k + j].body@) > 0 by {
                        if j > 0 {
                            assert(pbs[j] == pbs0[j - 1]);
                            assert(k + j == (k + 1) + (j - 1));
                        }
                    }
                }
            },
            Err(d) => {
                proof {
                    assert(placeholders(ms[k as int].body@) == 0);
                    assert(unconsumed(ms));
                }
                return Err(d);
            },
        }
    }
    proof {
        assert(ms.skip(0) =~= ms);
        assert(!unconsumed(ms)) by {
            assert forall|j: int| 0 <= j < ms.len() implies placeholders(#[trigger] ms[j].body@) > 0 by {
                assert(prepared(pbs[j], ms[j], f0.modifiers@[j].args@, n0 + param_count(ms.skip(j + 1))));
            }
        }
        assert forall|j: int| 0 <= j < pbs.len() implies placeholders(#[trigger] pbs[j]) > 0 by {
            lemma_prepared_placeholders(pbs[j], ms[j], f0.modifiers@[j].args@, n0 + param_count(ms.skip(j + 1)));
        }
        lemma_wrapped_placeholders(pbs, mids, 0);
    }
    f.body = inner;
    f.modifiers.clear();
    proof {
        assert(wrapped(f.body@, pbs, f0.body@, mids));
        assert(inlined_fn(*f, f0, mods@, n0));
    }
    if has_placeholder(&f.body) {
        return Err(
            FrontendDiag::new(
                codes::FE500_INTERNAL_MALFORMED_SOL,
                "internal: a modifier `_` placeholder survived inlining",
                copy_span(&f.span),
            ),
        );
    }
    if block_depth(&f.body) > MAX_NEST_DEPTH {
        return Err(
            FrontendDiag::new(
                codes::FE402_TOO_LARGE_SOL,
                modifier_message("inlined body of `", &f.name, "` exceeds nesting depth 12").as_str(),
                copy_span(&f.span),
            ),
        );
    }
    Ok(())
}

// ── Inlining a contract ──────────────────────────────────────────────────────

/// The modifier applications on the functions before index `j`.
pub open spec fn apps_total(fns: Seq<Function>, j: int) -> nat
    decreases j,
{
    if j <= 0 {
        0
    } else {
        apps_total(fns, j - 1) + fns[j - 1].modifiers@.len()
    }
}

/// The parameterized applications on the functions before index `j`: the first number free
/// for function `j`.
pub open spec fn apps_before(fns: Seq<Function>, mods: Seq<Modifier>, j: int) -> nat
    decreases j,
{
    if j <= 0 {
        0
    } else {
        apps_before(fns, mods, j - 1) + param_count(applied(mods, fns[j - 1].modifiers@))
    }
}

proof fn lemma_apps_bounds(fns: Seq<Function>, mods: Seq<Modifier>, j: int, k: int)
    requires
        0 <= j <= k,
    ensures
        apps_before(fns, mods, j) <= apps_total(fns, j),
        apps_total(fns, j) <= apps_total(fns, k),
    decreases k,
{
    if k > j {
        lemma_apps_bounds(fns, mods, j, k - 1);
    } else if j > 0 {
        lemma_apps_bounds(fns, mods, j - 1, j - 1);
        lemma_param_count_bound(applied(mods, fns[j - 1].modifiers@));
    }
}

/// Function `f` came through inlining as `g`, numbering from `n`: untouched when it applies
/// no modifier, else inlined without refusal.
pub open spec fn fn_ok(g: Function, f: Function, mods: Seq<Modifier>, state: Seq<StateVar>, n: nat) -> bool {
    if f.modifiers@.len() == 0 {
        g == f
    } else {
        fn_outcome(g, f, mods, state, n, Ok(()))
    }
}

/// Everything of the contract but its functions is as in `b`.
pub open spec fn same_members(a: Contract, b: Contract) -> bool {
    &&& a.name == b.name
    &&& a.kind == b.kind
    &&& a.bases == b.bases
    &&& a.structs == b.structs
    &&& a.state == b.state
    &&& a.modifiers == b.modifiers
    &&& a.constructor == b.constructor
    &&& a.enums == b.enums
    &&& a.span == b.span
    &&& a.functions@.len() == b.functions@.len()
}

/// Inlines every applied modifier into the function it guards (see `fn_outcome`), the
/// functions in order and the parameterized applications numbered across the contract. A
/// modifier declared twice is refused first (FE450, at the repeated declaration). On
/// success every function is inlined; on a refusal the functions before the refused one
/// are inlined, the refused one is as `fn_outcome` says and those after it are untouched.
pub fn inline_modifiers(c: &mut Contract) -> (r: Result<(), FrontendDiag>)
    requires
        apps_total(old(c).functions@, old(c).functions@.len() as int) <= usize::MAX,
    ensures
        match first_redeclared_from(old(c).modifiers@, 0) {
            Some(i) => r is Err && r->Err_0.code == codes::FE450_DUPLICATE_MODIFIER_SOL && r->Err_0.span
                == old(c).modifiers@[i].span && *final(c) == *old(c),
            None => {
                let fns = old(c).functions@;
                let mods = old(c).modifiers@;
                let state = old(c).state@;
                &&& same_members(*final(c), *old(c))
                &&& r is Ok ==> forall|j: int|
                    0 <= j < fns.len() ==> fn_ok(
                        #[trigger] final(c).functions@[j],
                        fns[j],
                        mods,
                        state,
                        apps_before(fns, mods, j),
                    )
                &&& r is Err ==> exists|i: int|
                    0 <= i < fns.len() && (forall|j: int|
                        0 <= j < i ==> fn_ok(
                            #[trigger] final(c).functions@[j],
                            fns[j],
                            mods,
                            state,
                            apps_before(fns, mods, j),
                        )) && fns[i].modifiers@.len() > 0 && fn_outcome(
                        #[trigger] final(c).functions@[i],
                        fns[i],
                        mods,
                        state,
                        apps_before(fns, mods, i),
                        r,
                    ) && (forall|j: int| i < j < fns.len() ==> #[trigger] final(c).functions@[j] == fns[j])
            },
        },
{
    let mut i: usize = 0;
    while i < c.modifiers.len()
        invariant
            i <= c.modifiers@.len(),
            first_redeclared_from(c.modifiers@, 0) == first_redeclared_from(c.modifiers@, i as int),
        decreases c.modifiers@.len() - i,
    {
        if find_modifier(&c.modifiers, c.modifiers[i].name.as_str()) != Some(i) {
            return Err(
                FrontendDiag::new(
                    codes::FE450_DUPLICATE_MODIFIER_SOL,
                    modifier_message("duplicate modifier declaration `", &c.modifiers[i].name, "`").as_str(),
                    copy_span(&c.modifiers[i].span),
                ),
            );
        }
        i = i + 1;
    }
    let ghost c0 = *c;
    let ghost fns = c0.functions@;
    let ghost mods = c0.modifiers@;
    let ghost state = c0.state@;
    let mut counter: usize = 0;
    let mut fi: usize = 0;
    while fi < c.functions.len()
        invariant
            fi <= c.functions@.len(),
            c0 == *old(c),
            first_redeclared_from(c0.modifiers@, 0) is None,
            same_members(*c, c0),
            fns == c0.functions@,
            mods == c.modifiers@,
            state == c.state@,
            apps_total(fns, fns.len() as int) <= usize::MAX,
            counter == apps_before(fns, mods, fi as int),
            forall|j: int| 0 <= j < fi ==> fn_ok(#[trigger] c.functions@[j], fns[j], mods, state, apps_before(fns, mods, j)),
            forall|j: int| fi <= j < fns.len() ==> #[trigger] c.functions@[j] == fns[j],
        decreases c.functions@.len() - fi,
    {
        proof {
            lemma_apps_bounds(fns, mods, fi as int, fns.len() as int);
            lemma_apps_bounds(fns, mods, fi + 1, fns.len() as int);
        }
        if c.functions[fi].modifiers.len() > 0 {
            let ghost before = c.functions@;
            let res = inline_function(&mut c.functions[fi], &c.modifiers, &c.state, &mut counter);
            match res {
                Ok(()) => {},
                Err(d) => {
                    proof {
                        assert(c.functions@ == before.update(fi as int, c.functions@[fi as int]));
                        assert(same_members(*c, c0));
                        let fi0 = fi as int;
                        assert(forall|j: int| 0 <= j < fi0 ==> fn_ok(#[trigger] c.functions@[j], fns[j], mods, state, apps_before(fns, mods, j)));
                        assert(forall|j: int| fi0 < j < fns.len() ==> #[trigger] c.functions@[j] == fns[j]);
                        assert(fn_outcome(c.functions@[fi0], fns[fi0], mods, state, apps_before(fns, mods, fi0), Err(d)));
                    }
                    return Err(d);
                },
            }
        }
        fi = fi + 1;
    }
    Ok(())
}

/// A function that applied modifiers and came through inlining applies none any more, holds
/// no placeholder and nests no deeper than `MAX_NEST_DEPTH`: no guard is dropped silently.
pub proof fn lemma_inlined_function_is_closed(g: Function, f: Function, mods: Seq<Modifier>, state: Seq<StateVar>, n: nat)
    requires
        f.modifiers@.len() > 0,
        fn_ok(g, f, mods, state, n),
    ensures
        g.modifiers@.len() == 0,
        placeholders(g.body@) == 0,
        block_depth_spec(g.body@) <= MAX_NEST_DEPTH,
        same_header(g, f),
{
    let ms = applied(mods, f.modifiers@);
    let (pb, mids) = choose|pb: Seq<Seq<Stmt>>, mids: Seq<Seq<Stmt>>|
        #[trigger] wrapped(g.body@, pb, f.body@, mids) && pb.len() == ms.len() && forall|k: int|
            0 <= k < ms.len() ==> prepared(
                #[trigger] pb[k],
                ms[k],
                f.modifiers@[k].args@,
                n + param_count(ms.skip(k + 1)),
            );
    assert forall|k: int| 0 <= k < pb.len() implies placeholders(#[trigger] pb[k]) > 0 by {
        lemma_prepared_placeholders(pb[k], ms[k], f.modifiers@[k].args@, n + param_count(ms.skip(k + 1)));
        assert(placeholders(ms[k].body@) > 0);
    }
    lemma_wrapped_placeholders(pb, mids, 0);
}


// ── tail returns of a value-returning callee ─────────────────────────────────

/// Whether a statement list holds a `return` (at any `if` depth).
pub open spec fn has_return(stmts: Seq<Stmt>) -> bool
    decreases stmts,
{
    if stmts.len() == 0 {
        false
    } else {
        has_return(stmts.drop_last()) || match stmts.last() {
            Stmt::Return { .. } => true,
            Stmt::If { then_body, else_body, .. } => has_return(then_body@) || has_return(else_body@),
            _ => false,
        }
    }
}

/// Whether every `return` of a body is in tail position and returns nothing or a value that
/// can be dropped (see `discard_safe`): no statement before the tail returns, and a tail
/// `if` is such a body in each branch.
pub open spec fn tail_strippable(body: Seq<Stmt>) -> bool
    decreases body,
{
    if body.len() == 0 {
        true
    } else if has_return(body.drop_last()) {
        false
    } else {
        match body.last() {
            Stmt::Return { value, .. } => match value {
                None => true,
                Some(e) => discard_safe(e),
            },
            Stmt::If { then_body, else_body, .. } => tail_strippable(then_body@) && tail_strippable(
                else_body@,
            ),
            _ => true,
        }
    }
}

/// `out` is `body` with its tail returns dropped: a tail `return` goes, a tail `if` keeps its
/// condition and span with each branch stripped the same way, any other tail stays.
pub open spec fn tail_stripped(out: Seq<Stmt>, body: Seq<Stmt>) -> bool
    decreases body,
{
    if body.len() == 0 {
        out.len() == 0
    } else {
        match body.last() {
            Stmt::Return { .. } => out == body.drop_last(),
            Stmt::If { cond, then_body, else_body, span } => {
                &&& out.len() == body.len()
                &&& out.drop_last() == body.drop_last()
                &&& out.last() matches Stmt::If { cond: c2, then_body: t2, else_body: e2, span: s2 }
                &&& c2 == cond
                &&& s2 == span
                &&& tail_stripped(t2@, then_body@)
                &&& tail_stripped(e2@, else_body@)
            },
            _ => out == body,
        }
    }
}

/// A prefix that holds a `return` stays so when it grows.
proof fn lemma_has_return_grows(s: Seq<Stmt>, i: int, j: int)
    requires
        0 <= i <= j <= s.len(),
        has_return(s.take(i)),
    ensures
        has_return(s.take(j)),
    decreases j - i,
{
    if i < j {
        lemma_has_return_grows(s, i, j - 1);
        assert(s.take(j).drop_last() =~= s.take(j - 1));
    }
}

/// Whether the first `upto` statements hold a `return` (at any `if` depth).
pub fn body_has_return(stmts: &[Stmt], upto: usize) -> (r: bool)
    requires
        upto <= stmts@.len(),
    ensures
        r == has_return(stmts@.take(upto as int)),
    decreases stmts@,
{
    let mut k: usize = 0;
    while k < upto
        invariant
            k <= upto <= stmts@.len(),
            !has_return(stmts@.take(k as int)),
        decreases upto - k,
    {
        assert(stmts@.take(k + 1).drop_last() =~= stmts@.take(k as int));
        assert(stmts@.take(k + 1).last() == stmts@[k as int]);
        let found = match &stmts[k] {
            Stmt::Return { .. } => true,
            Stmt::If { then_body, else_body, .. } => {
                assert(decreases_to!(stmts@ => stmts@[k as int]));
                body_has_return(then_body.as_slice(), then_body.len()) || body_has_return(
                    else_body.as_slice(),
                    else_body.len(),
                )
            },
            _ => false,
        };
        proof {
            if let Stmt::If { then_body, else_body, .. } = stmts@[k as int] {
                assert(then_body@.take(then_body@.len() as int) =~= then_body@);
                assert(else_body@.take(else_body@.len() as int) =~= else_body@);
            }
        }
        if found {
            proof {
                lemma_has_return_grows(stmts@, k + 1, upto as int);
            }
            return true;
        }
        k = k + 1;
    }
    false
}

/// For a value-returning callee inlined where its value is discarded: the body without its
/// tail `return`s, or `None` when some `return` is not in tail position or returns a value
/// that cannot be dropped.
pub fn strip_tail_pure_returns(body: Vec<Stmt>) -> (r: Option<Vec<Stmt>>)
    ensures
        r is Some <==> tail_strippable(body@),
        r matches Some(o) ==> tail_stripped(o@, body@),
    decreases body@,
{
    let n = body.len();
    if n == 0 {
        return Some(body);
    }
    if body_has_return(body.as_slice(), n - 1) {
        assert(body@.take(n - 1) =~= body@.drop_last());
        return None;
    }
    assert(body@.take(n - 1) =~= body@.drop_last());
    let ghost b0 = body@;
    let mut out = body;
    let last = out.pop();
    match last {
        None => Some(out),
        Some(Stmt::Return { value, span }) => match value {
            None => Some(out),
            Some(e) => {
                if emit_arg_discard_safe(&e) {
                    Some(out)
                } else {
                    None
                }
            },
        },
        Some(Stmt::If { cond, then_body, else_body, span }) => {
            proof {
                assert(decreases_to!(b0 => b0[b0.len() - 1]));
            }
            let t = match strip_tail_pure_returns(then_body) {
                Some(t) => t,
                None => return None,
            };
            let e = match strip_tail_pure_returns(else_body) {
                Some(e) => e,
                None => return None,
            };
            out.push(Stmt::If { cond, then_body: t, else_body: e, span });
            proof {
                assert(out@.drop_last() =~= b0.drop_last());
            }
            Some(out)
        },
        Some(other) => {
            out.push(other);
            assert(out@ =~= b0);
            Some(out)
        },
    }
}

} // verus!
