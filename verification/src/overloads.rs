//! Method overloads: functions that share a name with different arities get distinct names
//! (`__fe_ov<arity>_<name>`), and every internal call to such a name is rewritten by its
//! argument count.

use crate::codes;
use crate::diag::{copy_span, FrontendDiag};
use crate::parser::{Constructor, Contract, Expr, Function, Modifier, Stmt};
use crate::text::{clone_string, concat_str, dec_chars, string_eq_str, usize_decimal};
use vstd::prelude::*;

verus! {

/// The distinct name of the overload of `name` with `arity` parameters.
pub open spec fn mangled(name: Seq<char>, arity: nat) -> Seq<char> {
    "__fe_ov"@ + dec_chars(arity) + "_"@ + name
}

/// The signature table of a function list: each function's name and parameter count.
pub open spec fn sigs(fns: Seq<Function>) -> Seq<(Seq<char>, nat)> {
    fns.map_values(|f: Function| (f.name@, f.params@.len()))
}

/// The view of an executable signature table.
pub open spec fn sig_view(v: Seq<(String, usize)>) -> Seq<(Seq<char>, nat)> {
    v.map_values(|p: (String, usize)| (p.0@, p.1 as nat))
}

/// Some function of the table is named `n` and takes `a` parameters.
pub open spec fn declares(sig: Seq<(Seq<char>, nat)>, n: Seq<char>, a: nat) -> bool {
    exists|k: int| 0 <= k < sig.len() && #[trigger] sig[k] == (n, a)
}

/// `n` names functions of the table with at least two different arities.
pub open spec fn overloaded(sig: Seq<(Seq<char>, nat)>, n: Seq<char>) -> bool {
    exists|i: int, j: int|
        0 <= i < sig.len() && 0 <= j < sig.len() && (#[trigger] sig[i]).0 == n && (#[trigger] sig[j]).0 == n
            && sig[i].1 != sig[j].1
}

/// A called name after disambiguation: mangled by the call's argument count when overloaded.
pub open spec fn called_name(sig: Seq<(Seq<char>, nat)>, n: Seq<char>, arity: nat) -> Seq<char> {
    if overloaded(sig, n) {
        mangled(n, arity)
    } else {
        n
    }
}

/// `e` holds a call to an overloaded name whose argument count matches no declaration.
pub open spec fn bad_expr(e: Expr, sig: Seq<(Seq<char>, nat)>) -> bool
    decreases e,
{
    match e {
        Expr::Call(c, args, _) => (exists|k: int| 0 <= k < args@.len() && bad_expr(#[trigger] args@[k], sig)) || match *c {
            Expr::Var(n, _) => overloaded(sig, n@) && !declares(sig, n@, args@.len()),
            other => bad_expr(other, sig),
        },
        Expr::Member(b, _, _) => bad_expr(*b, sig),
        Expr::Index(b, k, _) => bad_expr(*b, sig) || bad_expr(*k, sig),
        Expr::Unary(_, b, _) => bad_expr(*b, sig),
        Expr::Bin(_, l, r, _) => bad_expr(*l, sig) || bad_expr(*r, sig),
        _ => false,
    }
}

/// `o` is `i` with each call to a name rewritten to its `called_name`; nothing else changes.
pub open spec fn expr_disambiguated(o: Expr, i: Expr, sig: Seq<(Seq<char>, nat)>) -> bool
    decreases i,
{
    match i {
        Expr::Call(c, args, s) => o matches Expr::Call(c2, args2, s2) && s2 == s && args2@.len() == args@.len() && (forall|k: int|
            0 <= k < args@.len() ==> expr_disambiguated(#[trigger] args2@[k], args@[k], sig)) && match *c {
            Expr::Var(n, vs) => *c2 matches Expr::Var(n2, vs2) && vs2 == vs && n2@ == called_name(sig, n@, args@.len()),
            other => expr_disambiguated(*c2, other, sig),
        },
        Expr::Member(b, m, s) => o matches Expr::Member(b2, m2, s2) && m2 == m && s2 == s && expr_disambiguated(
            *b2,
            *b,
            sig,
        ),
        Expr::Index(b, k, s) => o matches Expr::Index(b2, k2, s2) && s2 == s && expr_disambiguated(*b2, *b, sig)
            && expr_disambiguated(*k2, *k, sig),
        Expr::Unary(op, b, s) => o matches Expr::Unary(op2, b2, s2) && op2 == op && s2 == s && expr_disambiguated(
            *b2,
            *b,
            sig,
        ),
        Expr::Bin(op, l, r, s) => o matches Expr::Bin(op2, l2, r2, s2) && op2 == op && s2 == s && expr_disambiguated(
            *l2,
            *l,
            sig,
        ) && expr_disambiguated(*r2, *r, sig),
        _ => o == i,
    }
}

/// Some statement of `ss` holds a bad call (see `bad_stmt`).
pub open spec fn bad_stmts(ss: Seq<Stmt>, sig: Seq<(Seq<char>, nat)>) -> bool
    decreases ss, 0int,
{
    exists|k: int| 0 <= k < ss.len() && bad_stmt(#[trigger] ss[k], sig)
}

/// `s` holds a call to an overloaded name (a call statement or a call in what it evaluates,
/// at any depth) whose argument count matches no declaration.
pub open spec fn bad_stmt(s: Stmt, sig: Seq<(Seq<char>, nat)>) -> bool
    decreases s, 1int,
{
    match s {
        Stmt::CallStmt { callee, args, .. } => (exists|k: int| 0 <= k < args@.len() && bad_expr(#[trigger] args@[k], sig))
            || (overloaded(sig, callee@) && !declares(sig, callee@, args@.len())),
        Stmt::Require { cond, .. } => bad_expr(cond, sig),
        Stmt::Assert { cond, .. } => bad_expr(cond, sig),
        Stmt::Assign { value, .. } => bad_expr(value, sig),
        Stmt::LocalVar { value, .. } => bad_expr(value, sig),
        Stmt::FieldAssign { value, .. } => bad_expr(value, sig),
        Stmt::IndexAssign { key, value, .. } => bad_expr(key, sig) || bad_expr(value, sig),
        Stmt::IndexAssign2 { k1, k2, value, .. } => bad_expr(k1, sig) || bad_expr(k2, sig) || bad_expr(value, sig),
        Stmt::Return { value, .. } => value matches Some(v) && bad_expr(v, sig),
        Stmt::If { cond, then_body, else_body, .. } => {
            proof {
                assert(decreases_to!(s => then_body));
                assert(decreases_to!(then_body => then_body@));
                assert(decreases_to!(s => else_body));
                assert(decreases_to!(else_body => else_body@));
            }
            bad_expr(cond, sig) || bad_stmts(then_body@, sig) || bad_stmts(else_body@, sig)
        },
        Stmt::Unchecked { body, .. } => {
            proof {
                assert(decreases_to!(s => body));
                assert(decreases_to!(body => body@));
            }
            bad_stmts(body@, sig)
        },
        Stmt::AirdropLoop { body, .. } => {
            proof {
                assert(decreases_to!(s => body));
                assert(decreases_to!(body => body@));
            }
            bad_stmts(body@, sig)
        },
        _ => false,
    }
}

/// `o` is the list `i` statement by statement disambiguated (see `stmt_disambiguated`).
pub open spec fn stmts_disambiguated(o: Seq<Stmt>, i: Seq<Stmt>, sig: Seq<(Seq<char>, nat)>) -> bool
    decreases i, 0int,
{
    o.len() == i.len() && forall|k: int| 0 <= k < i.len() ==> stmt_disambiguated(#[trigger] o[k], i[k], sig)
}

/// `o` is `s` with its call statement's callee rewritten to its `called_name` and every
/// expression, and every nested body, disambiguated; all else is kept.
pub open spec fn stmt_disambiguated(o: Stmt, s: Stmt, sig: Seq<(Seq<char>, nat)>) -> bool
    decreases s, 1int,
{
    match s {
        Stmt::CallStmt { callee, args, span } => o matches Stmt::CallStmt { callee: c2, args: a2, span: s2 } && s2 == span
            && c2@ == called_name(sig, callee@, args@.len()) && a2@.len() == args@.len() && forall|k: int|
            0 <= k < args@.len() ==> expr_disambiguated(#[trigger] a2@[k], args@[k], sig),
        Stmt::Require { cond, span } => o matches Stmt::Require { cond: c2, span: s2 } && s2 == span && expr_disambiguated(
            c2,
            cond,
            sig,
        ),
        Stmt::Assert { cond, span } => o matches Stmt::Assert { cond: c2, span: s2 } && s2 == span && expr_disambiguated(
            c2,
            cond,
            sig,
        ),
        Stmt::Assign { target, op, value, span } => o matches Stmt::Assign { target: t2, op: op2, value: v2, span: s2 }
            && t2 == target && op2 == op && s2 == span && expr_disambiguated(v2, value, sig),
        Stmt::LocalVar { name, ty, value, span } => o matches Stmt::LocalVar { name: n2, ty: t2, value: v2, span: s2 }
            && n2 == name && t2 == ty && s2 == span && expr_disambiguated(v2, value, sig),
        Stmt::FieldAssign { obj, field, op, value, span } => o matches Stmt::FieldAssign {
            obj: b2,
            field: f2,
            op: op2,
            value: v2,
            span: s2,
        } && b2 == obj && f2 == field && op2 == op && s2 == span && expr_disambiguated(v2, value, sig),
        Stmt::IndexAssign { map, key, op, value, span } => o matches Stmt::IndexAssign {
            map: m2,
            key: k2,
            op: op2,
            value: v2,
            span: s2,
        } && m2 == map && op2 == op && s2 == span && expr_disambiguated(k2, key, sig) && expr_disambiguated(v2, value, sig),
        Stmt::IndexAssign2 { map, k1, k2, op, value, span } => o matches Stmt::IndexAssign2 {
            map: m2,
            k1: a2,
            k2: b2,
            op: op2,
            value: v2,
            span: s2,
        } && m2 == map && op2 == op && s2 == span && expr_disambiguated(a2, k1, sig) && expr_disambiguated(b2, k2, sig)
            && expr_disambiguated(v2, value, sig),
        Stmt::Return { value, span } => o matches Stmt::Return { value: v2, span: s2 } && s2 == span && match value {
            None => v2 is None,
            Some(v) => v2 matches Some(w) && expr_disambiguated(w, v, sig),
        },
        Stmt::If { cond, then_body, else_body, span } => {
            proof {
                assert(decreases_to!(s => then_body));
                assert(decreases_to!(then_body => then_body@));
                assert(decreases_to!(s => else_body));
                assert(decreases_to!(else_body => else_body@));
            }
            o matches Stmt::If { cond: c2, then_body: t2, else_body: e2, span: s2 } && s2 == span && expr_disambiguated(
                c2,
                cond,
                sig,
            ) && stmts_disambiguated(t2@, then_body@, sig) && stmts_disambiguated(e2@, else_body@, sig)
        },
        Stmt::Unchecked { body, span } => {
            proof {
                assert(decreases_to!(s => body));
                assert(decreases_to!(body => body@));
            }
            o matches Stmt::Unchecked { body: b2, span: s2 } && s2 == span && stmts_disambiguated(b2@, body@, sig)
        },
        Stmt::AirdropLoop { idx, len_array, body, span } => {
            proof {
                assert(decreases_to!(s => body));
                assert(decreases_to!(body => body@));
            }
            o matches Stmt::AirdropLoop { idx: x2, len_array: l2, body: b2, span: s2 } && x2 == idx && l2 == len_array
                && s2 == span && stmts_disambiguated(b2@, body@, sig)
        },
        _ => o == s,
    }
}

/// The distinct name of an overload: `__fe_ov<arity>_<name>`.
pub fn mangle_overload(name: &str, arity: usize) -> (r: String)
    ensures
        r@ == mangled(name@, arity as nat),
{
    let mut s = String::new();
    s = concat_str(s, "__fe_ov");
    let d = usize_decimal(arity);
    s = concat_str(s, d.as_str());
    s = concat_str(s, "_");
    s = concat_str(s, name);
    s
}

/// Whether the table holds the name `n` with `a` parameters.
fn declares_arity(sig: &Vec<(String, usize)>, n: &str, a: usize) -> (r: bool)
    ensures
        r == declares(sig_view(sig@), n@, a as nat),
{
    let ghost t = sig_view(sig@);
    let mut k: usize = 0;
    while k < sig.len()
        invariant
            k <= sig@.len(),
            t == sig_view(sig@),
            t.len() == sig@.len(),
            forall|j: int| 0 <= j < k ==> #[trigger] t[j] != (n@, a as nat),
        decreases sig@.len() - k,
    {
        assert(t[k as int] == (sig@[k as int].0@, sig@[k as int].1 as nat));
        if string_eq_str(&sig[k].0, n) && sig[k].1 == a {
            return true;
        }
        k = k + 1;
    }
    false
}

/// Whether the table holds the name `n` with at least two different arities.
fn is_overloaded(sig: &Vec<(String, usize)>, n: &str) -> (r: bool)
    ensures
        r == overloaded(sig_view(sig@), n@),
{
    let ghost t = sig_view(sig@);
    let mut f: usize = 0;
    while f < sig.len() && !string_eq_str(&sig[f].0, n)
        invariant
            f <= sig@.len(),
            t == sig_view(sig@),
            t.len() == sig@.len(),
            forall|j: int| 0 <= j < f ==> (#[trigger] t[j]).0 != n@,
        decreases sig@.len() - f,
    {
        assert(t[f as int].0 == sig@[f as int].0@);
        f = f + 1;
    }
    if f == sig.len() {
        return false;
    }
    assert(t[f as int] == (sig@[f as int].0@, sig@[f as int].1 as nat));
    let a0 = sig[f].1;
    let mut k: usize = 0;
    while k < sig.len()
        invariant
            t == sig_view(sig@),
            t.len() == sig@.len(),
            f < sig@.len(),
            t[f as int].0 == n@,
            t[f as int].1 == a0,
            k <= sig@.len(),
            forall|j: int| 0 <= j < k ==> !((#[trigger] t[j]).0 == n@ && t[j].1 != a0),
        decreases sig@.len() - k,
    {
        assert(t[k as int] == (sig@[k as int].0@, sig@[k as int].1 as nat));
        if string_eq_str(&sig[k].0, n) && sig[k].1 != a0 {
            assert(t[f as int].0 == n@ && t[k as int].0 == n@);
            return true;
        }
        k = k + 1;
    }
    proof {
        if overloaded(t, n@) {
            let (i, j) = choose|i: int, j: int|
                0 <= i < t.len() && 0 <= j < t.len() && (#[trigger] t[i]).0 == n@ && (#[trigger] t[j]).0 == n@
                    && t[i].1 != t[j].1;
            assert(!(t[i].0 == n@ && t[i].1 != a0));
            assert(!(t[j].0 == n@ && t[j].1 != a0));
        }
    }
    false
}

/// A called name after disambiguation (see `called_name`).
fn disambiguate_name(n: String, arity: usize, sig: &Vec<(String, usize)>) -> (r: String)
    ensures
        r@ == called_name(sig_view(sig@), n@, arity as nat),
{
    if is_overloaded(sig, n.as_str()) {
        mangle_overload(n.as_str(), arity)
    } else {
        n
    }
}

fn arity_error(span: std::ops::Range<usize>) -> (d: FrontendDiag)
    ensures
        d.code == codes::FE420_BAD_IDENTIFIER_SOL,
{
    FrontendDiag::new(
        codes::FE420_BAD_IDENTIFIER_SOL,
        "a call to an overloaded function matches no declared overload arity",
        span,
    )
}

/// Rewrites the calls of an expression (see `expr_disambiguated`); FE420 for a call to an
/// overloaded name whose argument count matches no declaration.
pub fn disambiguate_expr(e: Expr, sig: &Vec<(String, usize)>) -> (r: Result<Expr, FrontendDiag>)
    ensures
        r is Err <==> bad_expr(e, sig_view(sig@)),
        r matches Ok(o) ==> expr_disambiguated(o, e, sig_view(sig@)),
        r matches Err(d) ==> d.code == codes::FE420_BAD_IDENTIFIER_SOL,
    decreases e,
{
    let ghost e0 = e;
    match e {
        Expr::Call(c, args, s) => {
            let ghost n_args = args@.len();
            let a2 = match disambiguate_exprs(args, sig) {
                Ok(v) => v,
                Err(d) => {
                    return Err(d);
                },
            };
            match *c {
                Expr::Var(n, vs) => {
                    let arity = a2.len();
                    if is_overloaded(sig, n.as_str()) && !declares_arity(sig, n.as_str(), arity) {
                        return Err(arity_error(s));
                    }
                    let n2 = disambiguate_name(n, arity, sig);
                    Ok(Expr::Call(Box::new(Expr::Var(n2, vs)), a2, s))
                },
                other => {
                    let c2 = match disambiguate_expr(other, sig) {
                        Ok(v) => v,
                        Err(d) => {
                            return Err(d);
                        },
                    };
                    Ok(Expr::Call(Box::new(c2), a2, s))
                },
            }
        },
        Expr::Member(b, m, s) => {
            let b2 = match disambiguate_expr(*b, sig) {
                Ok(v) => v,
                Err(d) => {
                    return Err(d);
                },
            };
            Ok(Expr::Member(Box::new(b2), m, s))
        },
        Expr::Index(b, k, s) => {
            let b2 = match disambiguate_expr(*b, sig) {
                Ok(v) => v,
                Err(d) => {
                    return Err(d);
                },
            };
            let k2 = match disambiguate_expr(*k, sig) {
                Ok(v) => v,
                Err(d) => {
                    return Err(d);
                },
            };
            Ok(Expr::Index(Box::new(b2), Box::new(k2), s))
        },
        Expr::Unary(op, b, s) => {
            let b2 = match disambiguate_expr(*b, sig) {
                Ok(v) => v,
                Err(d) => {
                    return Err(d);
                },
            };
            Ok(Expr::Unary(op, Box::new(b2), s))
        },
        Expr::Bin(op, l, r, s) => {
            let l2 = match disambiguate_expr(*l, sig) {
                Ok(v) => v,
                Err(d) => {
                    return Err(d);
                },
            };
            let r2 = match disambiguate_expr(*r, sig) {
                Ok(v) => v,
                Err(d) => {
                    return Err(d);
                },
            };
            Ok(Expr::Bin(op, Box::new(l2), Box::new(r2), s))
        },
        leaf => Ok(leaf),
    }
}

/// Rewrites the calls of each expression of a list, in order.
pub fn disambiguate_exprs(args: Vec<Expr>, sig: &Vec<(String, usize)>) -> (r: Result<Vec<Expr>, FrontendDiag>)
    ensures
        r is Err <==> exists|k: int| 0 <= k < args@.len() && bad_expr(#[trigger] args@[k], sig_view(sig@)),
        r matches Ok(v) ==> v@.len() == args@.len() && forall|k: int|
            0 <= k < args@.len() ==> expr_disambiguated(#[trigger] v@[k], args@[k], sig_view(sig@)),
        r matches Err(d) ==> d.code == codes::FE420_BAD_IDENTIFIER_SOL,
    decreases args,
{
    let ghost g = args;
    let ghost orig = args@;
    let mut rest = args;
    let mut done: Vec<Expr> = Vec::new();
    let ghost mut k: int = 0;
    while rest.len() > 0
        invariant
            0 <= k <= orig.len(),
            rest@ == orig.skip(k),
            orig == g@,
            g == args,
            done@.len() == k,
            forall|j: int| 0 <= j < k ==> !bad_expr(#[trigger] orig[j], sig_view(sig@)),
            forall|j: int| 0 <= j < k ==> expr_disambiguated(#[trigger] done@[j], orig[j], sig_view(sig@)),
        decreases rest@.len(),
    {
        let a = rest.remove(0);
        proof {
            assert(a == orig[k]);
            assert(decreases_to!(g => g@));
            assert(decreases_to!(g@ => g@[k]));
            assert(decreases_to!(g => a));
        }
        let v = match disambiguate_expr(a, sig) {
            Ok(v) => v,
            Err(d) => {
                return Err(d);
            },
        };
        done.push(v);
        proof {
            k = k + 1;
        }
        assert(rest@ =~= orig.skip(k));
    }
    Ok(done)
}

/// Rewrites the calls of a statement (see `stmt_disambiguated`); FE420 for a call to an
/// overloaded name whose argument count matches no declaration.
pub fn disambiguate_stmt(s: Stmt, sig: &Vec<(String, usize)>) -> (r: Result<Stmt, FrontendDiag>)
    ensures
        r is Err <==> bad_stmt(s, sig_view(sig@)),
        r matches Ok(o) ==> stmt_disambiguated(o, s, sig_view(sig@)),
        r matches Err(d) ==> d.code == codes::FE420_BAD_IDENTIFIER_SOL,
    decreases s, 1int,
{
    let ghost s0 = s;
    match s {
        Stmt::CallStmt { callee, args, span } => {
            let a2 = match disambiguate_exprs(args, sig) {
                Ok(v) => v,
                Err(d) => {
                    return Err(d);
                },
            };
            let arity = a2.len();
            if is_overloaded(sig, callee.as_str()) && !declares_arity(sig, callee.as_str(), arity) {
                return Err(arity_error(span));
            }
            let c2 = disambiguate_name(callee, arity, sig);
            Ok(Stmt::CallStmt { callee: c2, args: a2, span })
        },
        Stmt::Require { cond, span } => match disambiguate_expr(cond, sig) {
            Ok(c2) => Ok(Stmt::Require { cond: c2, span }),
            Err(d) => Err(d),
        },
        Stmt::Assert { cond, span } => match disambiguate_expr(cond, sig) {
            Ok(c2) => Ok(Stmt::Assert { cond: c2, span }),
            Err(d) => Err(d),
        },
        Stmt::Assign { target, op, value, span } => match disambiguate_expr(value, sig) {
            Ok(v2) => Ok(Stmt::Assign { target, op, value: v2, span }),
            Err(d) => Err(d),
        },
        Stmt::LocalVar { name, ty, value, span } => match disambiguate_expr(value, sig) {
            Ok(v2) => Ok(Stmt::LocalVar { name, ty, value: v2, span }),
            Err(d) => Err(d),
        },
        Stmt::FieldAssign { obj, field, op, value, span } => match disambiguate_expr(value, sig) {
            Ok(v2) => Ok(Stmt::FieldAssign { obj, field, op, value: v2, span }),
            Err(d) => Err(d),
        },
        Stmt::IndexAssign { map, key, op, value, span } => {
            let k2 = match disambiguate_expr(key, sig) {
                Ok(v) => v,
                Err(d) => {
                    return Err(d);
                },
            };
            match disambiguate_expr(value, sig) {
                Ok(v2) => Ok(Stmt::IndexAssign { map, key: k2, op, value: v2, span }),
                Err(d) => Err(d),
            }
        },
        Stmt::IndexAssign2 { map, k1, k2, op, value, span } => {
            let a = match disambiguate_expr(k1, sig) {
                Ok(v) => v,
                Err(d) => {
                    return Err(d);
                },
            };
            let b = match disambiguate_expr(k2, sig) {
                Ok(v) => v,
                Err(d) => {
                    return Err(d);
                },
            };
            match disambiguate_expr(value, sig) {
                Ok(v2) => Ok(Stmt::IndexAssign2 { map, k1: a, k2: b, op, value: v2, span }),
                Err(d) => Err(d),
            }
        },
        Stmt::Return { value, span } => match value {
            None => Ok(Stmt::Return { value: None, span }),
            Some(v) => match disambiguate_expr(v, sig) {
                Ok(v2) => Ok(Stmt::Return { value: Some(v2), span }),
                Err(d) => Err(d),
            },
        },
        Stmt::If { cond, then_body, else_body, span } => {
            let c2 = match disambiguate_expr(cond, sig) {
                Ok(v) => v,
                Err(d) => {
                    return Err(d);
                },
            };
            proof {
                assert(decreases_to!(s0 => then_body));
                assert(decreases_to!(s0 => else_body));
            }
            let t2 = match disambiguate_stmts(then_body, sig) {
                Ok(v) => v,
                Err(d) => {
                    return Err(d);
                },
            };
            let e2 = match disambiguate_stmts(else_body, sig) {
                Ok(v) => v,
                Err(d) => {
                    return Err(d);
                },
            };
            Ok(Stmt::If { cond: c2, then_body: t2, else_body: e2, span })
        },
        Stmt::Unchecked { body, span } => {
            proof {
                assert(decreases_to!(s0 => body));
            }
            match disambiguate_stmts(body, sig) {
                Ok(b2) => Ok(Stmt::Unchecked { body: b2, span }),
                Err(d) => Err(d),
            }
        },
        Stmt::AirdropLoop { idx, len_array, body, span } => {
            proof {
                assert(decreases_to!(s0 => body));
            }
            match disambiguate_stmts(body, sig) {
                Ok(b2) => Ok(Stmt::AirdropLoop { idx, len_array, body: b2, span }),
                Err(d) => Err(d),
            }
        },
        other => Ok(other),
    }
}

/// Rewrites the calls of each statement of a list, in order.
pub fn disambiguate_stmts(ss: Vec<Stmt>, sig: &Vec<(String, usize)>) -> (r: Result<Vec<Stmt>, FrontendDiag>)
    ensures
        r is Err <==> bad_stmts(ss@, sig_view(sig@)),
        r matches Ok(v) ==> stmts_disambiguated(v@, ss@, sig_view(sig@)),
        r matches Err(d) ==> d.code == codes::FE420_BAD_IDENTIFIER_SOL,
    decreases ss, 0int,
{
    let ghost g = ss;
    let ghost orig = ss@;
    let mut rest = ss;
    let mut done: Vec<Stmt> = Vec::new();
    let ghost mut k: int = 0;
    while rest.len() > 0
        invariant
            0 <= k <= orig.len(),
            rest@ == orig.skip(k),
            orig == g@,
            g == ss,
            done@.len() == k,
            forall|j: int| 0 <= j < k ==> !bad_stmt(#[trigger] orig[j], sig_view(sig@)),
            forall|j: int| 0 <= j < k ==> stmt_disambiguated(#[trigger] done@[j], orig[j], sig_view(sig@)),
        decreases rest@.len(),
    {
        let a = rest.remove(0);
        proof {
            assert(a == orig[k]);
            assert(decreases_to!(g => g@));
            assert(decreases_to!(g@ => g@[k]));
            assert(decreases_to!(g => a));
        }
        let v = match disambiguate_stmt(a, sig) {
            Ok(v) => v,
            Err(d) => {
                return Err(d);
            },
        };
        done.push(v);
        proof {
            k = k + 1;
        }
        assert(rest@ =~= orig.skip(k));
    }
    Ok(done)
}

/// `o` is the function `i` under its `called_name` (by its own parameter count), with its
/// body disambiguated; everything else is kept.
pub open spec fn function_disambiguated(o: Function, i: Function, sig: Seq<(Seq<char>, nat)>) -> bool {
    &&& o.name@ == called_name(sig, i.name@, i.params@.len())
    &&& o.params == i.params
    &&& o.ret == i.ret
    &&& o.visibility == i.visibility
    &&& o.mutability == i.mutability
    &&& o.modifiers == i.modifiers
    &&& o.bodiless == i.bodiless
    &&& o.span == i.span
    &&& stmts_disambiguated(o.body@, i.body@, sig)
}

/// `o` is the modifier `i` with its body disambiguated.
pub open spec fn modifier_disambiguated(o: Modifier, i: Modifier, sig: Seq<(Seq<char>, nat)>) -> bool {
    &&& o.name == i.name
    &&& o.params == i.params
    &&& o.span == i.span
    &&& stmts_disambiguated(o.body@, i.body@, sig)
}

/// Some function, modifier or constructor body of `c` holds a call to an overloaded name
/// whose argument count matches no declaration.
pub open spec fn contract_bad(c: Contract) -> bool {
    let t = sigs(c.functions@);
    ||| exists|k: int| 0 <= k < c.functions@.len() && bad_stmts((#[trigger] c.functions@[k]).body@, t)
    ||| exists|k: int| 0 <= k < c.modifiers@.len() && bad_stmts((#[trigger] c.modifiers@[k]).body@, t)
    ||| c.constructor matches Some(ct) && bad_stmts(ct.body@, t)
}

/// `o` is `i` with overloaded functions renamed by arity and every call in a function,
/// modifier or constructor body rewritten to match; all else is kept.
pub open spec fn contract_disambiguated(o: Contract, i: Contract) -> bool {
    let t = sigs(i.functions@);
    &&& o.name == i.name
    &&& o.kind == i.kind
    &&& o.bases == i.bases
    &&& o.structs == i.structs
    &&& o.state == i.state
    &&& o.enums == i.enums
    &&& o.span == i.span
    &&& o.functions@.len() == i.functions@.len()
    &&& forall|k: int| 0 <= k < i.functions@.len() ==> function_disambiguated(#[trigger] o.functions@[k], i.functions@[k], t)
    &&& o.modifiers@.len() == i.modifiers@.len()
    &&& forall|k: int| 0 <= k < i.modifiers@.len() ==> modifier_disambiguated(#[trigger] o.modifiers@[k], i.modifiers@[k], t)
    &&& match i.constructor {
        None => o.constructor is None,
        Some(a) => o.constructor matches Some(b) && b.params == a.params && b.base_calls == a.base_calls && b.span
            == a.span && stmts_disambiguated(b.body@, a.body@, t),
    }
}

/// The name and parameter count of each function, in order.
fn signature_table(fns: &Vec<Function>) -> (r: Vec<(String, usize)>)
    ensures
        sig_view(r@) == sigs(fns@),
{
    let mut out: Vec<(String, usize)> = Vec::new();
    let mut k: usize = 0;
    while k < fns.len()
        invariant
            k <= fns@.len(),
            out@.len() == k,
            forall|j: int| 0 <= j < k ==> (#[trigger] out@[j]).0@ == fns@[j].name@ && out@[j].1 == fns@[j].params@.len(),
        decreases fns@.len() - k,
    {
        out.push((clone_string(&fns[k].name), fns[k].params.len()));
        k = k + 1;
    }
    assert(sig_view(out@) =~= sigs(fns@));
    out
}

/// Each function under its disambiguated name, with its body disambiguated.
fn disambiguate_functions(fns: Vec<Function>, sig: &Vec<(String, usize)>) -> (r: Result<Vec<Function>, FrontendDiag>)
    ensures
        r is Err <==> exists|k: int| 0 <= k < fns@.len() && bad_stmts((#[trigger] fns@[k]).body@, sig_view(sig@)),
        r matches Ok(v) ==> v@.len() == fns@.len() && forall|k: int|
            0 <= k < fns@.len() ==> function_disambiguated(#[trigger] v@[k], fns@[k], sig_view(sig@)),
        r matches Err(d) ==> d.code == codes::FE420_BAD_IDENTIFIER_SOL,
{
    let ghost orig = fns@;
    let mut rest = fns;
    let mut done: Vec<Function> = Vec::new();
    let ghost mut k: int = 0;
    while rest.len() > 0
        invariant
            0 <= k <= orig.len(),
            orig == fns@,
            rest@ == orig.skip(k),
            done@.len() == k,
            forall|j: int| 0 <= j < k ==> !bad_stmts((#[trigger] orig[j]).body@, sig_view(sig@)),
            forall|j: int| 0 <= j < k ==> function_disambiguated(#[trigger] done@[j], orig[j], sig_view(sig@)),
        decreases rest@.len(),
    {
        let f = rest.remove(0);
        assert(f == orig[k]);
        let Function { name, params, ret, visibility, mutability, modifiers, body, bodiless, span } = f;
        let body2 = match disambiguate_stmts(body, sig) {
            Ok(v) => v,
            Err(d) => {
                assert(bad_stmts(orig[k].body@, sig_view(sig@)));
                return Err(d);
            },
        };
        let arity = params.len();
        let name2 = disambiguate_name(name, arity, sig);
        done.push(Function { name: name2, params, ret, visibility, mutability, modifiers, body: body2, bodiless, span });
        proof {
            k = k + 1;
        }
        assert(rest@ =~= orig.skip(k));
    }
    Ok(done)
}

/// Each modifier with its body disambiguated.
fn disambiguate_modifiers(mods: Vec<Modifier>, sig: &Vec<(String, usize)>) -> (r: Result<Vec<Modifier>, FrontendDiag>)
    ensures
        r is Err <==> exists|k: int| 0 <= k < mods@.len() && bad_stmts((#[trigger] mods@[k]).body@, sig_view(sig@)),
        r matches Ok(v) ==> v@.len() == mods@.len() && forall|k: int|
            0 <= k < mods@.len() ==> modifier_disambiguated(#[trigger] v@[k], mods@[k], sig_view(sig@)),
        r matches Err(d) ==> d.code == codes::FE420_BAD_IDENTIFIER_SOL,
{
    let ghost orig = mods@;
    let mut rest = mods;
    let mut done: Vec<Modifier> = Vec::new();
    let ghost mut k: int = 0;
    while rest.len() > 0
        invariant
            0 <= k <= orig.len(),
            orig == mods@,
            rest@ == orig.skip(k),
            done@.len() == k,
            forall|j: int| 0 <= j < k ==> !bad_stmts((#[trigger] orig[j]).body@, sig_view(sig@)),
            forall|j: int| 0 <= j < k ==> modifier_disambiguated(#[trigger] done@[j], orig[j], sig_view(sig@)),
        decreases rest@.len(),
    {
        let m = rest.remove(0);
        assert(m == orig[k]);
        let Modifier { name, params, body, span } = m;
        let body2 = match disambiguate_stmts(body, sig) {
            Ok(v) => v,
            Err(d) => {
                assert(bad_stmts(orig[k].body@, sig_view(sig@)));
                return Err(d);
            },
        };
        done.push(Modifier { name, params, body: body2, span });
        proof {
            k = k + 1;
        }
        assert(rest@ =~= orig.skip(k));
    }
    Ok(done)
}

/// Gives same-name functions of different arities distinct names (`__fe_ov<arity>_<name>`)
/// and rewrites every internal call to such a name, in function, modifier and constructor
/// bodies, by its argument count. A call to an overloaded name whose argument count matches
/// no declaration is FE420; the contract is then not to be used further (its function,
/// modifier and constructor lists may be left partly rewritten or emptied).
pub fn disambiguate_overloads(c: &mut Contract) -> (r: Result<(), FrontendDiag>)
    ensures
        r is Err <==> contract_bad(*old(c)),
        r matches Err(d) ==> d.code == codes::FE420_BAD_IDENTIFIER_SOL,
        r is Ok ==> contract_disambiguated(*final(c), *old(c)),
{
    let ghost c0 = *c;
    let sig = signature_table(&c.functions);
    let mut fns: Vec<Function> = Vec::new();
    std::mem::swap(&mut fns, &mut c.functions);
    let new_fns = match disambiguate_functions(fns, &sig) {
        Ok(v) => v,
        Err(d) => {
            return Err(d);
        },
    };
    c.functions = new_fns;
    let mut mods: Vec<Modifier> = Vec::new();
    std::mem::swap(&mut mods, &mut c.modifiers);
    let new_mods = match disambiguate_modifiers(mods, &sig) {
        Ok(v) => v,
        Err(d) => {
            return Err(d);
        },
    };
    c.modifiers = new_mods;
    let mut ctor: Option<Constructor> = None;
    std::mem::swap(&mut ctor, &mut c.constructor);
    match ctor {
        None => {},
        Some(ct) => {
            let Constructor { params, body, base_calls, span } = ct;
            let body2 = match disambiguate_stmts(body, &sig) {
                Ok(v) => v,
                Err(d) => {
                    return Err(d);
                },
            };
            c.constructor = Some(Constructor { params, body: body2, base_calls, span });
        },
    }
    Ok(())
}

} // verus!
