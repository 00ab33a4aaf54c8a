//! Recognition of the canonical transfer idiom: an adjacent debit and credit of the same
//! map by the same amount fold into one atomic `MapTransfer`.

use crate::codes;
use crate::diag::{copy_span, FrontendDiag};
use crate::parser::{AssignOp, BinOp, Expr, Stmt, UnOp};
use crate::preprocess::is_var_named;
use crate::text::{clone_string, string_eq_str};
use std::ops::Range;
use vstd::prelude::*;

verus! {

// ── Expression helpers ───────────────────────────────────────────────────────

/// Structural equality of expressions, spans ignored.
pub open spec fn expr_same(a: Expr, b: Expr) -> bool
    decreases a,
{
    match (a, b) {
        (Expr::Num(x, _), Expr::Num(y, _)) => x@ == y@,
        (Expr::Bool(x, _), Expr::Bool(y, _)) => x == y,
        (Expr::Var(x, _), Expr::Var(y, _)) => x@ == y@,
        (Expr::Member(b1, m1, _), Expr::Member(b2, m2, _)) => m1@ == m2@ && expr_same(*b1, *b2),
        (Expr::Index(b1, k1, _), Expr::Index(b2, k2, _)) => expr_same(*b1, *b2) && expr_same(*k1, *k2),
        (Expr::Unary(o1, x1, _), Expr::Unary(o2, x2, _)) => o1 == o2 && expr_same(*x1, *x2),
        (Expr::Bin(o1, l1, r1, _), Expr::Bin(o2, l2, r2, _)) => o1 == o2 && expr_same(*l1, *l2) && expr_same(*r1, *r2),
        (Expr::Call(c1, a1, _), Expr::Call(c2, a2, _)) => {
            proof {
                assert(decreases_to!(a => a1));
                assert(decreases_to!(a1 => a1@));
            }
            expr_same(*c1, *c2) && a1@.len() == a2@.len() && forall|q: int|
                0 <= q < a1@.len() ==> expr_same(#[trigger] a1@[q], a2@[q])
        },
        _ => false,
    }
}

fn unop_same(a: UnOp, b: UnOp) -> (r: bool)
    ensures
        r == (a == b),
{
    match (a, b) {
        (UnOp::Not, UnOp::Not) => true,
        (UnOp::Neg, UnOp::Neg) => true,
        _ => false,
    }
}

fn binop_same(a: BinOp, b: BinOp) -> (r: bool)
    ensures
        r == (a == b),
{
    match (a, b) {
        (BinOp::Add, BinOp::Add) => true,
        (BinOp::Sub, BinOp::Sub) => true,
        (BinOp::Mul, BinOp::Mul) => true,
        (BinOp::Div, BinOp::Div) => true,
        (BinOp::Mod, BinOp::Mod) => true,
        (BinOp::Eq, BinOp::Eq) => true,
        (BinOp::Ne, BinOp::Ne) => true,
        (BinOp::Lt, BinOp::Lt) => true,
        (BinOp::Le, BinOp::Le) => true,
        (BinOp::Gt, BinOp::Gt) => true,
        (BinOp::Ge, BinOp::Ge) => true,
        (BinOp::And, BinOp::And) => true,
        (BinOp::Or, BinOp::Or) => true,
        _ => false,
    }
}

/// Structural expression equality, ignoring spans.
pub fn expr_eq(a: &Expr, b: &Expr) -> (r: bool)
    ensures
        r == expr_same(*a, *b),
    decreases a,
{
    match (a, b) {
        (Expr::Num(x, _), Expr::Num(y, _)) => string_eq_str(x, y.as_str()),
        (Expr::Bool(x, _), Expr::Bool(y, _)) => *x == *y,
        (Expr::Var(x, _), Expr::Var(y, _)) => string_eq_str(x, y.as_str()),
        (Expr::Member(b1, m1, _), Expr::Member(b2, m2, _)) => string_eq_str(m1, m2.as_str()) && expr_eq(b1, b2),
        (Expr::Index(b1, k1, _), Expr::Index(b2, k2, _)) => expr_eq(b1, b2) && expr_eq(k1, k2),
        (Expr::Unary(o1, x1, _), Expr::Unary(o2, x2, _)) => unop_same(*o1, *o2) && expr_eq(x1, x2),
        (Expr::Bin(o1, l1, r1, _), Expr::Bin(o2, l2, r2, _)) => binop_same(*o1, *o2) && expr_eq(l1, l2) && expr_eq(
            r1,
            r2,
        ),
        (Expr::Call(c1, a1, _), Expr::Call(c2, a2, _)) => {
            if !expr_eq(c1, c2) || a1.len() != a2.len() {
                return false;
            }
            let mut k: usize = 0;
            while k < a1.len()
                invariant
                    k <= a1@.len(),
                    a1@.len() == a2@.len(),
                    *a matches Expr::Call(_, ax, _) && ax == *a1,
                    *b matches Expr::Call(_, bx, _) && bx == *a2,
                    forall|q: int| 0 <= q < k ==> expr_same(#[trigger] a1@[q], a2@[q]),
                decreases a1@.len() - k,
            {
                proof {
                    assert(decreases_to!(*a => a->Call_1));
                    assert(decreases_to!(a->Call_1 => a->Call_1@));
                    assert(decreases_to!(a->Call_1@ => a->Call_1@[k as int]));
                }
                if !expr_eq(&a1[k], &a2[k]) {
                    assert(!expr_same(a1@[k as int], a2@[k as int]));
                    return false;
                }
                k = k + 1;
            }
            true
        },
        _ => false,
    }
}

/// A transfer operand: literals and variables, through unary and binary operators; no map
/// read, member access or call.
pub open spec fn transfer_operand(e: Expr) -> bool
    decreases e,
{
    match e {
        Expr::Num(..) => true,
        Expr::Bool(..) => true,
        Expr::Var(..) => true,
        Expr::Unary(_, x, _) => transfer_operand(*x),
        Expr::Bin(_, l, r, _) => transfer_operand(*l) && transfer_operand(*r),
        _ => false,
    }
}

pub fn is_transfer_operand(e: &Expr) -> (r: bool)
    ensures
        r == transfer_operand(*e),
    decreases e,
{
    match e {
        Expr::Num(..) => true,
        Expr::Bool(..) => true,
        Expr::Var(..) => true,
        Expr::Unary(_, x, _) => is_transfer_operand(x),
        Expr::Bin(_, l, r, _) => is_transfer_operand(l) && is_transfer_operand(r),
        _ => false,
    }
}

/// The span of a statement.
pub fn stmt_span(s: &Stmt) -> (r: Range<usize>)
    ensures
        r == s.spec_span(),
{
    match s {
        Stmt::Require { span, .. } => span.start..span.end,
        Stmt::Assert { span, .. } => span.start..span.end,
        Stmt::Revert { span } => span.start..span.end,
        Stmt::Assign { span, .. } => span.start..span.end,
        Stmt::IndexAssign { span, .. } => span.start..span.end,
        Stmt::IndexAssign2 { span, .. } => span.start..span.end,
        Stmt::FieldAssign { span, .. } => span.start..span.end,
        Stmt::MapTransfer { span, .. } => span.start..span.end,
        Stmt::Erc20TransferFrom { span, .. } => span.start..span.end,
        Stmt::LocalVar { span, .. } => span.start..span.end,
        Stmt::If { span, .. } => span.start..span.end,
        Stmt::Return { span, .. } => span.start..span.end,
        Stmt::Unchecked { span, .. } => span.start..span.end,
        Stmt::Placeholder { span } => span.start..span.end,
        Stmt::CallStmt { span, .. } => span.start..span.end,
        Stmt::ReservedBatch { span, .. } => span.start..span.end,
        Stmt::MapSplitTransfer { span, .. } => span.start..span.end,
        Stmt::Erc20Update { span, .. } => span.start..span.end,
        Stmt::AirdropLoop { span, .. } => span.start..span.end,
        Stmt::BatchTransfer { span, .. } => span.start..span.end,
    }
}

// ── Debits and credits ───────────────────────────────────────────────────────

/// `M[k] op= x`, or `M[k] = M[k] bin x` with the read key the write key: `(M, k, x)`.
pub open spec fn sub_add_of(s: Stmt, compound: AssignOp, bin: BinOp) -> Option<(Seq<char>, Expr, Expr)> {
    match s {
        Stmt::IndexAssign { map, key, op, value, .. } => if op == compound {
            Some((map@, key, value))
        } else if op == AssignOp::Eq {
            match value {
                Expr::Bin(b, l, r, _) => if b == bin && match *l {
                    Expr::Index(base, ik, _) => is_var_named(*base, map@) && expr_same(*ik, key),
                    _ => false,
                } {
                    Some((map@, key, *r))
                } else {
                    None
                },
                _ => None,
            }
        } else {
            None
        },
        _ => None,
    }
}

/// A debit `M[k] -= x` / `M[k] = M[k] - x`.
pub open spec fn debit_of(s: Stmt) -> Option<(Seq<char>, Expr, Expr)> {
    sub_add_of(s, AssignOp::Minus, BinOp::Sub)
}

/// A credit `M[k] += x` / `M[k] = M[k] + x`.
pub open spec fn credit_of(s: Stmt) -> Option<(Seq<char>, Expr, Expr)> {
    sub_add_of(s, AssignOp::Plus, BinOp::Add)
}

/// `M[k] = V - x` with `V` a plain variable: `(M, k, x)`.
pub open spec fn aliased_parts(s: Stmt) -> Option<(Seq<char>, Expr, Expr)> {
    match s {
        Stmt::IndexAssign { map, key, op, value, .. } => if op == AssignOp::Eq {
            match value {
                Expr::Bin(BinOp::Sub, l, r, _) => if (*l) is Var {
                    Some((map@, key, *r))
                } else {
                    None
                },
                _ => None,
            }
        } else {
            None
        },
        _ => None,
    }
}

/// The local alias live before a statement: `(V, M, k)` after `let V = M[k]`, kept only
/// across `require` / `assert`.
pub open spec fn alias_after(al: Option<(Seq<char>, Seq<char>, Expr)>, s: Stmt) -> Option<(Seq<char>, Seq<char>, Expr)> {
    match s {
        Stmt::Require { .. } => al,
        Stmt::Assert { .. } => al,
        Stmt::LocalVar { name, value, .. } => match value {
            Expr::Index(base, key, _) => match *base {
                Expr::Var(m, _) => Some((name@, m@, *key)),
                _ => None,
            },
            _ => None,
        },
        _ => None,
    }
}

/// A debit, also in the local-indirection form `M[k] = V - x` where the live alias says
/// `V` holds `M[k']` with `k'` the same key.
pub open spec fn debit_aliased_of(s: Stmt, al: Option<(Seq<char>, Seq<char>, Expr)>) -> Option<(Seq<char>, Expr, Expr)> {
    if debit_of(s) is Some {
        debit_of(s)
    } else {
        match (s, al) {
            (Stmt::IndexAssign { map, key, op, value, .. }, Some((lv, am, ak))) => if op == AssignOp::Eq {
                match value {
                    Expr::Bin(BinOp::Sub, l, r, _) => match *l {
                        Expr::Var(v, _) => if lv == v@ && am == map@ && expr_same(ak, key) {
                            Some((map@, key, *r))
                        } else {
                            None
                        },
                        _ => None,
                    },
                    _ => None,
                }
            } else {
                None
            },
            _ => None,
        }
    }
}

/// The first two statements of `i` fold: a debit (under alias `al`) then a credit of the
/// same map by the same amount, all operands transfer operands.
pub open spec fn folds(i: Seq<Stmt>, al: Option<(Seq<char>, Seq<char>, Expr)>) -> bool {
    i.len() >= 2 && match (debit_aliased_of(i[0], al), credit_of(i[1])) {
        (Some((m, f, a)), Some((m2, t, a2))) => m == m2 && expr_same(a, a2) && transfer_operand(f) && transfer_operand(t)
            && transfer_operand(a),
        _ => false,
    }
}

/// `o` is `i` with every folding debit/credit pair (see `folds`) replaced by one
/// `MapTransfer { map, from, to, amount }` spanning both, and `if` branches recognized
/// in turn; `al` is the alias live before `i`.
pub open spec fn transfers_recognized(o: Seq<Stmt>, i: Seq<Stmt>, al: Option<(Seq<char>, Seq<char>, Expr)>) -> bool
    decreases i,
{
    if i.len() == 0 {
        o.len() == 0
    } else if folds(i, al) {
        let d = debit_aliased_of(i[0], al)->Some_0;
        let c = credit_of(i[1])->Some_0;
        &&& o.len() >= 1
        &&& match o[0] {
            Stmt::MapTransfer { map, from, to, amount, span } => map@ == d.0 && from == d.1 && to == c.1 && amount == d.2
                && span.start == i[0].spec_span().start && span.end == i[1].spec_span().end,
            _ => false,
        }
        &&& transfers_recognized(o.subrange(1, o.len() as int), i.subrange(2, i.len() as int), None)
    } else {
        &&& o.len() >= 1
        &&& match i[0] {
            Stmt::If { cond, then_body, else_body, span } => {
                proof {
                    assert(decreases_to!(i => i[0]));
                    assert(decreases_to!(i[0] => then_body));
                    assert(decreases_to!(then_body => then_body@));
                    assert(decreases_to!(i[0] => else_body));
                    assert(decreases_to!(else_body => else_body@));
                }
                match o[0] {
                    Stmt::If { cond: c2, then_body: t2, else_body: e2, span: s2 } => c2 == cond && s2 == span
                        && transfers_recognized(t2@, then_body@, None) && transfers_recognized(e2@, else_body@, None),
                    _ => false,
                }
            },
            _ => o[0] == i[0],
        }
        &&& transfers_recognized(o.subrange(1, o.len() as int), i.subrange(1, i.len() as int), alias_after(al, i[0]))
    }
}

/// The alias a remembered binding statement stands for.
pub open spec fn alias_of(al_stmt: Option<&Stmt>) -> Option<(Seq<char>, Seq<char>, Expr)> {
    match al_stmt {
        Some(x) => alias_after(None, *x),
        None => None,
    }
}

pub open spec fn compound_op(minus: bool) -> AssignOp {
    if minus {
        AssignOp::Minus
    } else {
        AssignOp::Plus
    }
}

pub open spec fn plain_op(minus: bool) -> BinOp {
    if minus {
        BinOp::Sub
    } else {
        BinOp::Add
    }
}

/// `M[k] -= x` / `M[k] = M[k] - x` (with `minus`), or the `+` forms: `(M, k, x)`.
pub fn sub_add_assign<'a>(s: &'a Stmt, minus: bool) -> (r: Option<(&'a String, &'a Expr, &'a Expr)>)
    ensures
        match r {
            Some((m, k, a)) => sub_add_of(*s, compound_op(minus), plain_op(minus)) == Some((m@, *k, *a)),
            None => sub_add_of(*s, compound_op(minus), plain_op(minus)) is None,
        },
{
    match s {
        Stmt::IndexAssign { map, key, op, value, .. } => {
            let compound = match op {
                AssignOp::Minus => minus,
                AssignOp::Plus => !minus,
                _ => false,
            };
            if compound {
                return Some((map, key, value));
            }
            let plain = match op {
                AssignOp::Eq => true,
                _ => false,
            };
            if !plain {
                return None;
            }
            match value {
                Expr::Bin(b, l, r, _) => {
                    let bin = match b {
                        BinOp::Sub => minus,
                        BinOp::Add => !minus,
                        _ => false,
                    };
                    if !bin {
                        return None;
                    }
                    match &**l {
                        Expr::Index(base, ik, _) => {
                            let same_map = match &**base {
                                Expr::Var(bn, _) => string_eq_str(bn, map.as_str()),
                                _ => false,
                            };
                            if same_map && expr_eq(ik, key) {
                                Some((map, key, &**r))
                            } else {
                                None
                            }
                        },
                        _ => None,
                    }
                },
                _ => None,
            }
        },
        _ => None,
    }
}

/// A debit of `s`, also through the alias the remembered binding `al_stmt` made.
pub fn as_debit_aliased<'a>(s: &'a Stmt, al_stmt: Option<&Stmt>) -> (r: Option<(&'a String, &'a Expr, &'a Expr)>)
    ensures
        match r {
            Some((m, k, a)) => debit_aliased_of(*s, alias_of(al_stmt)) == Some((m@, *k, *a)),
            None => debit_aliased_of(*s, alias_of(al_stmt)) is None,
        },
{
    match sub_add_assign(s, true) {
        Some(d) => return Some(d),
        None => {},
    }
    let (lv, am, ak) = match al_stmt {
        Some(Stmt::LocalVar { name, value: Expr::Index(base, key, _), .. }) => match &**base {
            Expr::Var(m, _) => (name, m, &**key),
            _ => return None,
        },
        _ => return None,
    };
    match s {
        Stmt::IndexAssign { map, key, op, value, .. } => {
            let plain = match op {
                AssignOp::Eq => true,
                _ => false,
            };
            if !plain {
                return None;
            }
            match value {
                Expr::Bin(BinOp::Sub, l, r, _) => match &**l {
                    Expr::Var(v, _) => if string_eq_str(lv, v.as_str()) && string_eq_str(am, map.as_str()) && expr_eq(ak, key) {
                        Some((map, key, &**r))
                    } else {
                        None
                    },
                    _ => None,
                },
                _ => None,
            }
        },
        _ => None,
    }
}

/// Moves the parts of a debit (plain or local-indirection form) out of its statement.
fn take_debit(s: Stmt) -> (r: (String, Expr, Expr))
    requires
        debit_of(s) is Some || aliased_parts(s) is Some,
    ensures
        Some((r.0@, r.1, r.2)) == (if debit_of(s) is Some {
            debit_of(s)
        } else {
            aliased_parts(s)
        }),
{
    match s {
        Stmt::IndexAssign { map, key, op, value, .. } => {
            let compound = match op {
                AssignOp::Minus => true,
                _ => false,
            };
            if compound {
                (map, key, value)
            } else {
                match value {
                    Expr::Bin(_, _, r, _) => (map, key, *r),
                    other => {
                        proof {
                            assert(false);
                        }
                        (map, key, other)
                    },
                }
            }
        },
        _ => {
            proof {
                assert(false);
            }
            (String::new(), Expr::Bool(false, 0..0), Expr::Bool(false, 0..0))
        },
    }
}

/// Moves the credited key out of a credit.
fn take_credit_key(s: Stmt) -> (r: Expr)
    requires
        credit_of(s) is Some,
    ensures
        r == credit_of(s)->Some_0.1,
{
    match s {
        Stmt::IndexAssign { key, .. } => key,
        _ => {
            proof {
                assert(false);
            }
            Expr::Bool(false, 0..0)
        },
    }
}

/// Folds every adjacent debit/credit pair of the same map by the same amount (operands
/// free of map reads, member accesses and calls) into one atomic `MapTransfer`, also in
/// `if` branches; everything else is kept (see `transfers_recognized`).
#[verifier::rlimit(60)]
pub fn recognize_transfers(stmts: Vec<Stmt>) -> (r: Vec<Stmt>)
    ensures
        transfers_recognized(r@, stmts@, None),
    decreases stmts,
{
    let ghost g = stmts;
    let ghost orig = stmts@;
    let ghost n = orig.len() as int;
    let mut rest = stmts;
    let mut out: Vec<Stmt> = Vec::new();
    let mut apos: Option<usize> = None;
    let ghost mut al: Option<(Seq<char>, Seq<char>, Expr)> = None;
    let ghost mut k: int = 0;
    assert(orig.subrange(0, n) =~= orig);
    assert forall|o2: Seq<Stmt>| #[trigger] transfers_recognized(o2, orig.subrange(0, n), None) implies transfers_recognized(
        out@ + o2,
        orig,
        None,
    ) by {
        assert(out@ + o2 =~= o2);
    }
    while rest.len() > 0
        invariant
            0 <= k <= n,
            n == orig.len(),
            orig == g@,
            g == stmts,
            rest@ == orig.subrange(k, n),
            apos matches Some(p) ==> p < out@.len(),
            al == match apos {
                Some(p) => alias_after(None, out@[p as int]),
                None => None,
            },
            forall|o2: Seq<Stmt>| #[trigger] transfers_recognized(o2, orig.subrange(k, n), al) ==> transfers_recognized(
                out@ + o2,
                orig,
                None,
            ),
        decreases rest@.len(),
    {
        let ghost i = orig.subrange(k, n);
        let ghost out0 = out@;
        let ghost al0 = al;
        let s = rest.remove(0);
        proof {
            assert(s == orig[k]);
            assert(s == i[0]);
            assert(decreases_to!(g => g@));
            assert(decreases_to!(g@ => g@[k]));
            assert(decreases_to!(g => s));
        }
        let fold = if rest.len() > 0 {
            let al_ref: Option<&Stmt> = match apos {
                Some(p) => Some(&out[p]),
                None => None,
            };
            match as_debit_aliased(&s, al_ref) {
                Some((m, f, a)) => match sub_add_assign(&rest[0], false) {
                    Some((m2, t, a2)) => string_eq_str(m, m2.as_str()) && expr_eq(a, a2) && is_transfer_operand(f)
                        && is_transfer_operand(t) && is_transfer_operand(a),
                    None => false,
                },
                None => false,
            }
        } else {
            false
        };
        proof {
            assert(rest@.len() > 0 ==> rest@[0] == i[1]);
            assert(fold == folds(i, al0));
        }
        if fold {
            let credit = rest.remove(0);
            let dspan = stmt_span(&s);
            let cspan = stmt_span(&credit);
            let (map, from, amount) = take_debit(s);
            let to = take_credit_key(credit);
            let x = Stmt::MapTransfer { map, from, to, amount, span: dspan.start..cspan.end };
            out.push(x);
            apos = None;
            proof {
                al = None;
                assert forall|o2: Seq<Stmt>| #[trigger] transfers_recognized(o2, orig.subrange(k + 2, n), None) implies transfers_recognized(
                    out@ + o2,
                    orig,
                    None,
                ) by {
                    let o3 = seq![x] + o2;
                    assert(o3.subrange(1, o3.len() as int) =~= o2);
                    assert(i.subrange(2, i.len() as int) =~= orig.subrange(k + 2, n));
                    assert(o3[0] == x);
                    assert(transfers_recognized(o3, i, al0));
                    assert(out0 + o3 =~= out@ + o2);
                }
                k = k + 2;
            }
            assert(rest@ =~= orig.subrange(k, n));
        } else {
            let new_apos: Option<usize> = match &s {
                Stmt::Require { .. } => apos,
                Stmt::Assert { .. } => apos,
                Stmt::LocalVar { value: Expr::Index(base, _, _), .. } => match &**base {
                    Expr::Var(..) => Some(out.len()),
                    _ => None,
                },
                _ => None,
            };
            let x = match s {
                Stmt::If { cond, then_body, else_body, span } => {
                    proof {
                        assert(decreases_to!(g => g@[k]));
                        assert(decreases_to!(g@[k] => g@[k]->If_then_body));
                        assert(decreases_to!(g@[k] => g@[k]->If_else_body));
                    }
                    let t2 = recognize_transfers(then_body);
                    let e2 = recognize_transfers(else_body);
                    Stmt::If { cond, then_body: t2, else_body: e2, span }
                },
                other => other,
            };
            out.push(x);
            apos = new_apos;
            proof {
                al = alias_after(al0, i[0]);
                assert(out@[out0.len() as int] == x);
                assert forall|p: int| 0 <= p < out0.len() implies out@[p] == out0[p] by {}
                assert forall|o2: Seq<Stmt>| #[trigger] transfers_recognized(o2, orig.subrange(k + 1, n), al) implies transfers_recognized(
                    out@ + o2,
                    orig,
                    None,
                ) by {
                    let o3 = seq![x] + o2;
                    assert(o3.subrange(1, o3.len() as int) =~= o2);
                    assert(i.subrange(1, i.len() as int) =~= orig.subrange(k + 1, n));
                    assert(o3[0] == x);
                    assert(transfers_recognized(o3, i, al0));
                    assert(out0 + o3 =~= out@ + o2);
                }
                k = k + 1;
            }
            assert(rest@ =~= orig.subrange(k, n));
        }
    }
    proof {
        assert(transfers_recognized(Seq::<Stmt>::empty(), orig.subrange(k, n), al));
        assert(out@ + Seq::<Stmt>::empty() =~= out@);
    }
    out
}

/// Recognition never lengthens a block: each statement is kept or a pair is fused into one.
pub proof fn lemma_recognized_not_longer(o: Seq<Stmt>, i: Seq<Stmt>, al: Option<(Seq<char>, Seq<char>, Expr)>)
    requires
        transfers_recognized(o, i, al),
    ensures
        o.len() <= i.len(),
    decreases i.len(),
{
    if i.len() > 0 {
        if folds(i, al) {
            lemma_recognized_not_longer(o.subrange(1, o.len() as int), i.subrange(2, i.len() as int), None);
        } else {
            lemma_recognized_not_longer(
                o.subrange(1, o.len() as int),
                i.subrange(1, i.len() as int),
                alias_after(al, i[0]),
            );
        }
    }
}

// ── transferFrom ─────────────────────────────────────────────────────────────

/// `A[f][s] -= x` or `A[f][s] = A[f][s] - x` (read keys the write keys): `(A, f, s, x)`.
pub open spec fn allowance_debit_of(s: Stmt) -> Option<(Seq<char>, Expr, Expr, Expr)> {
    match s {
        Stmt::IndexAssign2 { map, k1, k2, op, value, .. } => if op == AssignOp::Minus {
            Some((map@, k1, k2, value))
        } else if op == AssignOp::Eq {
            match value {
                Expr::Bin(BinOp::Sub, l, r, _) => match *l {
                    Expr::Index(outer, ik2, _) => match *outer {
                        Expr::Index(base, ik1, _) => if is_var_named(*base, map@) && expr_same(*ik1, k1) && expr_same(*ik2, k2) {
                            Some((map@, k1, k2, *r))
                        } else {
                            None
                        },
                        _ => None,
                    },
                    _ => None,
                },
                _ => None,
            }
        } else {
            None
        },
        _ => None,
    }
}

/// The first two statements of `i` fold into a `transferFrom`: an allowance debit, then a
/// balance `MapTransfer` from the same owner by the same amount, all operands transfer
/// operands.
pub open spec fn folds_transfer_from(i: Seq<Stmt>) -> bool {
    i.len() >= 2 && match (allowance_debit_of(i[0]), i[1]) {
        (Some((_, f, sp, a)), Stmt::MapTransfer { from: bf, to, amount: ba, .. }) => expr_same(f, bf) && expr_same(a, ba)
            && transfer_operand(f) && transfer_operand(sp) && transfer_operand(to) && transfer_operand(a),
        _ => false,
    }
}

/// `o` is `i` with every folding allowance-debit / balance-transfer pair replaced by one
/// `Erc20TransferFrom` spanning both (not the infinite-allowance form), and `if` branches
/// recognized in turn.
pub open spec fn transfer_from_recognized(o: Seq<Stmt>, i: Seq<Stmt>) -> bool
    decreases i,
{
    if i.len() == 0 {
        o.len() == 0
    } else if folds_transfer_from(i) {
        let d = allowance_debit_of(i[0])->Some_0;
        &&& o.len() >= 1
        &&& match (o[0], i[1]) {
            (
                Stmt::Erc20TransferFrom { bal_map, alw_map, from, spender, to, amount, oz5_infinite, span },
                Stmt::MapTransfer { map: bm, to: bt, .. },
            ) => bal_map == bm && alw_map@ == d.0 && from == d.1 && spender == d.2 && to == bt && amount == d.3
                && !oz5_infinite && span.start == i[0].spec_span().start && span.end == i[1].spec_span().end,
            _ => false,
        }
        &&& transfer_from_recognized(o.subrange(1, o.len() as int), i.subrange(2, i.len() as int))
    } else {
        &&& o.len() >= 1
        &&& match i[0] {
            Stmt::If { cond, then_body, else_body, span } => {
                proof {
                    assert(decreases_to!(i => i[0]));
                    assert(decreases_to!(i[0] => then_body));
                    assert(decreases_to!(then_body => then_body@));
                    assert(decreases_to!(i[0] => else_body));
                    assert(decreases_to!(else_body => else_body@));
                }
                match o[0] {
                    Stmt::If { cond: c2, then_body: t2, else_body: e2, span: s2 } => c2 == cond && s2 == span
                        && transfer_from_recognized(t2@, then_body@) && transfer_from_recognized(e2@, else_body@),
                    _ => false,
                }
            },
            _ => o[0] == i[0],
        }
        &&& transfer_from_recognized(o.subrange(1, o.len() as int), i.subrange(1, i.len() as int))
    }
}

/// An allowance debit: `(map, from, spender, amount)`.
pub fn as_allowance_debit<'a>(s: &'a Stmt) -> (r: Option<(&'a String, &'a Expr, &'a Expr, &'a Expr)>)
    ensures
        match r {
            Some((m, f, sp, a)) => allowance_debit_of(*s) == Some((m@, *f, *sp, *a)),
            None => allowance_debit_of(*s) is None,
        },
{
    match s {
        Stmt::IndexAssign2 { map, k1, k2, op, value, .. } => {
            match op {
                AssignOp::Minus => return Some((map, k1, k2, value)),
                AssignOp::Eq => {},
                _ => return None,
            }
            match value {
                Expr::Bin(BinOp::Sub, l, r, _) => match &**l {
                    Expr::Index(outer, ik2, _) => match &**outer {
                        Expr::Index(base, ik1, _) => {
                            let same_map = match &**base {
                                Expr::Var(bn, _) => string_eq_str(bn, map.as_str()),
                                _ => false,
                            };
                            if same_map && expr_eq(ik1, k1) && expr_eq(ik2, k2) {
                                Some((map, k1, k2, &**r))
                            } else {
                                None
                            }
                        },
                        _ => None,
                    },
                    _ => None,
                },
                _ => None,
            }
        },
        _ => None,
    }
}

fn take_allowance_debit(s: Stmt) -> (r: (String, Expr, Expr, Expr))
    requires
        allowance_debit_of(s) is Some,
    ensures
        Some((r.0@, r.1, r.2, r.3)) == allowance_debit_of(s),
{
    match s {
        Stmt::IndexAssign2 { map, k1, k2, op, value, .. } => {
            let compound = match op {
                AssignOp::Minus => true,
                _ => false,
            };
            if compound {
                (map, k1, k2, value)
            } else {
                match value {
                    Expr::Bin(_, _, r, _) => (map, k1, k2, *r),
                    other => {
                        proof {
                            assert(false);
                        }
                        (map, k1, k2, other)
                    },
                }
            }
        },
        _ => {
            proof {
                assert(false);
            }
            (String::new(), Expr::Bool(false, 0..0), Expr::Bool(false, 0..0), Expr::Bool(false, 0..0))
        },
    }
}

/// Folds every allowance debit immediately followed by the balance `MapTransfer` of the
/// same owner and amount into one atomic `Erc20TransferFrom` (see
/// `transfer_from_recognized`).
#[verifier::rlimit(60)]
pub fn recognize_transfer_from(stmts: Vec<Stmt>) -> (r: Vec<Stmt>)
    ensures
        transfer_from_recognized(r@, stmts@),
    decreases stmts,
{
    let ghost g = stmts;
    let ghost orig = stmts@;
    let ghost n = orig.len() as int;
    let mut rest = stmts;
    let mut out: Vec<Stmt> = Vec::new();
    let ghost mut k: int = 0;
    assert(orig.subrange(0, n) =~= orig);
    assert forall|o2: Seq<Stmt>| #[trigger] transfer_from_recognized(o2, orig.subrange(0, n)) implies transfer_from_recognized(
        out@ + o2,
        orig,
    ) by {
        assert(out@ + o2 =~= o2);
    }
    while rest.len() > 0
        invariant
            0 <= k <= n,
            n == orig.len(),
            orig == g@,
            g == stmts,
            rest@ == orig.subrange(k, n),
            forall|o2: Seq<Stmt>| #[trigger] transfer_from_recognized(o2, orig.subrange(k, n)) ==> transfer_from_recognized(
                out@ + o2,
                orig,
            ),
        decreases rest@.len(),
    {
        let ghost i = orig.subrange(k, n);
        let ghost out0 = out@;
        let s = rest.remove(0);
        proof {
            assert(s == orig[k]);
            assert(s == i[0]);
            assert(decreases_to!(g => g@));
            assert(decreases_to!(g@ => g@[k]));
            assert(decreases_to!(g => s));
        }
        let fold = if rest.len() > 0 {
            match as_allowance_debit(&s) {
                Some((_, f, sp, a)) => match &rest[0] {
                    Stmt::MapTransfer { from: bf, to, amount: ba, .. } => expr_eq(f, bf) && expr_eq(a, ba) && is_transfer_operand(f)
                        && is_transfer_operand(sp) && is_transfer_operand(to) && is_transfer_operand(a),
                    _ => false,
                },
                None => false,
            }
        } else {
            false
        };
        proof {
            assert(rest@.len() > 0 ==> rest@[0] == i[1]);
            assert(fold == folds_transfer_from(i));
        }
        if fold {
            let mt = rest.remove(0);
            let dspan = stmt_span(&s);
            let cspan = stmt_span(&mt);
            let (alw_map, from, spender, amount) = take_allowance_debit(s);
            let x = match mt {
                Stmt::MapTransfer { map, to, .. } => Stmt::Erc20TransferFrom {
                    bal_map: map,
                    alw_map,
                    from,
                    spender,
                    to,
                    amount,
                    oz5_infinite: false,
                    span: dspan.start..cspan.end,
                },
                other => other,
            };
            out.push(x);
            proof {
                assert forall|o2: Seq<Stmt>| #[trigger] transfer_from_recognized(o2, orig.subrange(k + 2, n)) implies transfer_from_recognized(
                    out@ + o2,
                    orig,
                ) by {
                    let o3 = seq![x] + o2;
                    assert(o3.subrange(1, o3.len() as int) =~= o2);
                    assert(i.subrange(2, i.len() as int) =~= orig.subrange(k + 2, n));
                    assert(o3[0] == x);
                    assert(transfer_from_recognized(o3, i));
                    assert(out0 + o3 =~= out@ + o2);
                }
                k = k + 2;
            }
            assert(rest@ =~= orig.subrange(k, n));
        } else {
            let x = match s {
                Stmt::If { cond, then_body, else_body, span } => {
                    proof {
                        assert(decreases_to!(g => g@[k]));
                        assert(decreases_to!(g@[k] => g@[k]->If_then_body));
                        assert(decreases_to!(g@[k] => g@[k]->If_else_body));
                    }
                    let t2 = recognize_transfer_from(then_body);
                    let e2 = recognize_transfer_from(else_body);
                    Stmt::If { cond, then_body: t2, else_body: e2, span }
                },
                other => other,
            };
            out.push(x);
            proof {
                assert forall|o2: Seq<Stmt>| #[trigger] transfer_from_recognized(o2, orig.subrange(k + 1, n)) implies transfer_from_recognized(
                    out@ + o2,
                    orig,
                ) by {
                    let o3 = seq![x] + o2;
                    assert(o3.subrange(1, o3.len() as int) =~= o2);
                    assert(i.subrange(1, i.len() as int) =~= orig.subrange(k + 1, n));
                    assert(o3[0] == x);
                    assert(transfer_from_recognized(o3, i));
                    assert(out0 + o3 =~= out@ + o2);
                }
                k = k + 1;
            }
            assert(rest@ =~= orig.subrange(k, n));
        }
    }
    proof {
        assert(transfer_from_recognized(Seq::<Stmt>::empty(), orig.subrange(k, n)));
        assert(out@ + Seq::<Stmt>::empty() =~= out@);
    }
    out
}

// ── Fee-on-transfer split ───────────────────────────────────────────────────

/// The first three statements of `i` are a debit and two credits of one map, all operands
/// transfer operands.
pub open spec fn folds_split(i: Seq<Stmt>) -> bool {
    i.len() >= 3 && match (debit_of(i[0]), credit_of(i[1]), credit_of(i[2])) {
        (Some((m0, f, a)), Some((m1, t, n)), Some((m2, ft, fe))) => m0 == m1 && m1 == m2 && transfer_operand(f)
            && transfer_operand(a) && transfer_operand(t) && transfer_operand(n) && transfer_operand(ft) && transfer_operand(fe),
        _ => false,
    }
}

/// `o` is `i` with every `M[from] -= amount; M[to] += net; M[feeTo] += fee;` triple (see
/// `folds_split`) replaced by one `MapSplitTransfer` spanning all three, and `if`
/// branches recognized in turn.
pub open spec fn split_recognized(o: Seq<Stmt>, i: Seq<Stmt>) -> bool
    decreases i,
{
    if i.len() == 0 {
        o.len() == 0
    } else if folds_split(i) {
        let d = debit_of(i[0])->Some_0;
        let c1 = credit_of(i[1])->Some_0;
        let c2 = credit_of(i[2])->Some_0;
        &&& o.len() >= 1
        &&& match o[0] {
            Stmt::MapSplitTransfer { map, from, amount, to, net, fee_to, fee, span } => map@ == d.0 && from == d.1 && amount
                == d.2 && to == c1.1 && net == c1.2 && fee_to == c2.1 && fee == c2.2 && span.start == i[0].spec_span().start
                && span.end == i[2].spec_span().end,
            _ => false,
        }
        &&& split_recognized(o.subrange(1, o.len() as int), i.subrange(3, i.len() as int))
    } else {
        &&& o.len() >= 1
        &&& match i[0] {
            Stmt::If { cond, then_body, else_body, span } => {
                proof {
                    assert(decreases_to!(i => i[0]));
                    assert(decreases_to!(i[0] => then_body));
                    assert(decreases_to!(then_body => then_body@));
                    assert(decreases_to!(i[0] => else_body));
                    assert(decreases_to!(else_body => else_body@));
                }
                match o[0] {
                    Stmt::If { cond: c2, then_body: t2, else_body: e2, span: s2 } => c2 == cond && s2 == span
                        && split_recognized(t2@, then_body@) && split_recognized(e2@, else_body@),
                    _ => false,
                }
            },
            _ => o[0] == i[0],
        }
        &&& split_recognized(o.subrange(1, o.len() as int), i.subrange(1, i.len() as int))
    }
}

/// Moves the parts of a debit (`minus`) or credit out of its statement.
fn take_sub_add(s: Stmt, minus: bool) -> (r: (String, Expr, Expr))
    requires
        sub_add_of(s, compound_op(minus), plain_op(minus)) is Some,
    ensures
        Some((r.0@, r.1, r.2)) == sub_add_of(s, compound_op(minus), plain_op(minus)),
{
    match s {
        Stmt::IndexAssign { map, key, op, value, .. } => {
            let compound = match op {
                AssignOp::Minus => minus,
                AssignOp::Plus => !minus,
                _ => false,
            };
            if compound {
                (map, key, value)
            } else {
                match value {
                    Expr::Bin(_, _, r, _) => (map, key, *r),
                    other => {
                        proof {
                            assert(false);
                        }
                        (map, key, other)
                    },
                }
            }
        },
        _ => {
            proof {
                assert(false);
            }
            (String::new(), Expr::Bool(false, 0..0), Expr::Bool(false, 0..0))
        },
    }
}

/// `M[from] -= amount; M[to] += net; M[feeTo] += fee;` on one map with transfer operands.
pub fn as_split(s0: &Stmt, s1: &Stmt, s2: &Stmt) -> (r: bool)
    ensures
        r == folds_split(seq![*s0, *s1, *s2]),
{
    match (sub_add_assign(s0, true), sub_add_assign(s1, false), sub_add_assign(s2, false)) {
        (Some((m0, f, a)), Some((m1, t, n)), Some((m2, ft, fe))) => string_eq_str(m0, m1.as_str()) && string_eq_str(
            m1,
            m2.as_str(),
        ) && is_transfer_operand(f) && is_transfer_operand(a) && is_transfer_operand(t) && is_transfer_operand(n)
            && is_transfer_operand(ft) && is_transfer_operand(fe),
        _ => false,
    }
}

/// Folds every same-map debit followed by two credits (a fee-on-transfer split) into one
/// atomic `MapSplitTransfer` (see `split_recognized`).
#[verifier::rlimit(60)]
pub fn recognize_split(stmts: Vec<Stmt>) -> (r: Vec<Stmt>)
    ensures
        split_recognized(r@, stmts@),
    decreases stmts,
{
    let ghost g = stmts;
    let ghost orig = stmts@;
    let ghost n = orig.len() as int;
    let mut rest = stmts;
    let mut out: Vec<Stmt> = Vec::new();
    let ghost mut k: int = 0;
    assert(orig.subrange(0, n) =~= orig);
    assert forall|o2: Seq<Stmt>| #[trigger] split_recognized(o2, orig.subrange(0, n)) implies split_recognized(
        out@ + o2,
        orig,
    ) by {
        assert(out@ + o2 =~= o2);
    }
    while rest.len() > 0
        invariant
            0 <= k <= n,
            n == orig.len(),
            orig == g@,
            g == stmts,
            rest@ == orig.subrange(k, n),
            forall|o2: Seq<Stmt>| #[trigger] split_recognized(o2, orig.subrange(k, n)) ==> split_recognized(out@ + o2, orig),
        decreases rest@.len(),
    {
        let ghost i = orig.subrange(k, n);
        let ghost out0 = out@;
        let s = rest.remove(0);
        proof {
            assert(s == orig[k]);
            assert(s == i[0]);
            assert(decreases_to!(g => g@));
            assert(decreases_to!(g@ => g@[k]));
            assert(decreases_to!(g => s));
        }
        let fold = rest.len() > 1 && as_split(&s, &rest[0], &rest[1]);
        proof {
            if rest@.len() > 1 {
                assert(rest@[0] == i[1]);
                assert(rest@[1] == i[2]);
                assert(seq![i[0], i[1], i[2]][0] == i[0]);
            }
            assert(fold == folds_split(i));
        }
        if fold {
            let s1 = rest.remove(0);
            let s2 = rest.remove(0);
            let sp0 = stmt_span(&s);
            let sp2 = stmt_span(&s2);
            let (map, from, amount) = take_sub_add(s, true);
            let (_, to, net) = take_sub_add(s1, false);
            let (_, fee_to, fee) = take_sub_add(s2, false);
            let x = Stmt::MapSplitTransfer { map, from, amount, to, net, fee_to, fee, span: sp0.start..sp2.end };
            out.push(x);
            proof {
                assert forall|o2: Seq<Stmt>| #[trigger] split_recognized(o2, orig.subrange(k + 3, n)) implies split_recognized(
                    out@ + o2,
                    orig,
                ) by {
                    let o3 = seq![x] + o2;
                    assert(o3.subrange(1, o3.len() as int) =~= o2);
                    assert(i.subrange(3, i.len() as int) =~= orig.subrange(k + 3, n));
                    assert(o3[0] == x);
                    assert(split_recognized(o3, i));
                    assert(out0 + o3 =~= out@ + o2);
                }
                k = k + 3;
            }
            assert(rest@ =~= orig.subrange(k, n));
        } else {
            let x = match s {
                Stmt::If { cond, then_body, else_body, span } => {
                    proof {
                        assert(decreases_to!(g => g@[k]));
                        assert(decreases_to!(g@[k] => g@[k]->If_then_body));
                        assert(decreases_to!(g@[k] => g@[k]->If_else_body));
                    }
                    let t2 = recognize_split(then_body);
                    let e2 = recognize_split(else_body);
                    Stmt::If { cond, then_body: t2, else_body: e2, span }
                },
                other => other,
            };
            out.push(x);
            proof {
                assert forall|o2: Seq<Stmt>| #[trigger] split_recognized(o2, orig.subrange(k + 1, n)) implies split_recognized(
                    out@ + o2,
                    orig,
                ) by {
                    let o3 = seq![x] + o2;
                    assert(o3.subrange(1, o3.len() as int) =~= o2);
                    assert(i.subrange(1, i.len() as int) =~= orig.subrange(k + 1, n));
                    assert(o3[0] == x);
                    assert(split_recognized(o3, i));
                    assert(out0 + o3 =~= out@ + o2);
                }
                k = k + 1;
            }
            assert(rest@ =~= orig.subrange(k, n));
        }
    }
    proof {
        assert(split_recognized(Seq::<Stmt>::empty(), orig.subrange(k, n)));
        assert(out@ + Seq::<Stmt>::empty() =~= out@);
    }
    out
}

// ── The `_update` dispatch pair ──────────────────────────────────────────────

/// `x == 0` (the literal exactly `0`) with `x` a transfer operand: `x`.
pub open spec fn eq_zero_of(c: Expr) -> Option<Expr> {
    match c {
        Expr::Bin(BinOp::Eq, l, r, _) => match *r {
            Expr::Num(t, _) => if t@ == "0"@ && transfer_operand(*l) {
                Some(*l)
            } else {
                None
            },
            _ => None,
        },
        _ => None,
    }
}

/// A one-statement `T op= v` / `T = T bin v` delta of a plain variable: `(T, v)`.
pub open spec fn ts_delta_of(body: Seq<Stmt>, compound: AssignOp, bin: BinOp) -> Option<(Seq<char>, Expr)> {
    if body.len() != 1 {
        None
    } else {
        match body[0] {
            Stmt::Assign { target, op, value, .. } => if op == compound {
                Some((target@, value))
            } else if op == AssignOp::Eq {
                match value {
                    Expr::Bin(b, l, r, _) => if b == bin && is_var_named(*l, target@) {
                        Some((target@, *r))
                    } else {
                        None
                    },
                    _ => None,
                }
            } else {
                None
            },
            _ => None,
        }
    }
}

/// The debit branch of `_update`: one debit, or `uint fb = M[k]; if (fb < v) { revert; }
/// M[k] = fb - v;` (same map, same key, the bound local): `(M, k, v)`.
pub open spec fn update_debit_of(body: Seq<Stmt>) -> Option<(Seq<char>, Expr, Expr)> {
    if body.len() == 1 {
        debit_of(body[0])
    } else if body.len() == 3 {
        match (body[0], body[1], body[2]) {
            (
                Stmt::LocalVar { name: fb, value: Expr::Index(base, bk, _), .. },
                Stmt::If { cond: Expr::Bin(BinOp::Lt, gl, gv, _), then_body, else_body, .. },
                Stmt::IndexAssign { map, key, op: AssignOp::Eq, value: Expr::Bin(BinOp::Sub, wl, wv, _), .. },
            ) => if is_var_named(*gl, fb@) && else_body@.len() == 0 && then_body@.len() == 1
                && then_body@[0] is Revert && is_var_named(*wl, fb@) && is_var_named(*base, map@) && expr_same(*bk, key)
                && expr_same(*gv, *wv) {
                Some((map@, key, *wv))
            } else {
                None
            },
            _ => None,
        }
    } else {
        None
    }
}

/// `if (from == 0) { TS += v; } else { <debit M[from] by v> }` followed by
/// `if (to == 0) { TS -= v; } else { M[to] += v; }`, one `TS`, one `M`, every key and amount
/// the same: `(M, TS, from, to, v)`.
pub open spec fn update_parts(s1: Stmt, s2: Stmt) -> Option<(Seq<char>, Seq<char>, Expr, Expr, Expr)> {
    match (s1, s2) {
        (
            Stmt::If { cond: c1, then_body: t1, else_body: e1, .. },
            Stmt::If { cond: c2, then_body: t2, else_body: e2, .. },
        ) => match (
            eq_zero_of(c1),
            eq_zero_of(c2),
            ts_delta_of(t1@, AssignOp::Plus, BinOp::Add),
            ts_delta_of(t2@, AssignOp::Minus, BinOp::Sub),
            update_debit_of(e1@),
        ) {
            (Some(from), Some(to), Some((ts1, vm)), Some((ts2, vb)), Some((md, kd, vd))) => if ts1 == ts2 && e2@.len() == 1 {
                match credit_of(e2@[0]) {
                    Some((mc, kc, vc)) => if mc == md && expr_same(kd, from) && expr_same(kc, to) && expr_same(vd, vm)
                        && expr_same(vb, vm) && expr_same(vc, vm) && transfer_operand(vm) {
                        Some((md, ts1, from, to, vm))
                    } else {
                        None
                    },
                    None => None,
                }
            } else {
                None
            },
            _ => None,
        },
        _ => None,
    }
}

/// `o` is `i` with every `_update` dispatch pair (see `update_parts`) replaced by one
/// `Erc20Update` spanning both, and `if` branches recognized in turn.
pub open spec fn update_recognized(o: Seq<Stmt>, i: Seq<Stmt>) -> bool
    decreases i,
{
    if i.len() == 0 {
        o.len() == 0
    } else if i.len() >= 2 && update_parts(i[0], i[1]) is Some {
        let u = update_parts(i[0], i[1])->Some_0;
        &&& o.len() >= 1
        &&& match o[0] {
            Stmt::Erc20Update { map, ts_field, from, to, value, span } => map@ == u.0 && ts_field@ == u.1 && from == u.2 && to
                == u.3 && value == u.4 && span.start == i[0].spec_span().start && span.end == i[1].spec_span().end,
            _ => false,
        }
        &&& update_recognized(o.subrange(1, o.len() as int), i.subrange(2, i.len() as int))
    } else {
        &&& o.len() >= 1
        &&& match i[0] {
            Stmt::If { cond, then_body, else_body, span } => {
                proof {
                    assert(decreases_to!(i => i[0]));
                    assert(decreases_to!(i[0] => then_body));
                    assert(decreases_to!(then_body => then_body@));
                    assert(decreases_to!(i[0] => else_body));
                    assert(decreases_to!(else_body => else_body@));
                }
                match o[0] {
                    Stmt::If { cond: c2, then_body: t2, else_body: e2, span: s2 } => c2 == cond && s2 == span
                        && update_recognized(t2@, then_body@) && update_recognized(e2@, else_body@),
                    _ => false,
                }
            },
            _ => o[0] == i[0],
        }
        &&& update_recognized(o.subrange(1, o.len() as int), i.subrange(1, i.len() as int))
    }
}

/// `x == 0` with `x` a transfer operand: `x`.
pub fn as_eq_zero(c: &Expr) -> (r: Option<&Expr>)
    ensures
        match r {
            Some(x) => eq_zero_of(*c) == Some(*x),
            None => eq_zero_of(*c) is None,
        },
{
    match c {
        Expr::Bin(BinOp::Eq, l, r, _) => match &**r {
            Expr::Num(t, _) => if string_eq_str(t, "0") && is_transfer_operand(l) {
                Some(&**l)
            } else {
                None
            },
            _ => None,
        },
        _ => None,
    }
}

/// A one-statement delta `T += v` / `T = T + v` (or `-` with `minus`): `(T, v)`.
pub fn as_ts_delta(body: &Vec<Stmt>, minus: bool) -> (r: Option<(&String, &Expr)>)
    ensures
        match r {
            Some((t, v)) => ts_delta_of(body@, compound_op(minus), plain_op(minus)) == Some((t@, *v)),
            None => ts_delta_of(body@, compound_op(minus), plain_op(minus)) is None,
        },
{
    if body.len() != 1 {
        return None;
    }
    match &body[0] {
        Stmt::Assign { target, op, value, .. } => {
            let compound = match op {
                AssignOp::Minus => minus,
                AssignOp::Plus => !minus,
                _ => false,
            };
            if compound {
                return Some((target, value));
            }
            match op {
                AssignOp::Eq => {},
                _ => return None,
            }
            match value {
                Expr::Bin(b, l, r, _) => {
                    let bin = match b {
                        BinOp::Sub => minus,
                        BinOp::Add => !minus,
                        _ => false,
                    };
                    let same = match &**l {
                        Expr::Var(t2, _) => string_eq_str(t2, target.as_str()),
                        _ => false,
                    };
                    if bin && same {
                        Some((target, &**r))
                    } else {
                        None
                    }
                },
                _ => None,
            }
        },
        _ => None,
    }
}

/// The debit branch of `_update` (see `update_debit_of`): `(M, k, v)`.
pub fn as_update_debit(body: &Vec<Stmt>) -> (r: Option<(&String, &Expr, &Expr)>)
    ensures
        match r {
            Some((m, k, v)) => update_debit_of(body@) == Some((m@, *k, *v)),
            None => update_debit_of(body@) is None,
        },
{
    if body.len() == 1 {
        return sub_add_assign(&body[0], true);
    }
    if body.len() != 3 {
        return None;
    }
    match (&body[0], &body[1], &body[2]) {
        (
            Stmt::LocalVar { name: fb, value: Expr::Index(base, bk, _), .. },
            Stmt::If { cond: Expr::Bin(BinOp::Lt, gl, gv, _), then_body, else_body, .. },
            Stmt::IndexAssign { map, key, op: AssignOp::Eq, value: Expr::Bin(BinOp::Sub, wl, wv, _), .. },
        ) => {
            let base_ok = match &**base {
                Expr::Var(bm, _) => string_eq_str(bm, map.as_str()),
                _ => false,
            };
            let guard_ok = match &**gl {
                Expr::Var(gn, _) => string_eq_str(gn, fb.as_str()),
                _ => false,
            };
            let revert_ok = then_body.len() == 1 && match &then_body[0] {
                Stmt::Revert { .. } => true,
                _ => false,
            };
            let write_ok = match &**wl {
                Expr::Var(wn, _) => string_eq_str(wn, fb.as_str()),
                _ => false,
            };
            if base_ok && guard_ok && else_body.len() == 0 && revert_ok && write_ok && expr_eq(bk, key) && expr_eq(gv, wv) {
                Some((map, key, &**wv))
            } else {
                None
            }
        },
        _ => None,
    }
}

/// The `_update` dispatch pair (see `update_parts`).
pub fn as_update(s1: &Stmt, s2: &Stmt) -> (r: bool)
    ensures
        r == update_parts(*s1, *s2) is Some,
{
    match (s1, s2) {
        (
            Stmt::If { cond: c1, then_body: t1, else_body: e1, .. },
            Stmt::If { cond: c2, then_body: t2, else_body: e2, .. },
        ) => match (as_eq_zero(c1), as_eq_zero(c2), as_ts_delta(t1, false), as_ts_delta(t2, true), as_update_debit(e1)) {
            (Some(from), Some(to), Some((ts1, vm)), Some((ts2, vb)), Some((md, kd, vd))) => {
                if !string_eq_str(ts1, ts2.as_str()) || e2.len() != 1 {
                    return false;
                }
                match sub_add_assign(&e2[0], false) {
                    Some((mc, kc, vc)) => string_eq_str(mc, md.as_str()) && expr_eq(kd, from) && expr_eq(kc, to)
                        && expr_eq(vd, vm) && expr_eq(vb, vm) && expr_eq(vc, vm) && is_transfer_operand(vm),
                    None => false,
                }
            },
            _ => false,
        },
        _ => false,
    }
}

/// Moves the parts of an `_update` dispatch pair out of its two statements.
fn take_update(s1: Stmt, s2: Stmt) -> (r: (String, String, Expr, Expr, Expr))
    requires
        update_parts(s1, s2) is Some,
    ensures
        Some((r.0@, r.1@, r.2, r.3, r.4)) == update_parts(s1, s2),
{
    let map = match &s1 {
        Stmt::If { else_body, .. } => match as_update_debit(else_body) {
            Some((m, _, _)) => clone_string(m),
            None => String::new(),
        },
        _ => String::new(),
    };
    let to = match s2 {
        Stmt::If { cond, .. } => match cond {
            Expr::Bin(_, l, _, _) => *l,
            other => {
                proof {
                    assert(false);
                }
                other
            },
        },
        _ => {
            proof {
                assert(false);
            }
            Expr::Bool(false, 0..0)
        },
    };
    match s1 {
        Stmt::If { cond, then_body, .. } => {
            let from = match cond {
                Expr::Bin(_, l, _, _) => *l,
                other => {
                    proof {
                        assert(false);
                    }
                    other
                },
            };
            let mut tb = then_body;
            let ghost tb0 = tb@;
            let a = tb.remove(0);
            assert(a == tb0[0]);
            let (ts, value) = match a {
                Stmt::Assign { target, op, value, .. } => {
                    let compound = match op {
                        AssignOp::Plus => true,
                        _ => false,
                    };
                    if compound {
                        (target, value)
                    } else {
                        match value {
                            Expr::Bin(_, _, r, _) => (target, *r),
                            other => {
                                proof {
                                    assert(false);
                                }
                                (target, other)
                            },
                        }
                    }
                },
                _ => {
                    proof {
                        assert(false);
                    }
                    (String::new(), Expr::Bool(false, 0..0))
                },
            };
            (map, ts, from, to, value)
        },
        _ => {
            proof {
                assert(false);
            }
            (map, String::new(), Expr::Bool(false, 0..0), to, Expr::Bool(false, 0..0))
        },
    }
}

/// Folds every `_update` zero-address dispatch pair into one atomic `Erc20Update` (see
/// `update_recognized`).
#[verifier::rlimit(60)]
pub fn recognize_update(stmts: Vec<Stmt>) -> (r: Vec<Stmt>)
    ensures
        update_recognized(r@, stmts@),
    decreases stmts,
{
    let ghost g = stmts;
    let ghost orig = stmts@;
    let ghost n = orig.len() as int;
    let mut rest = stmts;
    let mut out: Vec<Stmt> = Vec::new();
    let ghost mut k: int = 0;
    assert(orig.subrange(0, n) =~= orig);
    assert forall|o2: Seq<Stmt>| #[trigger] update_recognized(o2, orig.subrange(0, n)) implies update_recognized(
        out@ + o2,
        orig,
    ) by {
        assert(out@ + o2 =~= o2);
    }
    while rest.len() > 0
        invariant
            0 <= k <= n,
            n == orig.len(),
            orig == g@,
            g == stmts,
            rest@ == orig.subrange(k, n),
            forall|o2: Seq<Stmt>| #[trigger] update_recognized(o2, orig.subrange(k, n)) ==> update_recognized(out@ + o2, orig),
        decreases rest@.len(),
    {
        let ghost i = orig.subrange(k, n);
        let ghost out0 = out@;
        let s = rest.remove(0);
        proof {
            assert(s == orig[k]);
            assert(s == i[0]);
            assert(decreases_to!(g => g@));
            assert(decreases_to!(g@ => g@[k]));
            assert(decreases_to!(g => s));
        }
        let fold = rest.len() > 0 && as_update(&s, &rest[0]);
        proof {
            if rest@.len() > 0 {
                assert(rest@[0] == i[1]);
            }
        }
        if fold {
            let s2 = rest.remove(0);
            let sp1 = stmt_span(&s);
            let sp2 = stmt_span(&s2);
            let (map, ts_field, from, to, value) = take_update(s, s2);
            let x = Stmt::Erc20Update { map, ts_field, from, to, value, span: sp1.start..sp2.end };
            out.push(x);
            proof {
                assert forall|o2: Seq<Stmt>| #[trigger] update_recognized(o2, orig.subrange(k + 2, n)) implies update_recognized(
                    out@ + o2,
                    orig,
                ) by {
                    let o3 = seq![x] + o2;
                    assert(o3.subrange(1, o3.len() as int) =~= o2);
                    assert(i.subrange(2, i.len() as int) =~= orig.subrange(k + 2, n));
                    assert(o3[0] == x);
                    assert(update_recognized(o3, i));
                    assert(out0 + o3 =~= out@ + o2);
                }
                k = k + 2;
            }
            assert(rest@ =~= orig.subrange(k, n));
        } else {
            let x = match s {
                Stmt::If { cond, then_body, else_body, span } => {
                    proof {
                        assert(decreases_to!(g => g@[k]));
                        assert(decreases_to!(g@[k] => g@[k]->If_then_body));
                        assert(decreases_to!(g@[k] => g@[k]->If_else_body));
                    }
                    let t2 = recognize_update(then_body);
                    let e2 = recognize_update(else_body);
                    Stmt::If { cond, then_body: t2, else_body: e2, span }
                },
                other => other,
            };
            out.push(x);
            proof {
                assert forall|o2: Seq<Stmt>| #[trigger] update_recognized(o2, orig.subrange(k + 1, n)) implies update_recognized(
                    out@ + o2,
                    orig,
                ) by {
                    let o3 = seq![x] + o2;
                    assert(o3.subrange(1, o3.len() as int) =~= o2);
                    assert(i.subrange(1, i.len() as int) =~= orig.subrange(k + 1, n));
                    assert(o3[0] == x);
                    assert(update_recognized(o3, i));
                    assert(out0 + o3 =~= out@ + o2);
                }
                k = k + 1;
            }
            assert(rest@ =~= orig.subrange(k, n));
        }
    }
    proof {
        assert(update_recognized(Seq::<Stmt>::empty(), orig.subrange(k, n)));
        assert(out@ + Seq::<Stmt>::empty() =~= out@);
    }
    out
}

// ── Airdrop loops ────────────────────────────────────────────────────────────

/// The expression mentions the variable `n`.
pub open spec fn mentions_var(e: Expr, n: Seq<char>) -> bool
    decreases e,
{
    match e {
        Expr::Var(x, _) => x@ == n,
        Expr::Bin(_, l, r, _) => mentions_var(*l, n) || mentions_var(*r, n),
        Expr::Unary(_, x, _) => mentions_var(*x, n),
        Expr::Index(b, k, _) => mentions_var(*b, n) || mentions_var(*k, n),
        Expr::Member(b, _, _) => mentions_var(*b, n),
        Expr::Call(c, args, _) => {
            proof {
                assert(decreases_to!(e => args));
                assert(decreases_to!(args => args@));
            }
            mentions_var(*c, n) || exists|q: int| 0 <= q < args@.len() && mentions_var(#[trigger] args@[q], n)
        },
        _ => false,
    }
}

pub fn expr_mentions_var(e: &Expr, name: &str) -> (r: bool)
    ensures
        r == mentions_var(*e, name@),
    decreases e,
{
    match e {
        Expr::Var(x, _) => string_eq_str(x, name),
        Expr::Bin(_, l, r, _) => expr_mentions_var(l, name) || expr_mentions_var(r, name),
        Expr::Unary(_, x, _) => expr_mentions_var(x, name),
        Expr::Index(b, k, _) => expr_mentions_var(b, name) || expr_mentions_var(k, name),
        Expr::Member(b, _, _) => expr_mentions_var(b, name),
        Expr::Call(c, args, _) => {
            if expr_mentions_var(c, name) {
                return true;
            }
            let mut k: usize = 0;
            while k < args.len()
                invariant
                    k <= args@.len(),
                    *e matches Expr::Call(_, ax, _) && ax == *args,
                    forall|q: int| 0 <= q < k ==> !mentions_var(#[trigger] args@[q], name@),
                decreases args@.len() - k,
            {
                proof {
                    assert(decreases_to!(*e => e->Call_1));
                    assert(decreases_to!(e->Call_1 => e->Call_1@));
                    assert(decreases_to!(e->Call_1@ => e->Call_1@[k as int]));
                }
                if expr_mentions_var(&args[k], name) {
                    return true;
                }
                k = k + 1;
            }
            false
        },
        _ => false,
    }
}

/// `arr[idx]` with both plain variables and `idx` the loop counter: `arr`.
pub open spec fn counter_index_of(e: Expr, idx: Seq<char>) -> Option<Seq<char>> {
    match e {
        Expr::Index(base, key, _) => match (*base, *key) {
            (Expr::Var(arr, _), Expr::Var(i, _)) => if i@ == idx {
                Some(arr@)
            } else {
                None
            },
            _ => None,
        },
        _ => None,
    }
}

pub fn as_counter_index(e: &Expr, idx: &str) -> (r: Option<String>)
    ensures
        match r {
            Some(a) => counter_index_of(*e, idx@) == Some(a@),
            None => counter_index_of(*e, idx@) is None,
        },
{
    match e {
        Expr::Index(base, key, _) => match (&**base, &**key) {
            (Expr::Var(arr, _), Expr::Var(i, _)) => if string_eq_str(i, idx) {
                Some(clone_string(arr))
            } else {
                None
            },
            _ => None,
        },
        _ => None,
    }
}

/// The value the last `let` of the prelude named `x` binds.
pub open spec fn prelude_lookup(p: Seq<Stmt>, x: Seq<char>) -> Option<Expr>
    decreases p.len(),
{
    if p.len() == 0 {
        None
    } else {
        match p.last() {
            Stmt::LocalVar { name, value, .. } => if name@ == x {
                Some(value)
            } else {
                prelude_lookup(p.drop_last(), x)
            },
            _ => prelude_lookup(p.drop_last(), x),
        }
    }
}

/// A variable chased through the prelude's bindings: at most `n + 1` steps from step `g`.
pub open spec fn prelude_resolve(p: Seq<Stmt>, cur: Expr, g: nat, n: nat) -> Expr
    decreases n + 1 - g,
{
    match cur {
        Expr::Var(x, _) => match prelude_lookup(p, x@) {
            Some(v) => if g + 1 > n {
                v
            } else {
                prelude_resolve(p, v, g + 1, n)
            },
            None => cur,
        },
        _ => cur,
    }
}

/// The airdrop loop body `[let ...;] M[from] -= amounts[i]; M[recipients[i]] += amounts[i];`
/// with the operands resolved through the `let` prelude, `from` a loop-invariant transfer
/// operand, `recipients` the iterated array and both amounts the same array at the
/// counter: `(M, from, recipients, amounts)`.
pub open spec fn airdrop_fold(idx: Seq<char>, len_array: Seq<char>, body: Seq<Stmt>) -> Option<(Seq<char>, Expr, Seq<char>, Seq<char>)> {
    let n = body.len();
    if n < 2 {
        None
    } else {
        let p = body.take(n - 2);
        if !(forall|q: int| 0 <= q < p.len() ==> #[trigger] p[q] is LocalVar) {
            None
        } else {
            match (debit_of(body[n - 2]), credit_of(body[n - 1])) {
                (Some((dm, dk, da)), Some((cm, ck, ca))) => if dm != cm {
                    None
                } else {
                    let from = prelude_resolve(p, dk, 0, n);
                    let recip = prelude_resolve(p, ck, 0, n);
                    let damt = prelude_resolve(p, da, 0, n);
                    let camt = prelude_resolve(p, ca, 0, n);
                    if !transfer_operand(from) || mentions_var(from, idx) {
                        None
                    } else {
                        match (counter_index_of(recip, idx), counter_index_of(damt, idx), counter_index_of(camt, idx)) {
                            (Some(r), Some(a1), Some(a2)) => if r == len_array && a1 == a2 {
                                Some((dm, from, r, a1))
                            } else {
                                None
                            },
                            _ => None,
                        }
                    }
                },
                _ => None,
            }
        }
    }
}

/// The span of the first airdrop loop (in `if` branches too, then-branch first) whose body
/// does not fold.
pub open spec fn airdrop_block_err(i: Seq<Stmt>) -> Option<Range<usize>>
    decreases i,
{
    if i.len() == 0 {
        None
    } else {
        let rest = airdrop_block_err(i.subrange(1, i.len() as int));
        match i[0] {
            Stmt::AirdropLoop { idx, len_array, body, span } => if airdrop_fold(idx@, len_array@, body@) is None {
                Some(span)
            } else {
                rest
            },
            Stmt::If { then_body, else_body, .. } => {
                proof {
                    assert(decreases_to!(i => i[0]));
                    assert(decreases_to!(i[0] => then_body));
                    assert(decreases_to!(then_body => then_body@));
                    assert(decreases_to!(i[0] => else_body));
                    assert(decreases_to!(else_body => else_body@));
                }
                match airdrop_block_err(then_body@) {
                    Some(x) => Some(x),
                    None => match airdrop_block_err(else_body@) {
                        Some(x) => Some(x),
                        None => rest,
                    },
                }
            },
            _ => rest,
        }
    }
}

/// `o` is `i` with every airdrop loop replaced by its `BatchTransfer` (at the loop's span),
/// `if` branches recognized in turn, everything else kept.
pub open spec fn airdrop_recognized(o: Seq<Stmt>, i: Seq<Stmt>) -> bool
    decreases i,
{
    if i.len() == 0 {
        o.len() == 0
    } else {
        &&& o.len() >= 1
        &&& match i[0] {
            Stmt::AirdropLoop { idx, len_array, body, span } => match (airdrop_fold(idx@, len_array@, body@), o[0]) {
                (Some(f), Stmt::BatchTransfer { map, from, recipients, amounts, span: s2 }) => map@ == f.0 && from == f.1
                    && recipients@ == f.2 && amounts@ == f.3 && s2 == span,
                _ => false,
            },
            Stmt::If { cond, then_body, else_body, span } => {
                proof {
                    assert(decreases_to!(i => i[0]));
                    assert(decreases_to!(i[0] => then_body));
                    assert(decreases_to!(then_body => then_body@));
                    assert(decreases_to!(i[0] => else_body));
                    assert(decreases_to!(else_body => else_body@));
                }
                match o[0] {
                    Stmt::If { cond: c2, then_body: t2, else_body: e2, span: s2 } => c2 == cond && s2 == span
                        && airdrop_recognized(t2@, then_body@) && airdrop_recognized(e2@, else_body@),
                    _ => false,
                }
            },
            _ => o[0] == i[0],
        }
        &&& airdrop_recognized(o.subrange(1, o.len() as int), i.subrange(1, i.len() as int))
    }
}

/// Where the last `let` of the first `pn` statements named `x` stands.
fn prelude_find(body: &Vec<Stmt>, pn: usize, x: &String) -> (r: Option<usize>)
    requires
        pn <= body@.len(),
    ensures
        match r {
            Some(j) => j < pn && match body@[j as int] {
                Stmt::LocalVar { value, .. } => prelude_lookup(body@.take(pn as int), x@) == Some(value),
                _ => false,
            },
            None => prelude_lookup(body@.take(pn as int), x@) is None,
        },
{
    let mut j: usize = pn;
    while j > 0
        invariant
            j <= pn <= body@.len(),
            prelude_lookup(body@.take(pn as int), x@) == prelude_lookup(body@.take(j as int), x@),
        decreases j,
    {
        proof {
            assert(body@.take(j as int).drop_last() =~= body@.take(j - 1));
            assert(body@.take(j as int).last() == body@[j - 1]);
        }
        match &body[j - 1] {
            Stmt::LocalVar { name, .. } => if string_eq_str(name, x.as_str()) {
                return Some(j - 1);
            },
            _ => {},
        }
        j = j - 1;
    }
    None
}

/// Where the resolution of `e` through the prelude of `pn` statements comes from: `e`
/// itself, or the value a prelude `let` binds.
fn prelude_source(body: &Vec<Stmt>, pn: usize, e: &Expr, n: usize) -> (r: Option<usize>)
    requires
        pn <= body@.len(),
    ensures
        match r {
            None => prelude_resolve(body@.take(pn as int), *e, 0, n as nat) == *e,
            Some(j) => j < pn && match body@[j as int] {
                Stmt::LocalVar { value, .. } => prelude_resolve(body@.take(pn as int), *e, 0, n as nat) == value,
                _ => false,
            },
        },
{
    let ghost p = body@.take(pn as int);
    let mut cur: Option<usize> = None;
    let mut g: usize = 0;
    loop
        invariant
            g <= n,
            pn <= body@.len(),
            p == body@.take(pn as int),
            match cur {
                None => prelude_resolve(p, *e, 0, n as nat) == prelude_resolve(p, *e, g as nat, n as nat) && g == 0,
                Some(j) => j < pn && match body@[j as int] {
                    Stmt::LocalVar { value, .. } => prelude_resolve(p, *e, 0, n as nat) == prelude_resolve(
                        p,
                        value,
                        g as nat,
                        n as nat,
                    ),
                    _ => false,
                },
            },
        decreases n - g,
    {
        let cur_e: &Expr = match cur {
            None => e,
            Some(j) => match &body[j] {
                Stmt::LocalVar { value, .. } => value,
                _ => e,
            },
        };
        let next = match cur_e {
            Expr::Var(x, _) => prelude_find(body, pn, x),
            _ => None,
        };
        match next {
            Some(j2) => {
                if g >= n {
                    return Some(j2);
                }
                cur = Some(j2);
                g = g + 1;
            },
            None => {
                return cur;
            },
        }
    }
}

/// An operand's resolution moved out of the loop body: the key of the statement at `at`,
/// or the value of the prelude `let` at `src`.
fn take_resolved(body: Vec<Stmt>, src: Option<usize>, at: usize) -> (r: Expr)
    requires
        at < body@.len(),
        body@[at as int] is IndexAssign,
        src matches Some(j) ==> j < body@.len() && body@[j as int] is LocalVar,
    ensures
        match src {
            None => r == body@[at as int]->IndexAssign_key,
            Some(j) => r == body@[j as int]->LocalVar_value,
        },
{
    let k = match src {
        Some(j) => j,
        None => at,
    };
    let mut body = body;
    let st = body.remove(k);
    match st {
        Stmt::LocalVar { value, .. } => value,
        Stmt::IndexAssign { key, .. } => key,
        _ => {
            proof {
                assert(false);
            }
            Expr::Bool(false, 0..0)
        },
    }
}

/// The exact-shape gate of an airdrop loop (see `airdrop_fold`): its `BatchTransfer` at
/// the loop's span, or FE492 at that span.
#[verifier::rlimit(60)]
pub fn fold_airdrop(idx: &String, len_array: &String, body: Vec<Stmt>, span: Range<usize>) -> (r: Result<Stmt, FrontendDiag>)
    ensures
        match r {
            Ok(st) => match (airdrop_fold(idx@, len_array@, body@), st) {
                (Some(f), Stmt::BatchTransfer { map, from, recipients, amounts, span: s2 }) => map@ == f.0 && from == f.1
                    && recipients@ == f.2 && amounts@ == f.3 && s2 == span,
                _ => false,
            },
            Err(d) => airdrop_fold(idx@, len_array@, body@) is None && d.code == codes::FE492_AIRDROP_SHAPE_SOL && d.span == span,
        },
{
    let ghost b0 = body@;
    let n = body.len();
    if n < 2 {
        return Err(FrontendDiag::new(codes::FE492_AIRDROP_SHAPE_SOL, "an airdrop loop body must be a debit/credit pair", span));
    }
    let pn = n - 2;
    let ghost p = b0.take(pn as int);
    let mut q: usize = 0;
    while q < pn
        invariant
            q <= pn,
            pn + 2 == n == body@.len(),
            body@ == b0,
            p == b0.take(pn as int),
            forall|j: int| 0 <= j < q ==> #[trigger] p[j] is LocalVar,
        decreases pn - q,
    {
        let ok = match &body[q] {
            Stmt::LocalVar { .. } => true,
            _ => false,
        };
        if !ok {
            proof {
                assert(!(p[q as int] is LocalVar));
            }
            return Err(
                FrontendDiag::new(
                    codes::FE492_AIRDROP_SHAPE_SOL,
                    "an airdrop loop body may hold only a `let` prelude before its debit/credit pair",
                    span,
                ),
            );
        }
        q = q + 1;
    }
    let (dmap, dsrc, dasrc, recipients, a_debit, a_credit, from_ok) = {
        let d = sub_add_assign(&body[n - 2], true);
        let c = sub_add_assign(&body[n - 1], false);
        match (d, c) {
            (Some((dm, dk, da)), Some((cm, ck, ca))) => {
                if !string_eq_str(dm, cm.as_str()) {
                    return Err(FrontendDiag::new(codes::FE492_AIRDROP_SHAPE_SOL, "the airdrop debit and credit must write the same map", span));
                }
                let dsrc = prelude_source(&body, pn, dk, n);
                let csrc = prelude_source(&body, pn, ck, n);
                let dasrc = prelude_source(&body, pn, da, n);
                let casrc = prelude_source(&body, pn, ca, n);
                let from_e: &Expr = match dsrc {
                    Some(j) => match &body[j] {
                        Stmt::LocalVar { value, .. } => value,
                        _ => dk,
                    },
                    None => dk,
                };
                let recip_e: &Expr = match csrc {
                    Some(j) => match &body[j] {
                        Stmt::LocalVar { value, .. } => value,
                        _ => ck,
                    },
                    None => ck,
                };
                let damt_e: &Expr = match dasrc {
                    Some(j) => match &body[j] {
                        Stmt::LocalVar { value, .. } => value,
                        _ => da,
                    },
                    None => da,
                };
                let camt_e: &Expr = match casrc {
                    Some(j) => match &body[j] {
                        Stmt::LocalVar { value, .. } => value,
                        _ => ca,
                    },
                    None => ca,
                };
                let from_ok = is_transfer_operand(from_e) && !expr_mentions_var(from_e, idx.as_str());
                (
                    clone_string(dm),
                    dsrc,
                    dasrc,
                    as_counter_index(recip_e, idx.as_str()),
                    as_counter_index(damt_e, idx.as_str()),
                    as_counter_index(camt_e, idx.as_str()),
                    from_ok,
                )
            },
            _ => {
                return Err(FrontendDiag::new(codes::FE492_AIRDROP_SHAPE_SOL, "the airdrop loop needs a debit then a credit", span));
            },
        }
    };
    if !from_ok {
        return Err(
            FrontendDiag::new(codes::FE492_AIRDROP_SHAPE_SOL, "the airdrop `from` must be a loop-invariant pure operand", span),
        );
    }
    let (recipients, amounts) = match (recipients, a_debit, a_credit) {
        (Some(r), Some(a1), Some(a2)) => {
            if !string_eq_str(&r, len_array.as_str()) || !string_eq_str(&a1, a2.as_str()) {
                return Err(
                    FrontendDiag::new(
                        codes::FE492_AIRDROP_SHAPE_SOL,
                        "the airdrop must credit `recipients[i]` of the iterated array by one `amounts[i]`",
                        span,
                    ),
                );
            }
            (r, a1)
        },
        _ => {
            return Err(
                FrontendDiag::new(
                    codes::FE492_AIRDROP_SHAPE_SOL,
                    "the airdrop recipient and amounts must be arrays indexed by the loop counter",
                    span,
                ),
            );
        },
    };
    let from = take_resolved(body, dsrc, n - 2);
    Ok(Stmt::BatchTransfer { map: dmap, from, recipients, amounts, span })
}

/// Replaces every airdrop loop (also in `if` branches) by its `BatchTransfer`; the first
/// loop whose body does not fold is FE492 at its span (see `airdrop_block_err`).
#[verifier::rlimit(60)]
pub fn recognize_airdrop(stmts: Vec<Stmt>) -> (r: Result<Vec<Stmt>, FrontendDiag>)
    ensures
        match r {
            Ok(v) => airdrop_block_err(stmts@) is None && airdrop_recognized(v@, stmts@),
            Err(d) => airdrop_block_err(stmts@) == Some(d.span) && d.code == codes::FE492_AIRDROP_SHAPE_SOL,
        },
    decreases stmts,
{
    let ghost g = stmts;
    let ghost orig = stmts@;
    let ghost n = orig.len() as int;
    let mut rest = stmts;
    let mut out: Vec<Stmt> = Vec::new();
    let ghost mut k: int = 0;
    assert(orig.subrange(0, n) =~= orig);
    assert forall|o2: Seq<Stmt>| #[trigger] airdrop_recognized(o2, orig.subrange(0, n)) implies airdrop_recognized(
        out@ + o2,
        orig,
    ) by {
        assert(out@ + o2 =~= o2);
    }
    while rest.len() > 0
        invariant
            0 <= k <= n,
            n == orig.len(),
            orig == g@,
            g == stmts,
            rest@ == orig.subrange(k, n),
            airdrop_block_err(orig) == airdrop_block_err(orig.subrange(k, n)),
            forall|o2: Seq<Stmt>| #[trigger] airdrop_recognized(o2, orig.subrange(k, n)) ==> airdrop_recognized(out@ + o2, orig),
        decreases rest@.len(),
    {
        let ghost i = orig.subrange(k, n);
        let ghost out0 = out@;
        let s = rest.remove(0);
        proof {
            assert(s == orig[k]);
            assert(s == i[0]);
            assert(decreases_to!(g => g@));
            assert(decreases_to!(g@ => g@[k]));
            assert(decreases_to!(g => s));
            assert(i.subrange(1, i.len() as int) =~= orig.subrange(k + 1, n));
        }
        let x = match s {
            Stmt::AirdropLoop { idx, len_array, body, span } => fold_airdrop(&idx, &len_array, body, span)?,
            Stmt::If { cond, then_body, else_body, span } => {
                proof {
                    assert(decreases_to!(g => g@[k]));
                    assert(decreases_to!(g@[k] => g@[k]->If_then_body));
                    assert(decreases_to!(g@[k] => g@[k]->If_else_body));
                }
                let t2 = recognize_airdrop(then_body)?;
                let e2 = recognize_airdrop(else_body)?;
                Stmt::If { cond, then_body: t2, else_body: e2, span }
            },
            other => other,
        };
        out.push(x);
        proof {
            assert forall|o2: Seq<Stmt>| #[trigger] airdrop_recognized(o2, orig.subrange(k + 1, n)) implies airdrop_recognized(
                out@ + o2,
                orig,
            ) by {
                let o3 = seq![x] + o2;
                assert(o3.subrange(1, o3.len() as int) =~= o2);
                assert(o3[0] == x);
                assert(airdrop_recognized(o3, i));
                assert(out0 + o3 =~= out@ + o2);
            }
            k = k + 1;
        }
        assert(rest@ =~= orig.subrange(k, n));
    }
    proof {
        assert(airdrop_recognized(Seq::<Stmt>::empty(), orig.subrange(k, n)));
        assert(out@ + Seq::<Stmt>::empty() =~= out@);
    }
    Ok(out)
}

} // verus!
