//! Short-circuit lowering: every `&&` / `||` becomes a fresh `bool` local, its right operand
//! evaluated inside a guard so it runs only on the short-circuit-reachable path.

use crate::diag::{copy_span, FrontendDiag};
use crate::parser::{AssignOp, BinOp, Constructor, Expr, Function, Param, Stmt, TypeRef};
use crate::text::{concat_str, dec_chars, string_eq_str, usize_decimal};
use std::ops::Range;
use vstd::prelude::*;

verus! {

// ── What the lowering counts ─────────────────────────────────────────────────

/// `&&` or `||`.
pub open spec fn is_logic(op: BinOp) -> bool {
    op is And || op is Or
}

/// The `&&` / `||` operators of an expression.
pub open spec fn logic_count(e: Expr) -> nat
    decreases e,
{
    match e {
        Expr::Bin(op, l, r, _) => logic_count(*l) + logic_count(*r) + if is_logic(op) {
            1nat
        } else {
            0nat
        },
        Expr::Unary(_, x, _) => logic_count(*x),
        Expr::Index(b, k, _) => logic_count(*b) + logic_count(*k),
        Expr::Member(b, _, _) => logic_count(*b),
        Expr::Call(c, args, _) => {
            proof {
                assert(decreases_to!(e => args));
                assert(decreases_to!(args => args@));
            }
            logic_count(*c) + exprs_logic_count(args@)
        },
        _ => 0,
    }
}

/// The `&&` / `||` operators of a list of expressions.
pub open spec fn exprs_logic_count(es: Seq<Expr>) -> nat
    decreases es,
{
    if es.len() == 0 {
        0
    } else {
        exprs_logic_count(es.drop_last()) + logic_count(es.last())
    }
}

/// How many statements lowering `e` puts before its use: two per `&&` / `||` (the local
/// and its guard), except those of a right operand, which go inside the guard.
pub open spec fn hoist_len(e: Expr) -> nat
    decreases e,
{
    match e {
        Expr::Bin(op, l, r, _) => if is_logic(op) {
            hoist_len(*l) + 2
        } else {
            hoist_len(*l) + hoist_len(*r)
        },
        Expr::Unary(_, x, _) => hoist_len(*x),
        Expr::Index(b, k, _) => hoist_len(*b) + hoist_len(*k),
        Expr::Member(b, _, _) => hoist_len(*b),
        Expr::Call(c, args, _) => {
            proof {
                assert(decreases_to!(e => args));
                assert(decreases_to!(args => args@));
            }
            hoist_len(*c) + exprs_hoist_len(args@)
        },
        _ => 0,
    }
}

pub open spec fn exprs_hoist_len(es: Seq<Expr>) -> nat
    decreases es,
{
    if es.len() == 0 {
        0
    } else {
        exprs_hoist_len(es.drop_last()) + hoist_len(es.last())
    }
}

/// The name of the `k`-th synthesized temporary: `__fe_{k}`.
pub open spec fn fresh_name(k: nat) -> Seq<char> {
    "__fe_"@ + dec_chars(k)
}

/// `e` reads the variable named `n`, at `sp`.
pub open spec fn var_named(e: Expr, n: Seq<char>, sp: Range<usize>) -> bool {
    match e {
        Expr::Var(v, s) => v@ == n && s == sp,
        _ => false,
    }
}

/// `t` is the scalar type `bool`, at `sp`.
pub open spec fn bool_type(t: TypeRef, sp: Range<usize>) -> bool {
    match t {
        TypeRef::Scalar { name, span } => name@ == "bool"@ && span == sp,
        _ => false,
    }
}

// ── The lowering, as a relation ──────────────────────────────────────────────

/// Lowering `e` with temporaries numbered from `n` hoists the statements `h` and leaves
/// `res` in its place. An `a && b` (`a || b`) lowers `a`, binds `bool __fe_k = a'`, then
/// `if (__fe_k) { b-hoists; __fe_k = b'; }` (in the else-branch for `||`), and leaves
/// `__fe_k`, `k` being the number after `a`'s temporaries; every other node lowers its
/// operands left to right and keeps its shape.
pub open spec fn lowered_expr(h: Seq<Stmt>, res: Expr, e: Expr, n: nat) -> bool
    decreases e,
{
    match e {
        Expr::Bin(op, l, r, sp) => if is_logic(op) {
            let hl = hoist_len(*l);
            let k = n + logic_count(*l);
            let name = fresh_name(k);
            &&& h.len() == hl + 2
            &&& var_named(res, name, sp)
            &&& match h[hl as int] {
                Stmt::LocalVar { name: n2, ty, value, span } => n2@ == name && bool_type(ty, sp) && span == sp
                    && lowered_expr(h.take(hl as int), value, *l, n),
                _ => false,
            }
            &&& match h[hl + 1int] {
                Stmt::If { cond, then_body, else_body, span } => {
                    let g = if op is And {
                        then_body@
                    } else {
                        else_body@
                    };
                    let other = if op is And {
                        else_body@
                    } else {
                        then_body@
                    };
                    &&& span == sp
                    &&& var_named(cond, name, sp)
                    &&& other.len() == 0
                    &&& g.len() == hoist_len(*r) + 1
                    &&& match g.last() {
                        Stmt::Assign { target, op: aop, value, span: s3 } => target@ == name && aop is Eq && s3
                            == sp && lowered_expr(g.drop_last(), value, *r, k + 1),
                        _ => false,
                    }
                },
                _ => false,
            }
        } else {
            match res {
                Expr::Bin(op2, l2, r2, s2) => {
                    let hl = hoist_len(*l);
                    &&& op2 == op
                    &&& s2 == sp
                    &&& h.len() == hl + hoist_len(*r)
                    &&& lowered_expr(h.take(hl as int), *l2, *l, n)
                    &&& lowered_expr(h.skip(hl as int), *r2, *r, n + logic_count(*l))
                },
                _ => false,
            }
        },
        Expr::Unary(op, x, sp) => match res {
            Expr::Unary(op2, x2, s2) => op2 == op && s2 == sp && h.len() == hoist_len(*x) && lowered_expr(h, *x2, *x, n),
            _ => false,
        },
        Expr::Index(b, k, sp) => match res {
            Expr::Index(b2, k2, s2) => {
                let hb = hoist_len(*b);
                &&& s2 == sp
                &&& h.len() == hb + hoist_len(*k)
                &&& lowered_expr(h.take(hb as int), *b2, *b, n)
                &&& lowered_expr(h.skip(hb as int), *k2, *k, n + logic_count(*b))
            },
            _ => false,
        },
        Expr::Member(b, m, sp) => match res {
            Expr::Member(b2, m2, s2) => m2 == m && s2 == sp && h.len() == hoist_len(*b) && lowered_expr(h, *b2, *b, n),
            _ => false,
        },
        Expr::Call(c, args, sp) => match res {
            Expr::Call(c2, a2, s2) => {
                proof {
                    assert(decreases_to!(e => args));
                    assert(decreases_to!(args => args@));
                }
                let hc = hoist_len(*c);
                &&& s2 == sp
                &&& h.len() == hc + exprs_hoist_len(args@)
                &&& lowered_expr(h.take(hc as int), *c2, *c, n)
                &&& lowered_exprs(h.skip(hc as int), a2@, args@, n + logic_count(*c))
            },
            _ => false,
        },
        _ => h.len() == 0 && res == e,
    }
}

/// Lowering a list of expressions, left to right.
pub open spec fn lowered_exprs(h: Seq<Stmt>, rs: Seq<Expr>, es: Seq<Expr>, n: nat) -> bool
    decreases es,
{
    if es.len() == 0 {
        h.len() == 0 && rs.len() == 0
    } else {
        let hp = exprs_hoist_len(es.drop_last());
        &&& rs.len() == es.len()
        &&& h.len() == hp + hoist_len(es.last())
        &&& lowered_exprs(h.take(hp as int), rs.drop_last(), es.drop_last(), n)
        &&& lowered_expr(h.skip(hp as int), rs.last(), es.last(), n + exprs_logic_count(es.drop_last()))
    }
}

/// The `&&` / `||` operators a statement's lowering replaces: those of its own
/// expressions and of the blocks it holds. Statements that only other passes produce (and
/// `unchecked` blocks, placeholders and call statements) are kept as they are and count
/// none.
pub open spec fn stmt_logic_count(s: Stmt) -> nat
    decreases s,
{
    match s {
        Stmt::Require { cond, .. } => logic_count(cond),
        Stmt::Assert { cond, .. } => logic_count(cond),
        Stmt::Assign { value, .. } => logic_count(value),
        Stmt::FieldAssign { value, .. } => logic_count(value),
        Stmt::LocalVar { value, .. } => logic_count(value),
        Stmt::IndexAssign { key, value, .. } => logic_count(key) + logic_count(value),
        Stmt::IndexAssign2 { k1, k2, value, .. } => logic_count(k1) + logic_count(k2) + logic_count(value),
        Stmt::Return { value, .. } => match value {
            Some(v) => logic_count(v),
            None => 0,
        },
        Stmt::If { cond, then_body, else_body, .. } => {
            proof {
                assert(decreases_to!(s => then_body));
                assert(decreases_to!(then_body => then_body@));
                assert(decreases_to!(s => else_body));
                assert(decreases_to!(else_body => else_body@));
            }
            logic_count(cond) + block_logic_count(then_body@) + block_logic_count(else_body@)
        },
        Stmt::AirdropLoop { body, .. } => {
            proof {
                assert(decreases_to!(s => body));
                assert(decreases_to!(body => body@));
            }
            block_logic_count(body@)
        },
        _ => 0,
    }
}

pub open spec fn block_logic_count(stmts: Seq<Stmt>) -> nat
    decreases stmts,
{
    if stmts.len() == 0 {
        0
    } else {
        block_logic_count(stmts.drop_last()) + stmt_logic_count(stmts.last())
    }
}

/// How many statements a statement lowers to: its hoists, then itself.
pub open spec fn stmt_out_len(s: Stmt) -> nat {
    match s {
        Stmt::Require { cond, .. } => hoist_len(cond) + 1,
        Stmt::Assert { cond, .. } => hoist_len(cond) + 1,
        Stmt::Assign { value, .. } => hoist_len(value) + 1,
        Stmt::FieldAssign { value, .. } => hoist_len(value) + 1,
        Stmt::LocalVar { value, .. } => hoist_len(value) + 1,
        Stmt::IndexAssign { key, value, .. } => hoist_len(key) + hoist_len(value) + 1,
        Stmt::IndexAssign2 { k1, k2, value, .. } => hoist_len(k1) + hoist_len(k2) + hoist_len(value) + 1,
        Stmt::Return { value, .. } => match value {
            Some(v) => hoist_len(v) + 1,
            None => 1,
        },
        Stmt::If { cond, .. } => hoist_len(cond) + 1,
        _ => 1,
    }
}

pub open spec fn block_out_len(stmts: Seq<Stmt>) -> nat
    decreases stmts,
{
    if stmts.len() == 0 {
        0
    } else {
        block_out_len(stmts.drop_last()) + stmt_out_len(stmts.last())
    }
}

/// Lowering statement `s` with temporaries numbered from `n` gives the statements `o`: the
/// hoists of its expressions (left to right), then the statement over the lowered
/// expressions; an `if` lowers its condition, then its then-branch, then its else-branch,
/// each branch as a block of its own; the airdrop loop lowers its body; every other
/// statement is kept as it is.
pub open spec fn lowered_stmt(o: Seq<Stmt>, s: Stmt, n: nat) -> bool
    decreases s,
{
    match s {
        Stmt::Require { cond, span } => o.len() == hoist_len(cond) + 1 && match o.last() {
            Stmt::Require { cond: c2, span: s2 } => s2 == span && lowered_expr(o.drop_last(), c2, cond, n),
            _ => false,
        },
        Stmt::Assert { cond, span } => o.len() == hoist_len(cond) + 1 && match o.last() {
            Stmt::Assert { cond: c2, span: s2 } => s2 == span && lowered_expr(o.drop_last(), c2, cond, n),
            _ => false,
        },
        Stmt::Assign { target, op, value, span } => o.len() == hoist_len(value) + 1 && match o.last() {
            Stmt::Assign { target: t2, op: o2, value: v2, span: s2 } => t2 == target && o2 == op && s2 == span
                && lowered_expr(o.drop_last(), v2, value, n),
            _ => false,
        },
        Stmt::FieldAssign { obj, field, op, value, span } => o.len() == hoist_len(value) + 1 && match o.last() {
            Stmt::FieldAssign { obj: b2, field: f2, op: o2, value: v2, span: s2 } => b2 == obj && f2 == field && o2
                == op && s2 == span && lowered_expr(o.drop_last(), v2, value, n),
            _ => false,
        },
        Stmt::LocalVar { name, ty, value, span } => o.len() == hoist_len(value) + 1 && match o.last() {
            Stmt::LocalVar { name: n2, ty: t2, value: v2, span: s2 } => n2 == name && t2 == ty && s2 == span
                && lowered_expr(o.drop_last(), v2, value, n),
            _ => false,
        },
        Stmt::IndexAssign { map, key, op, value, span } => {
            let hk = hoist_len(key);
            &&& o.len() == hk + hoist_len(value) + 1
            &&& match o.last() {
                Stmt::IndexAssign { map: m2, key: k2, op: o2, value: v2, span: s2 } => m2 == map && o2 == op && s2
                    == span && lowered_expr(o.take(hk as int), k2, key, n) && lowered_expr(
                    o.drop_last().skip(hk as int),
                    v2,
                    value,
                    n + logic_count(key),
                ),
                _ => false,
            }
        },
        Stmt::IndexAssign2 { map, k1, k2, op, value, span } => {
            let h1 = hoist_len(k1);
            let h2 = hoist_len(k2);
            &&& o.len() == h1 + h2 + hoist_len(value) + 1
            &&& match o.last() {
                Stmt::IndexAssign2 { map: m2, k1: a2, k2: b2, op: o2, value: v2, span: s2 } => m2 == map && o2 == op
                    && s2 == span && lowered_expr(o.take(h1 as int), a2, k1, n) && lowered_expr(
                    o.take((h1 + h2) as int).skip(h1 as int),
                    b2,
                    k2,
                    n + logic_count(k1),
                ) && lowered_expr(
                    o.drop_last().skip((h1 + h2) as int),
                    v2,
                    value,
                    n + logic_count(k1) + logic_count(k2),
                ),
                _ => false,
            }
        },
        Stmt::Return { value, span } => match value {
            Some(v) => o.len() == hoist_len(v) + 1 && match o.last() {
                Stmt::Return { value: Some(w), span: s2 } => s2 == span && lowered_expr(o.drop_last(), w, v, n),
                _ => false,
            },
            None => o == seq![s],
        },
        Stmt::If { cond, then_body, else_body, span } => {
            proof {
                assert(decreases_to!(s => then_body));
                assert(decreases_to!(then_body => then_body@));
                assert(decreases_to!(s => else_body));
                assert(decreases_to!(else_body => else_body@));
            }
            &&& o.len() == hoist_len(cond) + 1
            &&& match o.last() {
                Stmt::If { cond: c2, then_body: t2, else_body: e2, span: s2 } => {
                    &&& s2 == span
                    &&& lowered_expr(o.drop_last(), c2, cond, n)
                    &&& lowered_block(t2@, then_body@, n + logic_count(cond))
                    &&& lowered_block(e2@, else_body@, n + logic_count(cond) + block_logic_count(then_body@))
                },
                _ => false,
            }
        },
        Stmt::AirdropLoop { idx, len_array, body, span } => {
            proof {
                assert(decreases_to!(s => body));
                assert(decreases_to!(body => body@));
            }
            &&& o.len() == 1
            &&& match o[0] {
                Stmt::AirdropLoop { idx: i2, len_array: l2, body: b2, span: s2 } => i2 == idx && l2 == len_array && s2
                    == span && lowered_block(b2@, body@, n),
                _ => false,
            }
        },
        _ => o == seq![s],
    }
}

/// Lowering a block: each statement in turn, the numbering carried along.
pub open spec fn lowered_block(o: Seq<Stmt>, stmts: Seq<Stmt>, n: nat) -> bool
    decreases stmts,
{
    if stmts.len() == 0 {
        o.len() == 0
    } else {
        let lp = block_out_len(stmts.drop_last());
        &&& o.len() == lp + stmt_out_len(stmts.last())
        &&& lowered_block(o.take(lp as int), stmts.drop_last(), n)
        &&& lowered_stmt(o.skip(lp as int), stmts.last(), n + block_logic_count(stmts.drop_last()))
    }
}

// ── The lowering ─────────────────────────────────────────────────────────────

/// The short-circuit lowering state: the number of the next temporary.
pub struct D {
    pub counter: u32,
}

impl D {
    pub fn new() -> (d: D)
        ensures
            d.counter == 0,
    {
        D { counter: 0 }
    }

    /// The next temporary's name, `__fe_{counter}`.
    fn fresh(&mut self) -> (r: String)
        requires
            old(self).counter < u32::MAX,
        ensures
            r@ == fresh_name(old(self).counter as nat),
            final(self).counter == old(self).counter + 1,
    {
        let n = self.counter;
        self.counter = n + 1;
        concat_str(String::from_str("__fe_"), usize_decimal(n as usize).as_str())
    }

    /// Lowers every `&&` / `||` of the block (see `lowered_block`).
    pub fn block(&mut self, stmts: Vec<Stmt>) -> (r: Result<Vec<Stmt>, FrontendDiag>)
        requires
            old(self).counter + block_logic_count(stmts@) <= u32::MAX,
        ensures
            r matches Ok(v) && lowered_block(v@, stmts@, old(self).counter as nat),
            final(self).counter == old(self).counter + block_logic_count(stmts@),
        decreases stmts,
    {
        let ghost g = stmts;
        let ghost orig = stmts@;
        let ghost n0 = self.counter as nat;
        let mut rest = stmts;
        let mut out: Vec<Stmt> = Vec::new();
        let ghost mut k: int = 0;
        assert(orig.take(0) =~= Seq::<Stmt>::empty());
        while rest.len() > 0
            invariant
                0 <= k <= orig.len(),
                rest@ == orig.skip(k),
                orig == g@,
                g == stmts,
                lowered_block(out@, orig.take(k), n0),
                self.counter == n0 + block_logic_count(orig.take(k)),
                n0 + block_logic_count(orig) <= u32::MAX,
            decreases rest@.len(),
        {
            let s = rest.remove(0);
            proof {
                assert(s == orig[k]);
                assert(orig.take(k + 1).drop_last() =~= orig.take(k));
                assert(orig.take(k + 1).last() == s);
                lemma_block_count_prefix(orig, k + 1);
                assert(decreases_to!(g => g@));
                assert(decreases_to!(g@ => g@[k]));
                assert(decreases_to!(g => s));
            }
            let ghost o0 = out@;
            match self.stmt(s, &mut out) {
                Ok(()) => {},
                Err(d) => {
                    return Err(d);
                },
            }
            proof {
                assert(out@.take(o0.len() as int) =~= o0);
                k = k + 1;
            }
            assert(rest@ =~= orig.skip(k));
        }
        assert(orig.take(k) =~= orig);
        Ok(out)
    }

    /// Lowers one statement, appending the result to `out` (see `lowered_stmt`).
    #[verifier::rlimit(100)]
    #[verifier::spinoff_prover]
    fn stmt(&mut self, s: Stmt, out: &mut Vec<Stmt>) -> (r: Result<(), FrontendDiag>)
        requires
            old(self).counter + stmt_logic_count(s) <= u32::MAX,
        ensures
            r is Ok,
            final(out)@.take(old(out)@.len() as int) == old(out)@,
            final(out)@.len() >= old(out)@.len(),
            lowered_stmt(final(out)@.skip(old(out)@.len() as int), s, old(self).counter as nat),
            final(self).counter == old(self).counter + stmt_logic_count(s),
        decreases s,
    {
        let ghost o0 = out@;
        let ghost n0 = self.counter as nat;
        let ghost s0 = s;
        match s {
            Stmt::Require { cond, span } => {
                let cond = match self.expr(cond, out) { Ok(v) => v, Err(d) => { return Err(d); } };
                let ghost o1 = out@;
                out.push(Stmt::Require { cond, span });
                proof { assert(out@.skip(o0.len() as int).drop_last() =~= o1.skip(o0.len() as int)); }
            },
            Stmt::Assert { cond, span } => {
                let cond = match self.expr(cond, out) { Ok(v) => v, Err(d) => { return Err(d); } };
                let ghost o1 = out@;
                out.push(Stmt::Assert { cond, span });
                proof { assert(out@.skip(o0.len() as int).drop_last() =~= o1.skip(o0.len() as int)); }
            },
            Stmt::Assign { target, op, value, span } => {
                let value = match self.expr(value, out) { Ok(v) => v, Err(d) => { return Err(d); } };
                let ghost o1 = out@;
                out.push(Stmt::Assign { target, op, value, span });
                proof { assert(out@.skip(o0.len() as int).drop_last() =~= o1.skip(o0.len() as int)); }
            },
            Stmt::FieldAssign { obj, field, op, value, span } => {
                let value = match self.expr(value, out) { Ok(v) => v, Err(d) => { return Err(d); } };
                let ghost o1 = out@;
                out.push(Stmt::FieldAssign { obj, field, op, value, span });
                proof { assert(out@.skip(o0.len() as int).drop_last() =~= o1.skip(o0.len() as int)); }
            },
            Stmt::LocalVar { name, ty, value, span } => {
                let value = match self.expr(value, out) { Ok(v) => v, Err(d) => { return Err(d); } };
                let ghost o1 = out@;
                out.push(Stmt::LocalVar { name, ty, value, span });
                proof { assert(out@.skip(o0.len() as int).drop_last() =~= o1.skip(o0.len() as int)); }
            },
            Stmt::IndexAssign { map, key, op, value, span } => {
                let key = match self.expr(key, out) { Ok(v) => v, Err(d) => { return Err(d); } };
                let ghost o1 = out@;
                let value = match self.expr(value, out) { Ok(v) => v, Err(d) => { return Err(d); } };
                let ghost o2 = out@;
                out.push(Stmt::IndexAssign { map, key, op, value, span });
                proof {
                    let h = out@.skip(o0.len() as int);
                    assert(h.take(hoist_len(s0->IndexAssign_key) as int) =~= o1.skip(o0.len() as int));
                    assert(h.drop_last().skip(hoist_len(s0->IndexAssign_key) as int) =~= o2.skip(o1.len() as int));
                }
            },
            Stmt::IndexAssign2 { map, k1, k2, op, value, span } => {
                let k1 = match self.expr(k1, out) { Ok(v) => v, Err(d) => { return Err(d); } };
                let ghost o1 = out@;
                let k2 = match self.expr(k2, out) { Ok(v) => v, Err(d) => { return Err(d); } };
                let ghost o2 = out@;
                let value = match self.expr(value, out) { Ok(v) => v, Err(d) => { return Err(d); } };
                let ghost o3 = out@;
                out.push(Stmt::IndexAssign2 { map, k1, k2, op, value, span });
                proof {
                    let h = out@.skip(o0.len() as int);
                    let h1 = hoist_len(s0->IndexAssign2_k1) as int;
                    let h2 = hoist_len(s0->IndexAssign2_k2) as int;
                    assert(h.take(h1) =~= o1.skip(o0.len() as int));
                    assert(h.take(h1 + h2).skip(h1) =~= o2.skip(o1.len() as int));
                    assert(h.drop_last().skip(h1 + h2) =~= o3.skip(o2.len() as int));
                }
            },
            Stmt::Return { value, span } => {
                match value {
                    Some(e) => {
                        let v = match self.expr(e, out) { Ok(v) => v, Err(d) => { return Err(d); } };
                        let ghost o1 = out@;
                        out.push(Stmt::Return { value: Some(v), span });
                        proof { assert(out@.skip(o0.len() as int).drop_last() =~= o1.skip(o0.len() as int)); }
                    },
                    None => {
                        out.push(Stmt::Return { value: None, span });
                        proof { assert(out@.skip(o0.len() as int) =~= seq![s0]); }
                    },
                }
            },
            Stmt::If { cond, then_body, else_body, span } => {
                let cond = match self.expr(cond, out) { Ok(v) => v, Err(d) => { return Err(d); } };
                let then_body = match self.block(then_body) { Ok(v) => v, Err(d) => { return Err(d); } };
                let else_body = match self.block(else_body) { Ok(v) => v, Err(d) => { return Err(d); } };
                let ghost o1 = out@;
                out.push(Stmt::If { cond, then_body, else_body, span });
                proof { assert(out@.skip(o0.len() as int).drop_last() =~= o1.skip(o0.len() as int)); }
            },
            Stmt::AirdropLoop { idx, len_array, body, span } => {
                let body = match self.block(body) { Ok(v) => v, Err(d) => { return Err(d); } };
                out.push(Stmt::AirdropLoop { idx, len_array, body, span });
                proof { assert(out@.skip(o0.len() as int) =~= seq![out@.last()]); }
            },
            other => {
                out.push(other);
                proof { assert(out@.skip(o0.len() as int) =~= seq![s0]); }
            },
        }
        proof { assert(out@.take(o0.len() as int) =~= o0); }
        Ok(())
    }

    /// Lowers the `&&` / `||` of `e`, appending the hoisted statements to `out` in evaluation
    /// order and returning what stands in its place (see `lowered_expr`).
    fn expr(&mut self, e: Expr, out: &mut Vec<Stmt>) -> (r: Result<Expr, FrontendDiag>)
        requires
            old(self).counter + logic_count(e) <= u32::MAX,
        ensures
            r matches Ok(res) && lowered_expr(final(out)@.skip(old(out)@.len() as int), res, e, old(self).counter as nat),
            final(out)@.take(old(out)@.len() as int) == old(out)@,
            final(out)@.len() >= old(out)@.len(),
            final(self).counter == old(self).counter + logic_count(e),
        decreases e,
    {
        let ghost o0 = out@;
        let ghost n0 = self.counter as nat;
        let ghost e0 = e;
        let res = match e {
            Expr::Bin(op, l, r, span) => {
                let and = matches!(op, BinOp::And);
                let or = matches!(op, BinOp::Or);
                if and || or {
                    let lv = match self.expr(*l, out) { Ok(v) => v, Err(d) => { return Err(d); } };
                    let ghost o1 = out@;
                    let n = self.fresh();
                    out.push(Stmt::LocalVar {
                        name: n.clone(),
                        ty: TypeRef::Scalar { name: String::from_str("bool"), span: copy_span(&span) },
                        value: lv,
                        span: copy_span(&span),
                    });
                    let ghost o2 = out@;
                    let mut guarded: Vec<Stmt> = Vec::new();
                    let rv = match self.expr(*r, &mut guarded) { Ok(v) => v, Err(d) => { return Err(d); } };
                    let ghost gr = guarded@;
                    guarded.push(Stmt::Assign { target: n.clone(), op: AssignOp::Eq, value: rv, span: copy_span(&span) });
                    let ghost gfin = guarded@;
                    proof {
                        assert(gfin.drop_last() =~= gr);
                        assert(gr.skip(0) =~= gr);
                    }
                    let (then_body, else_body) = if and {
                        (guarded, Vec::new())
                    } else {
                        (Vec::new(), guarded)
                    };
                    out.push(Stmt::If {
                        cond: Expr::Var(n.clone(), copy_span(&span)),
                        then_body,
                        else_body,
                        span: copy_span(&span),
                    });
                    proof {
                        let h = out@.skip(o0.len() as int);
                        let hl = hoist_len(*e0->Bin_1) as int;
                        assert(h.take(hl) =~= o1.skip(o0.len() as int));
                        assert(h[hl] == o2.last());
                        assert(gr.skip(0) =~= gr);
                    }
                    Expr::Var(n, span)
                } else {
                    let lv = match self.expr(*l, out) { Ok(v) => v, Err(d) => { return Err(d); } };
                    let ghost o1 = out@;
                    let rv = match self.expr(*r, out) { Ok(v) => v, Err(d) => { return Err(d); } };
                    proof {
                        let h = out@.skip(o0.len() as int);
                        let hl = hoist_len(*e0->Bin_1) as int;
                        assert(h.take(hl) =~= o1.skip(o0.len() as int));
                        assert(h.skip(hl) =~= out@.skip(o1.len() as int));
                    }
                    Expr::Bin(op, Box::new(lv), Box::new(rv), span)
                }
            },
            Expr::Unary(op, x, span) => {
                let xv = match self.expr(*x, out) { Ok(v) => v, Err(d) => { return Err(d); } };
                Expr::Unary(op, Box::new(xv), span)
            },
            Expr::Index(b, k, span) => {
                let bv = match self.expr(*b, out) { Ok(v) => v, Err(d) => { return Err(d); } };
                let ghost o1 = out@;
                let kv = match self.expr(*k, out) { Ok(v) => v, Err(d) => { return Err(d); } };
                proof {
                    let h = out@.skip(o0.len() as int);
                    let hb = hoist_len(*e0->Index_0) as int;
                    assert(h.take(hb) =~= o1.skip(o0.len() as int));
                    assert(h.skip(hb) =~= out@.skip(o1.len() as int));
                }
                Expr::Index(Box::new(bv), Box::new(kv), span)
            },
            Expr::Member(b, m, span) => {
                let bv = match self.expr(*b, out) { Ok(v) => v, Err(d) => { return Err(d); } };
                Expr::Member(Box::new(bv), m, span)
            },
            Expr::Call(callee, args, span) => {
                let cv = match self.expr(*callee, out) { Ok(v) => v, Err(d) => { return Err(d); } };
                let ghost o1 = out@;
                let new_args = match self.exprs(args, out) { Ok(v) => v, Err(d) => { return Err(d); } };
                proof {
                    let h = out@.skip(o0.len() as int);
                    let hc = hoist_len(*e0->Call_0) as int;
                    assert(h.take(hc) =~= o1.skip(o0.len() as int));
                    assert(h.skip(hc) =~= out@.skip(o1.len() as int));
                }
                Expr::Call(Box::new(cv), new_args, span)
            },
            leaf => {
                proof { assert(out@.skip(o0.len() as int) =~= Seq::<Stmt>::empty()); }
                leaf
            },
        };
        proof { assert(out@.take(o0.len() as int) =~= o0); }
        Ok(res)
    }

    /// Lowers a call's arguments left to right (see `lowered_exprs`).
    fn exprs(&mut self, args: Vec<Expr>, out: &mut Vec<Stmt>) -> (r: Result<Vec<Expr>, FrontendDiag>)
        requires
            old(self).counter + exprs_logic_count(args@) <= u32::MAX,
        ensures
            r matches Ok(rs) && lowered_exprs(final(out)@.skip(old(out)@.len() as int), rs@, args@, old(self).counter as nat),
            final(out)@.take(old(out)@.len() as int) == old(out)@,
            final(out)@.len() >= old(out)@.len(),
            final(self).counter == old(self).counter + exprs_logic_count(args@),
        decreases args,
    {
        let ghost g = args;
        let ghost orig = args@;
        let ghost o0 = out@;
        let ghost n0 = self.counter as nat;
        let mut rest = args;
        let mut done: Vec<Expr> = Vec::new();
        let ghost mut k: int = 0;
        assert(orig.take(0) =~= Seq::<Expr>::empty());
        assert(out@.skip(o0.len() as int) =~= Seq::<Stmt>::empty());
        while rest.len() > 0
            invariant
                0 <= k <= orig.len(),
                rest@ == orig.skip(k),
                orig == g@,
                g == args,
                out@.len() >= o0.len(),
                out@.take(o0.len() as int) == o0,
                lowered_exprs(out@.skip(o0.len() as int), done@, orig.take(k), n0),
                self.counter == n0 + exprs_logic_count(orig.take(k)),
                n0 + exprs_logic_count(orig) <= u32::MAX,
            decreases rest@.len(),
        {
            let a = rest.remove(0);
            proof {
                assert(a == orig[k]);
                assert(orig.take(k + 1).drop_last() =~= orig.take(k));
                assert(orig.take(k + 1).last() == a);
                lemma_exprs_count_prefix(orig, k + 1);
                assert(decreases_to!(g => g@));
                assert(decreases_to!(g@ => g@[k]));
                assert(decreases_to!(g => a));
            }
            let ghost o1 = out@;
            let ghost d0 = done@;
            let v = match self.expr(a, out) { Ok(v) => v, Err(d) => { return Err(d); } };
            done.push(v);
            proof {
                let h = out@.skip(o0.len() as int);
                let hp = exprs_hoist_len(orig.take(k)) as int;
                assert(h.take(hp) =~= o1.skip(o0.len() as int));
                assert(h.skip(hp) =~= out@.skip(o1.len() as int));
                assert(done@.drop_last() =~= d0);
                assert(out@.take(o0.len() as int) =~= o0);
                k = k + 1;
            }
            assert(rest@ =~= orig.skip(k));
        }
        assert(orig.take(k) =~= orig);
        Ok(done)
    }
}

/// The `&&` / `||` count of a prefix of a block is within that of the block.
proof fn lemma_block_count_prefix(stmts: Seq<Stmt>, k: int)
    requires
        0 <= k <= stmts.len(),
    ensures
        block_logic_count(stmts.take(k)) <= block_logic_count(stmts),
    decreases stmts.len() - k,
{
    if k < stmts.len() {
        lemma_block_count_prefix(stmts, k + 1);
        assert(stmts.take(k + 1).drop_last() =~= stmts.take(k));
    } else {
        assert(stmts.take(k) =~= stmts);
    }
}

proof fn lemma_exprs_count_prefix(es: Seq<Expr>, k: int)
    requires
        0 <= k <= es.len(),
    ensures
        exprs_logic_count(es.take(k)) <= exprs_logic_count(es),
    decreases es.len() - k,
{
    if k < es.len() {
        lemma_exprs_count_prefix(es, k + 1);
        assert(es.take(k + 1).drop_last() =~= es.take(k));
    } else {
        assert(es.take(k) =~= es);
    }
}

// ── What the lowering guarantees ─────────────────────────────────────────────

proof fn lemma_block_count_concat(a: Seq<Stmt>, b: Seq<Stmt>)
    ensures
        block_logic_count(a + b) == block_logic_count(a) + block_logic_count(b),
    decreases b.len(),
{
    if b.len() == 0 {
        assert(a + b =~= a);
    } else {
        lemma_block_count_concat(a, b.drop_last());
        assert((a + b).drop_last() =~= a + b.drop_last());
    }
}

proof fn lemma_block_count_split(h: Seq<Stmt>, i: int)
    requires
        0 <= i <= h.len(),
    ensures
        block_logic_count(h) == block_logic_count(h.take(i)) + block_logic_count(h.skip(i)),
{
    lemma_block_count_concat(h.take(i), h.skip(i));
    assert(h.take(i) + h.skip(i) =~= h);
}

proof fn lemma_block_count_one(s: Stmt)
    ensures
        block_logic_count(seq![s]) == stmt_logic_count(s),
{
    let one = seq![s];
    assert(one.drop_last() =~= Seq::<Stmt>::empty());
    assert(one.last() == s);
    assert(block_logic_count(one.drop_last()) == 0);
}

/// A lowered expression and its hoisted statements hold no `&&` or `||`.
proof fn lemma_lowered_expr_free(h: Seq<Stmt>, res: Expr, e: Expr, n: nat)
    requires
        lowered_expr(h, res, e, n),
    ensures
        logic_count(res) == 0,
        block_logic_count(h) == 0,
    decreases e,
{
    match e {
        Expr::Bin(op, l, r, sp) => {
            let hl = hoist_len(*l) as int;
            if is_logic(op) {
                let k = n + logic_count(*l);
                match h[hl] {
                    Stmt::LocalVar { value, .. } => {
                        lemma_lowered_expr_free(h.take(hl), value, *l, n);
                    },
                    _ => {},
                }
                match h[hl + 1] {
                    Stmt::If { cond, then_body, else_body, span } => {
                        let g = if op is And {
                            then_body@
                        } else {
                            else_body@
                        };
                        match g.last() {
                            Stmt::Assign { value, .. } => {
                                lemma_lowered_expr_free(g.drop_last(), value, *r, k + 1);
                                lemma_block_count_split(g, g.len() - 1);
                                assert(g.skip(g.len() - 1) =~= seq![g.last()]);
                                lemma_block_count_one(g.last());
                                assert(g.take(g.len() - 1) =~= g.drop_last());
                            },
                            _ => {},
                        }
                        assert(block_logic_count(Seq::<Stmt>::empty()) == 0);
                    },
                    _ => {},
                }
                lemma_block_count_split(h, hl);
                lemma_block_count_split(h.skip(hl), 1);
                assert(h.skip(hl).take(1) =~= seq![h[hl]]);
                assert(h.skip(hl).skip(1) =~= seq![h[hl + 1]]);
                lemma_block_count_one(h[hl]);
                lemma_block_count_one(h[hl + 1]);
            } else {
                match res {
                    Expr::Bin(_, l2, r2, _) => {
                        lemma_lowered_expr_free(h.take(hl), *l2, *l, n);
                        lemma_lowered_expr_free(h.skip(hl), *r2, *r, n + logic_count(*l));
                        lemma_block_count_split(h, hl);
                    },
                    _ => {},
                }
            }
        },
        Expr::Unary(_, x, _) => match res {
            Expr::Unary(_, x2, _) => {
                lemma_lowered_expr_free(h, *x2, *x, n);
            },
            _ => {},
        },
        Expr::Member(b, _, _) => match res {
            Expr::Member(b2, _, _) => {
                lemma_lowered_expr_free(h, *b2, *b, n);
            },
            _ => {},
        },
        Expr::Index(b, k, _) => match res {
            Expr::Index(b2, k2, _) => {
                let hb = hoist_len(*b) as int;
                lemma_lowered_expr_free(h.take(hb), *b2, *b, n);
                lemma_lowered_expr_free(h.skip(hb), *k2, *k, n + logic_count(*b));
                lemma_block_count_split(h, hb);
            },
            _ => {},
        },
        Expr::Call(c, args, _) => match res {
            Expr::Call(c2, a2, _) => {
                let hc = hoist_len(*c) as int;
                assert(decreases_to!(e => args));
                assert(decreases_to!(args => args@));
                lemma_lowered_expr_free(h.take(hc), *c2, *c, n);
                lemma_lowered_exprs_free(h.skip(hc), a2@, args@, n + logic_count(*c));
                lemma_block_count_split(h, hc);
            },
            _ => {},
        },
        _ => {},
    }
}

proof fn lemma_lowered_exprs_free(h: Seq<Stmt>, rs: Seq<Expr>, es: Seq<Expr>, n: nat)
    requires
        lowered_exprs(h, rs, es, n),
    ensures
        exprs_logic_count(rs) == 0,
        block_logic_count(h) == 0,
    decreases es,
{
    if es.len() > 0 {
        let hp = exprs_hoist_len(es.drop_last()) as int;
        lemma_lowered_exprs_free(h.take(hp), rs.drop_last(), es.drop_last(), n);
        lemma_lowered_expr_free(h.skip(hp), rs.last(), es.last(), n + exprs_logic_count(es.drop_last()));
        lemma_block_count_split(h, hp);
    }
}

/// A lowered statement's output holds no `&&` or `||` where the lowering looks.
proof fn lemma_lowered_stmt_free(o: Seq<Stmt>, s: Stmt, n: nat)
    requires
        lowered_stmt(o, s, n),
    ensures
        block_logic_count(o) == 0,
    decreases s,
{
    if o.len() > 0 {
        lemma_block_count_split(o, o.len() - 1);
        assert(o.skip(o.len() - 1) =~= seq![o.last()]);
        assert(o.take(o.len() - 1) =~= o.drop_last());
        lemma_block_count_one(o.last());
    }
    match s {
        Stmt::Require { cond, .. } => match o.last() {
            Stmt::Require { cond: c2, .. } => lemma_lowered_expr_free(o.drop_last(), c2, cond, n),
            _ => {},
        },
        Stmt::Assert { cond, .. } => match o.last() {
            Stmt::Assert { cond: c2, .. } => lemma_lowered_expr_free(o.drop_last(), c2, cond, n),
            _ => {},
        },
        Stmt::Assign { value, .. } => match o.last() {
            Stmt::Assign { value: v2, .. } => lemma_lowered_expr_free(o.drop_last(), v2, value, n),
            _ => {},
        },
        Stmt::FieldAssign { value, .. } => match o.last() {
            Stmt::FieldAssign { value: v2, .. } => lemma_lowered_expr_free(o.drop_last(), v2, value, n),
            _ => {},
        },
        Stmt::LocalVar { value, .. } => match o.last() {
            Stmt::LocalVar { value: v2, .. } => lemma_lowered_expr_free(o.drop_last(), v2, value, n),
            _ => {},
        },
        Stmt::IndexAssign { key, value, .. } => match o.last() {
            Stmt::IndexAssign { key: k2, value: v2, .. } => {
                let hk = hoist_len(key) as int;
                lemma_lowered_expr_free(o.take(hk), k2, key, n);
                lemma_lowered_expr_free(o.drop_last().skip(hk), v2, value, n + logic_count(key));
                lemma_block_count_split(o.drop_last(), hk);
                assert(o.drop_last().take(hk) =~= o.take(hk));
            },
            _ => {},
        },
        Stmt::IndexAssign2 { k1, k2, value, .. } => match o.last() {
            Stmt::IndexAssign2 { k1: a2, k2: b2, value: v2, .. } => {
                let h1 = hoist_len(k1) as int;
                let h2 = hoist_len(k2) as int;
                lemma_lowered_expr_free(o.take(h1), a2, k1, n);
                lemma_lowered_expr_free(o.take(h1 + h2).skip(h1), b2, k2, n + logic_count(k1));
                lemma_lowered_expr_free(o.drop_last().skip(h1 + h2), v2, value, n + logic_count(k1) + logic_count(k2));
                lemma_block_count_split(o.drop_last(), h1 + h2);
                lemma_block_count_split(o.drop_last().take(h1 + h2), h1);
                assert(o.drop_last().take(h1 + h2).take(h1) =~= o.take(h1));
                assert(o.drop_last().take(h1 + h2).skip(h1) =~= o.take(h1 + h2).skip(h1));
            },
            _ => {},
        },
        Stmt::Return { value, .. } => match value {
            Some(v) => match o.last() {
                Stmt::Return { value: Some(w), .. } => lemma_lowered_expr_free(o.drop_last(), w, v, n),
                _ => {},
            },
            None => {},
        },
        Stmt::If { cond, then_body, else_body, .. } => match o.last() {
            Stmt::If { cond: c2, then_body: t2, else_body: e2, .. } => {
                assert(decreases_to!(s => then_body));
                assert(decreases_to!(then_body => then_body@));
                assert(decreases_to!(s => else_body));
                assert(decreases_to!(else_body => else_body@));
                lemma_lowered_expr_free(o.drop_last(), c2, cond, n);
                lemma_lowered_block_free(t2@, then_body@, n + logic_count(cond));
                lemma_lowered_block_free(e2@, else_body@, n + logic_count(cond) + block_logic_count(then_body@));
            },
            _ => {},
        },
        Stmt::AirdropLoop { body, .. } => match o[0] {
            Stmt::AirdropLoop { body: b2, .. } => {
                assert(decreases_to!(s => body));
                assert(decreases_to!(body => body@));
                lemma_lowered_block_free(b2@, body@, n);
                assert(o.drop_last() =~= Seq::<Stmt>::empty());
            },
            _ => {},
        },
        _ => {
            assert(o.drop_last() =~= Seq::<Stmt>::empty());
        },
    }
}

/// What the lowering promises: a lowered block holds no `&&` or `||` in any expression it
/// evaluates (statements kept as they are count none).
pub proof fn lemma_lowered_block_free(o: Seq<Stmt>, stmts: Seq<Stmt>, n: nat)
    requires
        lowered_block(o, stmts, n),
    ensures
        block_logic_count(o) == 0,
    decreases stmts,
{
    if stmts.len() > 0 {
        let lp = block_out_len(stmts.drop_last()) as int;
        lemma_lowered_block_free(o.take(lp), stmts.drop_last(), n);
        lemma_lowered_stmt_free(o.skip(lp), stmts.last(), n + block_logic_count(stmts.drop_last()));
        lemma_block_count_split(o, lp);
    }
}

// ── `msg.sender` as a parameter ──────────────────────────────────────────────

/// The parameter `msg.sender` becomes.
pub const SENDER_PARAM: &'static str = "__fe_sender";

/// `e` is `msg.sender`.
pub open spec fn is_msg_sender(base: Expr, member: Seq<char>) -> bool {
    member == "sender"@ && match base {
        Expr::Var(n, _) => n@ == "msg"@,
        _ => false,
    }
}

/// `o` is `i` with every `msg.sender` replaced by a read of `__fe_sender` at its span.
pub open spec fn sender_rewritten(o: Expr, i: Expr) -> bool
    decreases i,
{
    match i {
        Expr::Member(b, m, sp) => if is_msg_sender(*b, m@) {
            match o {
                Expr::Var(n, s2) => n@ == "__fe_sender"@ && s2 == sp,
                _ => false,
            }
        } else {
            match o {
                Expr::Member(b2, m2, s2) => m2 == m && s2 == sp && sender_rewritten(*b2, *b),
                _ => false,
            }
        },
        Expr::Index(b, k, sp) => match o {
            Expr::Index(b2, k2, s2) => s2 == sp && sender_rewritten(*b2, *b) && sender_rewritten(*k2, *k),
            _ => false,
        },
        Expr::Unary(op, x, sp) => match o {
            Expr::Unary(op2, x2, s2) => op2 == op && s2 == sp && sender_rewritten(*x2, *x),
            _ => false,
        },
        Expr::Bin(op, l, r, sp) => match o {
            Expr::Bin(op2, l2, r2, s2) => op2 == op && s2 == sp && sender_rewritten(*l2, *l) && sender_rewritten(*r2, *r),
            _ => false,
        },
        Expr::Call(c, args, sp) => match o {
            Expr::Call(c2, a2, s2) => {
                proof {
                    assert(decreases_to!(i => args));
                    assert(decreases_to!(args => args@));
                }
                &&& s2 == sp
                &&& sender_rewritten(*c2, *c)
                &&& a2@.len() == args@.len()
                &&& forall|q: int| 0 <= q < args@.len() ==> sender_rewritten(#[trigger] a2@[q], args@[q])
            },
            _ => false,
        },
        _ => o == i,
    }
}

/// The expression reads `msg.sender`.
pub open spec fn uses_sender(i: Expr) -> bool
    decreases i,
{
    match i {
        Expr::Member(b, m, _) => is_msg_sender(*b, m@) || uses_sender(*b),
        Expr::Index(b, k, _) => uses_sender(*b) || uses_sender(*k),
        Expr::Unary(_, x, _) => uses_sender(*x),
        Expr::Bin(_, l, r, _) => uses_sender(*l) || uses_sender(*r),
        Expr::Call(c, args, _) => {
            proof {
                assert(decreases_to!(i => args));
                assert(decreases_to!(args => args@));
            }
            uses_sender(*c) || exists|q: int| 0 <= q < args@.len() && uses_sender(#[trigger] args@[q])
        },
        _ => false,
    }
}

/// `o` is statement `s` with `msg.sender` rewritten in its expressions and nested blocks
/// (statements that only later passes produce are kept).
pub open spec fn sender_stmt_rewritten(o: Stmt, s: Stmt) -> bool
    decreases s,
{
    match (s, o) {
        (Stmt::Require { cond, span }, Stmt::Require { cond: c2, span: s2 }) => sender_rewritten(c2, cond) && s2 == span,
        (Stmt::Assert { cond, span }, Stmt::Assert { cond: c2, span: s2 }) => sender_rewritten(c2, cond) && s2 == span,
        (Stmt::CallStmt { callee, args, span }, Stmt::CallStmt { callee: c2, args: a2, span: s2 }) => c2 == callee && s2
            == span && a2@.len() == args@.len() && forall|q: int|
            0 <= q < args@.len() ==> sender_rewritten(#[trigger] a2@[q], args@[q]),
        (Stmt::Assign { target, op, value, span }, Stmt::Assign { target: t2, op: o2, value: v2, span: s2 }) => t2
            == target && o2 == op && s2 == span && sender_rewritten(v2, value),
        (
            Stmt::IndexAssign { map, key, op, value, span },
            Stmt::IndexAssign { map: m2, key: k2, op: o2, value: v2, span: s2 },
        ) => m2 == map && o2 == op && s2 == span && sender_rewritten(k2, key) && sender_rewritten(v2, value),
        (
            Stmt::IndexAssign2 { map, k1, k2, op, value, span },
            Stmt::IndexAssign2 { map: m2, k1: a2, k2: c2, op: o2, value: v2, span: s2 },
        ) => m2 == map && o2 == op && s2 == span && sender_rewritten(a2, k1) && sender_rewritten(c2, k2) && sender_rewritten(
            v2,
            value,
        ),
        (
            Stmt::FieldAssign { obj, field, op, value, span },
            Stmt::FieldAssign { obj: b2, field: f2, op: o2, value: v2, span: s2 },
        ) => b2 == obj && f2 == field && o2 == op && s2 == span && sender_rewritten(v2, value),
        (Stmt::LocalVar { name, ty, value, span }, Stmt::LocalVar { name: n2, ty: t2, value: v2, span: s2 }) => n2
            == name && t2 == ty && s2 == span && sender_rewritten(v2, value),
        (Stmt::Return { value: Some(v), span }, Stmt::Return { value: Some(w), span: s2 }) => s2 == span
            && sender_rewritten(w, v),
        (
            Stmt::If { cond, then_body, else_body, span },
            Stmt::If { cond: c2, then_body: t2, else_body: e2, span: s2 },
        ) => {
            proof {
                assert(decreases_to!(s => then_body));
                assert(decreases_to!(then_body => then_body@));
                assert(decreases_to!(s => else_body));
                assert(decreases_to!(else_body => else_body@));
            }
            s2 == span && sender_rewritten(c2, cond) && t2@.len() == then_body@.len() && e2@.len() == else_body@.len()
                && (forall|q: int| 0 <= q < then_body@.len() ==> sender_stmt_rewritten(#[trigger] t2@[q], then_body@[q]))
                && (forall|q: int| 0 <= q < else_body@.len() ==> sender_stmt_rewritten(#[trigger] e2@[q], else_body@[q]))
        },
        (
            Stmt::AirdropLoop { idx, len_array, body, span },
            Stmt::AirdropLoop { idx: i2, len_array: l2, body: b2, span: s2 },
        ) => {
            proof {
                assert(decreases_to!(s => body));
                assert(decreases_to!(body => body@));
            }
            i2 == idx && l2 == len_array && s2 == span && b2@.len() == body@.len() && forall|q: int|
                0 <= q < body@.len() ==> sender_stmt_rewritten(#[trigger] b2@[q], body@[q])
        },
        (Stmt::Return { value: None, .. }, _) => o == s,
        (Stmt::Revert { .. }, _) => o == s,
        (Stmt::Unchecked { .. }, _) => o == s,
        (Stmt::MapTransfer { .. }, _) => o == s,
        (Stmt::Erc20TransferFrom { .. }, _) => o == s,
        (Stmt::ReservedBatch { .. }, _) => o == s,
        (Stmt::MapSplitTransfer { .. }, _) => o == s,
        (Stmt::Erc20Update { .. }, _) => o == s,
        (Stmt::BatchTransfer { .. }, _) => o == s,
        (Stmt::Placeholder { .. }, _) => o == s,
        _ => false,
    }
}

/// The statement reads `msg.sender` where the rewrite looks.
pub open spec fn stmt_uses_sender(s: Stmt) -> bool
    decreases s,
{
    match s {
        Stmt::Require { cond, .. } => uses_sender(cond),
        Stmt::Assert { cond, .. } => uses_sender(cond),
        Stmt::CallStmt { args, .. } => exists|q: int| 0 <= q < args@.len() && uses_sender(#[trigger] args@[q]),
        Stmt::Assign { value, .. } => uses_sender(value),
        Stmt::IndexAssign { key, value, .. } => uses_sender(key) || uses_sender(value),
        Stmt::IndexAssign2 { k1, k2, value, .. } => uses_sender(k1) || uses_sender(k2) || uses_sender(value),
        Stmt::FieldAssign { value, .. } => uses_sender(value),
        Stmt::LocalVar { value, .. } => uses_sender(value),
        Stmt::Return { value, .. } => match value {
            Some(v) => uses_sender(v),
            None => false,
        },
        Stmt::If { cond, then_body, else_body, .. } => {
            proof {
                assert(decreases_to!(s => then_body));
                assert(decreases_to!(then_body => then_body@));
                assert(decreases_to!(s => else_body));
                assert(decreases_to!(else_body => else_body@));
            }
            uses_sender(cond) || (exists|q: int| 0 <= q < then_body@.len() && stmt_uses_sender(#[trigger] then_body@[q]))
                || (exists|q: int| 0 <= q < else_body@.len() && stmt_uses_sender(#[trigger] else_body@[q]))
        },
        Stmt::AirdropLoop { body, .. } => {
            proof {
                assert(decreases_to!(s => body));
                assert(decreases_to!(body => body@));
            }
            exists|q: int| 0 <= q < body@.len() && stmt_uses_sender(#[trigger] body@[q])
        },
        _ => false,
    }
}

/// Rewrites every `msg.sender` of an expression to `__fe_sender`; reports whether there was
/// one (see `sender_rewritten`).
pub fn rewrite_sender_expr(e: Expr) -> (r: (Expr, bool))
    ensures
        sender_rewritten(r.0, e),
        r.1 == uses_sender(e),
    decreases e,
{
    let ghost e0 = e;
    match e {
        Expr::Member(b, m, sp) => {
            let hit = string_eq_str(&m, "sender") && match &*b {
                Expr::Var(n, _) => string_eq_str(n, "msg"),
                _ => false,
            };
            if hit {
                (Expr::Var(String::from_str(SENDER_PARAM), sp), true)
            } else {
                let (b2, u) = rewrite_sender_expr(*b);
                (Expr::Member(Box::new(b2), m, sp), u)
            }
        },
        Expr::Index(b, k, sp) => {
            let (b2, u1) = rewrite_sender_expr(*b);
            let (k2, u2) = rewrite_sender_expr(*k);
            (Expr::Index(Box::new(b2), Box::new(k2), sp), u1 || u2)
        },
        Expr::Unary(op, x, sp) => {
            let (x2, u) = rewrite_sender_expr(*x);
            (Expr::Unary(op, Box::new(x2), sp), u)
        },
        Expr::Bin(op, l, r, sp) => {
            let (l2, u1) = rewrite_sender_expr(*l);
            let (r2, u2) = rewrite_sender_expr(*r);
            (Expr::Bin(op, Box::new(l2), Box::new(r2), sp), u1 || u2)
        },
        Expr::Call(c, args, sp) => {
            let (c2, u0) = rewrite_sender_expr(*c);
            let ghost a0 = args@;
            let mut rest = args;
            let mut out: Vec<Expr> = Vec::new();
            let mut used = false;
            let ghost mut k: int = 0;
            assert(a0.skip(0) =~= a0);
            while rest.len() > 0
                invariant
                    0 <= k <= a0.len(),
                    rest@ == a0.skip(k),
                    out@.len() == k,
                    e0 matches Expr::Call(_, ax, _) && ax@ == a0,
                    e0 == e,
                    forall|q: int| 0 <= q < k ==> sender_rewritten(#[trigger] out@[q], a0[q]),
                    used == exists|q: int| 0 <= q < k && uses_sender(#[trigger] a0[q]),
                decreases rest@.len(),
            {
                let a = rest.remove(0);
                proof {
                    assert(a == a0[k]);
                    assert(decreases_to!(e0 => e0->Call_1));
                    assert(decreases_to!(e0->Call_1 => e0->Call_1@));
                    assert(decreases_to!(e0->Call_1@ => e0->Call_1@[k]));
                    assert(decreases_to!(e0 => a));
                }
                let (a2, u) = rewrite_sender_expr(a);
                out.push(a2);
                used = used || u;
                proof {
                    k = k + 1;
                }
                assert(rest@ =~= a0.skip(k));
            }
            (Expr::Call(Box::new(c2), out, sp), u0 || used)
        },
        other => (other, false),
    }
}

/// Rewrites the `msg.sender` reads of a list of expressions.
fn rewrite_sender_exprs(args: Vec<Expr>) -> (r: (Vec<Expr>, bool))
    ensures
        r.0@.len() == args@.len(),
        forall|q: int| 0 <= q < args@.len() ==> sender_rewritten(#[trigger] r.0@[q], args@[q]),
        r.1 == exists|q: int| 0 <= q < args@.len() && uses_sender(#[trigger] args@[q]),
{
    let ghost a0 = args@;
    let mut rest = args;
    let mut out: Vec<Expr> = Vec::new();
    let mut used = false;
    let ghost mut k: int = 0;
    assert(a0.skip(0) =~= a0);
    while rest.len() > 0
        invariant
            0 <= k <= a0.len(),
            rest@ == a0.skip(k),
            out@.len() == k,
            forall|q: int| 0 <= q < k ==> sender_rewritten(#[trigger] out@[q], a0[q]),
            used == exists|q: int| 0 <= q < k && uses_sender(#[trigger] a0[q]),
        decreases rest@.len(),
    {
        let a = rest.remove(0);
        assert(a == a0[k]);
        let (a2, u) = rewrite_sender_expr(a);
        out.push(a2);
        used = used || u;
        proof {
            k = k + 1;
        }
        assert(rest@ =~= a0.skip(k));
    }
    (out, used)
}

/// Rewrites the `msg.sender` reads of a statement (see `sender_stmt_rewritten`).
#[verifier::rlimit(50)]
pub fn rewrite_sender_stmt(s: Stmt) -> (r: (Stmt, bool))
    ensures
        sender_stmt_rewritten(r.0, s),
        r.1 == stmt_uses_sender(s),
    decreases s,
{
    match s {
        Stmt::Require { cond, span } => {
            let (c, u) = rewrite_sender_expr(cond);
            (Stmt::Require { cond: c, span }, u)
        },
        Stmt::Assert { cond, span } => {
            let (c, u) = rewrite_sender_expr(cond);
            (Stmt::Assert { cond: c, span }, u)
        },
        Stmt::CallStmt { callee, args, span } => {
            let (a, u) = rewrite_sender_exprs(args);
            (Stmt::CallStmt { callee, args: a, span }, u)
        },
        Stmt::Assign { target, op, value, span } => {
            let (v, u) = rewrite_sender_expr(value);
            (Stmt::Assign { target, op, value: v, span }, u)
        },
        Stmt::IndexAssign { map, key, op, value, span } => {
            let (k, u1) = rewrite_sender_expr(key);
            let (v, u2) = rewrite_sender_expr(value);
            (Stmt::IndexAssign { map, key: k, op, value: v, span }, u1 || u2)
        },
        Stmt::IndexAssign2 { map, k1, k2, op, value, span } => {
            let (a, u1) = rewrite_sender_expr(k1);
            let (b, u2) = rewrite_sender_expr(k2);
            let (v, u3) = rewrite_sender_expr(value);
            (Stmt::IndexAssign2 { map, k1: a, k2: b, op, value: v, span }, u1 || u2 || u3)
        },
        Stmt::FieldAssign { obj, field, op, value, span } => {
            let (v, u) = rewrite_sender_expr(value);
            (Stmt::FieldAssign { obj, field, op, value: v, span }, u)
        },
        Stmt::LocalVar { name, ty, value, span } => {
            let (v, u) = rewrite_sender_expr(value);
            (Stmt::LocalVar { name, ty, value: v, span }, u)
        },
        Stmt::Return { value, span } => match value {
            Some(e) => {
                let (v, u) = rewrite_sender_expr(e);
                (Stmt::Return { value: Some(v), span }, u)
            },
            None => (Stmt::Return { value: None, span }, false),
        },
        Stmt::If { cond, then_body, else_body, span } => {
            let (c, u0) = rewrite_sender_expr(cond);
            let (t, u1) = rewrite_sender_block(then_body);
            let (e, u2) = rewrite_sender_block(else_body);
            (Stmt::If { cond: c, then_body: t, else_body: e, span }, u0 || u1 || u2)
        },
        Stmt::AirdropLoop { idx, len_array, body, span } => {
            let (b, u) = rewrite_sender_block(body);
            (Stmt::AirdropLoop { idx, len_array, body: b, span }, u)
        },
        other => (other, false),
    }
}

/// Rewrites the `msg.sender` reads of a statement list.
pub fn rewrite_sender_block(stmts: Vec<Stmt>) -> (r: (Vec<Stmt>, bool))
    ensures
        r.0@.len() == stmts@.len(),
        forall|q: int| 0 <= q < stmts@.len() ==> sender_stmt_rewritten(#[trigger] r.0@[q], stmts@[q]),
        r.1 == exists|q: int| 0 <= q < stmts@.len() && stmt_uses_sender(#[trigger] stmts@[q]),
    decreases stmts,
{
    let ghost g = stmts;
    let ghost a0 = stmts@;
    let mut rest = stmts;
    let mut out: Vec<Stmt> = Vec::new();
    let mut used = false;
    let ghost mut k: int = 0;
    assert(a0.skip(0) =~= a0);
    while rest.len() > 0
        invariant
            0 <= k <= a0.len(),
            rest@ == a0.skip(k),
            a0 == g@,
            g == stmts,
            out@.len() == k,
            forall|q: int| 0 <= q < k ==> sender_stmt_rewritten(#[trigger] out@[q], a0[q]),
            used == exists|q: int| 0 <= q < k && stmt_uses_sender(#[trigger] a0[q]),
        decreases rest@.len(),
    {
        let s = rest.remove(0);
        proof {
            assert(s == a0[k]);
            assert(decreases_to!(g => g@));
            assert(decreases_to!(g@ => g@[k]));
            assert(decreases_to!(g => s));
        }
        let (s2, u) = rewrite_sender_stmt(s);
        out.push(s2);
        used = used || u;
        proof {
            k = k + 1;
        }
        assert(rest@ =~= a0.skip(k));
    }
    (out, used)
}

/// The parameter `msg.sender` becomes: `address __fe_sender`, at `0..0`.
pub open spec fn is_sender_param(p: Param) -> bool {
    p.name@ == "__fe_sender"@ && p.span == (0usize..0usize) && match p.ty {
        TypeRef::Scalar { name, span } => name@ == "address"@ && span == (0usize..0usize),
        _ => false,
    }
}

fn sender_param() -> (p: Param)
    ensures
        is_sender_param(p),
{
    Param {
        name: String::from_str(SENDER_PARAM),
        ty: TypeRef::Scalar { name: String::from_str("address"), span: 0..0 },
        span: 0..0,
    }
}

/// The parameters after lowering: the sender parameter first when the body read
/// `msg.sender`, then the original ones.
pub open spec fn sender_params(o: Seq<Param>, i: Seq<Param>, used: bool) -> bool {
    if used {
        o.len() == i.len() + 1 && is_sender_param(o[0]) && o.skip(1) == i
    } else {
        o == i
    }
}

/// Replaces every `msg.sender` in the body with `__fe_sender`, and prepends that parameter
/// when the body read it.
pub fn lower_sender(f: &mut Function)
    ensures
        ({
            let used = exists|q: int| 0 <= q < old(f).body@.len() && stmt_uses_sender(#[trigger] old(f).body@[q]);
            &&& final(f).body@.len() == old(f).body@.len()
            &&& forall|q: int| 0 <= q < old(f).body@.len() ==> sender_stmt_rewritten(#[trigger] final(f).body@[q], old(f).body@[q])
            &&& sender_params(final(f).params@, old(f).params@, used)
            &&& final(f).name == old(f).name
            &&& final(f).ret == old(f).ret
            &&& final(f).visibility == old(f).visibility
            &&& final(f).mutability == old(f).mutability
            &&& final(f).modifiers == old(f).modifiers
            &&& final(f).bodiless == old(f).bodiless
            &&& final(f).span == old(f).span
        }),
{
    let mut body: Vec<Stmt> = Vec::new();
    std::mem::swap(&mut body, &mut f.body);
    let (b, used) = rewrite_sender_block(body);
    f.body = b;
    if used {
        let ghost p0 = f.params@;
        f.params.insert(0, sender_param());
        assert(f.params@.skip(1) =~= p0);
    }
}

/// `lower_sender` for a constructor body: the deployer parameter is prepended when the body
/// reads `msg.sender`.
pub fn lower_sender_ctor(c: &mut Constructor)
    ensures
        ({
            let used = exists|q: int| 0 <= q < old(c).body@.len() && stmt_uses_sender(#[trigger] old(c).body@[q]);
            &&& final(c).body@.len() == old(c).body@.len()
            &&& forall|q: int| 0 <= q < old(c).body@.len() ==> sender_stmt_rewritten(#[trigger] final(c).body@[q], old(c).body@[q])
            &&& sender_params(final(c).params@, old(c).params@, used)
            &&& final(c).base_calls == old(c).base_calls
            &&& final(c).span == old(c).span
        }),
{
    let mut body: Vec<Stmt> = Vec::new();
    std::mem::swap(&mut body, &mut c.body);
    let (b, used) = rewrite_sender_block(body);
    c.body = b;
    if used {
        let ghost p0 = c.params@;
        c.params.insert(0, sender_param());
        assert(c.params@.skip(1) =~= p0);
    }
}

/// After the rewrite no expression reads `msg.sender` any more.
pub proof fn lemma_sender_rewritten_clean(o: Expr, i: Expr)
    requires
        sender_rewritten(o, i),
    ensures
        !uses_sender(o),
    decreases i,
{
    match i {
        Expr::Member(b, m, _) => {
            if !is_msg_sender(*b, m@) {
                match o {
                    Expr::Member(b2, m2, _) => {
                        lemma_sender_rewritten_clean(*b2, *b);
                        assert(!is_msg_sender(*b2, m2@)) by {
                            reveal_with_fuel(sender_rewritten, 2);
                            reveal_strlit("__fe_sender");
                            reveal_strlit("msg");
                            match *b {
                                Expr::Member(bb, mm, _) => {
                                    if is_msg_sender(*bb, mm@) {
                                        assert(*b2 matches Expr::Var(n, _) && n@ == "__fe_sender"@);
                                        assert("__fe_sender"@.len() != "msg"@.len());
                                    } else {
                                        assert(*b2 is Member);
                                    }
                                },
                                Expr::Var(..) => {
                                    assert(*b2 == *b);
                                },
                                _ => {
                                    assert(!(*b2 is Var));
                                },
                            }
                        }
                    },
                    _ => {},
                }
            }
        },
        Expr::Index(b, k, _) => match o {
            Expr::Index(b2, k2, _) => {
                lemma_sender_rewritten_clean(*b2, *b);
                lemma_sender_rewritten_clean(*k2, *k);
            },
            _ => {},
        },
        Expr::Unary(_, x, _) => match o {
            Expr::Unary(_, x2, _) => lemma_sender_rewritten_clean(*x2, *x),
            _ => {},
        },
        Expr::Bin(_, l, r, _) => match o {
            Expr::Bin(_, l2, r2, _) => {
                lemma_sender_rewritten_clean(*l2, *l);
                lemma_sender_rewritten_clean(*r2, *r);
            },
            _ => {},
        },
        Expr::Call(c, args, _) => match o {
            Expr::Call(c2, a2, _) => {
                assert(decreases_to!(i => args));
                assert(decreases_to!(args => args@));
                lemma_sender_rewritten_clean(*c2, *c);
                assert forall|q: int| 0 <= q < a2@.len() implies !uses_sender(#[trigger] a2@[q]) by {
                    lemma_sender_rewritten_clean(a2@[q], args@[q]);
                }
            },
            _ => {},
        },
        _ => {},
    }
}

} // verus!
