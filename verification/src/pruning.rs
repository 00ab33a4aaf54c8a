//! The `_msgSender` purity check and the sweep of functions nothing calls: dead internal
//! helpers, `string` metadata getters and ERC165 `supportsInterface`.

use crate::codes;
use crate::diag::{copy_span, FrontendDiag};
use crate::emit::{listed, names_of};
use crate::parser::{Contract, Expr, Function, StateMutability, Stmt, TypeRef, Visibility};
use crate::preprocess::is_var_named;
use crate::text::{clone_string, string_eq_str};
use vstd::prelude::*;

verus! {

// ── Call sites ───────────────────────────────────────────────────────────────

/// The expression calls something through the plain name `n`.
pub open spec fn expr_calls(e: Expr, n: Seq<char>) -> bool
    decreases e,
{
    match e {
        Expr::Call(c, args, _) => {
            proof {
                assert(decreases_to!(e => args));
                assert(decreases_to!(args => args@));
            }
            is_var_named(*c, n) || expr_calls(*c, n) || exists|q: int| 0 <= q < args@.len() && expr_calls(#[trigger] args@[q], n)
        },
        Expr::Member(b, _, _) => expr_calls(*b, n),
        Expr::Index(b, k, _) => expr_calls(*b, n) || expr_calls(*k, n),
        Expr::Unary(_, x, _) => expr_calls(*x, n),
        Expr::Bin(_, l, r, _) => expr_calls(*l, n) || expr_calls(*r, n),
        _ => false,
    }
}

/// The statement holds a call site of `n`: a call statement of that callee, or a call
/// expression anywhere in it, nested blocks included.
pub open spec fn stmt_calls(s: Stmt, n: Seq<char>) -> bool
    decreases s,
{
    match s {
        Stmt::Require { cond, .. } => expr_calls(cond, n),
        Stmt::Assert { cond, .. } => expr_calls(cond, n),
        Stmt::Assign { value, .. } => expr_calls(value, n),
        Stmt::FieldAssign { value, .. } => expr_calls(value, n),
        Stmt::LocalVar { value, .. } => expr_calls(value, n),
        Stmt::IndexAssign { key, value, .. } => expr_calls(key, n) || expr_calls(value, n),
        Stmt::IndexAssign2 { k1, k2, value, .. } => expr_calls(k1, n) || expr_calls(k2, n) || expr_calls(value, n),
        Stmt::Return { value, .. } => match value {
            Some(v) => expr_calls(v, n),
            None => false,
        },
        Stmt::CallStmt { callee, args, .. } => callee@ == n || exists|q: int|
            0 <= q < args@.len() && expr_calls(#[trigger] args@[q], n),
        Stmt::If { cond, then_body, else_body, .. } => {
            proof {
                assert(decreases_to!(s => then_body));
                assert(decreases_to!(then_body => then_body@));
                assert(decreases_to!(s => else_body));
                assert(decreases_to!(else_body => else_body@));
            }
            expr_calls(cond, n) || (exists|q: int| 0 <= q < then_body@.len() && stmt_calls(#[trigger] then_body@[q], n))
                || (exists|q: int| 0 <= q < else_body@.len() && stmt_calls(#[trigger] else_body@[q], n))
        },
        Stmt::Unchecked { body, .. } => {
            proof {
                assert(decreases_to!(s => body));
                assert(decreases_to!(body => body@));
            }
            exists|q: int| 0 <= q < body@.len() && stmt_calls(#[trigger] body@[q], n)
        },
        Stmt::AirdropLoop { body, .. } => {
            proof {
                assert(decreases_to!(s => body));
                assert(decreases_to!(body => body@));
            }
            exists|q: int| 0 <= q < body@.len() && stmt_calls(#[trigger] body@[q], n)
        },
        Stmt::MapTransfer { from, to, amount, .. } => expr_calls(from, n) || expr_calls(to, n) || expr_calls(amount, n),
        Stmt::Erc20TransferFrom { from, spender, to, amount, .. } => expr_calls(from, n) || expr_calls(spender, n)
            || expr_calls(to, n) || expr_calls(amount, n),
        Stmt::MapSplitTransfer { from, amount, to, net, fee_to, fee, .. } => expr_calls(from, n) || expr_calls(amount, n)
            || expr_calls(to, n) || expr_calls(net, n) || expr_calls(fee_to, n) || expr_calls(fee, n),
        Stmt::ReservedBatch { transfer, writes, .. } => {
            proof {
                assert(decreases_to!(s => writes));
                assert(decreases_to!(writes => writes@));
            }
            (match transfer {
                Some(t) => stmt_calls(*t, n),
                None => false,
            }) || exists|q: int| 0 <= q < writes@.len() && stmt_calls(#[trigger] writes@[q], n)
        },
        Stmt::Erc20Update { from, to, value, .. } => expr_calls(from, n) || expr_calls(to, n) || expr_calls(value, n),
        Stmt::BatchTransfer { from, .. } => expr_calls(from, n),
        _ => false,
    }
}

/// Some statement of the list holds a call site of `n`.
pub open spec fn block_calls(ss: Seq<Stmt>, n: Seq<char>) -> bool {
    exists|q: int| 0 <= q < ss.len() && stmt_calls(#[trigger] ss[q], n)
}

/// `out` lists what `before` listed plus every name `calls` holds a call site of.
pub open spec fn collected(out: Seq<String>, before: Seq<String>, calls: spec_fn(Seq<char>) -> bool) -> bool {
    forall|n: Seq<char>| #[trigger] names_of(out).contains(n) <==> (names_of(before).contains(n) || calls(n))
}

proof fn lemma_names_of_push(v: Seq<String>, x: String)
    ensures
        names_of(v.push(x)) =~= names_of(v).push(x@),
{
}

fn add_name(out: &mut Vec<String>, x: &String)
    ensures
        forall|n: Seq<char>| #[trigger] names_of(final(out)@).contains(n) <==> (names_of(old(out)@).contains(n) || n == x@),
{
    let ghost before = out@;
    out.push(clone_string(x));
    proof {
        lemma_names_of_push(before, *x);
        assert forall|n: Seq<char>| #[trigger] names_of(out@).contains(n) <==> (names_of(before).contains(n) || n == x@) by {
            if names_of(before).contains(n) {
                let q = choose|q: int| 0 <= q < names_of(before).len() && names_of(before)[q] == n;
                assert(names_of(out@)[q] == n);
            }
            if n == x@ {
                assert(names_of(out@)[before.len() as int] == n);
            }
            if names_of(out@).contains(n) {
                let q = choose|q: int| 0 <= q < names_of(out@).len() && names_of(out@)[q] == n;
                if q < before.len() {
                    assert(names_of(before)[q] == n);
                }
            }
        }
    }
}

/// Adds the name of every call site of an expression to `out`.
pub fn collect_callees_expr(e: &Expr, out: &mut Vec<String>)
    ensures
        collected(final(out)@, old(out)@, |n: Seq<char>| expr_calls(*e, n)),
    decreases e,
{
    match e {
        Expr::Call(callee, args, _) => {
            let ghost o0 = out@;
            match &**callee {
                Expr::Var(n, _) => add_name(out, n),
                _ => {},
            }
            let ghost o1 = out@;
            collect_callees_expr(callee, out);
            let ghost o2 = out@;
            let mut k: usize = 0;
            while k < args.len()
                invariant
                    k <= args@.len(),
                    *e matches Expr::Call(_, ax, _) && ax == *args,
                    forall|n: Seq<char>| #[trigger] names_of(out@).contains(n) <==> (names_of(o2).contains(n) || exists|q: int|
                        0 <= q < k && expr_calls(#[trigger] args@[q], n)),
                decreases args@.len() - k,
            {
                proof {
                    assert(decreases_to!(*e => e->Call_1));
                    assert(decreases_to!(e->Call_1 => e->Call_1@));
                    assert(decreases_to!(e->Call_1@ => e->Call_1@[k as int]));
                }
                collect_callees_expr(&args[k], out);
                proof {
                    assert forall|n: Seq<char>| #[trigger] names_of(out@).contains(n) <==> (names_of(o2).contains(n)
                        || exists|q: int| 0 <= q < k + 1 && expr_calls(#[trigger] args@[q], n)) by {
                        if expr_calls(args@[k as int], n) {
                            assert(exists|q: int| 0 <= q < k + 1 && expr_calls(#[trigger] args@[q], n));
                        }
                        if exists|q: int| 0 <= q < k + 1 && expr_calls(#[trigger] args@[q], n) {
                            let q = choose|q: int| 0 <= q < k + 1 && expr_calls(#[trigger] args@[q], n);
                            if q < k {
                                assert(exists|q2: int| 0 <= q2 < k && expr_calls(#[trigger] args@[q2], n));
                            }
                        }
                    }
                }
                k = k + 1;
            }
            proof {
                assert forall|n: Seq<char>| #[trigger] names_of(out@).contains(n) <==> (names_of(o0).contains(n) || expr_calls(
                    *e,
                    n,
                )) by {
                    if exists|q: int| 0 <= q < args@.len() && expr_calls(#[trigger] args@[q], n) {
                        let q = choose|q: int| 0 <= q < args@.len() && expr_calls(#[trigger] args@[q], n);
                        assert(exists|q2: int| 0 <= q2 < k && expr_calls(#[trigger] args@[q2], n));
                    }
                }
            }
        },
        Expr::Member(b, _, _) => collect_callees_expr(b, out),
        Expr::Index(b, k, _) => {
            collect_callees_expr(b, out);
            collect_callees_expr(k, out);
        },
        Expr::Unary(_, x, _) => collect_callees_expr(x, out),
        Expr::Bin(_, l, r, _) => {
            collect_callees_expr(l, out);
            collect_callees_expr(r, out);
        },
        _ => {},
    }
}

/// Adds the name of every call site of a statement to `out`.
#[verifier::rlimit(50)]
pub fn collect_callees_stmt(s: &Stmt, out: &mut Vec<String>)
    ensures
        forall|n: Seq<char>| #[trigger] names_of(final(out)@).contains(n) <==> (names_of(old(out)@).contains(n) || stmt_calls(*s, n)),
    decreases s,
{
    let ghost o0 = out@;
    match s {
        Stmt::Require { cond, .. } => collect_callees_expr(cond, out),
        Stmt::Assert { cond, .. } => collect_callees_expr(cond, out),
        Stmt::Assign { value, .. } => collect_callees_expr(value, out),
        Stmt::FieldAssign { value, .. } => collect_callees_expr(value, out),
        Stmt::LocalVar { value, .. } => collect_callees_expr(value, out),
        Stmt::IndexAssign { key, value, .. } => {
            collect_callees_expr(key, out);
            collect_callees_expr(value, out);
        },
        Stmt::IndexAssign2 { k1, k2, value, .. } => {
            collect_callees_expr(k1, out);
            collect_callees_expr(k2, out);
            collect_callees_expr(value, out);
        },
        Stmt::Return { value, .. } => match value {
            Some(v) => collect_callees_expr(v, out),
            None => {},
        },
        Stmt::CallStmt { callee, args, .. } => {
            add_name(out, callee);
            collect_callees_exprs(args, out);
        },
        Stmt::If { cond, then_body, else_body, .. } => {
            collect_callees_expr(cond, out);
            proof {
                assert(decreases_to!(*s => s->If_then_body));
                assert(decreases_to!(*s => s->If_else_body));
            }
            collect_callees_stmts(then_body, out);
            collect_callees_stmts(else_body, out);
        },
        Stmt::Unchecked { body, .. } => {
            proof {
                assert(decreases_to!(*s => s->Unchecked_body));
            }
            collect_callees_stmts(body, out);
        },
        Stmt::AirdropLoop { body, .. } => {
            proof {
                assert(decreases_to!(*s => s->AirdropLoop_body));
            }
            collect_callees_stmts(body, out);
        },
        Stmt::MapTransfer { from, to, amount, .. } => {
            collect_callees_expr(from, out);
            collect_callees_expr(to, out);
            collect_callees_expr(amount, out);
        },
        Stmt::Erc20TransferFrom { from, spender, to, amount, .. } => {
            collect_callees_expr(from, out);
            collect_callees_expr(spender, out);
            collect_callees_expr(to, out);
            collect_callees_expr(amount, out);
        },
        Stmt::MapSplitTransfer { from, amount, to, net, fee_to, fee, .. } => {
            collect_callees_expr(from, out);
            collect_callees_expr(amount, out);
            collect_callees_expr(to, out);
            collect_callees_expr(net, out);
            collect_callees_expr(fee_to, out);
            collect_callees_expr(fee, out);
        },
        Stmt::ReservedBatch { transfer, writes, .. } => {
            match transfer {
                Some(t) => {
                    proof {
                        assert(decreases_to!(*s => s->ReservedBatch_transfer));
                        assert(decreases_to!(s->ReservedBatch_transfer => s->ReservedBatch_transfer->Some_0));
                    }
                    collect_callees_stmt(t, out);
                },
                None => {},
            }
            proof {
                assert(decreases_to!(*s => s->ReservedBatch_writes));
            }
            collect_callees_stmts(writes, out);
        },
        Stmt::Erc20Update { from, to, value, .. } => {
            collect_callees_expr(from, out);
            collect_callees_expr(to, out);
            collect_callees_expr(value, out);
        },
        Stmt::BatchTransfer { from, .. } => collect_callees_expr(from, out),
        _ => {},
    }
}

fn collect_callees_exprs(args: &Vec<Expr>, out: &mut Vec<String>)
    ensures
        forall|n: Seq<char>| #[trigger] names_of(final(out)@).contains(n) <==> (names_of(old(out)@).contains(n) || exists|q: int|
            0 <= q < args@.len() && expr_calls(#[trigger] args@[q], n)),
{
    let ghost o0 = out@;
    let mut k: usize = 0;
    while k < args.len()
        invariant
            k <= args@.len(),
            forall|n: Seq<char>| #[trigger] names_of(out@).contains(n) <==> (names_of(o0).contains(n) || exists|q: int|
                0 <= q < k && expr_calls(#[trigger] args@[q], n)),
        decreases args@.len() - k,
    {
        collect_callees_expr(&args[k], out);
        proof {
            assert forall|n: Seq<char>| #[trigger] names_of(out@).contains(n) <==> (names_of(o0).contains(n) || exists|q: int|
                0 <= q < k + 1 && expr_calls(#[trigger] args@[q], n)) by {
                if expr_calls(args@[k as int], n) {
                    assert(exists|q: int| 0 <= q < k + 1 && expr_calls(#[trigger] args@[q], n));
                }
                if exists|q: int| 0 <= q < k + 1 && expr_calls(#[trigger] args@[q], n) {
                    let q = choose|q: int| 0 <= q < k + 1 && expr_calls(#[trigger] args@[q], n);
                    if q < k {
                        assert(exists|q2: int| 0 <= q2 < k && expr_calls(#[trigger] args@[q2], n));
                    }
                }
            }
        }
        k = k + 1;
    }
}

/// Adds the name of every call site of a statement list to `out`.
pub fn collect_callees_stmts(stmts: &Vec<Stmt>, out: &mut Vec<String>)
    ensures
        forall|n: Seq<char>| #[trigger] names_of(final(out)@).contains(n) <==> (names_of(old(out)@).contains(n) || block_calls(stmts@, n)),
    decreases stmts,
{
    let ghost o0 = out@;
    let mut k: usize = 0;
    while k < stmts.len()
        invariant
            k <= stmts@.len(),
            forall|n: Seq<char>| #[trigger] names_of(out@).contains(n) <==> (names_of(o0).contains(n) || exists|q: int|
                0 <= q < k && stmt_calls(#[trigger] stmts@[q], n)),
        decreases stmts@.len() - k,
    {
        proof {
            assert(decreases_to!(stmts => stmts@));
            assert(decreases_to!(stmts@ => stmts@[k as int]));
        }
        collect_callees_stmt(&stmts[k], out);
        proof {
            assert forall|n: Seq<char>| #[trigger] names_of(out@).contains(n) <==> (names_of(o0).contains(n) || exists|q: int|
                0 <= q < k + 1 && stmt_calls(#[trigger] stmts@[q], n)) by {
                if stmt_calls(stmts@[k as int], n) {
                    assert(exists|q: int| 0 <= q < k + 1 && stmt_calls(#[trigger] stmts@[q], n));
                }
                if exists|q: int| 0 <= q < k + 1 && stmt_calls(#[trigger] stmts@[q], n) {
                    let q = choose|q: int| 0 <= q < k + 1 && stmt_calls(#[trigger] stmts@[q], n);
                    if q < k {
                        assert(exists|q2: int| 0 <= q2 < k && stmt_calls(#[trigger] stmts@[q2], n));
                    }
                }
            }
        }
        k = k + 1;
    }
}

// ── The sweep ────────────────────────────────────────────────────────────────

/// `t` is the scalar type named `n`.
pub open spec fn is_scalar_named(t: TypeRef, n: Seq<char>) -> bool {
    match t {
        TypeRef::Scalar { name, .. } => name@ == n,
        _ => false,
    }
}

/// The `name()` / `symbol()` shape: public, returns `string`, body exactly `return <name>;`.
pub open spec fn is_metadata_getter(f: Function) -> bool {
    &&& f.visibility == Visibility::Public
    &&& (match f.ret {
        Some(t) => is_scalar_named(t, "string"@),
        None => false,
    })
    &&& f.body@.len() == 1
    &&& match f.body@[0] {
        Stmt::Return { value: Some(v), .. } => v is Var,
        _ => false,
    }
}

/// The ERC165 introspection shape: public or external, `view` or `pure`, named
/// `supportsInterface`, one `bytes4` parameter, returns `bool`.
pub open spec fn is_supports_interface(f: Function) -> bool {
    &&& f.name@ == "supportsInterface"@
    &&& (f.visibility == Visibility::Public || f.visibility == Visibility::External)
    &&& (f.mutability == StateMutability::View || f.mutability == StateMutability::Pure)
    &&& (match f.ret {
        Some(t) => is_scalar_named(t, "bool"@),
        None => false,
    })
    &&& f.params@.len() == 1
    &&& is_scalar_named(f.params@[0].ty, "bytes4"@)
}

/// Some function or the constructor of the contract holds a call site of `n`.
pub open spec fn contract_calls(c: Contract, n: Seq<char>) -> bool {
    ||| exists|j: int| 0 <= j < c.functions@.len() && block_calls(#[trigger] c.functions@[j].body@, n)
    ||| (c.constructor matches Some(k) && block_calls(k.body@, n))
}

/// A function survives the sweep: it is neither a metadata getter nor `supportsInterface`,
/// and if it is internal or private, the contract calls it.
pub open spec fn kept(f: Function, c: Contract) -> bool {
    &&& !is_metadata_getter(f)
    &&& !is_supports_interface(f)
    &&& !((f.visibility == Visibility::Internal || f.visibility == Visibility::Private) && !contract_calls(c, f.name@))
}

/// The functions of `fns` that survive the sweep of `c`, in order.
pub open spec fn kept_fns(fns: Seq<Function>, c: Contract) -> Seq<Function>
    decreases fns.len(),
{
    if fns.len() == 0 {
        Seq::empty()
    } else {
        let pre = kept_fns(fns.drop_last(), c);
        if kept(fns.last(), c) {
            pre.push(fns.last())
        } else {
            pre
        }
    }
}

fn scalar_named(t: &TypeRef, n: &str) -> (r: bool)
    ensures
        r == is_scalar_named(*t, n@),
{
    match t {
        TypeRef::Scalar { name, .. } => string_eq_str(name, n),
        _ => false,
    }
}

pub fn is_metadata_string_getter(f: &Function) -> (r: bool)
    ensures
        r == is_metadata_getter(*f),
{
    let public = match f.visibility {
        Visibility::Public => true,
        _ => false,
    };
    let ret = match &f.ret {
        Some(t) => scalar_named(t, "string"),
        None => false,
    };
    public && ret && f.body.len() == 1 && match &f.body[0] {
        Stmt::Return { value: Some(v), .. } => match v {
            Expr::Var(..) => true,
            _ => false,
        },
        _ => false,
    }
}

pub fn is_erc165_supports_interface(f: &Function) -> (r: bool)
    ensures
        r == is_supports_interface(*f),
{
    let vis = match f.visibility {
        Visibility::Public => true,
        Visibility::External => true,
        _ => false,
    };
    let mt = match f.mutability {
        StateMutability::View => true,
        StateMutability::Pure => true,
        _ => false,
    };
    let ret = match &f.ret {
        Some(t) => scalar_named(t, "bool"),
        None => false,
    };
    string_eq_str(&f.name, "supportsInterface") && vis && mt && ret && f.params.len() == 1 && scalar_named(
        &f.params[0].ty,
        "bytes4",
    )
}

/// Drops every metadata getter, every `supportsInterface` and every internal or private
/// function that no function or constructor body calls; the survivors keep their order
/// and nothing else changes.
pub fn prune_functions(c: &mut Contract)
    ensures
        final(c).functions@ == kept_fns(old(c).functions@, *old(c)),
        final(c).name == old(c).name && final(c).kind == old(c).kind && final(c).bases == old(c).bases,
        final(c).structs == old(c).structs && final(c).state == old(c).state && final(c).enums == old(c).enums,
        final(c).span == old(c).span && final(c).constructor == old(c).constructor,
        final(c).modifiers == old(c).modifiers,
{
    let ghost c0 = *c;
    let mut called: Vec<String> = Vec::new();
    let mut k: usize = 0;
    while k < c.functions.len()
        invariant
            k <= c.functions@.len(),
            *c == c0,
            forall|n: Seq<char>| #[trigger] names_of(called@).contains(n) <==> exists|j: int|
                0 <= j < k && block_calls(#[trigger] c0.functions@[j].body@, n),
        decreases c.functions@.len() - k,
    {
        let ghost o = called@;
        collect_callees_stmts(&c.functions[k].body, &mut called);
        proof {
            assert forall|n: Seq<char>| #[trigger] names_of(called@).contains(n) <==> exists|j: int|
                0 <= j < k + 1 && block_calls(#[trigger] c0.functions@[j].body@, n) by {
                if block_calls(c0.functions@[k as int].body@, n) {
                    assert(exists|j: int| 0 <= j < k + 1 && block_calls(#[trigger] c0.functions@[j].body@, n));
                }
                if exists|j: int| 0 <= j < k + 1 && block_calls(#[trigger] c0.functions@[j].body@, n) {
                    let j = choose|j: int| 0 <= j < k + 1 && block_calls(#[trigger] c0.functions@[j].body@, n);
                    if j < k {
                        assert(exists|j2: int| 0 <= j2 < k && block_calls(#[trigger] c0.functions@[j2].body@, n));
                    }
                }
            }
        }
        k = k + 1;
    }
    match &c.constructor {
        Some(ctor) => collect_callees_stmts(&ctor.body, &mut called),
        None => {},
    }
    assert(forall|n: Seq<char>| #[trigger] names_of(called@).contains(n) <==> contract_calls(c0, n));
    let mut fns: Vec<Function> = Vec::new();
    std::mem::swap(&mut fns, &mut c.functions);
    let ghost orig = fns@;
    let mut out: Vec<Function> = Vec::new();
    let ghost mut j: int = 0;
    assert(orig.take(0) =~= Seq::<Function>::empty());
    while fns.len() > 0
        invariant
            0 <= j <= orig.len(),
            fns@ == orig.skip(j),
            orig == c0.functions@,
            forall|n: Seq<char>| #[trigger] names_of(called@).contains(n) <==> contract_calls(c0, n),
            out@ == kept_fns(orig.take(j), c0),
        decreases fns@.len(),
    {
        let f = fns.remove(0);
        proof {
            assert(f == orig[j]);
            assert(orig.take(j + 1).drop_last() =~= orig.take(j));
            assert(orig.take(j + 1).last() == f);
        }
        let internal = match f.visibility {
            Visibility::Internal => true,
            Visibility::Private => true,
            _ => false,
        };
        let dead = internal && !listed(&called, f.name.as_str());
        if !is_metadata_string_getter(&f) && !is_erc165_supports_interface(&f) && !dead {
            out.push(f);
        }
        proof {
            j = j + 1;
        }
        assert(fns@ =~= orig.skip(j));
    }
    assert(orig.take(j) =~= orig);
    c.functions = out;
}

// ── `_msgSender` ─────────────────────────────────────────────────────────────

/// The pure context shim: no parameters, no modifiers, body exactly `return msg.sender;`.
pub open spec fn is_sender_shim(f: Function) -> bool {
    &&& f.params@.len() == 0
    &&& f.modifiers@.len() == 0
    &&& f.body@.len() == 1
    &&& match f.body@[0] {
        Stmt::Return { value: Some(Expr::Member(b, m, _)), .. } => is_var_named(*b, "msg"@) && m@ == "sender"@,
        _ => false,
    }
}

/// A function named `_msgSender` that is not the pure shim.
pub open spec fn impure_sender(f: Function) -> bool {
    f.name@ == "_msgSender"@ && !is_sender_shim(f)
}

/// The index of the first function from `k` on that is an impure `_msgSender`.
pub open spec fn first_impure_sender(fns: Seq<Function>, k: int) -> Option<int>
    decreases fns.len() - k,
{
    if k < 0 || k >= fns.len() {
        None
    } else if impure_sender(fns[k]) {
        Some(k)
    } else {
        first_impure_sender(fns, k + 1)
    }
}

fn sender_shim(f: &Function) -> (r: bool)
    ensures
        r == is_sender_shim(*f),
{
    f.params.len() == 0 && f.modifiers.len() == 0 && f.body.len() == 1 && match &f.body[0] {
        Stmt::Return { value: Some(Expr::Member(b, m, _)), .. } => match &**b {
            Expr::Var(n, _) => string_eq_str(n, "msg") && string_eq_str(m, "sender"),
            _ => false,
        },
        _ => false,
    }
}

/// Every function named `_msgSender` must be the pure `return msg.sender;` shim (no
/// parameters, no modifiers); the first one that is not is refused with FE481 at its span.
pub fn reject_impure_msgsender(c: &Contract) -> (r: Result<(), FrontendDiag>)
    ensures
        match first_impure_sender(c.functions@, 0) {
            None => r is Ok,
            Some(j) => r matches Err(d) && d.code == codes::FE481_EMIT_ARG_EFFECTFUL_SOL && d.span == c.functions@[j].span,
        },
{
    let mut k: usize = 0;
    while k < c.functions.len()
        invariant
            k <= c.functions@.len(),
            first_impure_sender(c.functions@, 0) == first_impure_sender(c.functions@, k as int),
        decreases c.functions@.len() - k,
    {
        let f = &c.functions[k];
        if string_eq_str(&f.name, "_msgSender") && !sender_shim(f) {
            return Err(
                FrontendDiag::new(
                    codes::FE481_EMIT_ARG_EFFECTFUL_SOL,
                    "`_msgSender` must be exactly a parameter- and modifier-less `return msg.sender;`",
                    copy_span(&f.span),
                ),
            );
        }
        k = k + 1;
    }
    Ok(())
}

/// The sweep drops no function that could still be reached: one that is neither a metadata
/// getter nor `supportsInterface`, and is public, external or default, or called somewhere,
/// survives.
pub proof fn lemma_prune_keeps_reachable(fns: Seq<Function>, c: Contract, j: int)
    requires
        0 <= j < fns.len(),
        !is_metadata_getter(fns[j]),
        !is_supports_interface(fns[j]),
        !(fns[j].visibility == Visibility::Internal || fns[j].visibility == Visibility::Private) || contract_calls(
            c,
            fns[j].name@,
        ),
    ensures
        kept_fns(fns, c).contains(fns[j]),
    decreases fns.len(),
{
    if j == fns.len() - 1 {
        let pre = kept_fns(fns.drop_last(), c);
        assert(pre.push(fns[j])[pre.len() as int] == fns[j]);
    } else {
        lemma_prune_keeps_reachable(fns.drop_last(), c, j);
        assert(fns.drop_last()[j] == fns[j]);
        let pre = kept_fns(fns.drop_last(), c);
        if kept(fns.last(), c) {
            let q = choose|q: int| 0 <= q < pre.len() && pre[q] == fns[j];
            assert(pre.push(fns.last())[q] == fns[j]);
        }
    }
}

/// Every survivor of the sweep is a function of the input that `kept` admits.
pub proof fn lemma_prune_survivors_kept(fns: Seq<Function>, c: Contract, g: Function)
    requires
        kept_fns(fns, c).contains(g),
    ensures
        fns.contains(g),
        kept(g, c),
    decreases fns.len(),
{
    if fns.len() > 0 {
        let pre = kept_fns(fns.drop_last(), c);
        if pre.contains(g) {
            lemma_prune_survivors_kept(fns.drop_last(), c, g);
            let q = choose|q: int| 0 <= q < fns.drop_last().len() && fns.drop_last()[q] == g;
            assert(fns[q] == g);
        } else {
            let q = choose|q: int| 0 <= q < kept_fns(fns, c).len() && kept_fns(fns, c)[q] == g;
            assert(q == pre.len());
            assert(fns[fns.len() - 1] == g);
        }
    }
}

} // verus!
