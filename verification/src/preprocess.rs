//! Early normalizations: `unchecked { … }` blocks are spliced into the enclosing list (their
//! top-level locals renamed apart first, so erasing the block boundary neither leaks a
//! binding nor shadows a state field).

use crate::inlining::{rename_body, same_header, stmt_renamed, stmts_renamed};
use crate::check::{lemma_pow2_pos, pow2_digits, texts_view};
use crate::decimal::{dec_bytes, pow_nat};
use crate::parser::{Contract, Expr, Function, Modifier, Stmt};
use crate::text::{ascii_chars, ascii_string, clone_string, concat_str, dec_chars, string_eq_str, usize_decimal};
use vstd::prelude::*;

verus! {

/// The names of the locals a block declares at its top level, in order.
pub open spec fn top_local_names(body: Seq<Stmt>) -> Seq<Seq<char>>
    decreases body.len(),
{
    if body.len() == 0 {
        Seq::empty()
    } else {
        let pre = top_local_names(body.drop_last());
        match body.last() {
            Stmt::LocalVar { name, .. } => pre.push(name@),
            _ => pre,
        }
    }
}

/// The prefix of the `n`-th renamed block: `__fe_unchk{n}_`.
pub open spec fn unchk_prefix(n: nat) -> Seq<char> {
    "__fe_unchk"@ + dec_chars(n) + "_"@
}

/// The size of a block as the splice walks it: one per statement plus the sizes of the
/// blocks an `if`, an `unchecked` block or an airdrop loop holds.
pub open spec fn usize_of(ss: Seq<Stmt>) -> nat
    decreases ss,
{
    if ss.len() == 0 {
        0
    } else {
        usize_of(ss.drop_last()) + stmt_usize(ss.last())
    }
}

pub open spec fn stmt_usize(s: Stmt) -> nat
    decreases s,
{
    match s {
        Stmt::If { then_body, else_body, .. } => {
            proof {
                assert(decreases_to!(s => then_body));
                assert(decreases_to!(then_body => then_body@));
                assert(decreases_to!(s => else_body));
                assert(decreases_to!(else_body => else_body@));
            }
            1 + usize_of(then_body@) + usize_of(else_body@)
        },
        Stmt::Unchecked { body, .. } => {
            proof {
                assert(decreases_to!(s => body));
                assert(decreases_to!(body => body@));
            }
            1 + usize_of(body@)
        },
        Stmt::AirdropLoop { body, .. } => {
            proof {
                assert(decreases_to!(s => body));
                assert(decreases_to!(body => body@));
            }
            1 + usize_of(body@)
        },
        _ => 1,
    }
}

/// Every statement weighs at least one.
pub proof fn lemma_stmt_usize_pos(s: Stmt)
    ensures
        stmt_usize(s) >= 1,
{
}

/// How many renamed blocks the splice of a block numbers (those with top-level locals).
pub open spec fn ucount(ss: Seq<Stmt>) -> nat
    decreases ss,
{
    if ss.len() == 0 {
        0
    } else {
        ucount(ss.drop_last()) + stmt_ucount(ss.last())
    }
}

pub open spec fn stmt_ucount(s: Stmt) -> nat
    decreases s,
{
    match s {
        Stmt::If { then_body, else_body, .. } => {
            proof {
                assert(decreases_to!(s => then_body));
                assert(decreases_to!(then_body => then_body@));
                assert(decreases_to!(s => else_body));
                assert(decreases_to!(else_body => else_body@));
            }
            ucount(then_body@) + ucount(else_body@)
        },
        Stmt::Unchecked { body, .. } => {
            proof {
                assert(decreases_to!(s => body));
                assert(decreases_to!(body => body@));
            }
            (if top_local_names(body@).len() > 0 {
                1nat
            } else {
                0nat
            }) + ucount(body@)
        },
        Stmt::AirdropLoop { body, .. } => {
            proof {
                assert(decreases_to!(s => body));
                assert(decreases_to!(body => body@));
            }
            ucount(body@)
        },
        _ => 0,
    }
}

/// How many statements the splice of a block gives.
pub open spec fn ulen(ss: Seq<Stmt>) -> nat
    decreases ss,
{
    if ss.len() == 0 {
        0
    } else {
        ulen(ss.drop_last()) + stmt_ulen(ss.last())
    }
}

pub open spec fn stmt_ulen(s: Stmt) -> nat
    decreases s,
{
    match s {
        Stmt::Unchecked { body, .. } => {
            proof {
                assert(decreases_to!(s => body));
                assert(decreases_to!(body => body@));
            }
            ulen(body@)
        },
        _ => 1,
    }
}

/// `o` is the block `i` with every `unchecked` block spliced in place (its body first
/// renamed apart when it declares top-level locals, those renamed blocks numbered from `n`
/// in order), descending into `if` branches and airdrop loop bodies.
pub open spec fn unwrapped(o: Seq<Stmt>, i: Seq<Stmt>, n: nat) -> bool
    decreases usize_of(i), 1nat,
{
    if i.len() == 0 {
        o.len() == 0
    } else {
        proof {
            lemma_stmt_usize_pos(i.last());
        }
        let l = ulen(i.drop_last());
        &&& o.len() == l + stmt_ulen(i.last())
        &&& unwrapped(o.take(l as int), i.drop_last(), n)
        &&& stmt_unwrapped(o.skip(l as int), i.last(), n + ucount(i.drop_last()))
    }
}

pub open spec fn stmt_unwrapped(o: Seq<Stmt>, s: Stmt, n: nat) -> bool
    decreases stmt_usize(s), 0nat,
{
    match s {
        Stmt::Unchecked { body, .. } => {
            let names = top_local_names(body@);
            if names.len() == 0 {
                unwrapped(o, body@, n)
            } else {
                exists|b2: Seq<Stmt>| #[trigger] stmts_renamed(b2, body@, names, unchk_prefix(n)) && usize_of(b2) == usize_of(body@)
                    && unwrapped(o, b2, n + 1)
            }
        },
        Stmt::If { cond, then_body, else_body, span } => o.len() == 1 && match o[0] {
            Stmt::If { cond: c2, then_body: t2, else_body: e2, span: s2 } => c2 == cond && s2 == span && unwrapped(
                t2@,
                then_body@,
                n,
            ) && unwrapped(e2@, else_body@, n + ucount(then_body@)),
            _ => false,
        },
        Stmt::AirdropLoop { idx, len_array, body, span } => o.len() == 1 && match o[0] {
            Stmt::AirdropLoop { idx: i2, len_array: l2, body: b2, span: s2 } => i2 == idx && l2 == len_array && s2 == span
                && unwrapped(b2@, body@, n),
            _ => false,
        },
        _ => o == seq![s],
    }
}

/// The statement holds no `unchecked` block, in `if` branches and loop bodies neither.
pub open spec fn stmt_no_unchecked(s: Stmt) -> bool
    decreases s,
{
    match s {
        Stmt::Unchecked { .. } => false,
        Stmt::If { then_body, else_body, .. } => {
            proof {
                assert(decreases_to!(s => then_body));
                assert(decreases_to!(then_body => then_body@));
                assert(decreases_to!(s => else_body));
                assert(decreases_to!(else_body => else_body@));
            }
            (forall|q: int| 0 <= q < then_body@.len() ==> stmt_no_unchecked(#[trigger] then_body@[q])) && (forall|q: int|
                0 <= q < else_body@.len() ==> stmt_no_unchecked(#[trigger] else_body@[q]))
        },
        Stmt::AirdropLoop { body, .. } => {
            proof {
                assert(decreases_to!(s => body));
                assert(decreases_to!(body => body@));
            }
            forall|q: int| 0 <= q < body@.len() ==> stmt_no_unchecked(#[trigger] body@[q])
        },
        _ => true,
    }
}

/// After the splice no `unchecked` block is left anywhere in the block.
pub proof fn lemma_unwrapped_clean(o: Seq<Stmt>, i: Seq<Stmt>, n: nat)
    requires
        unwrapped(o, i, n),
    ensures
        forall|q: int| 0 <= q < o.len() ==> stmt_no_unchecked(#[trigger] o[q]),
    decreases usize_of(i), 1nat,
{
    if i.len() > 0 {
        lemma_stmt_usize_pos(i.last());
        let l = ulen(i.drop_last());
        lemma_unwrapped_clean(o.take(l as int), i.drop_last(), n);
        lemma_stmt_unwrapped_clean(o.skip(l as int), i.last(), n + ucount(i.drop_last()));
        assert forall|q: int| 0 <= q < o.len() implies stmt_no_unchecked(#[trigger] o[q]) by {
            if q < l {
                assert(o.take(l as int)[q] == o[q]);
            } else {
                assert(o.skip(l as int)[q - l] == o[q]);
            }
        }
    }
}

proof fn lemma_stmt_unwrapped_clean(o: Seq<Stmt>, s: Stmt, n: nat)
    requires
        stmt_unwrapped(o, s, n),
    ensures
        forall|q: int| 0 <= q < o.len() ==> stmt_no_unchecked(#[trigger] o[q]),
    decreases stmt_usize(s), 0nat,
{
    match s {
        Stmt::Unchecked { body, .. } => {
            let names = top_local_names(body@);
            if names.len() == 0 {
                lemma_unwrapped_clean(o, body@, n);
            } else {
                let b2 = choose|b2: Seq<Stmt>| #[trigger] stmts_renamed(b2, body@, names, unchk_prefix(n)) && usize_of(b2)
                    == usize_of(body@) && unwrapped(o, b2, n + 1);
                lemma_unwrapped_clean(o, b2, n + 1);
            }
        },
        Stmt::If { then_body, else_body, .. } => match o[0] {
            Stmt::If { then_body: t2, else_body: e2, .. } => {
                lemma_unwrapped_clean(t2@, then_body@, n);
                lemma_unwrapped_clean(e2@, else_body@, n + ucount(then_body@));
            },
            _ => {},
        },
        Stmt::AirdropLoop { body, .. } => match o[0] {
            Stmt::AirdropLoop { body: b2, .. } => {
                lemma_unwrapped_clean(b2@, body@, n);
            },
            _ => {},
        },
        _ => {},
    }
}

/// Renaming keeps the shape the splice measures: weights, numbered blocks, spliced
/// lengths and the count of top-level locals.
pub proof fn lemma_renamed_measures(o: Seq<Stmt>, i: Seq<Stmt>, names: Seq<Seq<char>>, prefix: Seq<char>)
    requires
        stmts_renamed(o, i, names, prefix),
    ensures
        usize_of(o) == usize_of(i),
        ucount(o) == ucount(i),
        ulen(o) == ulen(i),
        top_local_names(o).len() == top_local_names(i).len(),
    decreases usize_of(i), 1nat,
{
    if i.len() > 0 {
        lemma_stmt_usize_pos(i.last());
        assert forall|k: int| 0 <= k < i.drop_last().len() implies stmt_renamed(
            #[trigger] o.drop_last()[k],
            i.drop_last()[k],
            names,
            prefix,
        ) by {
            assert(o.drop_last()[k] == o[k]);
            assert(i.drop_last()[k] == i[k]);
        }
        lemma_renamed_measures(o.drop_last(), i.drop_last(), names, prefix);
        assert(stmt_renamed(o[o.len() - 1], i[i.len() - 1], names, prefix));
        lemma_stmt_renamed_measures(o.last(), i.last(), names, prefix);
    }
}

pub proof fn lemma_stmt_renamed_measures(o: Stmt, s: Stmt, names: Seq<Seq<char>>, prefix: Seq<char>)
    requires
        stmt_renamed(o, s, names, prefix),
    ensures
        stmt_usize(o) == stmt_usize(s),
        stmt_ucount(o) == stmt_ucount(s),
        stmt_ulen(o) == stmt_ulen(s),
        (o is LocalVar) == (s is LocalVar),
    decreases stmt_usize(s), 0nat,
{
    match s {
        Stmt::If { then_body, else_body, .. } => match o {
            Stmt::If { then_body: t2, else_body: e2, .. } => {
                lemma_renamed_measures(t2@, then_body@, names, prefix);
                lemma_renamed_measures(e2@, else_body@, names, prefix);
            },
            _ => {},
        },
        Stmt::Unchecked { body, .. } => match o {
            Stmt::Unchecked { body: b2, .. } => {
                lemma_renamed_measures(b2@, body@, names, prefix);
            },
            _ => {},
        },
        Stmt::AirdropLoop { body, .. } => match o {
            Stmt::AirdropLoop { body: b2, .. } => {
                lemma_renamed_measures(b2@, body@, names, prefix);
            },
            _ => {},
        },
        _ => {},
    }
}

/// A statement's weight is at most its block's.
pub proof fn lemma_usize_elem(ss: Seq<Stmt>, k: int)
    requires
        0 <= k < ss.len(),
    ensures
        stmt_usize(ss[k]) <= usize_of(ss),
    decreases ss.len(),
{
    if k < ss.len() - 1 {
        lemma_usize_elem(ss.drop_last(), k);
        assert(ss.drop_last()[k] == ss[k]);
    }
}

/// A prefix numbers no more blocks than the whole.
pub proof fn lemma_ucount_prefix(ss: Seq<Stmt>, j: int)
    requires
        0 <= j <= ss.len(),
    ensures
        ucount(ss.take(j)) <= ucount(ss),
    decreases ss.len(),
{
    if j == ss.len() {
        assert(ss.take(j) =~= ss);
    } else {
        lemma_ucount_prefix(ss.drop_last(), j);
        assert(ss.drop_last().take(j) =~= ss.take(j));
    }
}

/// The names of the locals `body` declares at its top level.
fn top_locals(body: &Vec<Stmt>) -> (r: Vec<String>)
    ensures
        texts_view(r@) == top_local_names(body@),
{
    let mut out: Vec<String> = Vec::new();
    let mut k: usize = 0;
    assert(body@.take(0) =~= Seq::<Stmt>::empty());
    while k < body.len()
        invariant
            k <= body@.len(),
            texts_view(out@) == top_local_names(body@.take(k as int)),
        decreases body@.len() - k,
    {
        proof {
            assert(body@.take(k + 1).drop_last() =~= body@.take(k as int));
            assert(body@.take(k + 1).last() == body@[k as int]);
        }
        let ghost before = out@;
        match &body[k] {
            Stmt::LocalVar { name, .. } => {
                out.push(clone_string(name));
                proof {
                    assert(texts_view(out@) =~= texts_view(before).push(name@));
                }
            },
            _ => {},
        }
        k = k + 1;
    }
    assert(body@.take(k as int) =~= body@);
    out
}

/// The prefix of the `n`-th renamed block.
fn unchk_prefix_of(n: usize) -> (r: String)
    ensures
        r@ == unchk_prefix(n as nat),
{
    let head = "__fe_unchk";
    let tail = "_";
    proof {
        reveal_strlit("__fe_unchk");
        reveal_strlit("_");
    }
    let mut p = String::new();
    p = concat_str(p, head);
    let d = usize_decimal(n);
    p = concat_str(p, d.as_str());
    p = concat_str(p, tail);
    proof {
        assert(p@ =~= unchk_prefix(n as nat));
    }
    p
}

/// One statement of a block, spliced: an `unchecked` block gives its (renamed, then
/// recursively spliced) statements, an `if` its branches spliced, anything else itself.
fn unwrap_stmt(s: Stmt, counter: &mut usize) -> (r: Vec<Stmt>)
    requires
        *old(counter) + stmt_ucount(s) <= usize::MAX,
    ensures
        stmt_unwrapped(r@, s, *old(counter) as nat),
        r@.len() == stmt_ulen(s),
        *final(counter) == *old(counter) + stmt_ucount(s),
    decreases stmt_usize(s), 0nat,
{
    let ghost s0 = s;
    let ghost n0 = *counter as nat;
    match s {
        Stmt::Unchecked { body, span } => {
            let names = top_locals(&body);
            if names.len() == 0 {
                let r = unwrap_unchecked_stmts(body, counter);
                r
            } else {
                let prefix = unchk_prefix_of(*counter);
                *counter = *counter + 1;
                let b2 = rename_body(&body, &names, prefix.as_str());
                proof {
                    lemma_renamed_measures(b2@, body@, top_local_names(body@), unchk_prefix(n0));
                }
                let r = unwrap_unchecked_stmts(b2, counter);
                proof {
                    assert(stmts_renamed(b2@, body@, top_local_names(body@), unchk_prefix(n0)) && usize_of(b2@)
                        == usize_of(body@) && unwrapped(r@, b2@, n0 + 1));
                }
                r
            }
        },
        Stmt::If { cond, then_body, else_body, span } => {
            let t2 = unwrap_unchecked_stmts(then_body, counter);
            let e2 = unwrap_unchecked_stmts(else_body, counter);
            let mut r: Vec<Stmt> = Vec::new();
            r.push(Stmt::If { cond, then_body: t2, else_body: e2, span });
            r
        },
        Stmt::AirdropLoop { idx, len_array, body, span } => {
            let b2 = unwrap_unchecked_stmts(body, counter);
            let mut r: Vec<Stmt> = Vec::new();
            r.push(Stmt::AirdropLoop { idx, len_array, body: b2, span });
            r
        },
        other => {
            let mut r: Vec<Stmt> = Vec::new();
            r.push(other);
            proof {
                assert(r@ =~= seq![s0]);
            }
            r
        },
    }
}

/// A block with every `unchecked` block spliced in place (see `unwrapped`); renamed blocks
/// are numbered from the counter on, which ends past the last number used.
pub fn unwrap_unchecked_stmts(stmts: Vec<Stmt>, counter: &mut usize) -> (r: Vec<Stmt>)
    requires
        *old(counter) + ucount(stmts@) <= usize::MAX,
    ensures
        unwrapped(r@, stmts@, *old(counter) as nat),
        r@.len() == ulen(stmts@),
        *final(counter) == *old(counter) + ucount(stmts@),
    decreases usize_of(stmts@), 1nat,
{
    let ghost orig = stmts@;
    let ghost n0 = *counter as nat;
    let mut rest = stmts;
    let mut out: Vec<Stmt> = Vec::new();
    let ghost mut k: int = 0;
    assert(orig.take(0) =~= Seq::<Stmt>::empty());
    while rest.len() > 0
        invariant
            0 <= k <= orig.len(),
            rest@ == orig.skip(k),
            orig == stmts@,
            n0 + ucount(orig) <= usize::MAX,
            *counter == n0 + ucount(orig.take(k)),
            out@.len() == ulen(orig.take(k)),
            unwrapped(out@, orig.take(k), n0),
        decreases rest@.len(),
    {
        let s = rest.remove(0);
        let ghost c = *counter as nat;
        proof {
            assert(s == orig[k]);
            assert(orig.take(k + 1).drop_last() =~= orig.take(k));
            assert(orig.take(k + 1).last() == s);
            lemma_usize_elem(orig, k);
            lemma_ucount_prefix(orig, k + 1);
        }
        let mut piece = unwrap_stmt(s, counter);
        let ghost o1 = out@;
        let ghost p1 = piece@;
        out.append(&mut piece);
        proof {
            let i = orig.take(k + 1);
            let l = ulen(orig.take(k));
            assert(out@ =~= o1 + p1);
            assert(out@.take(l as int) =~= o1);
            assert(out@.skip(l as int) =~= p1);
            assert(unwrapped(out@, i, n0));
            k = k + 1;
        }
    }
    proof {
        assert(orig.take(k) =~= orig);
    }
    out
}

/// How many renamed blocks the bodies of `fns` number, in order.
pub open spec fn fns_ucount(fns: Seq<Function>) -> nat
    decreases fns.len(),
{
    if fns.len() == 0 {
        0
    } else {
        fns_ucount(fns.drop_last()) + ucount(fns.last().body@)
    }
}

pub open spec fn mods_ucount(mods: Seq<Modifier>) -> nat
    decreases mods.len(),
{
    if mods.len() == 0 {
        0
    } else {
        mods_ucount(mods.drop_last()) + ucount(mods.last().body@)
    }
}

/// How many renamed blocks a contract's bodies number: functions, then modifiers, then the
/// constructor.
pub open spec fn contract_ucount(c: Contract) -> nat {
    fns_ucount(c.functions@) + mods_ucount(c.modifiers@) + match c.constructor {
        Some(k) => ucount(k.body@),
        None => 0,
    }
}

/// `b` is `a` with every function, modifier and constructor body spliced (`unwrapped`),
/// the renamed blocks numbered from zero over functions, then modifiers, then the
/// constructor; nothing else changes.
pub open spec fn contract_unwrapped(b: Contract, a: Contract) -> bool {
    &&& b.name == a.name
    &&& b.kind == a.kind
    &&& b.bases == a.bases
    &&& b.structs == a.structs
    &&& b.state == a.state
    &&& b.enums == a.enums
    &&& b.span == a.span
    &&& b.functions@.len() == a.functions@.len()
    &&& forall|j: int| 0 <= j < a.functions@.len() ==> {
        let g = #[trigger] b.functions@[j];
        let f = a.functions@[j];
        same_header(g, f) && g.modifiers == f.modifiers && unwrapped(g.body@, f.body@, fns_ucount(a.functions@.take(j)))
    }
    &&& b.modifiers@.len() == a.modifiers@.len()
    &&& forall|j: int| 0 <= j < a.modifiers@.len() ==> {
        let g = #[trigger] b.modifiers@[j];
        let f = a.modifiers@[j];
        g.name == f.name && g.params == f.params && g.span == f.span && unwrapped(
            g.body@,
            f.body@,
            fns_ucount(a.functions@) + mods_ucount(a.modifiers@.take(j)),
        )
    }
    &&& (b.constructor is Some <==> a.constructor is Some)
    &&& (a.constructor is Some ==> {
        let x = b.constructor->Some_0;
        let y = a.constructor->Some_0;
        x.params == y.params && x.base_calls == y.base_calls && x.span == y.span && unwrapped(
            x.body@,
            y.body@,
            fns_ucount(a.functions@) + mods_ucount(a.modifiers@),
        )
    })
}

proof fn lemma_fns_ucount_prefix(fns: Seq<Function>, j: int)
    requires
        0 <= j <= fns.len(),
    ensures
        fns_ucount(fns.take(j)) <= fns_ucount(fns),
    decreases fns.len(),
{
    if j == fns.len() {
        assert(fns.take(j) =~= fns);
    } else {
        lemma_fns_ucount_prefix(fns.drop_last(), j);
        assert(fns.drop_last().take(j) =~= fns.take(j));
    }
}

proof fn lemma_mods_ucount_prefix(mods: Seq<Modifier>, j: int)
    requires
        0 <= j <= mods.len(),
    ensures
        mods_ucount(mods.take(j)) <= mods_ucount(mods),
    decreases mods.len(),
{
    if j == mods.len() {
        assert(mods.take(j) =~= mods);
    } else {
        lemma_mods_ucount_prefix(mods.drop_last(), j);
        assert(mods.drop_last().take(j) =~= mods.take(j));
    }
}

/// Splices every `unchecked` block of every function, modifier and constructor body into
/// its enclosing list (see `contract_unwrapped`), with one counter for the whole contract.
pub fn unwrap_unchecked(c: &mut Contract)
    requires
        contract_ucount(*old(c)) <= usize::MAX,
    ensures
        contract_unwrapped(*final(c), *old(c)),
{
    let ghost c0 = *c;
    let mut counter: usize = 0;
    let mut fi: usize = 0;
    assert(c0.functions@.take(0) =~= Seq::<Function>::empty());
    while fi < c.functions.len()
        invariant
            fi <= c.functions@.len(),
            c0 == *old(c),
            contract_ucount(c0) <= usize::MAX,
            c.name == c0.name && c.kind == c0.kind && c.bases == c0.bases && c.structs == c0.structs,
            c.state == c0.state && c.enums == c0.enums && c.span == c0.span,
            c.modifiers == c0.modifiers && c.constructor == c0.constructor,
            c.functions@.len() == c0.functions@.len(),
            counter == fns_ucount(c0.functions@.take(fi as int)),
            forall|j: int| 0 <= j < fi ==> {
                let g = #[trigger] c.functions@[j];
                let f = c0.functions@[j];
                same_header(g, f) && g.modifiers == f.modifiers && unwrapped(g.body@, f.body@, fns_ucount(c0.functions@.take(j)))
            },
            forall|j: int| fi <= j < c.functions@.len() ==> #[trigger] c.functions@[j] == c0.functions@[j],
        decreases c.functions@.len() - fi,
    {
        proof {
            assert(c0.functions@.take(fi + 1).drop_last() =~= c0.functions@.take(fi as int));
            assert(c0.functions@.take(fi + 1).last() == c0.functions@[fi as int]);
            lemma_fns_ucount_prefix(c0.functions@, fi + 1);
        }
        let ghost before = c.functions@;
        let f = &mut c.functions[fi];
        let mut body: Vec<Stmt> = Vec::new();
        std::mem::swap(&mut body, &mut f.body);
        f.body = unwrap_unchecked_stmts(body, &mut counter);
        proof {
            assert(c.functions@ == before.update(fi as int, c.functions@[fi as int]));
        }
        fi = fi + 1;
    }
    assert(c0.functions@.take(fi as int) =~= c0.functions@);
    let ghost nf = fns_ucount(c0.functions@);
    let mut mi: usize = 0;
    assert(c0.modifiers@.take(0) =~= Seq::<Modifier>::empty());
    while mi < c.modifiers.len()
        invariant
            mi <= c.modifiers@.len(),
            c0 == *old(c),
            contract_ucount(c0) <= usize::MAX,
            nf == fns_ucount(c0.functions@),
            c.name == c0.name && c.kind == c0.kind && c.bases == c0.bases && c.structs == c0.structs,
            c.state == c0.state && c.enums == c0.enums && c.span == c0.span,
            c.constructor == c0.constructor,
            c.functions@.len() == c0.functions@.len(),
            forall|j: int| 0 <= j < c0.functions@.len() ==> {
                let g = #[trigger] c.functions@[j];
                let f = c0.functions@[j];
                same_header(g, f) && g.modifiers == f.modifiers && unwrapped(g.body@, f.body@, fns_ucount(c0.functions@.take(j)))
            },
            c.modifiers@.len() == c0.modifiers@.len(),
            counter == nf + mods_ucount(c0.modifiers@.take(mi as int)),
            forall|j: int| 0 <= j < mi ==> {
                let g = #[trigger] c.modifiers@[j];
                let f = c0.modifiers@[j];
                g.name == f.name && g.params == f.params && g.span == f.span && unwrapped(
                    g.body@,
                    f.body@,
                    nf + mods_ucount(c0.modifiers@.take(j)),
                )
            },
            forall|j: int| mi <= j < c.modifiers@.len() ==> #[trigger] c.modifiers@[j] == c0.modifiers@[j],
        decreases c.modifiers@.len() - mi,
    {
        proof {
            assert(c0.modifiers@.take(mi + 1).drop_last() =~= c0.modifiers@.take(mi as int));
            assert(c0.modifiers@.take(mi + 1).last() == c0.modifiers@[mi as int]);
            lemma_mods_ucount_prefix(c0.modifiers@, mi + 1);
        }
        let ghost before = c.modifiers@;
        let m = &mut c.modifiers[mi];
        let mut body: Vec<Stmt> = Vec::new();
        std::mem::swap(&mut body, &mut m.body);
        m.body = unwrap_unchecked_stmts(body, &mut counter);
        proof {
            assert(c.modifiers@ == before.update(mi as int, c.modifiers@[mi as int]));
        }
        mi = mi + 1;
    }
    assert(c0.modifiers@.take(mi as int) =~= c0.modifiers@);
    match &mut c.constructor {
        Some(ctor) => {
            let mut body: Vec<Stmt> = Vec::new();
            std::mem::swap(&mut body, &mut ctor.body);
            ctor.body = unwrap_unchecked_stmts(body, &mut counter);
        },
        None => {},
    }
}

// ── Literal normalization ────────────────────────────────────────────────────

/// `e` is the variable `n`.
pub open spec fn is_var_named(e: Expr, n: Seq<char>) -> bool {
    match e {
        Expr::Var(x, _) => x@ == n,
        _ => false,
    }
}

/// `e` normalizes to the literal `0`: the literal itself, or `address(e2)` of such an `e2`.
pub open spec fn zero_lit(e: Expr) -> bool
    decreases e,
{
    match e {
        Expr::Num(t, _) => t@ == "0"@,
        Expr::Call(c, args, _) => {
            proof {
                assert(decreases_to!(e => args));
                assert(decreases_to!(args => args@));
            }
            is_var_named(*c, "address"@) && args@.len() == 1 && zero_lit(args@[0])
        },
        _ => false,
    }
}

/// The call is `address(z)` with `z` normalizing to `0`.
pub open spec fn is_zero_address(c: Expr, args: Seq<Expr>) -> bool {
    is_var_named(c, "address"@) && args.len() == 1 && zero_lit(args[0])
}

/// `base.member` is `type(uint256).max` or `type(uint).max`.
pub open spec fn is_type_max(base: Expr, member: Seq<char>) -> bool {
    member == "max"@ && match base {
        Expr::Call(c, args, _) => is_var_named(*c, "type"@) && args@.len() == 1 && (is_var_named(args@[0], "uint256"@)
            || is_var_named(args@[0], "uint"@)),
        _ => false,
    }
}

/// The decimal text of `2^256 - 1`.
pub open spec fn u256_max_chars() -> Seq<char> {
    ascii_chars(dec_bytes((pow_nat(2, 256) - 1) as nat))
}

/// `o` is `i` with every `address(0)` (also nested, `address(address(0))`) replaced by the
/// literal `0` and every `type(uint256).max` / `type(uint).max` by the decimal `2^256 - 1`,
/// each at the span of the replaced expression; everything else is kept.
pub open spec fn naz_rewritten(o: Expr, i: Expr) -> bool
    decreases i,
{
    match i {
        Expr::Member(b, m, sp) => if is_type_max(*b, m@) {
            match o {
                Expr::Num(t, s2) => t@ == u256_max_chars() && s2 == sp,
                _ => false,
            }
        } else {
            match o {
                Expr::Member(b2, m2, s2) => m2 == m && s2 == sp && naz_rewritten(*b2, *b),
                _ => false,
            }
        },
        Expr::Call(c, args, sp) => {
            proof {
                assert(decreases_to!(i => args));
                assert(decreases_to!(args => args@));
            }
            if is_zero_address(*c, args@) {
                match o {
                    Expr::Num(t, s2) => t@ == "0"@ && s2 == sp,
                    _ => false,
                }
            } else {
                match o {
                    Expr::Call(c2, a2, s2) => {
                        &&& s2 == sp
                        &&& naz_rewritten(*c2, *c)
                        &&& a2@.len() == args@.len()
                        &&& forall|q: int| 0 <= q < args@.len() ==> naz_rewritten(#[trigger] a2@[q], args@[q])
                    },
                    _ => false,
                }
            }
        },
        Expr::Index(b, k, sp) => match o {
            Expr::Index(b2, k2, s2) => s2 == sp && naz_rewritten(*b2, *b) && naz_rewritten(*k2, *k),
            _ => false,
        },
        Expr::Unary(op, x, sp) => match o {
            Expr::Unary(op2, x2, s2) => op2 == op && s2 == sp && naz_rewritten(*x2, *x),
            _ => false,
        },
        Expr::Bin(op, l, r, sp) => match o {
            Expr::Bin(op2, l2, r2, s2) => op2 == op && s2 == sp && naz_rewritten(*l2, *l) && naz_rewritten(*r2, *r),
            _ => false,
        },
        _ => o == i,
    }
}

fn var_named(e: &Expr, n: &str) -> (r: bool)
    ensures
        r == is_var_named(*e, n@),
{
    match e {
        Expr::Var(x, _) => string_eq_str(x, n),
        _ => false,
    }
}

fn zero_lit_of(e: &Expr) -> (r: bool)
    ensures
        r == zero_lit(*e),
    decreases e,
{
    match e {
        Expr::Num(t, _) => string_eq_str(t, "0"),
        Expr::Call(c, args, _) => var_named(c, "address") && args.len() == 1 && zero_lit_of(&args[0]),
        _ => false,
    }
}

fn type_max_of(base: &Expr, member: &String) -> (r: bool)
    ensures
        r == is_type_max(*base, member@),
{
    string_eq_str(member, "max") && match base {
        Expr::Call(c, args, _) => var_named(c, "type") && args.len() == 1 && (var_named(&args[0], "uint256")
            || var_named(&args[0], "uint")),
        _ => false,
    }
}

/// `2^(e + 4)` is sixteen times `2^e`.
proof fn lemma_pow2_step4(e: nat)
    ensures
        pow_nat(2, e + 4) == 16 * pow_nat(2, e),
{
    assert(pow_nat(2, e + 4) == 2 * pow_nat(2, e + 3));
    assert(pow_nat(2, e + 3) == 2 * pow_nat(2, e + 2));
    assert(pow_nat(2, e + 2) == 2 * pow_nat(2, e + 1));
    assert(pow_nat(2, e + 1) == 2 * pow_nat(2, e));
}

/// A positive power of sixteen ends in the digit 6.
proof fn lemma_pow16_last_digit(m: nat)
    requires
        m >= 1,
    ensures
        pow_nat(2, 4 * m) % 10 == 6,
    decreases m,
{
    lemma_pow2_step4((4 * (m - 1)) as nat);
    let x = pow_nat(2, (4 * (m - 1)) as nat);
    if m == 1 {
        assert(pow_nat(2, 0) == 1);
    } else {
        lemma_pow16_last_digit((m - 1) as nat);
        assert((16 * x) % 10 == 6) by (nonlinear_arith)
            requires
                x % 10 == 6,
        ;
    }
}

/// `type(uint256).max` in decimal: `2^256` with its last digit (a 6) lowered by one.
pub fn uint256_max_decimal() -> (r: String)
    ensures
        r@ == u256_max_chars(),
{
    let mut d = pow2_digits(256);
    proof {
        let v = pow_nat(2, 256);
        lemma_pow16_last_digit(64);
        lemma_pow2_step4(252);
        lemma_pow2_pos(252);
        assert(v >= 16);
        assert((v - 1) / 10 == v / 10 && (v - 1) % 10 == 5) by (nonlinear_arith)
            requires
                v % 10 == 6,
                v >= 16,
        ;
        assert(dec_bytes(v) == dec_bytes(v / 10).push((48 + v % 10) as u8));
        assert(dec_bytes((v - 1) as nat) == dec_bytes(((v - 1) as nat) / 10).push((48 + ((v - 1) as nat) % 10) as u8));
    }
    let last = d.len() - 1;
    d.set(last, 53);
    proof {
        let v = pow_nat(2, 256);
        assert(d@ =~= dec_bytes((v - 1) as nat));
    }
    ascii_string(d.as_slice())
}

/// Normalizes the literals of an expression (see `naz_rewritten`).
pub fn naz_expr(e: Expr) -> (r: Expr)
    ensures
        naz_rewritten(r, e),
    decreases e,
{
    let ghost e0 = e;
    match e {
        Expr::Member(b, m, sp) => {
            if type_max_of(&b, &m) {
                Expr::Num(uint256_max_decimal(), sp)
            } else {
                Expr::Member(Box::new(naz_expr(*b)), m, sp)
            }
        },
        Expr::Call(c, args, sp) => {
            if var_named(&c, "address") && args.len() == 1 && zero_lit_of(&args[0]) {
                let z = String::from_str("0");
                proof {
                    reveal_strlit("0");
                }
                return Expr::Num(z, sp);
            }
            let c2 = naz_expr(*c);
            let ghost a0 = args@;
            let mut rest = args;
            let mut out: Vec<Expr> = Vec::new();
            let ghost mut k: int = 0;
            assert(a0.skip(0) =~= a0);
            while rest.len() > 0
                invariant
                    0 <= k <= a0.len(),
                    rest@ == a0.skip(k),
                    out@.len() == k,
                    e0 matches Expr::Call(_, ax, _) && ax@ == a0,
                    e0 == e,
                    forall|q: int| 0 <= q < k ==> naz_rewritten(#[trigger] out@[q], a0[q]),
                decreases rest@.len(),
            {
                let a = rest.remove(0);
                proof {
                    assert(a == a0[k]);
                    assert(decreases_to!(e0 => e0->Call_1));
                    assert(decreases_to!(e0->Call_1 => e0->Call_1@));
                    assert(decreases_to!(e0->Call_1@ => e0->Call_1@[k]));
                    assert(decreases_to!(e0 => a));
                }
                out.push(naz_expr(a));
                proof {
                    k = k + 1;
                }
                assert(rest@ =~= a0.skip(k));
            }
            Expr::Call(Box::new(c2), out, sp)
        },
        Expr::Index(b, k, sp) => Expr::Index(Box::new(naz_expr(*b)), Box::new(naz_expr(*k)), sp),
        Expr::Unary(op, x, sp) => Expr::Unary(op, Box::new(naz_expr(*x)), sp),
        Expr::Bin(op, l, r, sp) => Expr::Bin(op, Box::new(naz_expr(*l)), Box::new(naz_expr(*r)), sp),
        other => other,
    }
}

/// Every expression of `o` is the normalized one of `i` at the same place.
pub open spec fn naz_all(o: Seq<Expr>, i: Seq<Expr>) -> bool {
    o.len() == i.len() && forall|q: int| 0 <= q < i.len() ==> naz_rewritten(#[trigger] o[q], i[q])
}

fn naz_exprs(args: Vec<Expr>) -> (r: Vec<Expr>)
    ensures
        naz_all(r@, args@),
{
    let ghost a0 = args@;
    let mut rest = args;
    let mut out: Vec<Expr> = Vec::new();
    let ghost mut k: int = 0;
    assert(a0.skip(0) =~= a0);
    while rest.len() > 0
        invariant
            0 <= k <= a0.len(),
            rest@ == a0.skip(k),
            out@.len() == k,
            forall|q: int| 0 <= q < k ==> naz_rewritten(#[trigger] out@[q], a0[q]),
        decreases rest@.len(),
    {
        let a = rest.remove(0);
        assert(a == a0[k]);
        out.push(naz_expr(a));
        proof {
            k = k + 1;
        }
        assert(rest@ =~= a0.skip(k));
    }
    out
}

/// `o` is statement `s` with the literals of every expression normalized, nested blocks
/// included; names, operators and spans are kept.
pub open spec fn naz_stmt_ok(o: Stmt, s: Stmt) -> bool
    decreases s,
{
    match (s, o) {
        (Stmt::Require { cond, span }, Stmt::Require { cond: c2, span: s2 }) => naz_rewritten(c2, cond) && s2 == span,
        (Stmt::Assert { cond, span }, Stmt::Assert { cond: c2, span: s2 }) => naz_rewritten(c2, cond) && s2 == span,
        (Stmt::Revert { .. }, _) => o == s,
        (Stmt::Placeholder { .. }, _) => o == s,
        (Stmt::Assign { target, op, value, span }, Stmt::Assign { target: t2, op: o2, value: v2, span: s2 }) => t2
            == target && o2 == op && s2 == span && naz_rewritten(v2, value),
        (
            Stmt::IndexAssign { map, key, op, value, span },
            Stmt::IndexAssign { map: m2, key: k2, op: o2, value: v2, span: s2 },
        ) => m2 == map && o2 == op && s2 == span && naz_rewritten(k2, key) && naz_rewritten(v2, value),
        (
            Stmt::IndexAssign2 { map, k1, k2, op, value, span },
            Stmt::IndexAssign2 { map: m2, k1: a2, k2: c2, op: o2, value: v2, span: s2 },
        ) => m2 == map && o2 == op && s2 == span && naz_rewritten(a2, k1) && naz_rewritten(c2, k2) && naz_rewritten(
            v2,
            value,
        ),
        (
            Stmt::FieldAssign { obj, field, op, value, span },
            Stmt::FieldAssign { obj: b2, field: f2, op: o2, value: v2, span: s2 },
        ) => b2 == obj && f2 == field && o2 == op && s2 == span && naz_rewritten(v2, value),
        (Stmt::LocalVar { name, ty, value, span }, Stmt::LocalVar { name: n2, ty: t2, value: v2, span: s2 }) => n2
            == name && t2 == ty && s2 == span && naz_rewritten(v2, value),
        (Stmt::Return { value, span }, Stmt::Return { value: v2, span: s2 }) => s2 == span && match (value, v2) {
            (None, None) => true,
            (Some(v), Some(w)) => naz_rewritten(w, v),
            _ => false,
        },
        (Stmt::CallStmt { callee, args, span }, Stmt::CallStmt { callee: c2, args: a2, span: s2 }) => c2 == callee
            && s2 == span && naz_all(a2@, args@),
        (
            Stmt::If { cond, then_body, else_body, span },
            Stmt::If { cond: c2, then_body: t2, else_body: e2, span: s2 },
        ) => {
            proof {
                assert(decreases_to!(s => then_body));
                assert(decreases_to!(then_body => then_body@));
                assert(decreases_to!(s => else_body));
                assert(decreases_to!(else_body => else_body@));
            }
            s2 == span && naz_rewritten(c2, cond) && t2@.len() == then_body@.len() && e2@.len() == else_body@.len()
                && (forall|q: int| 0 <= q < then_body@.len() ==> naz_stmt_ok(#[trigger] t2@[q], then_body@[q]))
                && (forall|q: int| 0 <= q < else_body@.len() ==> naz_stmt_ok(#[trigger] e2@[q], else_body@[q]))
        },
        (Stmt::Unchecked { body, span }, Stmt::Unchecked { body: b2, span: s2 }) => {
            proof {
                assert(decreases_to!(s => body));
                assert(decreases_to!(body => body@));
            }
            s2 == span && b2@.len() == body@.len() && forall|q: int|
                0 <= q < body@.len() ==> naz_stmt_ok(#[trigger] b2@[q], body@[q])
        },
        (
            Stmt::AirdropLoop { idx, len_array, body, span },
            Stmt::AirdropLoop { idx: i2, len_array: l2, body: b2, span: s2 },
        ) => {
            proof {
                assert(decreases_to!(s => body));
                assert(decreases_to!(body => body@));
            }
            i2 == idx && l2 == len_array && s2 == span && b2@.len() == body@.len() && forall|q: int|
                0 <= q < body@.len() ==> naz_stmt_ok(#[trigger] b2@[q], body@[q])
        },
        (
            Stmt::MapTransfer { map, from, to, amount, span },
            Stmt::MapTransfer { map: m2, from: f2, to: t2, amount: a2, span: s2 },
        ) => m2 == map && s2 == span && naz_rewritten(f2, from) && naz_rewritten(t2, to) && naz_rewritten(a2, amount),
        (
            Stmt::Erc20TransferFrom { bal_map, alw_map, from, spender, to, amount, oz5_infinite, span },
            Stmt::Erc20TransferFrom {
                bal_map: bm2,
                alw_map: am2,
                from: f2,
                spender: sp2,
                to: t2,
                amount: a2,
                oz5_infinite: z2,
                span: s2,
            },
        ) => bm2 == bal_map && am2 == alw_map && z2 == oz5_infinite && s2 == span && naz_rewritten(f2, from)
            && naz_rewritten(sp2, spender) && naz_rewritten(t2, to) && naz_rewritten(a2, amount),
        (
            Stmt::MapSplitTransfer { map, from, amount, to, net, fee_to, fee, span },
            Stmt::MapSplitTransfer {
                map: m2,
                from: f2,
                amount: a2,
                to: t2,
                net: n2,
                fee_to: ft2,
                fee: fe2,
                span: s2,
            },
        ) => m2 == map && s2 == span && naz_rewritten(f2, from) && naz_rewritten(a2, amount) && naz_rewritten(t2, to)
            && naz_rewritten(n2, net) && naz_rewritten(ft2, fee_to) && naz_rewritten(fe2, fee),
        (
            Stmt::ReservedBatch { transfer, writes, span },
            Stmt::ReservedBatch { transfer: t2, writes: w2, span: s2 },
        ) => {
            proof {
                assert(decreases_to!(s => writes));
                assert(decreases_to!(writes => writes@));
            }
            s2 == span && match (transfer, t2) {
                (None, None) => true,
                (Some(x), Some(y)) => naz_stmt_ok(*y, *x),
                _ => false,
            } && w2@.len() == writes@.len() && forall|q: int|
                0 <= q < writes@.len() ==> naz_stmt_ok(#[trigger] w2@[q], writes@[q])
        },
        (
            Stmt::Erc20Update { map, ts_field, from, to, value, span },
            Stmt::Erc20Update { map: m2, ts_field: f2, from: fr2, to: t2, value: v2, span: s2 },
        ) => m2 == map && f2 == ts_field && s2 == span && naz_rewritten(fr2, from) && naz_rewritten(t2, to)
            && naz_rewritten(v2, value),
        (
            Stmt::BatchTransfer { map, from, recipients, amounts, span },
            Stmt::BatchTransfer { map: m2, from: f2, recipients: r2, amounts: a2, span: s2 },
        ) => m2 == map && r2 == recipients && a2 == amounts && s2 == span && naz_rewritten(f2, from),
        _ => false,
    }
}

/// Every statement of `o` is the normalized one of `i` at the same place.
pub open spec fn naz_block_ok(o: Seq<Stmt>, i: Seq<Stmt>) -> bool {
    o.len() == i.len() && forall|q: int| 0 <= q < i.len() ==> naz_stmt_ok(#[trigger] o[q], i[q])
}

/// Normalizes the literals of a statement (see `naz_stmt_ok`).
#[verifier::rlimit(50)]
pub fn naz_stmt(s: Stmt) -> (r: Stmt)
    ensures
        naz_stmt_ok(r, s),
    decreases s,
{
    let ghost s0 = s;
    match s {
        Stmt::Require { cond, span } => Stmt::Require { cond: naz_expr(cond), span },
        Stmt::Assert { cond, span } => Stmt::Assert { cond: naz_expr(cond), span },
        Stmt::Assign { target, op, value, span } => Stmt::Assign { target, op, value: naz_expr(value), span },
        Stmt::IndexAssign { map, key, op, value, span } => {
            Stmt::IndexAssign { map, key: naz_expr(key), op, value: naz_expr(value), span }
        },
        Stmt::IndexAssign2 { map, k1, k2, op, value, span } => {
            Stmt::IndexAssign2 { map, k1: naz_expr(k1), k2: naz_expr(k2), op, value: naz_expr(value), span }
        },
        Stmt::FieldAssign { obj, field, op, value, span } => {
            Stmt::FieldAssign { obj, field, op, value: naz_expr(value), span }
        },
        Stmt::LocalVar { name, ty, value, span } => Stmt::LocalVar { name, ty, value: naz_expr(value), span },
        Stmt::Return { value, span } => match value {
            Some(v) => Stmt::Return { value: Some(naz_expr(v)), span },
            None => Stmt::Return { value: None, span },
        },
        Stmt::CallStmt { callee, args, span } => Stmt::CallStmt { callee, args: naz_exprs(args), span },
        Stmt::If { cond, then_body, else_body, span } => {
            Stmt::If { cond: naz_expr(cond), then_body: naz_block(then_body), else_body: naz_block(else_body), span }
        },
        Stmt::Unchecked { body, span } => Stmt::Unchecked { body: naz_block(body), span },
        Stmt::AirdropLoop { idx, len_array, body, span } => {
            Stmt::AirdropLoop { idx, len_array, body: naz_block(body), span }
        },
        Stmt::MapTransfer { map, from, to, amount, span } => {
            Stmt::MapTransfer { map, from: naz_expr(from), to: naz_expr(to), amount: naz_expr(amount), span }
        },
        Stmt::Erc20TransferFrom { bal_map, alw_map, from, spender, to, amount, oz5_infinite, span } => {
            Stmt::Erc20TransferFrom {
                bal_map,
                alw_map,
                from: naz_expr(from),
                spender: naz_expr(spender),
                to: naz_expr(to),
                amount: naz_expr(amount),
                oz5_infinite,
                span,
            }
        },
        Stmt::MapSplitTransfer { map, from, amount, to, net, fee_to, fee, span } => {
            Stmt::MapSplitTransfer {
                map,
                from: naz_expr(from),
                amount: naz_expr(amount),
                to: naz_expr(to),
                net: naz_expr(net),
                fee_to: naz_expr(fee_to),
                fee: naz_expr(fee),
                span,
            }
        },
        Stmt::ReservedBatch { transfer, writes, span } => {
            let t2 = match transfer {
                Some(t) => {
                    proof {
                        assert(decreases_to!(s0 => s0->ReservedBatch_transfer));
                        assert(decreases_to!(s0->ReservedBatch_transfer => s0->ReservedBatch_transfer->Some_0));
                    }
                    Some(Box::new(naz_stmt(*t)))
                },
                None => None,
            };
            Stmt::ReservedBatch { transfer: t2, writes: naz_block(writes), span }
        },
        Stmt::Erc20Update { map, ts_field, from, to, value, span } => {
            Stmt::Erc20Update { map, ts_field, from: naz_expr(from), to: naz_expr(to), value: naz_expr(value), span }
        },
        Stmt::BatchTransfer { map, from, recipients, amounts, span } => {
            Stmt::BatchTransfer { map, from: naz_expr(from), recipients, amounts, span }
        },
        other => other,
    }
}

/// Normalizes the literals of a statement list.
pub fn naz_block(stmts: Vec<Stmt>) -> (r: Vec<Stmt>)
    ensures
        naz_block_ok(r@, stmts@),
    decreases stmts,
{
    let ghost g = stmts;
    let ghost a0 = stmts@;
    let mut rest = stmts;
    let mut out: Vec<Stmt> = Vec::new();
    let ghost mut k: int = 0;
    assert(a0.skip(0) =~= a0);
    while rest.len() > 0
        invariant
            0 <= k <= a0.len(),
            rest@ == a0.skip(k),
            a0 == g@,
            g == stmts,
            out@.len() == k,
            forall|q: int| 0 <= q < k ==> naz_stmt_ok(#[trigger] out@[q], a0[q]),
        decreases rest@.len(),
    {
        let s = rest.remove(0);
        proof {
            assert(s == a0[k]);
            assert(decreases_to!(g => g@));
            assert(decreases_to!(g@ => g@[k]));
            assert(decreases_to!(g => s));
        }
        out.push(naz_stmt(s));
        proof {
            k = k + 1;
        }
        assert(rest@ =~= a0.skip(k));
    }
    out
}

/// Normalizes `address(0)` and `type(uint256).max` in every function and modifier body
/// (not the constructor's); nothing else changes.
pub fn normalize_literals(c: &mut Contract)
    ensures
        final(c).name == old(c).name && final(c).kind == old(c).kind && final(c).bases == old(c).bases,
        final(c).structs == old(c).structs && final(c).state == old(c).state && final(c).enums == old(c).enums,
        final(c).span == old(c).span && final(c).constructor == old(c).constructor,
        final(c).functions@.len() == old(c).functions@.len(),
        forall|j: int| 0 <= j < old(c).functions@.len() ==> {
            let g = #[trigger] final(c).functions@[j];
            let f = old(c).functions@[j];
            same_header(g, f) && g.modifiers == f.modifiers && naz_block_ok(g.body@, f.body@)
        },
        final(c).modifiers@.len() == old(c).modifiers@.len(),
        forall|j: int| 0 <= j < old(c).modifiers@.len() ==> {
            let g = #[trigger] final(c).modifiers@[j];
            let f = old(c).modifiers@[j];
            g.name == f.name && g.params == f.params && g.span == f.span && naz_block_ok(g.body@, f.body@)
        },
{
    let ghost c0 = *c;
    let mut fi: usize = 0;
    while fi < c.functions.len()
        invariant
            fi <= c.functions@.len(),
            c0 == *old(c),
            c.name == c0.name && c.kind == c0.kind && c.bases == c0.bases && c.structs == c0.structs,
            c.state == c0.state && c.enums == c0.enums && c.span == c0.span,
            c.modifiers == c0.modifiers && c.constructor == c0.constructor,
            c.functions@.len() == c0.functions@.len(),
            forall|j: int| 0 <= j < fi ==> {
                let g = #[trigger] c.functions@[j];
                let f = c0.functions@[j];
                same_header(g, f) && g.modifiers == f.modifiers && naz_block_ok(g.body@, f.body@)
            },
            forall|j: int| fi <= j < c.functions@.len() ==> #[trigger] c.functions@[j] == c0.functions@[j],
        decreases c.functions@.len() - fi,
    {
        let ghost before = c.functions@;
        let f = &mut c.functions[fi];
        let mut body: Vec<Stmt> = Vec::new();
        std::mem::swap(&mut body, &mut f.body);
        f.body = naz_block(body);
        proof {
            assert(c.functions@ == before.update(fi as int, c.functions@[fi as int]));
        }
        fi = fi + 1;
    }
    let mut mi: usize = 0;
    while mi < c.modifiers.len()
        invariant
            mi <= c.modifiers@.len(),
            c0 == *old(c),
            c.name == c0.name && c.kind == c0.kind && c.bases == c0.bases && c.structs == c0.structs,
            c.state == c0.state && c.enums == c0.enums && c.span == c0.span,
            c.constructor == c0.constructor,
            c.functions@.len() == c0.functions@.len(),
            forall|j: int| 0 <= j < c0.functions@.len() ==> {
                let g = #[trigger] c.functions@[j];
                let f = c0.functions@[j];
                same_header(g, f) && g.modifiers == f.modifiers && naz_block_ok(g.body@, f.body@)
            },
            c.modifiers@.len() == c0.modifiers@.len(),
            forall|j: int| 0 <= j < mi ==> {
                let g = #[trigger] c.modifiers@[j];
                let f = c0.modifiers@[j];
                g.name == f.name && g.params == f.params && g.span == f.span && naz_block_ok(g.body@, f.body@)
            },
            forall|j: int| mi <= j < c.modifiers@.len() ==> #[trigger] c.modifiers@[j] == c0.modifiers@[j],
        decreases c.modifiers@.len() - mi,
    {
        let ghost before = c.modifiers@;
        let m = &mut c.modifiers[mi];
        let mut body: Vec<Stmt> = Vec::new();
        std::mem::swap(&mut body, &mut m.body);
        m.body = naz_block(body);
        proof {
            assert(c.modifiers@ == before.update(mi as int, c.modifiers@[mi as int]));
        }
        mi = mi + 1;
    }
}

/// The expression holds a literal `address(0)` cast somewhere.
pub open spec fn has_zero_address_call(e: Expr) -> bool
    decreases e,
{
    match e {
        Expr::Member(b, _, _) => has_zero_address_call(*b),
        Expr::Index(b, k, _) => has_zero_address_call(*b) || has_zero_address_call(*k),
        Expr::Unary(_, x, _) => has_zero_address_call(*x),
        Expr::Bin(_, l, r, _) => has_zero_address_call(*l) || has_zero_address_call(*r),
        Expr::Call(c, args, _) => {
            proof {
                assert(decreases_to!(e => args));
                assert(decreases_to!(args => args@));
            }
            ||| (is_var_named(*c, "address"@) && args@.len() == 1 && match args@[0] {
                Expr::Num(t, _) => t@ == "0"@,
                _ => false,
            })
            ||| has_zero_address_call(*c)
            ||| exists|q: int| 0 <= q < args@.len() && has_zero_address_call(#[trigger] args@[q])
        },
        _ => false,
    }
}

proof fn lemma_dec_bytes_len(v: nat)
    ensures
        dec_bytes(v).len() >= 1,
        v >= 10 ==> dec_bytes(v).len() >= 2,
    decreases v,
{
    if v >= 10 {
        lemma_dec_bytes_len(v / 10);
    }
}

/// A normalized expression is a variable only where the original was that variable, and
/// the literal `0` only where the original normalizes to `0`.
proof fn lemma_naz_shapes(o: Expr, i: Expr)
    requires
        naz_rewritten(o, i),
    ensures
        o is Var ==> o == i,
        (o matches Expr::Num(t, _) && t@ == "0"@) ==> zero_lit(i),
{
    match i {
        Expr::Member(b, m, _) => {
            if is_type_max(*b, m@) {
                lemma_pow2_step4(252);
                lemma_pow2_pos(252);
                lemma_dec_bytes_len((pow_nat(2, 256) - 1) as nat);
                reveal_strlit("0");
                assert(u256_max_chars().len() >= 2);
            }
        },
        Expr::Call(c, args, _) => {
            reveal_strlit("0");
        },
        _ => {},
    }
}

/// After literal normalization no `address(0)` cast is left in the expression.
pub proof fn lemma_naz_leaves_no_zero_address(o: Expr, i: Expr)
    requires
        naz_rewritten(o, i),
    ensures
        !has_zero_address_call(o),
    decreases i,
{
    match i {
        Expr::Member(b, m, _) => {
            if !is_type_max(*b, m@) {
                match o {
                    Expr::Member(b2, _, _) => lemma_naz_leaves_no_zero_address(*b2, *b),
                    _ => {},
                }
            }
        },
        Expr::Index(b, k, _) => match o {
            Expr::Index(b2, k2, _) => {
                lemma_naz_leaves_no_zero_address(*b2, *b);
                lemma_naz_leaves_no_zero_address(*k2, *k);
            },
            _ => {},
        },
        Expr::Unary(_, x, _) => match o {
            Expr::Unary(_, x2, _) => lemma_naz_leaves_no_zero_address(*x2, *x),
            _ => {},
        },
        Expr::Bin(_, l, r, _) => match o {
            Expr::Bin(_, l2, r2, _) => {
                lemma_naz_leaves_no_zero_address(*l2, *l);
                lemma_naz_leaves_no_zero_address(*r2, *r);
            },
            _ => {},
        },
        Expr::Call(c, args, _) => {
            if !is_zero_address(*c, args@) {
                match o {
                    Expr::Call(c2, a2, _) => {
                        lemma_naz_leaves_no_zero_address(*c2, *c);
                        lemma_naz_shapes(*c2, *c);
                        assert forall|q: int| 0 <= q < a2@.len() implies !has_zero_address_call(#[trigger] a2@[q]) by {
                            assert(decreases_to!(i => args));
                            assert(decreases_to!(args => args@));
                            assert(decreases_to!(args@ => args@[q]));
                            lemma_naz_leaves_no_zero_address(a2@[q], args@[q]);
                        }
                        if a2@.len() == 1 {
                            lemma_naz_shapes(a2@[0], args@[0]);
                        }
                    },
                    _ => {},
                }
            }
        },
        _ => {},
    }
}

} // verus!
