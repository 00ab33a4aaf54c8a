//! Opt-in capability access control: the directive that turns it on, and the recognition
//! of an `onlyOwner`-shaped owner gate that a capability can replace.

use crate::codes;
use crate::diag::{copy_span, FrontendDiag};
use crate::lexer::{str_trim, trimmed};
use crate::parser::{BinOp, Contract, Expr, Function, Modifier, Stmt, TypeRef};
use crate::text::{clone_string, str_eq, string_eq_str};
use std::ops::Range;
use vstd::prelude::*;

verus! {

/// The opt-in directive: a comment line (invisible to the lexer), matched exactly after
/// trimming.
pub const CAP_DIRECTIVE: &'static str = "// sigil:cap-access-control";

/// A line without the `\r` of a `\r\n` ending.
pub open spec fn strip_cr(l: Seq<char>) -> Seq<char> {
    if l.len() > 0 && l.last() == '\r' {
        l.drop_last()
    } else {
        l
    }
}

/// The lines of `s`, after the partial line `cur` already read: each `\n` ends a line
/// (dropping a `\r` just before it), and a non-empty rest without `\n` is a last line.
pub open spec fn lines_after(s: Seq<char>, cur: Seq<char>) -> Seq<Seq<char>>
    decreases s.len(),
{
    if s.len() == 0 {
        if cur.len() == 0 {
            seq![]
        } else {
            seq![cur]
        }
    } else if s[0] == '\n' {
        seq![strip_cr(cur)] + lines_after(s.drop_first(), seq![])
    } else {
        lines_after(s.drop_first(), cur.push(s[0]))
    }
}

/// The lines of a text: split at `\n` or `\r\n`, without the line endings; a final line
/// ending adds no empty line.
pub open spec fn line_texts(s: Seq<char>) -> Seq<Seq<char>> {
    lines_after(s, seq![])
}

/// std `str::lines`: the lines of a text, split at `\n` or `\r\n`, line endings removed.
#[verifier::external_body]
fn str_lines<'a>(s: &'a str) -> (r: Vec<&'a str>)
    ensures
        r@.len() == line_texts(s@).len(),
        forall|k: int| 0 <= k < r@.len() ==> (#[trigger] r@[k])@ == line_texts(s@)[k],
{
    s.lines().collect()
}

/// Whether some line of the source, trimmed, is exactly the capability directive.
pub fn detect_cap_directive(src: &str) -> (r: bool)
    ensures
        r == exists|k: int| 0 <= k < line_texts(src@).len() && trimmed(#[trigger] line_texts(src@)[k])
            == CAP_DIRECTIVE@,
{
    let lines = str_lines(src);
    let mut k: usize = 0;
    while k < lines.len()
        invariant
            k <= lines@.len() == line_texts(src@).len(),
            forall|j: int| 0 <= j < lines@.len() ==> (#[trigger] lines@[j])@ == line_texts(src@)[j],
            forall|j: int| 0 <= j < k ==> trimmed(#[trigger] line_texts(src@)[j]) != CAP_DIRECTIVE@,
        decreases lines@.len() - k,
    {
        let t = str_trim(lines[k]);
        if str_eq(t, CAP_DIRECTIVE) {
            assert(trimmed(line_texts(src@)[k as int]) == CAP_DIRECTIVE@);
            return true;
        }
        k = k + 1;
    }
    false
}

// ── `msg.sender` and field uses ──────────────────────────────────────────────

/// `msg.sender`.
pub open spec fn is_sender(e: Expr) -> bool {
    match e {
        Expr::Member(base, member, _) => member@ == "sender"@ && (*base matches Expr::Var(n, _) && n@
            == "msg"@),
        _ => false,
    }
}

/// `e` mentions `msg.sender` somewhere.
pub open spec fn expr_mentions_sender(e: Expr) -> bool
    decreases e,
{
    is_sender(e) || match e {
        Expr::Member(b, _, _) => expr_mentions_sender(*b),
        Expr::Unary(_, b, _) => expr_mentions_sender(*b),
        Expr::Index(b, k, _) => expr_mentions_sender(*b) || expr_mentions_sender(*k),
        Expr::Bin(_, l, r, _) => expr_mentions_sender(*l) || expr_mentions_sender(*r),
        Expr::Call(c, args, _) => expr_mentions_sender(*c) || exists|k: int| 0 <= k < args@.len()
            && expr_mentions_sender(#[trigger] args@[k]),
        _ => false,
    }
}

/// A statement reads `msg.sender` in any expression position (descending into `if`
/// branches and the airdrop loop body).
pub open spec fn stmt_uses_sender(s: Stmt) -> bool
    decreases s,
{
    match s {
        Stmt::Require { cond, .. } => expr_mentions_sender(cond),
        Stmt::Assert { cond, .. } => expr_mentions_sender(cond),
        Stmt::Assign { value, .. } => expr_mentions_sender(value),
        Stmt::LocalVar { value, .. } => expr_mentions_sender(value),
        Stmt::IndexAssign { key, value, .. } => expr_mentions_sender(key) || expr_mentions_sender(value),
        Stmt::IndexAssign2 { k1, k2, value, .. } => expr_mentions_sender(k1) || expr_mentions_sender(k2)
            || expr_mentions_sender(value),
        Stmt::FieldAssign { value, .. } => expr_mentions_sender(value),
        Stmt::MapTransfer { from, to, amount, .. } => expr_mentions_sender(from) || expr_mentions_sender(to)
            || expr_mentions_sender(amount),
        Stmt::Return { value, .. } => match value {
            Some(v) => expr_mentions_sender(v),
            None => false,
        },
        Stmt::If { cond, then_body, else_body, .. } => expr_mentions_sender(cond) || (exists|k: int|
            0 <= k < then_body@.len() && stmt_uses_sender(#[trigger] then_body@[k])) || (exists|k: int|
            0 <= k < else_body@.len() && stmt_uses_sender(#[trigger] else_body@[k])),
        Stmt::CallStmt { args, .. } => exists|k: int| 0 <= k < args@.len() && expr_mentions_sender(
            #[trigger] args@[k],
        ),
        Stmt::AirdropLoop { body, .. } => exists|k: int| 0 <= k < body@.len() && stmt_uses_sender(
            #[trigger] body@[k],
        ),
        _ => false,
    }
}

/// Some statement of the list reads `msg.sender`.
pub open spec fn body_uses_sender(stmts: Seq<Stmt>) -> bool {
    exists|k: int| 0 <= k < stmts.len() && stmt_uses_sender(#[trigger] stmts[k])
}

fn is_msg_sender(e: &Expr) -> (r: bool)
    ensures
        r == is_sender(*e),
{
    match e {
        Expr::Member(base, member, _) => string_eq_str(member, "sender") && match &**base {
            Expr::Var(n, _) => string_eq_str(n, "msg"),
            _ => false,
        },
        _ => false,
    }
}

fn expr_mentions_msg_sender(e: &Expr) -> (r: bool)
    ensures
        r == expr_mentions_sender(*e),
    decreases e,
{
    if is_msg_sender(e) {
        return true;
    }
    match e {
        Expr::Member(b, _, _) => expr_mentions_msg_sender(b),
        Expr::Unary(_, b, _) => expr_mentions_msg_sender(b),
        Expr::Index(b, k, _) => expr_mentions_msg_sender(b) || expr_mentions_msg_sender(k),
        Expr::Bin(_, l, r, _) => expr_mentions_msg_sender(l) || expr_mentions_msg_sender(r),
        Expr::Call(c, args, _) => {
            if expr_mentions_msg_sender(c) {
                return true;
            }
            let mut k: usize = 0;
            while k < args.len()
                invariant
                    k <= args@.len(),
                    *e == Expr::Call(*c, *args, e.spec_span()),
                    forall|j: int| 0 <= j < k ==> !expr_mentions_sender(#[trigger] args@[j]),
                decreases args@.len() - k,
            {
                proof {
                    assert(decreases_to!(*e => (*e)->Call_1));
                    assert(decreases_to!(*args => args[k as int]));
                }
                if expr_mentions_msg_sender(&args[k]) {
                    return true;
                }
                k = k + 1;
            }
            false
        },
        _ => false,
    }
}

fn any_mentions_msg_sender(args: &Vec<Expr>) -> (r: bool)
    ensures
        r == exists|k: int| 0 <= k < args@.len() && expr_mentions_sender(#[trigger] args@[k]),
{
    let mut k: usize = 0;
    while k < args.len()
        invariant
            k <= args@.len(),
            forall|j: int| 0 <= j < k ==> !expr_mentions_sender(#[trigger] args@[j]),
        decreases args@.len() - k,
    {
        if expr_mentions_msg_sender(&args[k]) {
            return true;
        }
        k = k + 1;
    }
    false
}

fn stmt_uses_msg_sender(s: &Stmt) -> (r: bool)
    ensures
        r == stmt_uses_sender(*s),
    decreases s,
{
    match s {
        Stmt::Require { cond, .. } => expr_mentions_msg_sender(cond),
        Stmt::Assert { cond, .. } => expr_mentions_msg_sender(cond),
        Stmt::Assign { value, .. } => expr_mentions_msg_sender(value),
        Stmt::LocalVar { value, .. } => expr_mentions_msg_sender(value),
        Stmt::IndexAssign { key, value, .. } => expr_mentions_msg_sender(key) || expr_mentions_msg_sender(value),
        Stmt::IndexAssign2 { k1, k2, value, .. } => expr_mentions_msg_sender(k1) || expr_mentions_msg_sender(k2)
            || expr_mentions_msg_sender(value),
        Stmt::FieldAssign { value, .. } => expr_mentions_msg_sender(value),
        Stmt::MapTransfer { from, to, amount, .. } => expr_mentions_msg_sender(from) || expr_mentions_msg_sender(to)
            || expr_mentions_msg_sender(amount),
        Stmt::Return { value, .. } => match value {
            Some(v) => expr_mentions_msg_sender(v),
            None => false,
        },
        Stmt::If { cond, then_body, else_body, .. } => {
            proof {
                assert(decreases_to!(*s => (*s)->If_then_body));
                assert(decreases_to!(*s => (*s)->If_else_body));
            }
            expr_mentions_msg_sender(cond) || body_uses_msg_sender(then_body) || body_uses_msg_sender(else_body)
        },
        Stmt::CallStmt { args, .. } => any_mentions_msg_sender(args),
        Stmt::AirdropLoop { body, .. } => {
            proof {
                assert(decreases_to!(*s => (*s)->AirdropLoop_body));
            }
            body_uses_msg_sender(body)
        },
        _ => false,
    }
}

/// Whether some statement of the list reads `msg.sender`.
fn body_uses_msg_sender(stmts: &Vec<Stmt>) -> (r: bool)
    ensures
        r == body_uses_sender(stmts@),
    decreases stmts,
{
    let mut k: usize = 0;
    while k < stmts.len()
        invariant
            k <= stmts@.len(),
            forall|j: int| 0 <= j < k ==> !stmt_uses_sender(#[trigger] stmts@[j]),
        decreases stmts@.len() - k,
    {
        proof {
            assert(decreases_to!(*stmts => stmts[k as int]));
        }
        if stmt_uses_msg_sender(&stmts[k]) {
            return true;
        }
        k = k + 1;
    }
    false
}


/// `e` reads the name `f` somewhere.
pub open spec fn expr_refs(e: Expr, f: Seq<char>) -> bool
    decreases e,
{
    match e {
        Expr::Var(name, _) => name@ == f,
        Expr::Member(b, _, _) => expr_refs(*b, f),
        Expr::Unary(_, b, _) => expr_refs(*b, f),
        Expr::Index(b, k, _) => expr_refs(*b, f) || expr_refs(*k, f),
        Expr::Bin(_, l, r, _) => expr_refs(*l, f) || expr_refs(*r, f),
        Expr::Call(c, args, _) => expr_refs(*c, f) || exists|k: int| 0 <= k < args@.len() && expr_refs(
            #[trigger] args@[k],
            f,
        ),
        _ => false,
    }
}

/// A statement names `f` in its own expressions or as a written target.
pub open spec fn stmt_direct_ref(s: Stmt, f: Seq<char>) -> bool {
    match s {
        Stmt::Require { cond, .. } => expr_refs(cond, f),
        Stmt::Assert { cond, .. } => expr_refs(cond, f),
        Stmt::Assign { target, value, .. } => target@ == f || expr_refs(value, f),
        Stmt::IndexAssign { map, key, value, .. } => map@ == f || expr_refs(key, f) || expr_refs(value, f),
        Stmt::IndexAssign2 { map, k1, k2, value, .. } => map@ == f || expr_refs(k1, f) || expr_refs(k2, f)
            || expr_refs(value, f),
        Stmt::FieldAssign { obj, value, .. } => obj@ == f || expr_refs(value, f),
        Stmt::LocalVar { value, .. } => expr_refs(value, f),
        Stmt::MapTransfer { map, from, to, amount, .. } => map@ == f || expr_refs(from, f) || expr_refs(to, f)
            || expr_refs(amount, f),
        Stmt::Return { value, .. } => match value {
            Some(v) => expr_refs(v, f),
            None => false,
        },
        Stmt::If { cond, .. } => expr_refs(cond, f),
        Stmt::CallStmt { args, .. } => exists|k: int| 0 <= k < args@.len() && expr_refs(#[trigger] args@[k], f),
        _ => false,
    }
}

/// Where a statement names `f`: its own span when it names it directly, else the first
/// nested statement (of the `if` branches, then-branch first, or the airdrop loop body)
/// that does.
pub open spec fn stmt_ref_span(s: Stmt, f: Seq<char>) -> Option<Range<usize>>
    decreases s,
{
    if stmt_direct_ref(s, f) {
        Some(s.spec_span())
    } else {
        match s {
            Stmt::If { then_body, else_body, .. } => {
                proof {
                    assert(decreases_to!(s => then_body));
                    assert(decreases_to!(then_body => then_body@));
                    assert(decreases_to!(s => else_body));
                    assert(decreases_to!(else_body => else_body@));
                }
                match stmts_ref_span(then_body@, f) {
                    Some(sp) => Some(sp),
                    None => stmts_ref_span(else_body@, f),
                }
            },
            Stmt::AirdropLoop { body, .. } => {
                proof {
                    assert(decreases_to!(s => body));
                    assert(decreases_to!(body => body@));
                }
                stmts_ref_span(body@, f)
            },
            _ => None,
        }
    }
}

/// The reference span of the first statement of the list that names `f`.
pub open spec fn stmts_ref_span(stmts: Seq<Stmt>, f: Seq<char>) -> Option<Range<usize>>
    decreases stmts,
{
    if stmts.len() == 0 {
        None
    } else {
        match stmt_ref_span(stmts[0], f) {
            Some(sp) => Some(sp),
            None => stmts_ref_span(stmts.subrange(1, stmts.len() as int), f),
        }
    }
}

/// Skipping statements that do not name `f` leaves the first reference unchanged.
proof fn lemma_skip_unreferenced(stmts: Seq<Stmt>, f: Seq<char>, k: int)
    requires
        0 <= k <= stmts.len(),
        forall|j: int| 0 <= j < k ==> (#[trigger] stmt_ref_span(stmts[j], f)) is None,
    ensures
        stmts_ref_span(stmts, f) == stmts_ref_span(stmts.subrange(k, stmts.len() as int), f),
    decreases k,
{
    if k == 0 {
        assert(stmts.subrange(0, stmts.len() as int) =~= stmts);
    } else {
        let rest = stmts.subrange(1, stmts.len() as int);
        assert(stmt_ref_span(stmts[0], f) is None);
        assert forall|j: int| 0 <= j < k - 1 implies (#[trigger] stmt_ref_span(rest[j], f)) is None by {
            assert(rest[j] == stmts[j + 1]);
            assert(stmt_ref_span(stmts[j + 1], f) is None);
        }
        lemma_skip_unreferenced(rest, f, k - 1);
        assert(rest.subrange(k - 1, rest.len() as int) =~= stmts.subrange(k, stmts.len() as int));
    }
}

fn expr_references_field(e: &Expr, field: &str) -> (r: bool)
    ensures
        r == expr_refs(*e, field@),
    decreases e,
{
    match e {
        Expr::Var(name, _) => string_eq_str(name, field),
        Expr::Member(b, _, _) => expr_references_field(b, field),
        Expr::Unary(_, b, _) => expr_references_field(b, field),
        Expr::Index(b, k, _) => expr_references_field(b, field) || expr_references_field(k, field),
        Expr::Bin(_, l, r, _) => expr_references_field(l, field) || expr_references_field(r, field),
        Expr::Call(c, args, _) => {
            if expr_references_field(c, field) {
                return true;
            }
            let mut k: usize = 0;
            while k < args.len()
                invariant
                    k <= args@.len(),
                    *e == Expr::Call(*c, *args, e.spec_span()),
                    forall|j: int| 0 <= j < k ==> !expr_refs(#[trigger] args@[j], field@),
                decreases args@.len() - k,
            {
                proof {
                    assert(decreases_to!(*e => (*e)->Call_1));
                    assert(decreases_to!(*args => args[k as int]));
                }
                if expr_references_field(&args[k], field) {
                    return true;
                }
                k = k + 1;
            }
            false
        },
        _ => false,
    }
}

fn any_references_field(args: &Vec<Expr>, field: &str) -> (r: bool)
    ensures
        r == exists|k: int| 0 <= k < args@.len() && expr_refs(#[trigger] args@[k], field@),
{
    let mut k: usize = 0;
    while k < args.len()
        invariant
            k <= args@.len(),
            forall|j: int| 0 <= j < k ==> !expr_refs(#[trigger] args@[j], field@),
        decreases args@.len() - k,
    {
        if expr_references_field(&args[k], field) {
            return true;
        }
        k = k + 1;
    }
    false
}

/// The span of a statement.
pub fn stmt_span(s: &Stmt) -> (r: Range<usize>)
    ensures
        r == s.spec_span(),
{
    match s {
        Stmt::Require { span, .. } => copy_span(span),
        Stmt::Assert { span, .. } => copy_span(span),
        Stmt::Revert { span } => copy_span(span),
        Stmt::Assign { span, .. } => copy_span(span),
        Stmt::IndexAssign { span, .. } => copy_span(span),
        Stmt::IndexAssign2 { span, .. } => copy_span(span),
        Stmt::FieldAssign { span, .. } => copy_span(span),
        Stmt::MapTransfer { span, .. } => copy_span(span),
        Stmt::Erc20TransferFrom { span, .. } => copy_span(span),
        Stmt::LocalVar { span, .. } => copy_span(span),
        Stmt::If { span, .. } => copy_span(span),
        Stmt::Return { span, .. } => copy_span(span),
        Stmt::Unchecked { span, .. } => copy_span(span),
        Stmt::Placeholder { span } => copy_span(span),
        Stmt::CallStmt { span, .. } => copy_span(span),
        Stmt::ReservedBatch { span, .. } => copy_span(span),
        Stmt::MapSplitTransfer { span, .. } => copy_span(span),
        Stmt::Erc20Update { span, .. } => copy_span(span),
        Stmt::AirdropLoop { span, .. } => copy_span(span),
        Stmt::BatchTransfer { span, .. } => copy_span(span),
    }
}

/// Where a statement names `field` (its own span, or the first nested use), if it does.
fn stmt_references_field(s: &Stmt, field: &str) -> (r: Option<Range<usize>>)
    ensures
        r == stmt_ref_span(*s, field@),
    decreases s,
{
    let direct = match s {
        Stmt::Require { cond, .. } => expr_references_field(cond, field),
        Stmt::Assert { cond, .. } => expr_references_field(cond, field),
        Stmt::Assign { target, value, .. } => string_eq_str(target, field) || expr_references_field(value, field),
        Stmt::IndexAssign { map, key, value, .. } => string_eq_str(map, field) || expr_references_field(key, field)
            || expr_references_field(value, field),
        Stmt::IndexAssign2 { map, k1, k2, value, .. } => string_eq_str(map, field) || expr_references_field(k1, field)
            || expr_references_field(k2, field) || expr_references_field(value, field),
        Stmt::FieldAssign { obj, value, .. } => string_eq_str(obj, field) || expr_references_field(value, field),
        Stmt::LocalVar { value, .. } => expr_references_field(value, field),
        Stmt::MapTransfer { map, from, to, amount, .. } => string_eq_str(map, field) || expr_references_field(from, field)
            || expr_references_field(to, field) || expr_references_field(amount, field),
        Stmt::Return { value, .. } => match value {
            Some(v) => expr_references_field(v, field),
            None => false,
        },
        Stmt::If { cond, .. } => expr_references_field(cond, field),
        Stmt::CallStmt { args, .. } => any_references_field(args, field),
        _ => false,
    };
    if direct {
        return Some(stmt_span(s));
    }
    match s {
        Stmt::If { then_body, else_body, .. } => {
            proof {
                assert(decreases_to!(*s => (*s)->If_then_body));
                assert(decreases_to!(*s => (*s)->If_else_body));
            }
            match first_reference(then_body, field) {
                Some(sp) => Some(sp),
                None => first_reference(else_body, field),
            }
        },
        Stmt::AirdropLoop { body, .. } => {
            proof {
                assert(decreases_to!(*s => (*s)->AirdropLoop_body));
            }
            first_reference(body, field)
        },
        _ => None,
    }
}

/// The first statement of the list that names `field`, by its reference span.
pub(crate) fn first_reference(stmts: &Vec<Stmt>, field: &str) -> (r: Option<Range<usize>>)
    ensures
        r == stmts_ref_span(stmts@, field@),
    decreases stmts,
{
    let mut k: usize = 0;
    while k < stmts.len()
        invariant
            k <= stmts@.len(),
            forall|j: int| 0 <= j < k ==> (#[trigger] stmt_ref_span(stmts@[j], field@)) is None,
        decreases stmts@.len() - k,
    {
        proof {
            assert(decreases_to!(*stmts => stmts[k as int]));
        }
        match stmt_references_field(&stmts[k], field) {
            Some(sp) => {
                proof {
                    lemma_skip_unreferenced(stmts@, field@, k as int);
                    let rest = stmts@.subrange(k as int, stmts@.len() as int);
                    assert(rest[0] == stmts@[k as int]);
                }
                return Some(sp);
            },
            None => {},
        }
        k = k + 1;
    }
    proof {
        lemma_skip_unreferenced(stmts@, field@, k as int);
    }
    None
}

// ── Owner-gate recognition ───────────────────────────────────────────────────

/// What the capability pass recognized: the access-controlling address field and the
/// functions gated by an `onlyOwner`-shaped modifier (each name once).
#[derive(Debug)]
pub struct CapGuardInfo {
    pub owner_field: String,
    pub guarded_methods: Vec<String>,
}

/// How a modifier relates to the owner gate.
enum GateClass {
    /// The exact `require(msg.sender == F); _;` gate over the address field `F`.
    Gate(String),
    /// Reads `msg.sender` without being the exact gate shape.
    NearMiss,
    /// Does not read `msg.sender`: an ordinary modifier.
    Other,
}

/// Some name of the list is `n`.
pub open spec fn names_has(v: Seq<String>, n: Seq<char>) -> bool {
    exists|i: int| 0 <= i < v.len() && (#[trigger] v[i])@ == n
}

/// No name of the list occurs twice.
pub open spec fn names_distinct(v: Seq<String>) -> bool {
    forall|i: int, j: int| 0 <= i < j < v.len() ==> (#[trigger] v[i])@ != (#[trigger] v[j])@
}

/// The contract has a state variable `n` of the scalar type `address`.
pub open spec fn is_addr_field(c: Contract, n: Seq<char>) -> bool {
    exists|i: int|
        #![trigger c.state@[i]]
        0 <= i < c.state@.len() && c.state@[i].name@ == n && (c.state@[i].ty matches TypeRef::Scalar {
            name,
            ..
        } && name@ == "address"@)
}

/// `a == b` as a gate test: `a` is `msg.sender` and `b` names an address field.
pub open spec fn gate_operand(c: Contract, a: Expr, b: Expr) -> Option<Seq<char>> {
    match b {
        Expr::Var(n, _) => if is_sender(a) && is_addr_field(c, n@) {
            Some(n@)
        } else {
            None
        },
        _ => None,
    }
}

/// The address field that `l == r` compares `msg.sender` with, in either operand order.
pub open spec fn gate_of(c: Contract, l: Expr, r: Expr) -> Option<Seq<char>> {
    match gate_operand(c, l, r) {
        Some(n) => Some(n),
        None => gate_operand(c, r, l),
    }
}

/// The owner field of a modifier whose body is exactly `require(msg.sender == F); _;`.
pub open spec fn gate_field_spec(c: Contract, m: Modifier) -> Option<Seq<char>> {
    if m.body@.len() == 2 && m.body@[1] is Placeholder {
        match m.body@[0] {
            Stmt::Require { cond, .. } => match cond {
                Expr::Bin(op, l, r, _) => if op == BinOp::Eq {
                    gate_of(c, *l, *r)
                } else {
                    None
                },
                _ => None,
            },
            _ => None,
        }
    } else {
        None
    }
}

/// The owner field that the `k`-th modifier gates on.
pub open spec fn mod_gate(c: Contract, k: int) -> Option<Seq<char>> {
    gate_field_spec(c, c.modifiers@[k])
}

/// The modifiers from the `k`-th on, with owner field `g` found so far: the final owner
/// field, or the index of the first modifier that is rejected (a near miss, or a gate over
/// a second field).
pub open spec fn scan_mods(c: Contract, k: int, g: Option<Seq<char>>) -> Result<Option<Seq<char>>, int>
    decreases c.modifiers@.len() - k,
{
    if k < 0 || k >= c.modifiers@.len() {
        Ok(g)
    } else {
        match mod_gate(c, k) {
            Some(f) => if g matches Some(p) && p != f {
                Err(k)
            } else {
                scan_mods(c, k + 1, Some(f))
            },
            None => if body_uses_sender(c.modifiers@[k].body@) {
                Err(k)
            } else {
                scan_mods(c, k + 1, g)
            },
        }
    }
}

/// `n` names a gate modifier.
pub open spec fn is_gate_name(c: Contract, n: Seq<char>) -> bool {
    exists|k: int|
        #![trigger c.modifiers@[k]]
        0 <= k < c.modifiers@.len() && mod_gate(c, k) is Some && c.modifiers@[k].name@ == n
}

/// The function applies a gate modifier.
pub open spec fn applies_gate(c: Contract, f: Function) -> bool {
    exists|i: int| 0 <= i < f.modifiers@.len() && is_gate_name(c, (#[trigger] f.modifiers@[i]).name@)
}

/// Some function named `n` applies a gate modifier.
pub open spec fn is_guarded_name(c: Contract, n: Seq<char>) -> bool {
    exists|j: int|
        #![trigger c.functions@[j]]
        0 <= j < c.functions@.len() && applies_gate(c, c.functions@[j]) && c.functions@[j].name@ == n
}

/// The first function from the `k`-th on that applies a gate beside another modifier.
pub open spec fn first_mixed(c: Contract, k: int) -> Option<int>
    decreases c.functions@.len() - k,
{
    if k < 0 || k >= c.functions@.len() {
        None
    } else if applies_gate(c, c.functions@[k]) && c.functions@[k].modifiers@.len() != 1 {
        Some(k)
    } else {
        first_mixed(c, k + 1)
    }
}

/// The first function from the `k`-th on that bears a guarded name and reads `msg.sender`.
pub open spec fn first_leak(c: Contract, k: int) -> Option<int>
    decreases c.functions@.len() - k,
{
    if k < 0 || k >= c.functions@.len() {
        None
    } else if is_guarded_name(c, c.functions@[k].name@) && body_uses_sender(c.functions@[k].body@) {
        Some(k)
    } else {
        first_leak(c, k + 1)
    }
}

/// The first state variable from the `k`-th on named `o`.
pub open spec fn first_state_named(c: Contract, o: Seq<char>, k: int) -> Option<int>
    decreases c.state@.len() - k,
{
    if k < 0 || k >= c.state@.len() {
        None
    } else if c.state@[k].name@ == o {
        Some(k)
    } else {
        first_state_named(c, o, k + 1)
    }
}

/// The first use of `o` in a function body, from the `k`-th function on.
pub open spec fn fn_field_use(c: Contract, o: Seq<char>, k: int) -> Option<Range<usize>>
    decreases c.functions@.len() - k,
{
    if k < 0 || k >= c.functions@.len() {
        None
    } else {
        match stmts_ref_span(c.functions@[k].body@, o) {
            Some(sp) => Some(sp),
            None => fn_field_use(c, o, k + 1),
        }
    }
}

/// The first state variable, from the `k`-th on, whose initializer reads `o`.
pub open spec fn state_field_use(c: Contract, o: Seq<char>, k: int) -> Option<int>
    decreases c.state@.len() - k,
{
    if k < 0 || k >= c.state@.len() {
        None
    } else if c.state@[k].init matches Some(e) && expr_refs(e, o) {
        Some(k)
    } else {
        state_field_use(c, o, k + 1)
    }
}

/// The first use of `o` in the body of a modifier that is not a gate, from the `k`-th on.
pub open spec fn mod_field_use(c: Contract, o: Seq<char>, k: int) -> Option<Range<usize>>
    decreases c.modifiers@.len() - k,
{
    if k < 0 || k >= c.modifiers@.len() {
        None
    } else if is_gate_name(c, c.modifiers@[k].name@) {
        mod_field_use(c, o, k + 1)
    } else {
        match stmts_ref_span(c.modifiers@[k].body@, o) {
            Some(sp) => Some(sp),
            None => mod_field_use(c, o, k + 1),
        }
    }
}

/// Where the owner field `o` is used outside every gate modifier: functions first, then
/// state initializers, then the other modifiers.
pub open spec fn field_use(c: Contract, o: Seq<char>) -> Option<Range<usize>> {
    match fn_field_use(c, o, 0) {
        Some(sp) => Some(sp),
        None => match state_field_use(c, o, 0) {
            Some(i) => Some(c.state@[i].span),
            None => mod_field_use(c, o, 0),
        },
    }
}

/// What recognition answers once the modifiers agree on the owner field `o`.
pub open spec fn owner_verdict(c: Contract, o: Seq<char>, r: Result<Option<CapGuardInfo>, FrontendDiag>) -> bool {
    if first_state_named(c, o, 0) matches Some(i) && c.state@[i].init is Some {
        r matches Err(d) && d.code == codes::FE454_ADDRESS_USED_AS_DATA_SOL && d.span == c.state@[first_state_named(
            c,
            o,
            0,
        )->0].span
    } else if first_mixed(c, 0) is Some {
        r matches Err(d) && d.code == codes::FE455_CAP_NEAR_MISS_SOL && d.span == c.functions@[first_mixed(
            c,
            0,
        )->0].span
    } else if !(exists|j: int|
        #![trigger c.functions@[j]]
        0 <= j < c.functions@.len() && applies_gate(c, c.functions@[j])) {
        r matches Ok(None)
    } else if first_leak(c, 0) is Some {
        r matches Err(d) && d.code == codes::FE454_ADDRESS_USED_AS_DATA_SOL && d.span == c.functions@[first_leak(
            c,
            0,
        )->0].span
    } else if field_use(c, o) is Some {
        r matches Err(d) && d.code == codes::FE454_ADDRESS_USED_AS_DATA_SOL && Some(d.span) == field_use(c, o)
    } else {
        r matches Ok(Some(info)) && info.owner_field@ == o && names_distinct(info.guarded_methods@) && (forall|n: Seq<
            char,
        >| names_has(info.guarded_methods@, n) <==> is_guarded_name(c, n))
    }
}

/// What recognition answers in capability mode for a contract without a constructor.
pub open spec fn cap_verdict(c: Contract, r: Result<Option<CapGuardInfo>, FrontendDiag>) -> bool {
    match scan_mods(c, 0, None) {
        Err(k) => r matches Err(d) && d.code == (if mod_gate(c, k) is Some {
            codes::FE456_MULTIPLE_OWNER_AUTHORITIES_SOL
        } else {
            codes::FE455_CAP_NEAR_MISS_SOL
        }) && d.span == c.modifiers@[k].span,
        Ok(None) => r matches Ok(None),
        Ok(Some(o)) => owner_verdict(c, o, r),
    }
}

pub(crate) fn name_in(v: &Vec<String>, n: &str) -> (r: bool)
    ensures
        r == names_has(v@, n@),
{
    let mut i: usize = 0;
    while i < v.len()
        invariant
            i <= v@.len(),
            forall|j: int| 0 <= j < i ==> (#[trigger] v@[j])@ != n@,
        decreases v@.len() - i,
    {
        if string_eq_str(&v[i], n) {
            return true;
        }
        i = i + 1;
    }
    false
}

fn is_address_field(c: &Contract, n: &String) -> (r: bool)
    ensures
        r == is_addr_field(*c, n@),
{
    let mut i: usize = 0;
    while i < c.state.len()
        invariant
            i <= c.state@.len(),
            forall|j: int|
                #![trigger c.state@[j]]
                0 <= j < i ==> !(c.state@[j].name@ == n@ && (c.state@[j].ty matches TypeRef::Scalar {
                    name,
                    ..
                } && name@ == "address"@)),
        decreases c.state@.len() - i,
    {
        let sv = &c.state[i];
        if string_eq_str(&sv.name, n.as_str()) {
            match &sv.ty {
                TypeRef::Scalar { name, .. } => {
                    if string_eq_str(name, "address") {
                        return true;
                    }
                },
                _ => {},
            }
        }
        i = i + 1;
    }
    false
}

fn gate_operand_of(c: &Contract, a: &Expr, b: &Expr) -> (r: Option<String>)
    ensures
        r matches Some(n) ==> gate_operand(*c, *a, *b) == Some(n@),
        r is None ==> gate_operand(*c, *a, *b) is None,
{
    match b {
        Expr::Var(n, _) => {
            if is_msg_sender(a) && is_address_field(c, n) {
                Some(clone_string(n))
            } else {
                None
            }
        },
        _ => None,
    }
}

/// If one of `l`/`r` is `msg.sender` and the other names an address field, that field.
fn gate_field_of(c: &Contract, l: &Expr, r: &Expr) -> (res: Option<String>)
    ensures
        res matches Some(n) ==> gate_of(*c, *l, *r) == Some(n@),
        res is None ==> gate_of(*c, *l, *r) is None,
{
    match gate_operand_of(c, l, r) {
        Some(n) => Some(n),
        None => gate_operand_of(c, r, l),
    }
}

/// A modifier is a gate when its body is exactly `require(msg.sender == F); _;` over an
/// address field `F`, in either operand order; otherwise reading `msg.sender` makes it a
/// near miss.
fn classify_gate_modifier(c: &Contract, m: &Modifier) -> (r: GateClass)
    ensures
        match gate_field_spec(*c, *m) {
            Some(f) => r matches GateClass::Gate(g) && g@ == f,
            None => if body_uses_sender(m.body@) {
                r is NearMiss
            } else {
                r is Other
            },
        },
{
    if m.body.len() == 2 {
        match &m.body[1] {
            Stmt::Placeholder { .. } => {
                match &m.body[0] {
                    Stmt::Require { cond, .. } => {
                        match cond {
                            Expr::Bin(op, l, r, _) => {
                                match op {
                                    BinOp::Eq => {
                                        match gate_field_of(c, l, r) {
                                            Some(f) => {
                                                return GateClass::Gate(f);
                                            },
                                            None => {},
                                        }
                                    },
                                    _ => {},
                                }
                            },
                            _ => {},
                        }
                    },
                    _ => {},
                }
            },
            _ => {},
        }
    }
    if body_uses_msg_sender(&m.body) {
        GateClass::NearMiss
    } else {
        GateClass::Other
    }
}

fn applies_gate_exec(c: &Contract, f: &Function, gate_mods: &Vec<String>) -> (r: bool)
    requires
        forall|n: Seq<char>| names_has(gate_mods@, n) <==> is_gate_name(*c, n),
    ensures
        r == applies_gate(*c, *f),
{
    let mut i: usize = 0;
    while i < f.modifiers.len()
        invariant
            i <= f.modifiers@.len(),
            forall|n: Seq<char>| names_has(gate_mods@, n) <==> is_gate_name(*c, n),
            forall|j: int| 0 <= j < i ==> !is_gate_name(*c, (#[trigger] f.modifiers@[j]).name@),
        decreases f.modifiers@.len() - i,
    {
        if name_in(gate_mods, f.modifiers[i].name.as_str()) {
            return true;
        }
        i = i + 1;
    }
    false
}

fn fe454(span: Range<usize>) -> (d: FrontendDiag)
    ensures
        d.code == codes::FE454_ADDRESS_USED_AS_DATA_SOL,
        d.span == span,
{
    FrontendDiag::new(
        codes::FE454_ADDRESS_USED_AS_DATA_SOL,
        "cap-mode: the access-controlling address field is used outside the `onlyOwner` gate; capabilities translate an address used purely as an authorization gate",
        span,
    )
}

/// The owner field may appear only inside gate modifiers: any use in a function body, a
/// state initializer or another modifier is rejected (FE454) at its first site.
fn check_field_only_in_gate(c: &Contract, field: &str, gate_mods: &Vec<String>) -> (r: Result<(), FrontendDiag>)
    requires
        forall|n: Seq<char>| names_has(gate_mods@, n) <==> is_gate_name(*c, n),
    ensures
        r is Ok <==> field_use(*c, field@) is None,
        r matches Err(d) ==> d.code == codes::FE454_ADDRESS_USED_AS_DATA_SOL && Some(d.span) == field_use(
            *c,
            field@,
        ),
{
    let mut k: usize = 0;
    while k < c.functions.len()
        invariant
            k <= c.functions@.len(),
            fn_field_use(*c, field@, 0) == fn_field_use(*c, field@, k as int),
        decreases c.functions@.len() - k,
    {
        match first_reference(&c.functions[k].body, field) {
            Some(sp) => {
                return Err(fe454(sp));
            },
            None => {},
        }
        k = k + 1;
    }
    let mut k: usize = 0;
    while k < c.state.len()
        invariant
            k <= c.state@.len(),
            fn_field_use(*c, field@, 0) is None,
            state_field_use(*c, field@, 0) == state_field_use(*c, field@, k as int),
        decreases c.state@.len() - k,
    {
        let sv = &c.state[k];
        match &sv.init {
            Some(init) => {
                if expr_references_field(init, field) {
                    return Err(fe454(copy_span(&sv.span)));
                }
            },
            None => {},
        }
        k = k + 1;
    }
    let mut k: usize = 0;
    while k < c.modifiers.len()
        invariant
            k <= c.modifiers@.len(),
            fn_field_use(*c, field@, 0) is None,
            state_field_use(*c, field@, 0) is None,
            forall|n: Seq<char>| names_has(gate_mods@, n) <==> is_gate_name(*c, n),
            mod_field_use(*c, field@, 0) == mod_field_use(*c, field@, k as int),
        decreases c.modifiers@.len() - k,
    {
        let m = &c.modifiers[k];
        if !name_in(gate_mods, m.name.as_str()) {
            match first_reference(&m.body, field) {
                Some(sp) => {
                    return Err(fe454(sp));
                },
                None => {},
            }
        }
        k = k + 1;
    }
    Ok(())
}

pub open spec fn opt_view(o: Option<String>) -> Option<Seq<char>> {
    match o {
        Some(s) => Some(s@),
        None => None,
    }
}

/// Adding a name to a list adds exactly that name.
pub(crate) proof fn lemma_names_push(v: Seq<String>, s: String)
    ensures
        forall|n: Seq<char>| #[trigger] names_has(v.push(s), n) <==> (names_has(v, n) || s@ == n),
{
    let w = v.push(s);
    assert forall|n: Seq<char>| names_has(w, n) <==> (names_has(v, n) || s@ == n) by {
        if names_has(w, n) {
            let i = choose|i: int| 0 <= i < w.len() && (#[trigger] w[i])@ == n;
            if i < v.len() {
                assert(w[i] == v[i]);
            }
        }
        if names_has(v, n) {
            let i = choose|i: int| 0 <= i < v.len() && (#[trigger] v[i])@ == n;
            assert(w[i] == v[i]);
        }
        if s@ == n {
            assert(w[v.len() as int] == s);
        }
    }
}

/// Classifies every modifier in order: the owner field that all gates agree on and the names of
/// every gate modifier, or the first rejected modifier (FE456 for a gate over a second
/// field, FE455 for a near miss).
fn classify_modifiers(c: &Contract) -> (r: Result<(Option<String>, Vec<String>), FrontendDiag>)
    ensures
        match scan_mods(*c, 0, None) {
            Err(k) => r matches Err(d) && d.code == (if mod_gate(*c, k) is Some {
                codes::FE456_MULTIPLE_OWNER_AUTHORITIES_SOL
            } else {
                codes::FE455_CAP_NEAR_MISS_SOL
            }) && d.span == c.modifiers@[k].span,
            Ok(g) => r matches Ok((gf, gm)) && opt_view(gf) == g && (forall|n: Seq<char>|
                names_has(gm@, n) <==> is_gate_name(*c, n)),
        },
{
    let mut gate_mods: Vec<String> = Vec::new();
    let mut gate_field: Option<String> = None;
    let mut k: usize = 0;
    while k < c.modifiers.len()
        invariant
            k <= c.modifiers@.len(),
            scan_mods(*c, 0, None) == scan_mods(*c, k as int, opt_view(gate_field)),
            forall|n: Seq<char>|
                names_has(gate_mods@, n) <==> exists|j: int|
                    #![trigger c.modifiers@[j]]
                    0 <= j < k && mod_gate(*c, j) is Some && c.modifiers@[j].name@ == n,
        decreases c.modifiers@.len() - k,
    {
        let m = &c.modifiers[k];
        match classify_gate_modifier(c, m) {
            GateClass::Gate(field) => {
                match &gate_field {
                    Some(prev) => {
                        if !string_eq_str(prev, field.as_str()) {
                            return Err(
                                FrontendDiag::new(
                                    codes::FE456_MULTIPLE_OWNER_AUTHORITIES_SOL,
                                    "cap-mode: gate modifiers reference distinct owner fields; multiple owner authorities are deferred",
                                    copy_span(&m.span),
                                ),
                            );
                        }
                    },
                    None => {},
                }
                let ghost before = gate_mods@;
                let name = clone_string(&m.name);
                proof {
                    lemma_names_push(before, name);
                }
                gate_mods.push(name);
                gate_field = Some(field);
                proof {
                    assert(gate_mods@ == before.push(name));
                    assert(mod_gate(*c, k as int) is Some);
                    assert(c.modifiers@[k as int].name@ == name@);
                    assert forall|n: Seq<char>|
                        names_has(gate_mods@, n) <==> exists|j: int|
                            #![trigger c.modifiers@[j]]
                            0 <= j < k + 1 && mod_gate(*c, j) is Some && c.modifiers@[j].name@ == n by {
                        assert(names_has(before.push(name), n) <==> (names_has(before, n) || name@ == n));
                        if exists|j: int|
                            #![trigger c.modifiers@[j]]
                            0 <= j < k + 1 && mod_gate(*c, j) is Some && c.modifiers@[j].name@ == n {
                            let j = choose|j: int|
                                #![trigger c.modifiers@[j]]
                                0 <= j < k + 1 && mod_gate(*c, j) is Some && c.modifiers@[j].name@ == n;
                            if j < k {
                                assert(names_has(before, n));
                            } else {
                                assert(name@ == n);
                            }
                            assert(names_has(gate_mods@, n));
                        }
                        if names_has(gate_mods@, n) && !names_has(before, n) {
                            assert(name@ == n);
                            assert(mod_gate(*c, k as int) is Some);
                            assert(c.modifiers@[k as int].name@ == n);
                        }
                    }
                }
            },
            GateClass::NearMiss => {
                return Err(
                    FrontendDiag::new(
                        codes::FE455_CAP_NEAR_MISS_SOL,
                        "cap-mode: a modifier uses `msg.sender` but is not the exact `require(msg.sender == <address field>); _;` gate shape",
                        copy_span(&m.span),
                    ),
                );
            },
            GateClass::Other => {},
        }
        k = k + 1;
    }
    Ok((gate_field, gate_mods))
}

/// The first state variable named `o`.
fn first_state_index(c: &Contract, o: &str) -> (r: Option<usize>)
    ensures
        match r {
            Some(i) => first_state_named(*c, o@, 0) == Some(i as int) && i < c.state@.len(),
            None => first_state_named(*c, o@, 0) is None,
        },
{
    let mut i: usize = 0;
    while i < c.state.len()
        invariant
            i <= c.state@.len(),
            first_state_named(*c, o@, 0) == first_state_named(*c, o@, i as int),
        decreases c.state@.len() - i,
    {
        if string_eq_str(&c.state[i].name, o) {
            return Some(i);
        }
        i = i + 1;
    }
    None
}

/// The names of the functions that apply a gate, each once; a function that applies a gate
/// beside another modifier is rejected (FE455) at the first such function.
fn collect_guarded(c: &Contract, gate_mods: &Vec<String>) -> (r: Result<Vec<String>, FrontendDiag>)
    requires
        forall|n: Seq<char>| names_has(gate_mods@, n) <==> is_gate_name(*c, n),
    ensures
        first_mixed(*c, 0) matches Some(j) ==> (r matches Err(d) && d.code == codes::FE455_CAP_NEAR_MISS_SOL
            && d.span == c.functions@[j].span),
        first_mixed(*c, 0) is None ==> (r matches Ok(g) && names_distinct(g@) && forall|n: Seq<char>|
            names_has(g@, n) <==> is_guarded_name(*c, n)),
{
    let mut guarded: Vec<String> = Vec::new();
    let mut j: usize = 0;
    while j < c.functions.len()
        invariant
            j <= c.functions@.len(),
            forall|n: Seq<char>| names_has(gate_mods@, n) <==> is_gate_name(*c, n),
            first_mixed(*c, 0) == first_mixed(*c, j as int),
            names_distinct(guarded@),
            forall|n: Seq<char>|
                names_has(guarded@, n) <==> exists|i: int|
                    #![trigger c.functions@[i]]
                    0 <= i < j && applies_gate(*c, c.functions@[i]) && c.functions@[i].name@ == n,
        decreases c.functions@.len() - j,
    {
        let f = &c.functions[j];
        let ghost before = guarded@;
        let name = clone_string(&f.name);
        let ghost gname = name;
        proof {
            lemma_names_push(before, gname);
        }
        if applies_gate_exec(c, f, gate_mods) {
            if f.modifiers.len() != 1 {
                return Err(
                    FrontendDiag::new(
                        codes::FE455_CAP_NEAR_MISS_SOL,
                        "cap-mode: a function applies the owner gate alongside another modifier; mixed access control is deferred",
                        copy_span(&f.span),
                    ),
                );
            }
            if !name_in(&guarded, name.as_str()) {
                proof {
                    assert forall|a: int, b: int| 0 <= a < b < before.push(gname).len() implies (#[trigger] before.push(
                        gname,
                    )[a])@ != (#[trigger] before.push(gname)[b])@ by {
                        if b == before.len() {
                            assert(before.push(gname)[a] == before[a]);
                        } else {
                            assert(before.push(gname)[a] == before[a]);
                            assert(before.push(gname)[b] == before[b]);
                        }
                    }
                }
                guarded.push(name);
            }
        }
        proof {
            assert forall|n: Seq<char>|
                names_has(guarded@, n) <==> exists|i: int|
                    #![trigger c.functions@[i]]
                    0 <= i < j + 1 && applies_gate(*c, c.functions@[i]) && c.functions@[i].name@ == n by {
                lemma_names_push(before, gname);
                assert(names_has(before.push(gname), n) <==> (names_has(before, n) || gname@ == n));
                if exists|i: int|
                    #![trigger c.functions@[i]]
                    0 <= i < j + 1 && applies_gate(*c, c.functions@[i]) && c.functions@[i].name@ == n {
                    let i = choose|i: int|
                        #![trigger c.functions@[i]]
                        0 <= i < j + 1 && applies_gate(*c, c.functions@[i]) && c.functions@[i].name@ == n;
                    if i < j {
                        assert(names_has(before, n));
                    } else {
                        assert(c.functions@[j as int] == *f);
                    }
                }
                if names_has(guarded@, n) && !names_has(before, n) {
                    assert(gname@ == n);
                    assert(c.functions@[j as int] == *f);
                    assert(applies_gate(*c, c.functions@[j as int]));
                }
            }
        }
        j = j + 1;
    }
    Ok(guarded)
}

/// A function bearing a guarded name whose body reads `msg.sender` is rejected (FE454) at
/// the first such function.
fn check_guarded_bodies(c: &Contract, guarded: &Vec<String>) -> (r: Result<(), FrontendDiag>)
    requires
        forall|n: Seq<char>| names_has(guarded@, n) <==> is_guarded_name(*c, n),
    ensures
        first_leak(*c, 0) matches Some(j) ==> (r matches Err(d) && d.code
            == codes::FE454_ADDRESS_USED_AS_DATA_SOL && d.span == c.functions@[j].span),
        first_leak(*c, 0) is None ==> r is Ok,
{
    let mut j: usize = 0;
    while j < c.functions.len()
        invariant
            j <= c.functions@.len(),
            forall|n: Seq<char>| names_has(guarded@, n) <==> is_guarded_name(*c, n),
            first_leak(*c, 0) == first_leak(*c, j as int),
        decreases c.functions@.len() - j,
    {
        let f = &c.functions[j];
        if name_in(guarded, f.name.as_str()) && body_uses_msg_sender(&f.body) {
            return Err(
                FrontendDiag::new(
                    codes::FE454_ADDRESS_USED_AS_DATA_SOL,
                    "cap-mode: a guarded method reads `msg.sender` in its body; the opaque owner capability cannot supply that identity",
                    copy_span(&f.span),
                ),
            );
        }
        j = j + 1;
    }
    Ok(())
}

/// Capability-mode recognition of an `onlyOwner`-shaped owner gate. With the mode off, or
/// with no strict gate pattern, it answers `Ok(None)` and the contract keeps its address
/// model; with the mode on and a contract that cannot be translated faithfully it rejects:
/// a constructor (FE465), a near-miss or mixed gate (FE455), gates over two fields (FE456),
/// an owner field that is initialized, read as data, or whose `msg.sender` a guarded body
/// reads (FE454). It reads the contract and changes nothing.
pub fn recognize_cap_guards(c: &Contract, cap_mode: bool) -> (r: Result<Option<CapGuardInfo>, FrontendDiag>)
    ensures
        !cap_mode ==> r matches Ok(None),
        cap_mode && c.constructor is Some ==> (r matches Err(d) && d.code
            == codes::FE465_CTOR_CAP_UNSUPPORTED_SOL && d.span == c.span),
        cap_mode && c.constructor is None ==> cap_verdict(*c, r),
{
    if !cap_mode {
        return Ok(None);
    }
    if c.constructor.is_some() {
        return Err(
            FrontendDiag::new(
                codes::FE465_CTOR_CAP_UNSUPPORTED_SOL,
                "a `constructor` combined with cap-mode (`// sigil:cap-access-control`) is unsupported",
                copy_span(&c.span),
            ),
        );
    }
    let (gate_field, gate_mods) = match classify_modifiers(c) {
        Ok(p) => p,
        Err(d) => {
            return Err(d);
        },
    };
    let owner_field = match gate_field {
        Some(f) => f,
        None => {
            return Ok(None);
        },
    };
    // A capability cannot stand for a pinned owner address.
    match first_state_index(c, owner_field.as_str()) {
        Some(i) => {
            if c.state[i].init.is_some() {
                return Err(
                    FrontendDiag::new(
                        codes::FE454_ADDRESS_USED_AS_DATA_SOL,
                        "cap-mode: the owner field has a fixed initializer; a capability cannot represent a pinned owner address",
                        copy_span(&c.state[i].span),
                    ),
                );
            }
        },
        None => {},
    }
    let guarded = match collect_guarded(c, &gate_mods) {
        Ok(g) => g,
        Err(d) => {
            return Err(d);
        },
    };
    if guarded.len() == 0 {
        proof {
            if exists|j: int|
                #![trigger c.functions@[j]]
                0 <= j < c.functions@.len() && applies_gate(*c, c.functions@[j]) {
                let j = choose|j: int|
                    #![trigger c.functions@[j]]
                    0 <= j < c.functions@.len() && applies_gate(*c, c.functions@[j]);
                assert(is_guarded_name(*c, c.functions@[j].name@));
                assert(names_has(guarded@, c.functions@[j].name@));
            }
        }
        return Ok(None);
    }
    proof {
        assert(names_has(guarded@, guarded@[0]@));
        assert(is_guarded_name(*c, guarded@[0]@));
    }
    match check_guarded_bodies(c, &guarded) {
        Ok(()) => {},
        Err(d) => {
            return Err(d);
        },
    }
    match check_field_only_in_gate(c, owner_field.as_str(), &gate_mods) {
        Ok(()) => {},
        Err(d) => {
            return Err(d);
        },
    }
    Ok(Some(CapGuardInfo { owner_field, guarded_methods: guarded }))
}

} // verus!
