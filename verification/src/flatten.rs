//! Reduction of a parsed file's contracts to the single contract the later stages consume:
//! C3 linearization of the inheritance graph, then a per-member merge along it.
//!
//! Every step fails closed: what cannot be flattened faithfully is rejected, never merged
//! into a plausible but different contract.

use crate::codes;
use crate::diag::{copy_span, span_of, FrontendDiag};
use crate::limits::MAX_FUNCTIONS;
use crate::parser::{
    AssignOp, Constructor, Contract, ContractKind, Enum, Expr, Function, Modifier, ParsedFile, Program, StateVar, Stmt, Struct,
    TypeRef,
};
use crate::text::{clone_string, concat_str, string_eq_str};
use vstd::string::StringExecFns;
use std::ops::Range;
use vstd::prelude::*;

verus! {

// ── order facts on index sequences ───────────────────────────────────────────

/// `x` occurs before `y` in `s`.
pub open spec fn before(s: Seq<usize>, x: usize, y: usize) -> bool {
    exists|p: int, q: int| 0 <= p < q < s.len() && #[trigger] s[p] == x && #[trigger] s[q] == y
}

/// Every pair of `a`, in `a`'s order, occurs in that order in `b`.
pub open spec fn embeds(a: Seq<usize>, b: Seq<usize>) -> bool {
    forall|p: int, q: int| 0 <= p < q < a.len() ==> before(b, #[trigger] a[p], #[trigger] a[q])
}

/// No element occurs twice.
pub open spec fn no_dup(s: Seq<usize>) -> bool {
    forall|p: int, q: int| 0 <= p < q < s.len() ==> #[trigger] s[p] != #[trigger] s[q]
}

/// The total length of a list of lists.
pub open spec fn total_len(c: Seq<Vec<usize>>) -> nat
    decreases c.len(),
{
    if c.len() == 0 {
        0
    } else {
        total_len(c.drop_last()) + c.last()@.len()
    }
}

/// Some list holds `c` past its head.
pub open spec fn in_a_tail(c: Seq<Vec<usize>>, x: usize) -> bool {
    exists|k: int, p: int| 0 <= k < c.len() && 1 <= p < c[k]@.len() && #[trigger] c[k]@[p] == x
}

/// Some list holds `x`.
pub open spec fn in_some(c: Seq<Seq<usize>>, x: usize) -> bool {
    exists|k: int| 0 <= k < c.len() && #[trigger] c[k].contains(x)
}

/// The views of a list of vectors.
pub open spec fn views(c: Seq<Vec<usize>>) -> Seq<Seq<usize>> {
    Seq::new(c.len(), |k: int| c[k]@)
}

/// `l` without any `h`, order kept.
pub open spec fn without(l: Seq<usize>, h: usize) -> Seq<usize>
    decreases l.len(),
{
    if l.len() == 0 {
        l
    } else if l.last() == h {
        without(l.drop_last(), h)
    } else {
        without(l.drop_last(), h).push(l.last())
    }
}

/// Every list without `h`.
pub open spec fn strip(c: Seq<Seq<usize>>, h: usize) -> Seq<Seq<usize>> {
    Seq::new(c.len(), |k: int| without(c[k], h))
}

/// The summed length of the lists.
pub open spec fn sum_len(c: Seq<Seq<usize>>) -> nat
    decreases c.len(),
{
    if c.len() == 0 {
        0
    } else {
        sum_len(c.drop_last()) + c.last().len()
    }
}

/// Some list holds `x` past its head.
pub open spec fn tail_has(c: Seq<Seq<usize>>, x: usize) -> bool {
    exists|k: int, p: int| 0 <= k < c.len() && 1 <= p < c[k].len() && #[trigger] c[k][p] == x
}

/// The head of the first list from `k` on whose head is in no list's tail.
pub open spec fn free_head(c: Seq<Seq<usize>>, k: int) -> Option<usize>
    decreases c.len() - k,
{
    if k < 0 || k >= c.len() {
        None
    } else if c[k].len() > 0 && !tail_has(c, c[k][0]) {
        Some(c[k][0])
    } else {
        free_head(c, k + 1)
    }
}

/// The C3 merge order of the lists (solc's): take the first head that is in no tail, drop
/// it from every list, and go on until every list is empty; `None` when some list is left
/// and no head qualifies.
pub open spec fn c3_order(c: Seq<Seq<usize>>) -> Option<Seq<usize>>
    decreases sum_len(c),
{
    if forall|k: int| 0 <= k < c.len() ==> #[trigger] c[k].len() == 0 {
        Some(Seq::empty())
    } else {
        match free_head(c, 0) {
            None => None,
            Some(h) => {
                proof {
                    lemma_free_head_listed(c, 0);
                    lemma_strip_shorter(c, h);
                }
                match c3_order(strip(c, h)) {
                    Some(r) => Some(seq![h] + r),
                    None => None,
                }
            },
        }
    }
}

pub proof fn lemma_free_head_listed(c: Seq<Seq<usize>>, k: int)
    requires
        free_head(c, k) is Some,
    ensures
        exists|j: int| 0 <= j < c.len() && #[trigger] c[j].contains(free_head(c, k)->Some_0),
    decreases c.len() - k,
{
    assert(0 <= k < c.len());
    if c[k].len() > 0 && !tail_has(c, c[k][0]) {
        assert(c[k][0] == free_head(c, k)->Some_0);
        assert(c[k].contains(c[k][0]));
    } else {
        assert(free_head(c, k) == free_head(c, k + 1));
        lemma_free_head_listed(c, k + 1);
    }
}

pub proof fn lemma_without_len(l: Seq<usize>, h: usize)
    ensures
        without(l, h).len() <= l.len(),
        l.contains(h) ==> without(l, h).len() < l.len(),
    decreases l.len(),
{
    if l.len() > 0 {
        lemma_without_len(l.drop_last(), h);
        if l.contains(h) && l.last() != h {
            let p = choose|p: int| 0 <= p < l.len() && l[p] == h;
            assert(l.drop_last()[p] == h);
        }
    }
}

pub proof fn lemma_strip_shorter(c: Seq<Seq<usize>>, h: usize)
    requires
        exists|j: int| 0 <= j < c.len() && #[trigger] c[j].contains(h),
    ensures
        sum_len(strip(c, h)) < sum_len(c),
    decreases c.len(),
{
    let j = choose|j: int| 0 <= j < c.len() && #[trigger] c[j].contains(h);
    lemma_strip_le(c.drop_last(), h);
    lemma_without_len(c.last(), h);
    assert(strip(c, h).drop_last() =~= strip(c.drop_last(), h));
    if j < c.len() - 1 {
        assert(c.drop_last()[j] == c[j]);
        lemma_strip_shorter(c.drop_last(), h);
    }
}

pub proof fn lemma_strip_le(c: Seq<Seq<usize>>, h: usize)
    ensures
        sum_len(strip(c, h)) <= sum_len(c),
    decreases c.len(),
{
    if c.len() > 0 {
        lemma_strip_le(c.drop_last(), h);
        lemma_without_len(c.last(), h);
        assert(strip(c, h).drop_last() =~= strip(c.drop_last(), h));
    }
}

/// `v` without `h`, order kept.
fn remove_all(v: &Vec<usize>, h: usize) -> (r: Vec<usize>)
    ensures
        r@ == without(v@, h),
        forall|x: usize| r@.contains(x) <==> (v@.contains(x) && x != h),
        forall|a: int, b: int| 0 <= a < b < r@.len() ==> before(v@, #[trigger] r@[a], #[trigger] r@[b]),
        r@.len() <= v@.len(),
        v@.contains(h) ==> r@.len() < v@.len(),
{
    let mut out: Vec<usize> = Vec::new();
    let ghost mut idx: Seq<int> = Seq::empty();
    let mut k: usize = 0;
    while k < v.len()
        invariant
            k <= v@.len(),
            idx.len() == out@.len(),
            out@.len() <= k,
            forall|a: int| 0 <= a < idx.len() ==> 0 <= #[trigger] idx[a] < k && v@[idx[a]] == out@[a],
            forall|a: int, b: int| 0 <= a < b < idx.len() ==> #[trigger] idx[a] < #[trigger] idx[b],
            forall|x: usize| out@.contains(x) <==> (v@.take(k as int).contains(x) && x != h),
            v@.take(k as int).contains(h) ==> out@.len() < k,
            out@ == without(v@.take(k as int), h),
        decreases v@.len() - k,
    {
        let x = v[k];
        proof {
            assert(v@.take(k + 1).drop_last() =~= v@.take(k as int));
            assert(v@.take(k + 1).last() == x);
        }
        proof {
            assert forall|y: usize| v@.take(k + 1).contains(y) <==> (v@.take(k as int).contains(y)
                || y == x) by {
                if v@.take(k + 1).contains(y) {
                    let p = choose|p: int| 0 <= p < k + 1 && #[trigger] v@.take(k + 1)[p] == y;
                    if p < k {
                        assert(v@.take(k as int)[p] == y);
                    }
                }
                if v@.take(k as int).contains(y) {
                    let p = choose|p: int| 0 <= p < k && #[trigger] v@.take(k as int)[p] == y;
                    assert(v@.take(k + 1)[p] == y);
                }
                if y == x {
                    assert(v@.take(k + 1)[k as int] == y);
                }
            }
        }
        if x != h {
            let ghost old_out = out@;
            proof {
                idx = idx.push(k as int);
            }
            out.push(x);
            proof {
                assert(out@.drop_last() =~= old_out);
                assert forall|y: usize| out@.contains(y) <==> (v@.take(k + 1).contains(y) && y != h) by {
                    if out@.contains(y) {
                        let p = choose|p: int| 0 <= p < out@.len() && #[trigger] out@[p] == y;
                        if p < out@.len() - 1 {
                            assert(old_out[p] == y);
                            assert(old_out.contains(y));
                        }
                    }
                    if v@.take(k as int).contains(y) && y != h {
                        assert(old_out.contains(y));
                        let p = choose|p: int| 0 <= p < old_out.len() && #[trigger] old_out[p] == y;
                        assert(out@[p] == y);
                    }
                    if y == x {
                        assert(out@[out@.len() - 1] == y);
                    }
                }
            }
        }
        k = k + 1;
    }
    assert(v@.take(v@.len() as int) =~= v@);
    assert forall|a: int, b: int| 0 <= a < b < out@.len() implies before(v@, #[trigger] out@[a], #[trigger] out@[b]) by {
        assert(idx[a] < idx[b]);
        assert(v@[idx[a]] == out@[a]);
        assert(v@[idx[b]] == out@[b]);
    }
    out
}

/// Whether some list holds `x` past its head.
fn in_some_tail(c: &Vec<Vec<usize>>, x: usize) -> (r: bool)
    ensures
        r == in_a_tail(c@, x),
{
    let mut k: usize = 0;
    while k < c.len()
        invariant
            k <= c@.len(),
            forall|j: int, p: int| 0 <= j < k && 1 <= p < c@[j]@.len() ==> #[trigger] c@[j]@[p] != x,
        decreases c@.len() - k,
    {
        let l = &c[k];
        let mut p: usize = 1;
        while p < l.len()
            invariant
                1 <= p,
                k < c@.len(),
                l@ == c@[k as int]@,
                forall|q: int| 1 <= q < p && q < l@.len() ==> #[trigger] l@[q] != x,
            decreases l@.len() - p,
        {
            if l[p] == x {
                assert(c@[k as int]@[p as int] == x);
                return true;
            }
            p = p + 1;
        }
        k = k + 1;
    }
    false
}

/// The C3 merge of `lists` (see `c3_order`) for the contract `name`, appended to `result`.
/// When no head qualifies the hierarchy cannot be linearized: FE471 at `span`, and `result`
/// is left as it was. The merged order holds exactly the listed elements, once each, and
/// keeps the order of every duplicate-free input list.
pub fn c3_merge(lists: Vec<Vec<usize>>, result: &mut Vec<usize>, name: &str, span: &Range<usize>) -> (r: Result<(), FrontendDiag>)
    ensures
        r is Ok <==> c3_order(views(lists@)) is Some,
        r is Ok ==> final(result)@ == old(result)@ + c3_order(views(lists@))->Some_0,
        r is Err ==> final(result)@ == old(result)@,
        r matches Err(d) ==> d.code == codes::FE471_NON_LINEARIZABLE_SOL && d.span == *span,
        r is Ok ==> no_dup(c3_order(views(lists@))->Some_0),
        r is Ok ==> forall|x: usize| c3_order(views(lists@))->Some_0.contains(x) <==> in_some(views(lists@), x),
        r is Ok ==> forall|k: int| 0 <= k < lists@.len() && no_dup(#[trigger] lists@[k]@) ==> embeds(
            lists@[k]@,
            c3_order(views(lists@))->Some_0,
        ),
{
    let merged = match c3_linearize(lists, span) {
        Ok(m) => m,
        Err(_) => {
            let mut msg = String::new();
            msg = concat_str(msg, "non-linearizable inheritance hierarchy for `");
            msg = concat_str(msg, name);
            msg = concat_str(msg, "` (contradictory base order)");
            return Err(FrontendDiag::new(codes::FE471_NON_LINEARIZABLE_SOL, msg.as_str(), copy_span(span)));
        },
    };
    let ghost r0 = result@;
    let mut k: usize = 0;
    while k < merged.len()
        invariant
            k <= merged@.len(),
            result@ == r0 + merged@.take(k as int),
        decreases merged@.len() - k,
    {
        result.push(merged[k]);
        k = k + 1;
        assert(result@ =~= r0 + merged@.take(k as int));
    }
    assert(merged@.take(merged@.len() as int) =~= merged@);
    Ok(())
}

/// The C3 merge: repeatedly take the head of the first list that occurs in no list's tail,
/// append it and remove it from every list, until every list is empty; when no head
/// qualifies the hierarchy cannot be linearized (FE471).
///
/// The merged order holds exactly the listed elements, once each, and keeps the order of
/// every duplicate-free input list.
fn c3_linearize(lists: Vec<Vec<usize>>, span: &Range<usize>) -> (r: Result<Vec<usize>, FrontendDiag>)
    ensures
        r matches Ok(out) ==> no_dup(out@),
        r matches Ok(out) ==> forall|x: usize| out@.contains(x) <==> in_some(views(lists@), x),
        r matches Ok(out) ==> forall|k: int| 0 <= k < lists@.len() && no_dup(#[trigger] lists@[k]@)
            ==> embeds(lists@[k]@, out@),
        r matches Err(d) ==> d.code == codes::FE471_NON_LINEARIZABLE_SOL && d.span == *span,
        r is Ok <==> c3_order(views(lists@)) is Some,
        r matches Ok(out) ==> c3_order(views(lists@)) == Some(out@),
{
    let ghost orig = views(lists@);
    let mut cur = lists;
    let mut out: Vec<usize> = Vec::new();
    loop
        invariant
            orig == views(lists@),
            cur@.len() == orig.len(),
            forall|k: int, x: usize| 0 <= k < cur@.len() ==> (#[trigger] cur@[k]@.contains(x) <==> (
            orig[k].contains(x) && !out@.contains(x))),
            forall|k: int, a: int, b: int| 0 <= k < cur@.len() && 0 <= a < b < cur@[k]@.len() ==> before(
                orig[k],
                #[trigger] cur@[k]@[a],
                #[trigger] cur@[k]@[b],
            ),
            forall|k: int, x: usize, y: usize| 0 <= k < orig.len() && no_dup(orig[k]) && #[trigger] before(orig[k], x, y)
                && out@.contains(y) ==> out@.contains(x) && before(out@, x, y),
            no_dup(out@),
            forall|x: usize| out@.contains(x) ==> in_some(orig, x),
            c3_order(orig) == match c3_order(views(cur@)) {
                Some(rr) => Some(out@ + rr),
                None => None,
            },
        decreases total_len(cur@),
    {
        proof {
            lemma_tail_views(cur@);
        }
        // the first list whose head is in no tail
        let mut head: Option<usize> = None;
        let mut any_left = false;
        let mut k: usize = 0;
        while k < cur.len()
            invariant_except_break
                head is None,
            invariant
                k <= cur@.len(),
                head matches Some(h) ==> exists|j: int| 0 <= j < cur@.len() && cur@[j]@.len() > 0 && #[trigger] cur@[j]@[0] == h
                    && !in_a_tail(cur@, h),
                head is None ==> (any_left <==> exists|j: int| 0 <= j < k && #[trigger] cur@[j]@.len() > 0),
                head is None ==> forall|j: int| 0 <= j < k && #[trigger] cur@[j]@.len() > 0 ==> in_a_tail(cur@, cur@[j]@[0]),
                head is None ==> free_head(views(cur@), 0) == free_head(views(cur@), k as int),
                head matches Some(h) ==> free_head(views(cur@), 0) == Some(h),
                forall|x: usize| in_a_tail(cur@, x) == tail_has(views(cur@), x),
            ensures
                head matches Some(h) ==> free_head(views(cur@), 0) == Some(h),
                head is None ==> free_head(views(cur@), 0) is None,
                head is None ==> k == cur@.len(),
                head matches Some(h) ==> exists|j: int| 0 <= j < cur@.len() && cur@[j]@.len() > 0 && #[trigger] cur@[j]@[0] == h
                    && !in_a_tail(cur@, h),
                head is None ==> (any_left <==> exists|j: int| 0 <= j < cur@.len() && #[trigger] cur@[j]@.len() > 0),
            decreases cur@.len() - k,
        {
            proof {
                assert(views(cur@)[k as int] == cur@[k as int]@);
            }
            if cur[k].len() > 0 {
                any_left = true;
                let cand = cur[k][0];
                if !in_some_tail(&cur, cand) {
                    proof {
                        assert(views(cur@)[k as int][0] == cand);
                        assert(free_head(views(cur@), k as int) == Some(cand));
                    }
                    head = Some(cand);
                    break;
                }
            }
            proof {
                assert(free_head(views(cur@), k as int) == free_head(views(cur@), k + 1));
            }
            k = k + 1;
        }
        let h = match head {
            Some(h) => h,
            None => {
                if !any_left {
                    // every list is empty: the merge is complete
                    proof {
                        assert forall|k: int| 0 <= k < views(cur@).len() implies #[trigger] views(cur@)[k].len() == 0 by {
                            assert(views(cur@)[k] == cur@[k]@);
                        }
                        assert(out@ + Seq::<usize>::empty() =~= out@);
                        assert forall|j: int, x: usize| 0 <= j < orig.len() && #[trigger] orig[j].contains(x)
                            implies out@.contains(x) by {
                            assert(cur@[j]@.len() == 0);
                            if !out@.contains(x) {
                                assert(cur@[j]@.contains(x));
                            }
                        }
                        assert(orig == views(lists@));
                        assert forall|x: usize| out@.contains(x) <==> in_some(views(lists@), x) by {
                            if in_some(orig, x) {
                                let k = choose|k: int| 0 <= k < orig.len() && #[trigger] orig[k].contains(x);
                                assert(out@.contains(x));
                            }
                        }
                        assert forall|k: int| 0 <= k < lists@.len() && no_dup(#[trigger] lists@[k]@) implies embeds(
                            lists@[k]@,
                            out@,
                        ) by {
                            assert(orig[k] == lists@[k]@);
                            assert forall|p: int, q: int| 0 <= p < q < orig[k].len() implies before(
                                out@,
                                #[trigger] orig[k][p],
                                #[trigger] orig[k][q],
                            ) by {
                                assert(before(orig[k], orig[k][p], orig[k][q]));
                                assert(orig[k].contains(orig[k][q]));
                            }
                        }
                    }
                    return Ok(out);
                }
                proof {
                    let jj = choose|j: int| 0 <= j < cur@.len() && #[trigger] cur@[j]@.len() > 0;
                    assert(views(cur@)[jj] == cur@[jj]@);
                    assert(c3_order(views(cur@)) is None);
                }
                return Err(
                    FrontendDiag::new(
                        codes::FE471_NON_LINEARIZABLE_SOL,
                        "non-linearizable inheritance hierarchy (contradictory base order)",
                        copy_span(span),
                    ),
                );
            },
        };
        let ghost j = choose|j: int| 0 <= j < cur@.len() && cur@[j]@.len() > 0 && #[trigger] cur@[j]@[0] == h
            && !in_a_tail(cur@, h);
        proof {
            assert(cur@[j]@.contains(h));
            assert(!out@.contains(h));
            // every element ordered before `h` in a duplicate-free list is already merged
            assert forall|k: int, x: usize| 0 <= k < orig.len() && no_dup(orig[k]) && #[trigger] before(orig[k], x, h)
                implies out@.contains(x) by {
                if !out@.contains(x) {
                    let (p, q) = choose|p: int, q: int| 0 <= p < q < orig[k].len() && #[trigger] orig[k][p] == x && #[trigger] orig[k][q] == h;
                    assert(orig[k].contains(x));
                    assert(orig[k].contains(h));
                    assert(cur@[k]@.contains(x));
                    assert(cur@[k]@.contains(h));
                    let ph = choose|ph: int| 0 <= ph < cur@[k]@.len() && cur@[k]@[ph] == h;
                    let px = choose|px: int| 0 <= px < cur@[k]@.len() && cur@[k]@[px] == x;
                    if ph >= 1 {
                        assert(in_a_tail(cur@, h));
                    }
                    assert(ph == 0);
                    if px == 0 {
                        assert(x == h);
                    } else {
                        assert(before(orig[k], cur@[k]@[0], cur@[k]@[px]));
                        let (p2, q2) = choose|p2: int, q2: int| 0 <= p2 < q2 < orig[k].len() && #[trigger] orig[k][p2] == h && #[trigger] orig[k][q2] == x;
                        assert(orig[k][q] == orig[k][p2]);
                        assert(orig[k][p] == orig[k][q2]);
                    }
                    assert(false);
                }
            }
        }
        let ghost old_out = out@;
        let ghost old_cur = cur@;
        out.push(h);
        // remove `h` from every list
        let mut next: Vec<Vec<usize>> = Vec::new();
        let mut k: usize = 0;
        while k < cur.len()
            invariant
                k <= cur@.len(),
                cur@ == old_cur,
                next@.len() == k,
                0 <= j < cur@.len(),
                cur@[j]@.contains(h),
                forall|i: int, x: usize| 0 <= i < k ==> (#[trigger] next@[i]@.contains(x) <==> (
                cur@[i]@.contains(x) && x != h)),
                forall|i: int, a: int, b: int| 0 <= i < k && 0 <= a < b < next@[i]@.len() ==> before(
                    cur@[i]@,
                    #[trigger] next@[i]@[a],
                    #[trigger] next@[i]@[b],
                ),
                total_len(next@) + (if j < k { 1int } else { 0int }) <= total_len(cur@.take(k as int)),
                forall|i: int| 0 <= i < k ==> (#[trigger] next@[i])@ == without(cur@[i]@, h),
            decreases cur@.len() - k,
        {
            let f = remove_all(&cur[k], h);
            proof {
                assert(next@.push(f).drop_last() =~= next@);
                assert(cur@.take(k + 1).drop_last() =~= cur@.take(k as int));
            }
            next.push(f);
            k = k + 1;
        }
        proof {
            assert(cur@.take(cur@.len() as int) =~= cur@);
            assert forall|i: int, a: int, b: int| 0 <= i < next@.len() && 0 <= a < b < next@[i]@.len() implies before(
                orig[i],
                #[trigger] next@[i]@[a],
                #[trigger] next@[i]@[b],
            ) by {
                let (p, q) = choose|p: int, q: int| 0 <= p < q < cur@[i]@.len() && #[trigger] cur@[i]@[p] == next@[i]@[a] && #[trigger] cur@[i]@[q] == next@[i]@[b];
                assert(before(orig[i], cur@[i]@[p], cur@[i]@[q]));
            }
            assert forall|i: int, x: usize| 0 <= i < next@.len() implies (#[trigger] next@[i]@.contains(x) <==> (
            orig[i].contains(x) && !out@.contains(x))) by {
                if out@.contains(x) && x != h {
                    let p = choose|p: int| 0 <= p < out@.len() && #[trigger] out@[p] == x;
                    assert(old_out[p] == x);
                }
                if old_out.contains(x) {
                    let p = choose|p: int| 0 <= p < old_out.len() && #[trigger] old_out[p] == x;
                    assert(out@[p] == x);
                }
                assert(out@[old_out.len() as int] == h);
            }
            assert forall|i: int, x: usize, y: usize| 0 <= i < orig.len() && no_dup(orig[i]) && #[trigger] before(orig[i], x, y)
                && out@.contains(y) implies out@.contains(x) && before(out@, x, y) by {
                if y == h {
                    assert(old_out.contains(x));
                    let p = choose|p: int| 0 <= p < old_out.len() && #[trigger] old_out[p] == x;
                    assert(out@[p] == x);
                    assert(out@[old_out.len() as int] == h);
                } else {
                    let q = choose|q: int| 0 <= q < out@.len() && #[trigger] out@[q] == y;
                    assert(q < old_out.len());
                    assert(old_out[q] == y);
                    assert(old_out.contains(y));
                    let (p1, q1) = choose|p1: int, q1: int| 0 <= p1 < q1 < old_out.len() && #[trigger] old_out[p1] == x && #[trigger] old_out[q1] == y;
                    assert(out@[p1] == x && out@[q1] == y);
                    assert(out@.contains(x));
                }
            }
            assert forall|p: int, q: int| 0 <= p < q < out@.len() implies #[trigger] out@[p] != #[trigger] out@[q] by {
                if q == out@.len() - 1 {
                    assert(old_out[p] == out@[p]);
                    assert(old_out.contains(out@[p]));
                } else {
                    assert(old_out[p] == out@[p] && old_out[q] == out@[q]);
                }
            }
            assert forall|x: usize| out@.contains(x) implies in_some(orig, x) by {
                let p = choose|p: int| 0 <= p < out@.len() && #[trigger] out@[p] == x;
                if p < old_out.len() {
                    assert(old_out[p] == x);
                    assert(old_out.contains(x));
                } else {
                    assert(cur@[j]@.contains(h));
                    assert(orig[j].contains(h));
                }
            }
        }
        proof {
            assert(views(next@) =~= strip(views(old_cur), h));
            assert(views(old_cur)[j] == old_cur[j]@);
            assert(!(forall|k: int| 0 <= k < views(old_cur).len() ==> #[trigger] views(old_cur)[k].len() == 0));
            assert(c3_order(views(old_cur)) == match c3_order(strip(views(old_cur), h)) {
                Some(r) => Some(seq![h] + r),
                None => None,
            });
            match c3_order(views(next@)) {
                Some(rr) => {
                    assert(old_out + (seq![h] + rr) =~= out@ + rr);
                },
                None => {},
            }
        }
        cur = next;
    }
}

/// A list holds `x` past its head exactly when its view does.
proof fn lemma_tail_views(c: Seq<Vec<usize>>)
    ensures
        forall|x: usize| in_a_tail(c, x) == tail_has(views(c), x),
{
    assert forall|x: usize| in_a_tail(c, x) implies tail_has(views(c), x) by {
        let (k, p) = choose|k: int, p: int| 0 <= k < c.len() && 1 <= p < c[k]@.len() && #[trigger] c[k]@[p] == x;
        assert(views(c)[k] == c[k]@);
        assert(views(c)[k][p] == x);
    }
    assert forall|x: usize| tail_has(views(c), x) implies in_a_tail(c, x) by {
        let (k, p) = choose|k: int, p: int| 0 <= k < views(c).len() && 1 <= p < views(c)[k].len() && #[trigger] views(c)[k][p] == x;
        assert(views(c)[k] == c[k]@);
        assert(c[k]@[p] == x);
    }
}


// ── linearization ────────────────────────────────────────────────────────────

/// Most nested inheritance levels followed while linearizing.
pub const MAX_INH_DEPTH: u32 = 16;

/// Most contracts in one linearization.
pub const MAX_LINEARIZED: usize = 32;

/// `j` is the first contract named `name`.
pub open spec fn first_named(cs: Seq<Contract>, j: int, name: Seq<char>) -> bool {
    &&& 0 <= j < cs.len()
    &&& cs[j].name@ == name
    &&& forall|k: int| 0 <= k < j ==> (#[trigger] cs[k]).name@ != name
}

/// The direct bases of `cs[i]` name pairwise different contracts.
pub open spec fn distinct_bases(cs: Seq<Contract>, i: int) -> bool {
    forall|a: int, b: int| 0 <= a < b < cs[i].bases@.len() ==> (#[trigger] cs[i].bases@[a]).name@
        != (#[trigger] cs[i].bases@[b]).name@
}

/// The memoized linearization of `j`.
pub open spec fn memo_lin(memo: Seq<Option<Vec<usize>>>, j: int) -> Seq<usize> {
    memo[j]->0@
}

/// The `b`-th direct base of `cs[i]` names the contract `j`.
pub open spec fn resolves(cs: Seq<Contract>, i: int, b: int, j: int) -> bool {
    0 <= b < cs[i].bases@.len() && first_named(cs, j, cs[i].bases@[b].name@)
}

/// The base `j` of a contract whose linearization is `l`: not a library, linearized, its
/// linearization kept in order within `l`, and itself in `l`.
pub open spec fn base_kept(cs: Seq<Contract>, memo: Seq<Option<Vec<usize>>>, j: int, l: Seq<usize>) -> bool {
    &&& cs[j].kind != ContractKind::Library
    &&& memo[j] is Some
    &&& embeds(memo_lin(memo, j), l)
    &&& l.contains(j as usize)
}

/// The `b`-th direct base of `cs[i]` names a contract kept as `base_kept` describes.
pub open spec fn base_ok(cs: Seq<Contract>, memo: Seq<Option<Vec<usize>>>, i: int, b: int, l: Seq<usize>) -> bool {
    exists|j: int| #[trigger] resolves(cs, i, b, j) && base_kept(cs, memo, j, l)
}

/// `x` comes from the linearization of a direct base of `cs[i]`.
pub open spec fn from_a_base(cs: Seq<Contract>, memo: Seq<Option<Vec<usize>>>, i: int, x: usize) -> bool {
    exists|b: int, j: int| #[trigger] resolves(cs, i, b, j) && memo[j] is Some && memo_lin(memo, j).contains(x)
}

/// `l` is a C3 linearization of `cs[i]` over the memoized linearizations of its bases:
/// it starts with `i`, repeats nothing, holds every direct base and keeps the order of each
/// base's own linearization (monotonicity) and, when the direct bases are distinct, the
/// right-to-left order of the direct bases (local precedence); every other entry comes from
/// a base's linearization.
pub open spec fn lin_ok(cs: Seq<Contract>, i: int, l: Seq<usize>, memo: Seq<Option<Vec<usize>>>) -> bool {
    &&& 1 <= l.len() <= MAX_LINEARIZED
    &&& l[0] == i
    &&& no_dup(l)
    &&& forall|p: int| 0 <= p < l.len() ==> #[trigger] l[p] < cs.len() && memo[l[p] as int] is Some
    &&& forall|b: int| 0 <= b < cs[i].bases@.len() ==> #[trigger] base_ok(cs, memo, i, b, l)
    &&& forall|p: int| 1 <= p < l.len() ==> from_a_base(cs, memo, i, #[trigger] l[p])
    &&& distinct_bases(cs, i) ==> forall|a: int, b: int, ja: int, jb: int| #[trigger] resolves(cs, i, a, ja) && #[trigger] resolves(cs, i, b, jb)
        && a < b ==> before(l, jb as usize, ja as usize)
}

/// Every memoized entry is a linearization.
pub open spec fn memo_inv(cs: Seq<Contract>, memo: Seq<Option<Vec<usize>>>) -> bool {
    &&& memo.len() == cs.len()
    &&& forall|j: int| 0 <= j < memo.len() && (#[trigger] memo[j]) is Some ==> lin_ok(cs, j, memo_lin(memo, j), memo)
}

/// `m2` keeps every entry of `m1`.
pub open spec fn grows(m1: Seq<Option<Vec<usize>>>, m2: Seq<Option<Vec<usize>>>) -> bool {
    &&& m1.len() == m2.len()
    &&& forall|j: int| 0 <= j < m1.len() && (#[trigger] m1[j]) is Some ==> m2[j] == m1[j]
}

proof fn lemma_lin_ok_grows(cs: Seq<Contract>, i: int, l: Seq<usize>, m1: Seq<Option<Vec<usize>>>, m2: Seq<Option<Vec<usize>>>)
    requires
        lin_ok(cs, i, l, m1),
        grows(m1, m2),
        m1.len() == cs.len(),
    ensures
        lin_ok(cs, i, l, m2),
{
    assert forall|p: int| 0 <= p < l.len() implies #[trigger] l[p] < cs.len() && m2[l[p] as int] is Some by {
        assert(m1[l[p] as int] is Some);
    }
    assert forall|b: int| 0 <= b < cs[i].bases@.len() implies #[trigger] base_ok(cs, m2, i, b, l) by {
        assert(base_ok(cs, m1, i, b, l));
        let j = choose|j: int| #[trigger] resolves(cs, i, b, j) && base_kept(cs, m1, j, l);
        assert(m2[j] == m1[j]);
        assert(base_kept(cs, m2, j, l));
    }
    assert forall|p: int| 1 <= p < l.len() implies from_a_base(cs, m2, i, #[trigger] l[p]) by {
        assert(from_a_base(cs, m1, i, l[p]));
        let (b, j) = choose|b: int, j: int| #[trigger] resolves(cs, i, b, j) && m1[j] is Some && memo_lin(m1, j).contains(l[p]);
        assert(m2[j] == m1[j]);
        assert(resolves(cs, i, b, j) && m2[j] is Some && memo_lin(m2, j).contains(l[p]));
    }
}

proof fn lemma_memo_inv_grows(cs: Seq<Contract>, m1: Seq<Option<Vec<usize>>>, m2: Seq<Option<Vec<usize>>>, i: int)
    requires
        memo_inv(cs, m1),
        grows(m1, m2),
        0 <= i < m2.len(),
        m1[i] is None,
        forall|j: int| 0 <= j < m2.len() && j != i ==> m2[j] == m1[j],
        m2[i] is Some,
        lin_ok(cs, i, memo_lin(m2, i), m2),
    ensures
        memo_inv(cs, m2),
{
    assert forall|j: int| 0 <= j < m2.len() && (#[trigger] m2[j]) is Some implies lin_ok(cs, j, memo_lin(m2, j), m2) by {
        if j != i {
            lemma_lin_ok_grows(cs, j, memo_lin(m1, j), m1, m2);
        }
    }
}

/// Before `[i] ++ r`, as before `r`.
proof fn lemma_before_prepend(r: Seq<usize>, i: usize, x: usize, y: usize)
    requires
        before(r, x, y),
    ensures
        before(seq![i] + r, x, y),
{
    let (p, q) = choose|p: int, q: int| 0 <= p < q < r.len() && #[trigger] r[p] == x && #[trigger] r[q] == y;
    let l = seq![i] + r;
    assert(l[p + 1] == x && l[q + 1] == y);
}


/// What `lin` knows when it merges: the base linearizations (memoized, in `memo1`, which
/// has no entry for `i` yet), the reversed direct bases, and the merge result.
pub open spec fn merge_setup(
    cs: Seq<Contract>,
    i: usize,
    memo1: Seq<Option<Vec<usize>>>,
    memo_f: Seq<Option<Vec<usize>>>,
    lists: Seq<Seq<usize>>,
    dr: Seq<usize>,
    merged: Seq<usize>,
) -> bool {
    &&& memo_inv(cs, memo1)
    &&& i < cs.len()
    &&& memo1[i as int] is None
    &&& memo_f.len() == memo1.len()
    &&& memo_f[i as int] is Some
    &&& forall|j: int| 0 <= j < memo1.len() && j != i ==> #[trigger] memo_f[j] == memo1[j]
    &&& cs[i as int].bases@.len() > 0
    &&& lists.len() == cs[i as int].bases@.len() + 1
    &&& dr.len() == cs[i as int].bases@.len()
    &&& lists[dr.len() as int] == dr
    &&& forall|u: int| 0 <= u < dr.len() ==> {
        &&& resolves(cs, i as int, dr.len() - 1 - u, #[trigger] dr[u] as int)
        &&& cs[dr[u] as int].kind != ContractKind::Library
        &&& memo1[dr[u] as int] is Some
        &&& lists[u] == memo_lin(memo1, dr[u] as int)
    }
    &&& no_dup(merged)
    &&& forall|x: usize| merged.contains(x) <==> in_some(lists, x)
    &&& forall|k: int| 0 <= k < lists.len() && no_dup(#[trigger] lists[k]) ==> embeds(lists[k], merged)
    &&& 1 + merged.len() <= MAX_LINEARIZED
}

proof fn lemma_ml_entries(
    cs: Seq<Contract>,
    i: usize,
    memo1: Seq<Option<Vec<usize>>>,
    memo_f: Seq<Option<Vec<usize>>>,
    lists: Seq<Seq<usize>>,
    dr: Seq<usize>,
    merged: Seq<usize>,
)
    requires
        merge_setup(cs, i, memo1, memo_f, lists, dr, merged),
    ensures
        forall|x: usize| merged.contains(x) ==> x < cs.len() && memo1[x as int] is Some && x != i,
{
    let nb = dr.len() as int;
    assert forall|x: usize| merged.contains(x) implies x < cs.len() && memo1[x as int] is Some && x != i by {
        let k = choose|k: int| 0 <= k < lists.len() && #[trigger] lists[k].contains(x);
        if k < nb {
            let j = dr[k] as int;
            assert(memo1[j] is Some);
            assert(lin_ok(cs, j, memo_lin(memo1, j), memo1));
            let p = choose|p: int| 0 <= p < lists[k].len() && #[trigger] lists[k][p] == x;
            assert(memo_lin(memo1, j)[p] == x);
        } else {
            let u = choose|u: int| 0 <= u < dr.len() && #[trigger] dr[u] == x;
            assert(memo1[dr[u] as int] is Some);
        }
    }
}

proof fn lemma_ml_bases(
    cs: Seq<Contract>,
    i: usize,
    memo1: Seq<Option<Vec<usize>>>,
    memo_f: Seq<Option<Vec<usize>>>,
    lists: Seq<Seq<usize>>,
    dr: Seq<usize>,
    merged: Seq<usize>,
)
    requires
        merge_setup(cs, i, memo1, memo_f, lists, dr, merged),
    ensures
        forall|b: int| 0 <= b < cs[i as int].bases@.len() ==> #[trigger] base_ok(cs, memo_f, i as int, b, seq![i] + merged),
{
    let nb = dr.len() as int;
    let l = seq![i] + merged;
    let ii = i as int;
    assert forall|b: int| 0 <= b < cs[ii].bases@.len() implies #[trigger] base_ok(cs, memo_f, ii, b, l) by {
        let u = nb - 1 - b;
        let j = dr[u] as int;
        assert(resolves(cs, ii, nb - 1 - u, dr[u] as int));
        assert(memo1[j] is Some);
        assert(j != ii);
        assert(memo_f[j] == memo1[j]);
        assert(lin_ok(cs, j, memo_lin(memo1, j), memo1));
        assert(no_dup(lists[u]));
        assert(embeds(lists[u], merged));
        assert forall|p: int, q: int| 0 <= p < q < lists[u].len() implies before(l, #[trigger] lists[u][p], #[trigger] lists[u][q]) by {
            lemma_before_prepend(merged, i, lists[u][p], lists[u][q]);
        }
        assert(lists[nb][u] == j as usize);
        assert(lists[nb].contains(j as usize));
        assert(in_some(lists, j as usize));
        assert(merged.contains(j as usize));
        let pm = choose|pm: int| 0 <= pm < merged.len() && #[trigger] merged[pm] == j as usize;
        assert(l[pm + 1] == j as usize);
        assert(base_kept(cs, memo_f, j, l));
    }
}

proof fn lemma_ml_from(
    cs: Seq<Contract>,
    i: usize,
    memo1: Seq<Option<Vec<usize>>>,
    memo_f: Seq<Option<Vec<usize>>>,
    lists: Seq<Seq<usize>>,
    dr: Seq<usize>,
    merged: Seq<usize>,
)
    requires
        merge_setup(cs, i, memo1, memo_f, lists, dr, merged),
    ensures
        forall|p: int| 1 <= p < (seq![i] + merged).len() ==> from_a_base(cs, memo_f, i as int, #[trigger] (seq![i] + merged)[p]),
{
    let nb = dr.len() as int;
    let l = seq![i] + merged;
    let ii = i as int;
    lemma_ml_entries(cs, i, memo1, memo_f, lists, dr, merged);
    assert forall|p: int| 1 <= p < l.len() implies from_a_base(cs, memo_f, ii, #[trigger] l[p]) by {
        let x = l[p];
        assert(x == merged[p - 1]);
        assert(merged.contains(x));
        let k = choose|k: int| 0 <= k < lists.len() && #[trigger] lists[k].contains(x);
        if k < nb {
            let j = dr[k] as int;
            assert(resolves(cs, ii, nb - 1 - k, j));
            assert(memo1[j] is Some);
            assert(j != ii);
            assert(memo_f[j] == memo1[j]);
            assert(memo_lin(memo_f, j).contains(x));
        } else {
            let u = choose|u: int| 0 <= u < dr.len() && #[trigger] dr[u] == x;
            let j = x as int;
            assert(resolves(cs, ii, nb - 1 - u, j));
            assert(memo1[j] is Some);
            assert(lin_ok(cs, j, memo_lin(memo1, j), memo1));
            assert(memo_lin(memo1, j)[0] == x);
            assert(j != ii);
            assert(memo_f[j] == memo1[j]);
            assert(memo_lin(memo_f, j).contains(x));
        }
    }
}

proof fn lemma_ml_precedence(
    cs: Seq<Contract>,
    i: usize,
    memo1: Seq<Option<Vec<usize>>>,
    memo_f: Seq<Option<Vec<usize>>>,
    lists: Seq<Seq<usize>>,
    dr: Seq<usize>,
    merged: Seq<usize>,
)
    requires
        merge_setup(cs, i, memo1, memo_f, lists, dr, merged),
        distinct_bases(cs, i as int),
    ensures
        forall|a: int, b: int, ja: int, jb: int| #[trigger] resolves(cs, i as int, a, ja) && #[trigger] resolves(cs, i as int, b, jb)
            && a < b ==> before(seq![i] + merged, jb as usize, ja as usize),
{
    let nb = dr.len() as int;
    let ii = i as int;
    assert(no_dup(dr)) by {
        assert forall|a: int, b: int| 0 <= a < b < dr.len() implies #[trigger] dr[a] != #[trigger] dr[b] by {
            assert(resolves(cs, ii, nb - 1 - a, dr[a] as int));
            assert(resolves(cs, ii, nb - 1 - b, dr[b] as int));
            assert(cs[ii].bases@[nb - 1 - b].name@ != cs[ii].bases@[nb - 1 - a].name@);
        }
    }
    assert(embeds(lists[nb], merged));
    assert forall|a: int, b: int, ja: int, jb: int| #[trigger] resolves(cs, ii, a, ja) && #[trigger] resolves(cs, ii, b, jb)
        && a < b implies before(seq![i] + merged, jb as usize, ja as usize) by {
        let ua = nb - 1 - a;
        let ub = nb - 1 - b;
        assert(resolves(cs, ii, nb - 1 - ua, dr[ua] as int));
        assert(resolves(cs, ii, nb - 1 - ub, dr[ub] as int));
        assert(dr[ua] as int == ja);
        assert(dr[ub] as int == jb);
        assert(before(merged, lists[nb][ub], lists[nb][ua]));
        lemma_before_prepend(merged, i, dr[ub], dr[ua]);
    }
}

/// The merge of the base linearizations and the reversed direct bases, after `i`, is a
/// linearization of `cs[i]`.
proof fn lemma_merged_lin(
    cs: Seq<Contract>,
    i: usize,
    memo1: Seq<Option<Vec<usize>>>,
    memo_f: Seq<Option<Vec<usize>>>,
    lists: Seq<Seq<usize>>,
    dr: Seq<usize>,
    merged: Seq<usize>,
)
    requires
        merge_setup(cs, i, memo1, memo_f, lists, dr, merged),
    ensures
        lin_ok(cs, i as int, seq![i] + merged, memo_f),
{
    let l = seq![i] + merged;
    lemma_ml_entries(cs, i, memo1, memo_f, lists, dr, merged);
    assert forall|p: int| 0 <= p < l.len() implies #[trigger] l[p] < cs.len() && memo_f[l[p] as int] is Some by {
        if p > 0 {
            assert(l[p] == merged[p - 1]);
            assert(merged.contains(merged[p - 1]));
            assert(memo_f[l[p] as int] == memo1[l[p] as int]);
        }
    }
    assert forall|p: int, q: int| 0 <= p < q < l.len() implies #[trigger] l[p] != #[trigger] l[q] by {
        if p == 0 {
            assert(l[q] == merged[q - 1]);
            assert(merged.contains(l[q]));
        } else {
            assert(l[p] == merged[p - 1] && l[q] == merged[q - 1]);
        }
    }
    lemma_ml_bases(cs, i, memo1, memo_f, lists, dr, merged);
    lemma_ml_from(cs, i, memo1, memo_f, lists, dr, merged);
    if distinct_bases(cs, i as int) {
        lemma_ml_precedence(cs, i, memo1, memo_f, lists, dr, merged);
    }
}

/// The index of the first contract named `name`.
fn find_contract(cs: &Vec<Contract>, name: &str) -> (r: Option<usize>)
    ensures
        r matches Some(j) ==> first_named(cs@, j as int, name@),
        r is None ==> forall|k: int| 0 <= k < cs@.len() ==> (#[trigger] cs@[k]).name@ != name@,
{
    let mut k: usize = 0;
    while k < cs.len()
        invariant
            k <= cs@.len(),
            forall|j: int| 0 <= j < k ==> (#[trigger] cs@[j]).name@ != name@,
        decreases cs@.len() - k,
    {
        if string_eq_str(&cs[k].name, name) {
            return Some(k);
        }
        k = k + 1;
    }
    None
}

fn copy_indices(v: &Vec<usize>) -> (r: Vec<usize>)
    ensures
        r@ == v@,
{
    let mut out: Vec<usize> = Vec::new();
    let mut k: usize = 0;
    while k < v.len()
        invariant
            k <= v@.len(),
            out@ == v@.take(k as int),
        decreases v@.len() - k,
    {
        out.push(v[k]);
        k = k + 1;
        assert(out@ =~= v@.take(k as int));
    }
    assert(v@.take(v@.len() as int) =~= v@);
    out
}

/// Memoized C3 linearization over the contracts of one file (or project).
struct Linearizer {
    memo: Vec<Option<Vec<usize>>>,
    on_stack: Vec<bool>,
}

impl Linearizer {
    spec fn valid(&self, cs: Seq<Contract>) -> bool {
        &&& memo_inv(cs, self.memo@)
        &&& self.on_stack@.len() == cs.len()
        &&& forall|k: int| 0 <= k < cs.len() && #[trigger] self.on_stack@[k] ==> self.memo@[k] is None
    }

    spec fn memo_of(&self) -> Seq<Option<Vec<usize>>> {
        self.memo@
    }

    /// A linearizer with nothing memoized.
    fn new(cs: &Vec<Contract>) -> (r: Linearizer)
        ensures
            r.valid(cs@),
            forall|k: int| 0 <= k < cs@.len() ==> (#[trigger] r.memo@[k]) is None && !r.on_stack@[k],
    {
        let mut memo: Vec<Option<Vec<usize>>> = Vec::new();
        let mut on_stack: Vec<bool> = Vec::new();
        let mut k: usize = 0;
        while k < cs.len()
            invariant
                k <= cs@.len(),
                memo@.len() == k,
                on_stack@.len() == k,
                forall|j: int| 0 <= j < k ==> (#[trigger] memo@[j]) is None,
                forall|j: int| 0 <= j < k ==> !(#[trigger] on_stack@[j]),
            decreases cs@.len() - k,
        {
            memo.push(None);
            on_stack.push(false);
            k = k + 1;
        }
        Linearizer { memo, on_stack }
    }

    /// The C3 linearization of `cs[i]`, most-derived first. A base that names no contract,
    /// or a library, rejects FE476; a cycle FE469; nesting deeper than `MAX_INH_DEPTH` or a
    /// linearization longer than `MAX_LINEARIZED` FE402; contradictory base orders FE471.
    fn lin(&mut self, cs: &Vec<Contract>, i: usize, depth: u32) -> (r: Result<Vec<usize>, FrontendDiag>)
        requires
            old(self).valid(cs@),
            i < cs@.len(),
            depth <= MAX_INH_DEPTH + 1,
        ensures
            final(self).valid(cs@),
            grows(old(self).memo_of(), final(self).memo_of()),
            r is Ok ==> final(self).on_stack@ == old(self).on_stack@,
            r matches Ok(l) ==> lin_ok(cs@, i as int, l@, final(self).memo_of()) && final(self).memo_of()[i as int] is Some
                && memo_lin(final(self).memo_of(), i as int) == l@,
            depth > MAX_INH_DEPTH ==> (r matches Err(d) && d.code == codes::FE402_TOO_LARGE_SOL),
            depth <= MAX_INH_DEPTH && old(self).memo_of()[i as int] is Some ==> (r matches Ok(l) && l@ == memo_lin(
                old(self).memo_of(),
                i as int,
            )),
            depth <= MAX_INH_DEPTH && old(self).memo_of()[i as int] is None && old(self).on_stack@[i as int] ==> (r matches Err(d)
                && d.code == codes::FE469_INHERITANCE_CYCLE_SOL),
            depth <= MAX_INH_DEPTH && old(self).memo_of()[i as int] is None && !old(self).on_stack@[i as int]
                && cs@[i as int].bases@.len() == 0 ==> (r matches Ok(l) && l@ == seq![i]),
        decreases MAX_INH_DEPTH + 1 - depth,
    {
        if depth > MAX_INH_DEPTH {
            return Err(
                FrontendDiag::new(
                    codes::FE402_TOO_LARGE_SOL,
                    "inheritance depth exceeds 16",
                    copy_span(&cs[i].span),
                ),
            );
        }
        match &self.memo[i] {
            Some(l) => {
                let c = copy_indices(l);
                return Ok(c);
            },
            None => {},
        }
        if self.on_stack[i] {
            return Err(
                FrontendDiag::new(
                    codes::FE469_INHERITANCE_CYCLE_SOL,
                    "inheritance cycle",
                    copy_span(&cs[i].span),
                ),
            );
        }
        let ghost stack0 = self.on_stack@;
        self.on_stack.set(i, true);
        let ghost memo0 = self.memo@;
        let bases = &cs[i].bases;
        let nb = bases.len();
        let mut lists: Vec<Vec<usize>> = Vec::new();
        let mut direct_rev: Vec<usize> = Vec::new();
        let mut t: usize = 0;
        while t < nb
            invariant
                t <= nb == cs@[i as int].bases@.len(),
                *bases == cs@[i as int].bases,
                i < cs@.len(),
                depth <= MAX_INH_DEPTH,
                self.valid(cs@),
                stack0.len() == cs@.len(),
                stack0 == old(self).on_stack@,
                !stack0[i as int],
                self.on_stack@ == stack0.update(i as int, true),
                self.memo@[i as int] is None,
                grows(memo0, self.memo@),
                lists@.len() == t,
                direct_rev@.len() == t,
                memo0 == old(self).memo@,
                forall|u: int| 0 <= u < t ==> {
                    &&& resolves(cs@, i as int, nb - 1 - u, #[trigger] direct_rev@[u] as int)
                    &&& cs@[direct_rev@[u] as int].kind != ContractKind::Library
                    &&& self.memo@[direct_rev@[u] as int] is Some
                    &&& lists@[u]@ == memo_lin(self.memo@, direct_rev@[u] as int)
                },
            decreases nb - t,
        {
            let b = &bases[nb - 1 - t];
            let bi = match find_contract(cs, b.name.as_str()) {
                Some(bi) => bi,
                None => {
                    return Err(
                        FrontendDiag::new(
                            codes::FE476_IMPORT_OR_BASE_SOL,
                            "base contract is not defined in this file (cross-file imports are not resolved)",
                            copy_span(&b.span),
                        ),
                    );
                },
            };
            if matches!(cs[bi].kind, ContractKind::Library) {
                return Err(
                    FrontendDiag::new(
                        codes::FE476_IMPORT_OR_BASE_SOL,
                        "base contract is a library — a library is not an inheritance base in the subset",
                        copy_span(&b.span),
                    ),
                );
            }
            let ghost memo_before = self.memo@;
            let ghost st_before = self.on_stack@;
            let res = self.lin(cs, bi, depth + 1);
            let lb = match res {
                Ok(v) => v,
                Err(e) => {
                    return Err(e);
                },
            };
            proof {
                assert(self.on_stack@ == st_before);
                assert(self.on_stack@[i as int]);
                assert forall|u: int| 0 <= u < t implies self.memo@[#[trigger] direct_rev@[u] as int] is Some
                    && lists@[u]@ == memo_lin(self.memo@, direct_rev@[u] as int) by {
                    assert(memo_before[direct_rev@[u] as int] is Some);
                }
            }
            lists.push(lb);
            direct_rev.push(bi);
            t = t + 1;
        }
        self.on_stack.set(i, false);
        assert(self.on_stack@ =~= stack0);
        let ghost memo1 = self.memo@;
        // none of the lists mentions `i`: each entry is memoized, `i` is not
        assert forall|u: int, x: usize| 0 <= u < lists@.len() && #[trigger] lists@[u]@.contains(x)
            implies x < cs@.len() && memo1[x as int] is Some by {
            let jb = direct_rev@[u] as int;
            assert(lin_ok(cs@, jb, memo_lin(memo1, jb), memo1));
            let p = choose|p: int| 0 <= p < lists@[u]@.len() && #[trigger] lists@[u]@[p] == x;
        }
        let mut result: Vec<usize> = Vec::new();
        result.push(i);
        if nb > 0 {
            let ghost base_lists = lists@;
            let ghost dr = direct_rev@;
            let direct = copy_indices(&direct_rev);
            lists.push(direct);
            let ghost vl = views(lists@);
            assert(vl[dr.len() as int] == dr);
            assert forall|u: int| 0 <= u < dr.len() implies vl[u] == memo_lin(memo1, #[trigger] dr[u] as int) by {
                assert(vl[u] == base_lists[u]@);
            }
            match c3_merge(lists, &mut result, cs[i].name.as_str(), &cs[i].span) {
                Ok(()) => {},
                Err(d) => {
                    return Err(d);
                },
            }
            let ghost merged = c3_order(vl)->Some_0;
            if result.len() > MAX_LINEARIZED {
                return Err(
                    FrontendDiag::new(
                        codes::FE402_TOO_LARGE_SOL,
                        "linearized base count exceeds 32",
                        copy_span(&cs[i].span),
                    ),
                );
            }
            self.memo.set(i, Some(copy_indices(&result)));
            proof {
                lemma_merged_lin(cs@, i, memo1, self.memo@, vl, dr, merged);
                assert(result@ == seq![i] + merged);
                lemma_memo_inv_grows(cs@, memo1, self.memo@, i as int);
            }
            return Ok(result);
        }
        self.memo.set(i, Some(copy_indices(&result)));
        proof {
            assert(result@ =~= seq![i]);
            assert(cs@[i as int].bases@.len() == 0);
            lemma_memo_inv_grows(cs@, memo1, self.memo@, i as int);
        }
        Ok(result)
    }
}


// ── per-member merge ─────────────────────────────────────────────────────────

/// Two functions share a name and an arity (one overrides the other).
pub open spec fn same_key(f: Function, g: Function) -> bool {
    f.name@ == g.name@ && f.params@.len() == g.params@.len()
}

/// The functions of the contract at linearization position `t`.
pub open spec fn fns_at(cs: Seq<Contract>, lin: Seq<usize>, t: int) -> Seq<Function> {
    cs[lin[t] as int].functions@
}

/// Position `(t2, m2)` comes before `(t, m)` (linearization order, then declaration order).
pub open spec fn pos_before(t2: int, m2: int, t: int, m: int) -> bool {
    t2 < t || (t2 == t && m2 < m)
}

/// A function of a more derived contract (or declared earlier in the same one) has the
/// same name and arity: this one is overridden.
#[verifier::opaque]
pub open spec fn shadowed(cs: Seq<Contract>, lin: Seq<usize>, t: int, m: int) -> bool {
    exists|t2: int, m2: int| 0 <= t2 < lin.len() && 0 <= m2 < fns_at(cs, lin, t2).len() && pos_before(t2, m2, t, m)
        && #[trigger] same_key(fns_at(cs, lin, t2)[m2], fns_at(cs, lin, t)[m])
}

/// The canonical text of a type: `uint` is `uint256`, `int` is `int256`.
pub open spec fn render(t: TypeRef) -> Seq<char>
    decreases t,
{
    match t {
        TypeRef::Scalar { name, .. } => if name@ == "uint"@ {
            "uint256"@
        } else if name@ == "int"@ {
            "int256"@
        } else {
            name@
        },
        TypeRef::Mapping { key, value, .. } => "mapping("@ + render(*key) + "=>"@ + render(*value) + ")"@,
        TypeRef::Array { elem, .. } => render(*elem) + "[]"@,
    }
}

/// Two functions have the same parameter types (canonically rendered).
pub open spec fn same_sig(f: Function, g: Function) -> bool {
    &&& f.params@.len() == g.params@.len()
    &&& forall|k: int| 0 <= k < f.params@.len() ==> render(#[trigger] f.params@[k].ty) == render(g.params@[k].ty)
}

/// The canonical text of a type.
fn render_type(t: &TypeRef) -> (r: String)
    ensures
        r@ == render(*t),
    decreases t,
{
    match t {
        TypeRef::Scalar { name, .. } => {
            if string_eq_str(name, "uint") {
                String::from_str("uint256")
            } else if string_eq_str(name, "int") {
                String::from_str("int256")
            } else {
                clone_string(name)
            }
        },
        TypeRef::Mapping { key, value, .. } => {
            let s = String::from_str("mapping(");
            let s = concat_str(s, render_type(key).as_str());
            let s = concat_str(s, "=>");
            let s = concat_str(s, render_type(value).as_str());
            concat_str(s, ")")
        },
        TypeRef::Array { elem, .. } => concat_str(render_type(elem), "[]"),
    }
}

/// Whether two functions have the same parameter types.
fn same_signature(f: &Function, g: &Function) -> (r: bool)
    ensures
        r == same_sig(*f, *g),
{
    if f.params.len() != g.params.len() {
        return false;
    }
    let mut k: usize = 0;
    while k < f.params.len()
        invariant
            k <= f.params@.len() == g.params@.len(),
            forall|j: int| 0 <= j < k ==> render(#[trigger] f.params@[j].ty) == render(g.params@[j].ty),
        decreases f.params@.len() - k,
    {
        let a = render_type(&f.params[k].ty);
        let b = render_type(&g.params[k].ty);
        if !string_eq_str(&a, b.as_str()) {
            return false;
        }
        k = k + 1;
    }
    true
}

/// No two modifiers of `c` share a name.
pub open spec fn mods_distinct(c: Contract) -> bool {
    forall|a: int, b: int| 0 <= a < b < c.modifiers@.len() ==> (#[trigger] c.modifiers@[a]).name@
        != (#[trigger] c.modifiers@[b]).name@
}

/// No two functions of `c` share a name and an arity.
pub open spec fn fns_distinct(c: Contract) -> bool {
    forall|a: int, b: int| 0 <= a < b < c.functions@.len() ==> !same_key(
        #[trigger] c.functions@[a],
        #[trigger] c.functions@[b],
    )
}

/// Every linearization entry names a contract.
pub open spec fn lin_in_range(cs: Seq<Contract>, lin: Seq<usize>) -> bool {
    forall|t: int| 0 <= t < lin.len() ==> #[trigger] lin[t] < cs.len()
}

/// A contract on the linearization declaring one modifier name twice rejects FE450, one
/// declaring two functions of one name and arity FE420 (cross-contract repeats are
/// overrides, not duplicates).
fn reject_intra_contract_dupes(cs: &Vec<Contract>, lin: &Vec<usize>) -> (r: Result<(), FrontendDiag>)
    requires
        lin_in_range(cs@, lin@),
    ensures
        r is Ok <==> forall|t: int| 0 <= t < lin@.len() ==> mods_distinct(cs@[#[trigger] lin@[t] as int])
            && fns_distinct(cs@[lin@[t] as int]),
        r matches Err(d) ==> d.code == codes::FE450_DUPLICATE_MODIFIER_SOL || d.code
            == codes::FE420_BAD_IDENTIFIER_SOL,
{
    let mut t: usize = 0;
    while t < lin.len()
        invariant
            t <= lin@.len(),
            lin_in_range(cs@, lin@),
            forall|u: int| 0 <= u < t ==> mods_distinct(cs@[#[trigger] lin@[u] as int]) && fns_distinct(
                cs@[lin@[u] as int],
            ),
        decreases lin@.len() - t,
    {
        let c = &cs[lin[t]];
        let mut b: usize = 0;
        while b < c.modifiers.len()
            invariant
                t < lin@.len(),
                *c == cs@[lin@[t as int] as int],
                b <= c.modifiers@.len(),
                forall|x: int, y: int| 0 <= x < y < b ==> (#[trigger] c.modifiers@[x]).name@
                    != (#[trigger] c.modifiers@[y]).name@,
            decreases c.modifiers@.len() - b,
        {
            let mut a: usize = 0;
            while a < b
                invariant
                    t < lin@.len(),
                    *c == cs@[lin@[t as int] as int],
                    a <= b < c.modifiers@.len(),
                    forall|x: int| 0 <= x < a ==> (#[trigger] c.modifiers@[x]).name@ != c.modifiers@[b as int].name@,
                decreases b - a,
            {
                if string_eq_str(&c.modifiers[a].name, c.modifiers[b].name.as_str()) {
                    assert(!mods_distinct(cs@[lin@[t as int] as int]));
                    return Err(
                        FrontendDiag::new(
                            codes::FE450_DUPLICATE_MODIFIER_SOL,
                            "duplicate modifier declaration",
                            copy_span(&c.modifiers[b].span),
                        ),
                    );
                }
                a = a + 1;
            }
            b = b + 1;
        }
        let mut b: usize = 0;
        while b < c.functions.len()
            invariant
                t < lin@.len(),
                *c == cs@[lin@[t as int] as int],
                b <= c.functions@.len(),
                mods_distinct(*c),
                forall|x: int, y: int| 0 <= x < y < b ==> !same_key(#[trigger] c.functions@[x], #[trigger] c.functions@[y]),
            decreases c.functions@.len() - b,
        {
            let mut a: usize = 0;
            while a < b
                invariant
                    t < lin@.len(),
                    *c == cs@[lin@[t as int] as int],
                    a <= b < c.functions@.len(),
                    forall|x: int| 0 <= x < a ==> !same_key(#[trigger] c.functions@[x], c.functions@[b as int]),
                decreases b - a,
            {
                if string_eq_str(&c.functions[a].name, c.functions[b].name.as_str()) && c.functions[a].params.len()
                    == c.functions[b].params.len() {
                    assert(!fns_distinct(cs@[lin@[t as int] as int]));
                    return Err(
                        FrontendDiag::new(
                            codes::FE420_BAD_IDENTIFIER_SOL,
                            "duplicate function (same name AND arity) — same-arity overloading is unsupported",
                            copy_span(&c.functions[b].span),
                        ),
                    );
                }
                a = a + 1;
            }
            b = b + 1;
        }
        t = t + 1;
    }
    Ok(())
}

/// The function at a linearization position.
pub open spec fn fn_at(cs: Seq<Contract>, lin: Seq<usize>, p: (usize, usize)) -> Function {
    fns_at(cs, lin, p.0 as int)[p.1 as int]
}

/// A valid function position.
pub open spec fn fn_pos(cs: Seq<Contract>, lin: Seq<usize>, t: int, m: int) -> bool {
    0 <= t < lin.len() && 0 <= m < fns_at(cs, lin, t).len()
}

/// `seen` lists surviving positions before `(t, m)`, and every position before `(t, m)`
/// shares its name and arity with one of them.
#[verifier::opaque]
pub open spec fn seen_ok(cs: Seq<Contract>, lin: Seq<usize>, seen: Seq<(usize, usize)>, t: int, m: int) -> bool {
    &&& forall|k: int| 0 <= k < seen.len() ==> fn_pos(cs, lin, (#[trigger] seen[k]).0 as int, seen[k].1 as int)
        && pos_before(seen[k].0 as int, seen[k].1 as int, t, m) && !shadowed(cs, lin, seen[k].0 as int, seen[k].1 as int)
    &&& forall|t2: int, m2: int| fn_pos(cs, lin, t2, m2) && pos_before(t2, m2, t, m) ==> exists|k: int| 0 <= k < seen.len()
        && #[trigger] same_key(fn_at(cs, lin, seen[k]), fns_at(cs, lin, t2)[m2])
}

/// An overridden function has the parameter types of a surviving function of its name and
/// arity, earlier in linearization order.
#[verifier::opaque]
pub open spec fn override_faithful(cs: Seq<Contract>, lin: Seq<usize>, t: int, m: int) -> bool {
    shadowed(cs, lin, t, m) ==> exists|t2: int, m2: int| fn_pos(cs, lin, t2, m2) && pos_before(t2, m2, t, m)
        && !shadowed(cs, lin, t2, m2) && #[trigger] same_key(fns_at(cs, lin, t2)[m2], fns_at(cs, lin, t)[m])
        && same_sig(fns_at(cs, lin, t2)[m2], fns_at(cs, lin, t)[m])
}


/// The entries of `seen` stay surviving positions before the next position.
proof fn lemma_seen_entries(
    g: Seq<Contract>,
    lv: Seq<usize>,
    old_seen: Seq<(usize, usize)>,
    new_seen: Seq<(usize, usize)>,
    t: usize,
    m: usize,
)
    requires
        fn_pos(g, lv, t as int, m as int),
        seen_ok(g, lv, old_seen, t as int, m as int),
        new_seen == old_seen || (new_seen == old_seen.push((t, m)) && !shadowed(g, lv, t as int, m as int)),
    ensures
        forall|k: int| 0 <= k < new_seen.len() ==> fn_pos(g, lv, (#[trigger] new_seen[k]).0 as int, new_seen[k].1 as int)
            && pos_before(new_seen[k].0 as int, new_seen[k].1 as int, t as int, m + 1) && !shadowed(g, lv, new_seen[k].0 as int, new_seen[k].1 as int),
{
    reveal(seen_ok);
    assert forall|k: int| 0 <= k < new_seen.len() implies fn_pos(g, lv, (#[trigger] new_seen[k]).0 as int, new_seen[k].1 as int)
        && pos_before(new_seen[k].0 as int, new_seen[k].1 as int, t as int, m + 1) && !shadowed(g, lv, new_seen[k].0 as int, new_seen[k].1 as int) by {
        if k < old_seen.len() {
            assert(new_seen[k] == old_seen[k]);
        }
    }
}

/// Every position up to the current one keeps a same-key representative in `seen`.
proof fn lemma_seen_cover(
    g: Seq<Contract>,
    lv: Seq<usize>,
    old_seen: Seq<(usize, usize)>,
    new_seen: Seq<(usize, usize)>,
    t: usize,
    m: usize,
    j: int,
)
    requires
        fn_pos(g, lv, t as int, m as int),
        forall|t2: int, m2: int| fn_pos(g, lv, t2, m2) && pos_before(t2, m2, t as int, m as int) ==> exists|k: int| 0 <= k < old_seen.len()
            && #[trigger] same_key(fn_at(g, lv, old_seen[k]), fns_at(g, lv, t2)[m2]),
        old_seen.len() <= new_seen.len(),
        forall|k: int| 0 <= k < old_seen.len() ==> new_seen[k] == old_seen[k],
        0 <= j < new_seen.len(),
        same_key(fn_at(g, lv, new_seen[j]), fns_at(g, lv, t as int)[m as int]),
    ensures
        forall|t2: int, m2: int| fn_pos(g, lv, t2, m2) && pos_before(t2, m2, t as int, m + 1) ==> exists|k: int| 0 <= k < new_seen.len()
            && #[trigger] same_key(fn_at(g, lv, new_seen[k]), fns_at(g, lv, t2)[m2]),
{
    assert forall|t2: int, m2: int| fn_pos(g, lv, t2, m2) && pos_before(t2, m2, t as int, m + 1) implies exists|k: int| 0 <= k < new_seen.len()
        && #[trigger] same_key(fn_at(g, lv, new_seen[k]), fns_at(g, lv, t2)[m2]) by {
        if t2 == t && m2 == m {
            assert(same_key(fn_at(g, lv, new_seen[j]), fns_at(g, lv, t2)[m2]));
        } else {
            assert(pos_before(t2, m2, t as int, m as int));
            let k = choose|k: int| 0 <= k < old_seen.len() && #[trigger] same_key(fn_at(g, lv, old_seen[k]), fns_at(g, lv, t2)[m2]);
            assert(new_seen[k] == old_seen[k]);
            assert(same_key(fn_at(g, lv, new_seen[k]), fns_at(g, lv, t2)[m2]));
        }
    }
}

/// A position whose name and arity no `seen` entry shares is not overridden.
proof fn lemma_unseen_not_shadowed(g: Seq<Contract>, lv: Seq<usize>, seen: Seq<(usize, usize)>, t: usize, m: usize)
    requires
        fn_pos(g, lv, t as int, m as int),
        seen_ok(g, lv, seen, t as int, m as int),
        forall|j: int| 0 <= j < seen.len() ==> !#[trigger] same_key(fn_at(g, lv, seen[j]), fns_at(g, lv, t as int)[m as int]),
    ensures
        !shadowed(g, lv, t as int, m as int),
        override_faithful(g, lv, t as int, m as int),
{
    reveal(shadowed);
    reveal(seen_ok);
    reveal(override_faithful);
    if shadowed(g, lv, t as int, m as int) {
        let (t2, m2) = choose|t2: int, m2: int| 0 <= t2 < lv.len() && 0 <= m2 < fns_at(g, lv, t2).len()
            && pos_before(t2, m2, t as int, m as int) && #[trigger] same_key(fns_at(g, lv, t2)[m2], fns_at(g, lv, t as int)[m as int]);
        assert(fn_pos(g, lv, t2, m2));
        let j = choose|j: int| 0 <= j < seen.len() && #[trigger] same_key(fn_at(g, lv, seen[j]), fns_at(g, lv, t2)[m2]);
        assert(same_key(fn_at(g, lv, seen[j]), fns_at(g, lv, t as int)[m as int]));
    }
}

/// A position sharing name, arity and parameter types with a `seen` entry is a faithful
/// override.
proof fn lemma_seen_overrides(g: Seq<Contract>, lv: Seq<usize>, seen: Seq<(usize, usize)>, t: usize, m: usize, k: int)
    requires
        fn_pos(g, lv, t as int, m as int),
        seen_ok(g, lv, seen, t as int, m as int),
        0 <= k < seen.len(),
        same_key(fn_at(g, lv, seen[k]), fns_at(g, lv, t as int)[m as int]),
        same_sig(fn_at(g, lv, seen[k]), fns_at(g, lv, t as int)[m as int]),
    ensures
        shadowed(g, lv, t as int, m as int),
        override_faithful(g, lv, t as int, m as int),
        forall|t2: int, m2: int| fn_pos(g, lv, t2, m2) && pos_before(t2, m2, t as int, m as int) ==> exists|k: int| 0 <= k < seen.len()
            && #[trigger] same_key(fn_at(g, lv, seen[k]), fns_at(g, lv, t2)[m2]),
{
    reveal(shadowed);
    reveal(seen_ok);
    reveal(override_faithful);
    let t1 = seen[k].0 as int;
    let m1 = seen[k].1 as int;
    assert(fn_pos(g, lv, t1, m1));
    assert(same_key(fns_at(g, lv, t1)[m1], fns_at(g, lv, t as int)[m as int]));
}

/// How many functions the first `t` linearized contracts declare.
pub open spec fn fns_count(cs: Seq<Contract>, lin: Seq<usize>, t: int) -> nat
    decreases t,
{
    if t <= 0 {
        0
    } else {
        fns_count(cs, lin, t - 1) + fns_at(cs, lin, t - 1).len()
    }
}

proof fn lemma_fns_count_mono(cs: Seq<Contract>, lin: Seq<usize>, a: int, b: int)
    requires
        0 <= a <= b,
    ensures
        fns_count(cs, lin, a) <= fns_count(cs, lin, b),
    decreases b - a,
{
    if a < b {
        lemma_fns_count_mono(cs, lin, a, b - 1);
    }
}

/// Two surviving (not shadowed) functions with the same name and arity are one.
proof fn lemma_unique_survivor(cs: Seq<Contract>, lin: Seq<usize>, t1: int, m1: int, t2: int, m2: int)
    requires
        fn_pos(cs, lin, t1, m1),
        fn_pos(cs, lin, t2, m2),
        !shadowed(cs, lin, t1, m1),
        !shadowed(cs, lin, t2, m2),
        same_key(fns_at(cs, lin, t1)[m1], fns_at(cs, lin, t2)[m2]),
    ensures
        t1 == t2 && m1 == m2,
{
    reveal(shadowed);
    if pos_before(t1, m1, t2, m2) {
        assert(same_key(fns_at(cs, lin, t1)[m1], fns_at(cs, lin, t2)[m2]));
    } else if pos_before(t2, m2, t1, m1) {
        assert(same_key(fns_at(cs, lin, t2)[m2], fns_at(cs, lin, t1)[m1]));
    }
}

/// A function overriding the surviving `seen[k]` of its name and arity, with other
/// parameter types, is not faithful.
proof fn lemma_override_not_faithful(cs: Seq<Contract>, lin: Seq<usize>, seen: Seq<(usize, usize)>, t: usize, m: usize, k: int)
    requires
        fn_pos(cs, lin, t as int, m as int),
        seen_ok(cs, lin, seen, t as int, m as int),
        0 <= k < seen.len(),
        same_key(fn_at(cs, lin, seen[k]), fns_at(cs, lin, t as int)[m as int]),
        !same_sig(fn_at(cs, lin, seen[k]), fns_at(cs, lin, t as int)[m as int]),
    ensures
        !override_faithful(cs, lin, t as int, m as int),
{
    reveal(seen_ok);
    let p = seen[k];
    assert(fn_pos(cs, lin, p.0 as int, p.1 as int) && pos_before(p.0 as int, p.1 as int, t as int, m as int) && !shadowed(
        cs,
        lin,
        p.0 as int,
        p.1 as int,
    ));
    assert(shadowed(cs, lin, t as int, m as int)) by {
        reveal(shadowed);
        assert(same_key(fns_at(cs, lin, p.0 as int)[p.1 as int], fns_at(cs, lin, t as int)[m as int]));
    }
    reveal(override_faithful);
    if override_faithful(cs, lin, t as int, m as int) {
        let (t2, m2) = choose|t2: int, m2: int| fn_pos(cs, lin, t2, m2) && pos_before(t2, m2, t as int, m as int) && !shadowed(
            cs,
            lin,
            t2,
            m2,
        ) && #[trigger] same_key(fns_at(cs, lin, t2)[m2], fns_at(cs, lin, t as int)[m as int]) && same_sig(
            fns_at(cs, lin, t2)[m2],
            fns_at(cs, lin, t as int)[m as int],
        );
        lemma_unique_survivor(cs, lin, p.0 as int, p.1 as int, t2, m2);
    }
}

/// The next position's view of `seen`, from the lemmas above.
proof fn lemma_seen_covers(g: Seq<Contract>, lv: Seq<usize>, seen: Seq<(usize, usize)>, t: usize, m: usize)
    requires
        seen_ok(g, lv, seen, t as int, m as int),
    ensures
        forall|t2: int, m2: int| fn_pos(g, lv, t2, m2) && pos_before(t2, m2, t as int, m as int) ==> exists|k: int| 0 <= k < seen.len()
            && #[trigger] same_key(fn_at(g, lv, seen[k]), fns_at(g, lv, t2)[m2]),
        forall|k: int| 0 <= k < seen.len() ==> fn_pos(g, lv, (#[trigger] seen[k]).0 as int, seen[k].1 as int),
{
    reveal(seen_ok);
}

/// Reassembles `seen_ok` from its two parts.
proof fn lemma_seen_ok_intro(g: Seq<Contract>, lv: Seq<usize>, seen: Seq<(usize, usize)>, t: int, m: int)
    requires
        forall|k: int| 0 <= k < seen.len() ==> fn_pos(g, lv, (#[trigger] seen[k]).0 as int, seen[k].1 as int)
            && pos_before(seen[k].0 as int, seen[k].1 as int, t, m) && !shadowed(g, lv, seen[k].0 as int, seen[k].1 as int),
        forall|t2: int, m2: int| fn_pos(g, lv, t2, m2) && pos_before(t2, m2, t, m) ==> exists|k: int| 0 <= k < seen.len()
            && #[trigger] same_key(fn_at(g, lv, seen[k]), fns_at(g, lv, t2)[m2]),
    ensures
        seen_ok(g, lv, seen, t, m),
{
    reveal(seen_ok);
}

/// Classifies the function at `(t, m)`: it survives iff no earlier position shares its name
/// and arity; an overridden one must have the survivor's parameter types (else FE420).
#[verifier::rlimit(100)]
#[verifier::spinoff_prover]
fn select_one(cs: &Vec<Contract>, lin: &Vec<usize>, seen: &mut Vec<(usize, usize)>, t: usize, m: usize) -> (r: Result<bool, FrontendDiag>)
    requires
        lin_in_range(cs@, lin@),
        fn_pos(cs@, lin@, t as int, m as int),
        seen_ok(cs@, lin@, old(seen)@, t as int, m as int),
    ensures
        r matches Ok(kept) ==> kept == !shadowed(cs@, lin@, t as int, m as int) && seen_ok(cs@, lin@, final(seen)@, t as int, m + 1)
            && override_faithful(cs@, lin@, t as int, m as int),
        r matches Err(d) ==> d.code == codes::FE420_BAD_IDENTIFIER_SOL,
        r is Err ==> !override_faithful(cs@, lin@, t as int, m as int),
        r is Ok ==> final(seen)@.len() <= old(seen)@.len() + 1,
{
    let ghost g = cs@;
    let ghost lv = lin@;
    proof {
        lemma_seen_covers(g, lv, seen@, t, m);
    }
    let f = &cs[lin[t]].functions[m];
    let mut found: Option<usize> = None;
    let mut k: usize = 0;
    while k < seen.len()
        invariant
            k <= seen@.len(),
            g == cs@,
            lv == lin@,
            lin_in_range(cs@, lin@),
            fn_pos(g, lv, t as int, m as int),
            *f == fns_at(g, lv, t as int)[m as int],
            forall|j: int| 0 <= j < seen@.len() ==> fn_pos(g, lv, (#[trigger] seen@[j]).0 as int, seen@[j].1 as int),
            found matches Some(j) ==> j < seen@.len() && same_key(fn_at(g, lv, seen@[j as int]), *f),
            found is None ==> forall|j: int| 0 <= j < k ==> !#[trigger] same_key(fn_at(g, lv, seen@[j]), *f),
        ensures
            found matches Some(j) ==> j < seen@.len() && same_key(fn_at(g, lv, seen@[j as int]), *f),
            found is None ==> forall|j: int| 0 <= j < seen@.len() ==> !#[trigger] same_key(fn_at(g, lv, seen@[j]), *f),
        decreases seen@.len() - k,
    {
        let (t1, m1) = seen[k];
        proof {
            assert(fn_pos(g, lv, seen@[k as int].0 as int, seen@[k as int].1 as int));
        }
        let other = &cs[lin[t1]].functions[m1];
        if string_eq_str(&other.name, f.name.as_str()) && other.params.len() == f.params.len() {
            found = Some(k);
            break;
        }
        k = k + 1;
    }
    let ghost old_seen = seen@;
    match found {
        Some(k) => {
            let (t1, m1) = seen[k];
            proof {
                assert(fn_pos(g, lv, seen@[k as int].0 as int, seen@[k as int].1 as int));
            }
            if !same_signature(&cs[lin[t1]].functions[m1], f) {
                proof {
                    lemma_override_not_faithful(g, lv, seen@, t, m, k as int);
                }
                return Err(
                    FrontendDiag::new(
                        codes::FE420_BAD_IDENTIFIER_SOL,
                        "overload with the same arity but different parameter types cannot be flattened",
                        copy_span(&f.span),
                    ),
                );
            }
            proof {
                lemma_seen_overrides(g, lv, old_seen, t, m, k as int);
                lemma_seen_entries(g, lv, old_seen, seen@, t, m);
                lemma_seen_cover(g, lv, old_seen, seen@, t, m, k as int);
                lemma_seen_ok_intro(g, lv, seen@, t as int, m + 1);
            }
            Ok(false)
        },
        None => {
            proof {
                lemma_unseen_not_shadowed(g, lv, old_seen, t, m);
            }
            seen.push((t, m));
            proof {
                lemma_seen_entries(g, lv, old_seen, seen@, t, m);
                let j = seen@.len() - 1;
                assert(seen@[j] == (t, m));
                lemma_seen_cover(g, lv, old_seen, seen@, t, m, j);
                lemma_seen_ok_intro(g, lv, seen@, t as int, m + 1);
            }
            Ok(true)
        },
    }
}

/// Past the last function of contract position `t`, the next position is `(t + 1, 0)`.
proof fn lemma_seen_next_contract(g: Seq<Contract>, lv: Seq<usize>, seen: Seq<(usize, usize)>, t: int)
    requires
        0 <= t < lv.len(),
        seen_ok(g, lv, seen, t, fns_at(g, lv, t).len() as int),
    ensures
        seen_ok(g, lv, seen, t + 1, 0),
{
    reveal(seen_ok);
    assert forall|t2: int, m2: int| fn_pos(g, lv, t2, m2) && pos_before(t2, m2, t + 1, 0) implies exists|k: int| 0 <= k < seen.len()
        && #[trigger] same_key(fn_at(g, lv, seen[k]), fns_at(g, lv, t2)[m2]) by {
        assert(pos_before(t2, m2, t, fns_at(g, lv, t).len() as int));
    }
}

/// Which function of each linearized contract survives: the first of its name and arity in
/// linearization order (the most derived definition wins). A later function of the same
/// name and arity with other parameter types rejects FE420; more than `MAX_FUNCTIONS`
/// survivors FE402.
fn select_functions(cs: &Vec<Contract>, lin: &Vec<usize>, span: &Range<usize>) -> (r: Result<Vec<Vec<bool>>, FrontendDiag>)
    requires
        lin_in_range(cs@, lin@),
    ensures
        r matches Ok(keep) ==> keep@.len() == lin@.len() && forall|t: int| 0 <= t < lin@.len() ==> (#[trigger] keep@[t])@.len()
            == fns_at(cs@, lin@, t).len() && forall|m: int| 0 <= m < keep@[t]@.len() ==> keep@[t]@[m] == !shadowed(
            cs@,
            lin@,
            t,
            m,
        ),
        r matches Ok(_) ==> forall|t: int, m: int| #[trigger] fn_pos(cs@, lin@, t, m) ==> override_faithful(cs@, lin@, t, m),
        r matches Err(d) ==> d.code == codes::FE420_BAD_IDENTIFIER_SOL || d.code == codes::FE402_TOO_LARGE_SOL,
        fns_count(cs@, lin@, lin@.len() as int) <= MAX_FUNCTIONS ==> (r matches Err(d) ==> d.code
            == codes::FE420_BAD_IDENTIFIER_SOL),
        (forall|t: int, m: int| #[trigger] fn_pos(cs@, lin@, t, m) ==> override_faithful(cs@, lin@, t, m)) && fns_count(
            cs@,
            lin@,
            lin@.len() as int,
        ) <= MAX_FUNCTIONS ==> r is Ok,
{
    let ghost g = cs@;
    let ghost lv = lin@;
    let mut keep: Vec<Vec<bool>> = Vec::new();
    let mut seen: Vec<(usize, usize)> = Vec::new();
    let mut t: usize = 0;
    proof {
        reveal(seen_ok);
    }
    while t < lin.len()
        invariant
            g == cs@,
            lv == lin@,
            t <= lin@.len(),
            lin_in_range(cs@, lin@),
            keep@.len() == t,
            forall|u: int| 0 <= u < t ==> (#[trigger] keep@[u])@.len() == fns_at(g, lv, u).len() && forall|m: int|
                0 <= m < keep@[u]@.len() ==> keep@[u]@[m] == !shadowed(g, lv, u, m),
            seen_ok(g, lv, seen@, t as int, 0),
            seen@.len() <= fns_count(g, lv, t as int),
            forall|u: int, m: int| #[trigger] fn_pos(g, lv, u, m) && u < t ==> override_faithful(g, lv, u, m),
        decreases lin@.len() - t,
    {
        let nf = cs[lin[t]].functions.len();
        let mut row: Vec<bool> = Vec::new();
        let mut m: usize = 0;
        while m < nf
            invariant
                g == cs@,
                lv == lin@,
                t < lin@.len(),
                lin_in_range(cs@, lin@),
                nf == fns_at(g, lv, t as int).len(),
                m <= nf,
                row@.len() == m,
                forall|q: int| 0 <= q < m ==> row@[q] == !shadowed(g, lv, t as int, q),
                seen_ok(g, lv, seen@, t as int, m as int),
                seen@.len() <= fns_count(g, lv, t as int) + m,
                forall|u: int, q: int| #[trigger] fn_pos(g, lv, u, q) && pos_before(u, q, t as int, m as int)
                    ==> override_faithful(g, lv, u, q),
            decreases nf - m,
        {
            let kept = match select_one(cs, lin, &mut seen, t, m) {
                Ok(k) => k,
                Err(d) => {
                    proof {
                        assert(fn_pos(g, lv, t as int, m as int));
                    }
                    return Err(d);
                },
            };
            row.push(kept);
            proof {
                assert forall|u: int, q: int| #[trigger] fn_pos(g, lv, u, q) && pos_before(u, q, t as int, m + 1)
                    implies override_faithful(g, lv, u, q) by {
                    if !(u == t && q == m) {
                        assert(pos_before(u, q, t as int, m as int));
                    }
                }
            }
            m = m + 1;
        }
        proof {
            lemma_seen_next_contract(g, lv, seen@, t as int);
            assert forall|u: int, q: int| #[trigger] fn_pos(g, lv, u, q) && u < t + 1 implies override_faithful(g, lv, u, q) by {
                if u == t {
                    assert(pos_before(u, q, t as int, nf as int));
                }
            }
        }
        keep.push(row);
        t = t + 1;
        proof {
            lemma_fns_count_mono(g, lv, t as int, lin@.len() as int);
        }
        if seen.len() > MAX_FUNCTIONS {
            return Err(
                FrontendDiag::new(
                    codes::FE402_TOO_LARGE_SOL,
                    "too many functions in the merged contract",
                    copy_span(span),
                ),
            );
        }
    }
    Ok(keep)
}


/// The modifiers of the contract at linearization position `t`.
pub open spec fn mods_at(cs: Seq<Contract>, lin: Seq<usize>, t: int) -> Seq<Modifier> {
    cs[lin[t] as int].modifiers@
}

/// A modifier of a more derived contract (or declared earlier in the same one) has the same
/// name: this one is overridden.
pub open spec fn mod_shadowed(cs: Seq<Contract>, lin: Seq<usize>, t: int, m: int) -> bool {
    exists|t2: int, m2: int| 0 <= t2 < lin.len() && 0 <= m2 < mods_at(cs, lin, t2).len() && pos_before(t2, m2, t, m)
        && (#[trigger] mods_at(cs, lin, t2)[m2]).name@ == mods_at(cs, lin, t)[m].name@
}

/// Whether the modifier at `(t, m)` is overridden (see `mod_shadowed`).
fn mod_shadowed_at(cs: &Vec<Contract>, lin: &Vec<usize>, t: usize, m: usize) -> (r: bool)
    requires
        lin_in_range(cs@, lin@),
        t < lin@.len(),
        m < mods_at(cs@, lin@, t as int).len(),
    ensures
        r == mod_shadowed(cs@, lin@, t as int, m as int),
{
    let name = &cs[lin[t]].modifiers[m].name;
    let nl = lin.len();
    let mut t2: usize = 0;
    while t2 <= t
        invariant
            nl == lin@.len(),
            t2 <= t + 1,
            t < lin@.len(),
            lin_in_range(cs@, lin@),
            m < mods_at(cs@, lin@, t as int).len(),
            *name == mods_at(cs@, lin@, t as int)[m as int].name,
            forall|u: int, q: int| 0 <= u < t2 && 0 <= q < mods_at(cs@, lin@, u).len() && pos_before(u, q, t as int, m as int)
                ==> (#[trigger] mods_at(cs@, lin@, u)[q]).name@ != name@,
        decreases t + 1 - t2,
    {
        let ms = &cs[lin[t2]].modifiers;
        let upto = if t2 == t { m } else { ms.len() };
        let mut m2: usize = 0;
        while m2 < upto
            invariant
                t2 <= t < lin@.len(),
                lin_in_range(cs@, lin@),
                *ms == cs@[lin@[t2 as int] as int].modifiers,
                upto as int == if t2 == t { m as int } else { ms@.len() as int },
                m < mods_at(cs@, lin@, t as int).len(),
                m2 <= upto,
                *name == mods_at(cs@, lin@, t as int)[m as int].name,
                forall|u: int, q: int| 0 <= u < t2 && 0 <= q < mods_at(cs@, lin@, u).len() && pos_before(u, q, t as int, m as int)
                    ==> (#[trigger] mods_at(cs@, lin@, u)[q]).name@ != name@,
                forall|q: int| 0 <= q < m2 ==> (#[trigger] mods_at(cs@, lin@, t2 as int)[q]).name@ != name@,
            decreases upto - m2,
        {
            if string_eq_str(&ms[m2].name, name.as_str()) {
                proof {
                    assert(pos_before(t2 as int, m2 as int, t as int, m as int));
                    assert(mods_at(cs@, lin@, t2 as int)[m2 as int].name@ == mods_at(cs@, lin@, t as int)[m as int].name@);
                }
                return true;
            }
            m2 = m2 + 1;
        }
        proof {
            assert forall|u: int, q: int| 0 <= u < t2 + 1 && 0 <= q < mods_at(cs@, lin@, u).len() && pos_before(u, q, t as int, m as int)
                implies (#[trigger] mods_at(cs@, lin@, u)[q]).name@ != name@ by {
                if u == t2 {
                    assert(q < upto);
                }
            }
        }
        t2 = t2 + 1;
    }
    false
}

/// Which modifier of each linearized contract survives: the first of its name in
/// linearization order (the most derived definition wins, carried with its body).
fn select_modifiers(cs: &Vec<Contract>, lin: &Vec<usize>) -> (keep: Vec<Vec<bool>>)
    requires
        lin_in_range(cs@, lin@),
    ensures
        keep@.len() == lin@.len(),
        forall|t: int| 0 <= t < lin@.len() ==> (#[trigger] keep@[t])@.len() == mods_at(cs@, lin@, t).len()
            && forall|m: int| 0 <= m < keep@[t]@.len() ==> keep@[t]@[m] == !mod_shadowed(cs@, lin@, t, m),
{
    let mut keep: Vec<Vec<bool>> = Vec::new();
    let mut t: usize = 0;
    while t < lin.len()
        invariant
            t <= lin@.len(),
            lin_in_range(cs@, lin@),
            keep@.len() == t,
            forall|u: int| 0 <= u < t ==> (#[trigger] keep@[u])@.len() == mods_at(cs@, lin@, u).len() && forall|m: int|
                0 <= m < keep@[u]@.len() ==> keep@[u]@[m] == !mod_shadowed(cs@, lin@, u, m),
        decreases lin@.len() - t,
    {
        let n = cs[lin[t]].modifiers.len();
        let mut row: Vec<bool> = Vec::new();
        let mut m: usize = 0;
        while m < n
            invariant
                t < lin@.len(),
                lin_in_range(cs@, lin@),
                n == mods_at(cs@, lin@, t as int).len(),
                m <= n,
                row@.len() == m,
                forall|q: int| 0 <= q < m ==> row@[q] == !mod_shadowed(cs@, lin@, t as int, q),
            decreases n - m,
        {
            let s = mod_shadowed_at(cs, lin, t, m);
            row.push(!s);
            m = m + 1;
        }
        keep.push(row);
        t = t + 1;
    }
    keep
}


/// A table of names, one row per linearization position.
pub open spec fn table_pos(names: Seq<Vec<String>>, t: int, k: int) -> bool {
    0 <= t < names.len() && 0 <= k < names[t]@.len()
}

/// No two positions of the table hold the same name.
pub open spec fn table_distinct(names: Seq<Vec<String>>) -> bool {
    forall|t1: int, k1: int, t2: int, k2: int| #![trigger names[t1]@[k1], names[t2]@[k2]] table_pos(names, t1, k1) && table_pos(names, t2, k2)
        && (t1 != t2 || k1 != k2) ==> names[t1]@[k1]@ != names[t2]@[k2]@
}

/// Position `(t2, k2)` precedes `(t, k)` in most-base-first order.
pub open spec fn rev_before(t2: int, k2: int, t: int, k: int) -> bool {
    t2 > t || (t2 == t && k2 < k)
}

/// The first position, most-base-first, whose name an earlier position already holds.
fn rev_first_dup(names: &Vec<Vec<String>>) -> (r: Option<(usize, usize)>)
    ensures
        r is None <==> table_distinct(names@),
        r matches Some(p) ==> table_pos(names@, p.0 as int, p.1 as int),
{
    let n = names.len();
    let mut t: usize = n;
    while t > 0
        invariant
            t <= n == names@.len(),
            forall|t1: int, k1: int, t2: int, k2: int| #![trigger names@[t1]@[k1], names@[t2]@[k2]] table_pos(names@, t1, k1) && table_pos(names@, t2, k2)
                && t1 >= t && rev_before(t2, k2, t1, k1) ==> names@[t1]@[k1]@ != names@[t2]@[k2]@,
        decreases t,
    {
        t = t - 1;
        let row = &names[t];
        let mut k: usize = 0;
        while k < row.len()
            invariant
                t < n == names@.len(),
                *row == names@[t as int],
                k <= row@.len(),
                forall|t1: int, k1: int, t2: int, k2: int| #![trigger names@[t1]@[k1], names@[t2]@[k2]] table_pos(names@, t1, k1) && table_pos(names@, t2, k2)
                    && (t1 > t || (t1 == t && k1 < k)) && rev_before(t2, k2, t1, k1) ==> names@[t1]@[k1]@ != names@[t2]@[k2]@,
            decreases row@.len() - k,
        {
            // compare with every position before (t, k)
            let mut t2: usize = n;
            while t2 > t + 1
                invariant
                    t < n == names@.len(),
                    *row == names@[t as int],
                    k < row@.len(),
                    t + 1 <= t2 <= n,
                    forall|u: int, q: int| t2 <= u < n && 0 <= q < names@[u]@.len() ==> (#[trigger] names@[u]@[q])@ != row@[k as int]@,
                decreases t2,
            {
                t2 = t2 - 1;
                let other = &names[t2];
                let mut q: usize = 0;
                while q < other.len()
                    invariant
                        t < t2 < n == names@.len(),
                        *other == names@[t2 as int],
                        *row == names@[t as int],
                        k < row@.len(),
                        q <= other@.len(),
                        forall|u: int, q2: int| t2 < u < n && 0 <= q2 < names@[u]@.len() ==> (#[trigger] names@[u]@[q2])@ != row@[k as int]@,
                        forall|q2: int| 0 <= q2 < q ==> (#[trigger] other@[q2])@ != row@[k as int]@,
                    decreases other@.len() - q,
                {
                    if string_eq_str(&other[q], row[k].as_str()) {
                        proof {
                            assert(names@[t2 as int]@[q as int] == other@[q as int]);
                            assert(!table_distinct(names@));
                        }
                        return Some((t, k));
                    }
                    q = q + 1;
                }
            }
            let mut k2: usize = 0;
            while k2 < k
                invariant
                    t < n == names@.len(),
                    *row == names@[t as int],
                    k < row@.len(),
                    k2 <= k,
                    forall|q2: int| 0 <= q2 < k2 ==> (#[trigger] row@[q2])@ != row@[k as int]@,
                decreases k - k2,
            {
                if string_eq_str(&row[k2], row[k].as_str()) {
                    proof {
                        assert(!table_distinct(names@));
                    }
                    return Some((t, k));
                }
                k2 = k2 + 1;
            }
            proof {
                assert forall|t1: int, k1: int, t2: int, k2: int| #![trigger names@[t1]@[k1], names@[t2]@[k2]] table_pos(names@, t1, k1) && table_pos(names@, t2, k2)
                    && (t1 > t || (t1 == t && k1 < k + 1)) && rev_before(t2, k2, t1, k1) implies names@[t1]@[k1]@ != names@[t2]@[k2]@ by {
                    if t1 == t && k1 == k {
                        if t2 == t {
                            assert(row@[k2] == names@[t2]@[k2]);
                        } else {
                            assert(t2 > t);
                        }
                    }
                }
            }
            k = k + 1;
        }
    }
    proof {
        assert forall|t1: int, k1: int, t2: int, k2: int| #![trigger names@[t1]@[k1], names@[t2]@[k2]] table_pos(names@, t1, k1) && table_pos(names@, t2, k2)
            && (t1 != t2 || k1 != k2) implies names@[t1]@[k1]@ != names@[t2]@[k2]@ by {
            if !rev_before(t2, k2, t1, k1) {
                assert(rev_before(t1, k1, t2, k2));
            }
        }
    }
    None
}


/// The state variable names of each linearized contract.
fn state_names(cs: &Vec<Contract>, lin: &Vec<usize>) -> (r: Vec<Vec<String>>)
    requires
        lin_in_range(cs@, lin@),
    ensures
        r@.len() == lin@.len(),
        forall|t: int| 0 <= t < lin@.len() ==> (#[trigger] r@[t])@.len() == cs@[lin@[t] as int].state@.len()
            && forall|k: int| 0 <= k < r@[t]@.len() ==> r@[t]@[k]@ == cs@[lin@[t] as int].state@[k].name@,
{
    let mut r: Vec<Vec<String>> = Vec::new();
    let mut t: usize = 0;
    while t < lin.len()
        invariant
            t <= lin@.len(),
            lin_in_range(cs@, lin@),
            r@.len() == t,
            forall|u: int| 0 <= u < t ==> (#[trigger] r@[u])@.len() == cs@[lin@[u] as int].state@.len()
                && forall|k: int| 0 <= k < r@[u]@.len() ==> r@[u]@[k]@ == cs@[lin@[u] as int].state@[k].name@,
        decreases lin@.len() - t,
    {
        let items = &cs[lin[t]].state;
        let mut row: Vec<String> = Vec::new();
        let mut k: usize = 0;
        while k < items.len()
            invariant
                k <= items@.len(),
                row@.len() == k,
                forall|q: int| 0 <= q < k ==> row@[q]@ == items@[q].name@,
            decreases items@.len() - k,
        {
            row.push(clone_string(&items[k].name));
            k = k + 1;
        }
        r.push(row);
        t = t + 1;
    }
    r
}

/// The struct names of each linearized contract.
fn struct_names(cs: &Vec<Contract>, lin: &Vec<usize>) -> (r: Vec<Vec<String>>)
    requires
        lin_in_range(cs@, lin@),
    ensures
        r@.len() == lin@.len(),
        forall|t: int| 0 <= t < lin@.len() ==> (#[trigger] r@[t])@.len() == cs@[lin@[t] as int].structs@.len()
            && forall|k: int| 0 <= k < r@[t]@.len() ==> r@[t]@[k]@ == cs@[lin@[t] as int].structs@[k].name@,
{
    let mut r: Vec<Vec<String>> = Vec::new();
    let mut t: usize = 0;
    while t < lin.len()
        invariant
            t <= lin@.len(),
            lin_in_range(cs@, lin@),
            r@.len() == t,
            forall|u: int| 0 <= u < t ==> (#[trigger] r@[u])@.len() == cs@[lin@[u] as int].structs@.len()
                && forall|k: int| 0 <= k < r@[u]@.len() ==> r@[u]@[k]@ == cs@[lin@[u] as int].structs@[k].name@,
        decreases lin@.len() - t,
    {
        let items = &cs[lin[t]].structs;
        let mut row: Vec<String> = Vec::new();
        let mut k: usize = 0;
        while k < items.len()
            invariant
                k <= items@.len(),
                row@.len() == k,
                forall|q: int| 0 <= q < k ==> row@[q]@ == items@[q].name@,
            decreases items@.len() - k,
        {
            row.push(clone_string(&items[k].name));
            k = k + 1;
        }
        r.push(row);
        t = t + 1;
    }
    r
}

/// The enum names of each linearized contract.
fn enum_names(cs: &Vec<Contract>, lin: &Vec<usize>) -> (r: Vec<Vec<String>>)
    requires
        lin_in_range(cs@, lin@),
    ensures
        r@.len() == lin@.len(),
        forall|t: int| 0 <= t < lin@.len() ==> (#[trigger] r@[t])@.len() == cs@[lin@[t] as int].enums@.len()
            && forall|k: int| 0 <= k < r@[t]@.len() ==> r@[t]@[k]@ == cs@[lin@[t] as int].enums@[k].name@,
{
    let mut r: Vec<Vec<String>> = Vec::new();
    let mut t: usize = 0;
    while t < lin.len()
        invariant
            t <= lin@.len(),
            lin_in_range(cs@, lin@),
            r@.len() == t,
            forall|u: int| 0 <= u < t ==> (#[trigger] r@[u])@.len() == cs@[lin@[u] as int].enums@.len()
                && forall|k: int| 0 <= k < r@[u]@.len() ==> r@[u]@[k]@ == cs@[lin@[u] as int].enums@[k].name@,
        decreases lin@.len() - t,
    {
        let items = &cs[lin[t]].enums;
        let mut row: Vec<String> = Vec::new();
        let mut k: usize = 0;
        while k < items.len()
            invariant
                k <= items@.len(),
                row@.len() == k,
                forall|q: int| 0 <= q < k ==> row@[q]@ == items@[q].name@,
            decreases items@.len() - k,
        {
            row.push(clone_string(&items[k].name));
            k = k + 1;
        }
        r.push(row);
        t = t + 1;
    }
    r
}

/// Some position of the table holds the name `s`.
pub open spec fn in_table(names: Seq<Vec<String>>, s: Seq<char>) -> bool {
    exists|t: int, k: int| table_pos(names, t, k) && (#[trigger] names[t]@[k])@ == s
}

fn table_has(names: &Vec<Vec<String>>, s: &str) -> (r: bool)
    ensures
        r == in_table(names@, s@),
{
    let mut t: usize = 0;
    while t < names.len()
        invariant
            t <= names@.len(),
            forall|u: int, k: int| 0 <= u < t && table_pos(names@, u, k) ==> (#[trigger] names@[u]@[k])@ != s@,
        decreases names@.len() - t,
    {
        let row = &names[t];
        let mut k: usize = 0;
        while k < row.len()
            invariant
                t < names@.len(),
                *row == names@[t as int],
                k <= row@.len(),
                forall|u: int, q: int| 0 <= u < t && table_pos(names@, u, q) ==> (#[trigger] names@[u]@[q])@ != s@,
                forall|q: int| 0 <= q < k ==> (#[trigger] row@[q])@ != s@,
            decreases row@.len() - k,
        {
            if string_eq_str(&row[k], s) {
                assert(names@[t as int]@[k as int] == row@[k as int]);
                return true;
            }
            k = k + 1;
        }
        t = t + 1;
    }
    false
}

/// A value with no effect that a dropped assignment could lose: a name, a number, a bool.
pub open spec fn pure_value(e: Expr) -> bool {
    e is Var || e is Num || e is Bool
}

/// A base constructor that only assigns pure values to fields outside the merged state
/// (dropped metadata such as a token name), with no base calls of its own.
pub open spec fn metadata_only(c: Constructor, state_tab: Seq<Vec<String>>) -> bool {
    &&& c.base_calls@.len() == 0
    &&& forall|k: int| 0 <= k < c.body@.len() ==> (#[trigger] c.body@[k] matches Stmt::Assign { target, op, value, .. }
        && op == AssignOp::Eq && !in_table(state_tab, target@) && pure_value(value))
}

fn is_metadata_only_ctor(c: &Constructor, state_tab: &Vec<Vec<String>>) -> (r: bool)
    ensures
        r == metadata_only(*c, state_tab@),
{
    if c.base_calls.len() != 0 {
        return false;
    }
    let mut k: usize = 0;
    while k < c.body.len()
        invariant
            k <= c.body@.len(),
            c.base_calls@.len() == 0,
            forall|j: int| 0 <= j < k ==> (#[trigger] c.body@[j] matches Stmt::Assign { target, op, value, .. }
                && op == AssignOp::Eq && !in_table(state_tab@, target@) && pure_value(value)),
        decreases c.body@.len() - k,
    {
        let ok = match &c.body[k] {
            Stmt::Assign { target, op, value, .. } => matches!(op, AssignOp::Eq) && !table_has(state_tab, target.as_str())
                && is_pure_value(value),
            _ => false,
        };
        if !ok {
            return false;
        }
        k = k + 1;
    }
    true
}

fn is_pure_value(e: &Expr) -> (r: bool)
    ensures
        r == pure_value(*e),
{
    match e {
        Expr::Var(..) => true,
        Expr::Num(..) => true,
        Expr::Bool(..) => true,
        _ => false,
    }
}


/// Items kept by their flags, in order.
pub open spec fn kept_seq<T>(items: Seq<T>, flags: Seq<bool>) -> Seq<T>
    decreases items.len(),
{
    if items.len() == 0 {
        Seq::empty()
    } else {
        let rest = kept_seq(items.drop_last(), flags.take(items.len() - 1));
        if flags[items.len() - 1] {
            rest.push(items.last())
        } else {
            rest
        }
    }
}

/// The kept items of each row, rows in order.
pub open spec fn kept_all<T>(tab: Seq<Seq<T>>, flags: Seq<Seq<bool>>) -> Seq<T>
    decreases tab.len(),
{
    if tab.len() == 0 {
        Seq::empty()
    } else {
        kept_all(tab.drop_last(), flags.drop_last()) + kept_seq(tab.last(), flags.last())
    }
}

/// The rows concatenated last row first.
pub open spec fn rev_concat<T>(tab: Seq<Seq<T>>) -> Seq<T>
    decreases tab.len(),
{
    if tab.len() == 0 {
        Seq::empty()
    } else {
        tab.last() + rev_concat(tab.drop_last())
    }
}

/// The views of a table of vectors.
pub open spec fn rows<T>(tab: Seq<Vec<T>>) -> Seq<Seq<T>> {
    Seq::new(tab.len(), |t: int| tab[t]@)
}

/// The flags of a table.
pub open spec fn flag_rows(tab: Seq<Vec<bool>>) -> Seq<Seq<bool>> {
    Seq::new(tab.len(), |t: int| tab[t]@)
}

proof fn lemma_kept_seq_step<T>(items: Seq<T>, flags: Seq<bool>, m: int)
    requires
        0 <= m < items.len(),
        items.len() <= flags.len(),
    ensures
        kept_seq(items.take(m + 1), flags.take(m + 1)) == if flags[m] {
            kept_seq(items.take(m), flags.take(m)).push(items[m])
        } else {
            kept_seq(items.take(m), flags.take(m))
        },
{
    assert(items.take(m + 1).drop_last() =~= items.take(m));
    assert(flags.take(m + 1).take(m) =~= flags.take(m));
}

/// The items whose flags are set, rows in order (the rows are consumed).
fn keep_items<T>(tab: Vec<Vec<T>>, keep: &Vec<Vec<bool>>) -> (r: Vec<T>)
    requires
        tab@.len() == keep@.len(),
        forall|t: int| 0 <= t < tab@.len() ==> (#[trigger] tab@[t])@.len() == keep@[t]@.len(),
    ensures
        r@ == kept_all(rows(tab@), flag_rows(keep@)),
{
    let ghost orig = rows(tab@);
    let ghost fl = flag_rows(keep@);
    let mut tab = tab;
    let mut out: Vec<T> = Vec::new();
    let n = keep.len();
    let mut t: usize = 0;
    while t < n
        invariant
            n == keep@.len() == orig.len() == fl.len(),
            t <= n,
            fl == flag_rows(keep@),
            tab@.len() == n - t,
            forall|u: int| 0 <= u < n - t ==> (#[trigger] tab@[u])@ == orig[u + t],
            forall|u: int| 0 <= u < n ==> (#[trigger] orig[u]).len() == fl[u].len(),
            out@ == kept_all(orig.take(t as int), fl.take(t as int)),
        decreases n - t,
    {
        let mut row = tab.remove(0);
        let ghost orow = orig[t as int];
        let flags = &keep[t];
        let mut m: usize = 0;
        let len = flags.len();
        let ghost base = out@;
        while m < len
            invariant
                len == flags@.len() == orow.len(),
                m <= len,
                flags@ == fl[t as int],
                row@ == orow.skip(m as int),
                out@ == base + kept_seq(orow.take(m as int), flags@.take(m as int)),
            decreases len - m,
        {
            let item = row.remove(0);
            proof {
                lemma_kept_seq_step(orow, flags@, m as int);
                assert(row@ =~= orow.skip(m + 1));
            }
            if flags[m] {
                out.push(item);
            }
            m = m + 1;
            assert(out@ =~= base + kept_seq(orow.take(m as int), flags@.take(m as int)));
        }
        proof {
            assert(orow.take(len as int) =~= orow);
            assert(flags@.take(len as int) =~= flags@);
            assert(orig.take(t + 1).drop_last() =~= orig.take(t as int));
            assert(fl.take(t + 1).drop_last() =~= fl.take(t as int));
            assert(tab@.len() == n - t - 1);
            assert forall|u: int| 0 <= u < n - (t + 1) implies (#[trigger] tab@[u])@ == orig[u + t + 1] by {
            }
        }
        t = t + 1;
    }
    proof {
        assert(orig.take(n as int) =~= orig);
        assert(fl.take(n as int) =~= fl);
    }
    out
}

/// All rows, last row first (the rows are consumed).
fn concat_rev<T>(tab: Vec<Vec<T>>) -> (r: Vec<T>)
    ensures
        r@ == rev_concat(rows(tab@)),
{
    let ghost orig = rows(tab@);
    let mut tab = tab;
    let mut out: Vec<T> = Vec::new();
    while tab.len() > 0
        invariant
            out@ + rev_concat(rows(tab@)) == rev_concat(orig),
        decreases tab@.len(),
    {
        let ghost before = rows(tab@);
        let mut row = match tab.pop() {
            Some(r) => r,
            None => Vec::new(),
        };
        proof {
            assert(rows(tab@) =~= before.drop_last());
            assert(before.last() == row@);
            assert(out@ + rev_concat(before) =~= out@ + row@ + rev_concat(rows(tab@)));
        }
        out.append(&mut row);
    }
    proof {
        assert(rows(tab@) =~= Seq::<Seq<T>>::empty());
        assert(out@ + rev_concat(rows(tab@)) =~= out@);
    }
    out
}


/// The member lists of the linearized contracts, one row per linearization position.
struct Members {
    fns: Vec<Vec<Function>>,
    mods: Vec<Vec<Modifier>>,
    structs: Vec<Vec<Struct>>,
    enums: Vec<Vec<Enum>>,
    state: Vec<Vec<StateVar>>,
}

/// Moves the member lists of every linearized contract out (in linearization order),
/// leaving each contract's name, span, kind, bases and constructor in place.
fn take_members(contracts: &mut Vec<Contract>, lin: &Vec<usize>) -> (r: Members)
    requires
        lin_in_range(old(contracts)@, lin@),
        no_dup(lin@),
    ensures
        final(contracts)@.len() == old(contracts)@.len(),
        forall|j: int| 0 <= j < old(contracts)@.len() ==> (#[trigger] final(contracts)@[j]).name == old(contracts)@[j].name
            && final(contracts)@[j].span == old(contracts)@[j].span && final(contracts)@[j].constructor
            == old(contracts)@[j].constructor,
        r.fns@.len() == lin@.len() && r.mods@.len() == lin@.len() && r.structs@.len() == lin@.len()
            && r.enums@.len() == lin@.len() && r.state@.len() == lin@.len(),
        forall|t: int| 0 <= t < lin@.len() ==> (#[trigger] r.fns@[t])@ == old(contracts)@[lin@[t] as int].functions@,
        forall|t: int| 0 <= t < lin@.len() ==> (#[trigger] r.mods@[t])@ == old(contracts)@[lin@[t] as int].modifiers@,
        forall|t: int| 0 <= t < lin@.len() ==> (#[trigger] r.structs@[t])@ == old(contracts)@[lin@[t] as int].structs@,
        forall|t: int| 0 <= t < lin@.len() ==> (#[trigger] r.enums@[t])@ == old(contracts)@[lin@[t] as int].enums@,
        forall|t: int| 0 <= t < lin@.len() ==> (#[trigger] r.state@[t])@ == old(contracts)@[lin@[t] as int].state@,
{
    let ghost orig = contracts@;
    let mut m = Members { fns: Vec::new(), mods: Vec::new(), structs: Vec::new(), enums: Vec::new(), state: Vec::new() };
    let mut t: usize = 0;
    while t < lin.len()
        invariant
            t <= lin@.len(),
            lin_in_range(orig, lin@),
            no_dup(lin@),
            contracts@.len() == orig.len(),
            forall|j: int| 0 <= j < orig.len() ==> (#[trigger] contracts@[j]).name == orig[j].name
                && contracts@[j].span == orig[j].span && contracts@[j].constructor == orig[j].constructor,
            forall|u: int| t <= u < lin@.len() ==> contracts@[#[trigger] lin@[u] as int] == orig[lin@[u] as int],
            m.fns@.len() == t && m.mods@.len() == t && m.structs@.len() == t && m.enums@.len() == t && m.state@.len() == t,
            forall|u: int| 0 <= u < t ==> (#[trigger] m.fns@[u])@ == orig[lin@[u] as int].functions@,
            forall|u: int| 0 <= u < t ==> (#[trigger] m.mods@[u])@ == orig[lin@[u] as int].modifiers@,
            forall|u: int| 0 <= u < t ==> (#[trigger] m.structs@[u])@ == orig[lin@[u] as int].structs@,
            forall|u: int| 0 <= u < t ==> (#[trigger] m.enums@[u])@ == orig[lin@[u] as int].enums@,
            forall|u: int| 0 <= u < t ==> (#[trigger] m.state@[u])@ == orig[lin@[u] as int].state@,
        decreases lin@.len() - t,
    {
        let c = lin[t];
        assert(contracts@[c as int] == orig[c as int]);
        let mut f: Vec<Function> = Vec::new();
        std::mem::swap(&mut contracts[c].functions, &mut f);
        let mut md: Vec<Modifier> = Vec::new();
        std::mem::swap(&mut contracts[c].modifiers, &mut md);
        let mut st: Vec<Struct> = Vec::new();
        std::mem::swap(&mut contracts[c].structs, &mut st);
        let mut en: Vec<Enum> = Vec::new();
        std::mem::swap(&mut contracts[c].enums, &mut en);
        let mut sv: Vec<StateVar> = Vec::new();
        std::mem::swap(&mut contracts[c].state, &mut sv);
        m.fns.push(f);
        m.mods.push(md);
        m.structs.push(st);
        m.enums.push(en);
        m.state.push(sv);
        proof {
            assert forall|u: int| t + 1 <= u < lin@.len() implies contracts@[#[trigger] lin@[u] as int] == orig[lin@[u] as int] by {
                assert(lin@[u] != lin@[t as int]);
            }
        }
        t = t + 1;
    }
    m
}


/// The modifier names of each linearized contract.
fn mod_names(cs: &Vec<Contract>, lin: &Vec<usize>) -> (r: Vec<Vec<String>>)
    requires
        lin_in_range(cs@, lin@),
    ensures
        r@.len() == lin@.len(),
        forall|t: int| 0 <= t < lin@.len() ==> (#[trigger] r@[t])@.len() == cs@[lin@[t] as int].modifiers@.len()
            && forall|k: int| 0 <= k < r@[t]@.len() ==> r@[t]@[k]@ == cs@[lin@[t] as int].modifiers@[k].name@,
{
    let mut r: Vec<Vec<String>> = Vec::new();
    let mut t: usize = 0;
    while t < lin.len()
        invariant
            t <= lin@.len(),
            lin_in_range(cs@, lin@),
            r@.len() == t,
            forall|u: int| 0 <= u < t ==> (#[trigger] r@[u])@.len() == cs@[lin@[u] as int].modifiers@.len()
                && forall|k: int| 0 <= k < r@[u]@.len() ==> r@[u]@[k]@ == cs@[lin@[u] as int].modifiers@[k].name@,
        decreases lin@.len() - t,
    {
        let items = &cs[lin[t]].modifiers;
        let mut row: Vec<String> = Vec::new();
        let mut k: usize = 0;
        while k < items.len()
            invariant
                k <= items@.len(),
                row@.len() == k,
                forall|q: int| 0 <= q < k ==> row@[q]@ == items@[q].name@,
            decreases items@.len() - k,
        {
            row.push(clone_string(&items[k].name));
            k = k + 1;
        }
        r.push(row);
        t = t + 1;
    }
    r
}

/// Every surviving function has a body.
pub open spec fn kept_bodied(cs: Seq<Contract>, lin: Seq<usize>) -> bool {
    forall|t: int, m: int| #[trigger] fn_pos(cs, lin, t, m) && !shadowed(cs, lin, t, m) ==> !fns_at(cs, lin, t)[m].bodiless
}

/// A surviving bodiless function (never implemented in the merge) rejects FE475.
fn check_bodied(cs: &Vec<Contract>, lin: &Vec<usize>, keep: &Vec<Vec<bool>>) -> (r: Result<(), FrontendDiag>)
    requires
        lin_in_range(cs@, lin@),
        keep@.len() == lin@.len(),
        forall|t: int| 0 <= t < lin@.len() ==> (#[trigger] keep@[t])@.len() == fns_at(cs@, lin@, t).len()
            && forall|m: int| 0 <= m < keep@[t]@.len() ==> keep@[t]@[m] == !shadowed(cs@, lin@, t, m),
    ensures
        r is Ok <==> kept_bodied(cs@, lin@),
        r matches Err(d) ==> d.code == codes::FE475_ABSTRACT_FUNCTION_SOL,
{
    let mut t: usize = 0;
    while t < lin.len()
        invariant
            t <= lin@.len(),
            lin_in_range(cs@, lin@),
            keep@.len() == lin@.len(),
            forall|u: int| 0 <= u < lin@.len() ==> (#[trigger] keep@[u])@.len() == fns_at(cs@, lin@, u).len()
                && forall|m: int| 0 <= m < keep@[u]@.len() ==> keep@[u]@[m] == !shadowed(cs@, lin@, u, m),
            forall|u: int, m: int| #[trigger] fn_pos(cs@, lin@, u, m) && u < t && !shadowed(cs@, lin@, u, m) ==> !fns_at(cs@, lin@, u)[m].bodiless,
        decreases lin@.len() - t,
    {
        let fs = &cs[lin[t]].functions;
        let row = &keep[t];
        let mut m: usize = 0;
        while m < fs.len()
            invariant
                t < lin@.len(),
                lin_in_range(cs@, lin@),
                *fs == cs@[lin@[t as int] as int].functions,
                *row == keep@[t as int],
                row@.len() == fs@.len(),
                forall|q: int| 0 <= q < row@.len() ==> row@[q] == !shadowed(cs@, lin@, t as int, q),
                m <= fs@.len(),
                forall|u: int, q: int| #[trigger] fn_pos(cs@, lin@, u, q) && pos_before(u, q, t as int, m as int) && !shadowed(cs@, lin@, u, q)
                    ==> !fns_at(cs@, lin@, u)[q].bodiless,
            decreases fs@.len() - m,
        {
            if row[m] && fs[m].bodiless {
                proof {
                    assert(fn_pos(cs@, lin@, t as int, m as int));
                }
                return Err(
                    FrontendDiag::new(
                        codes::FE475_ABSTRACT_FUNCTION_SOL,
                        "abstract function is never implemented in the flattened contract (a `virtual` with no body survives the merge)",
                        copy_span(&fs[m].span),
                    ),
                );
            }
            proof {
                assert forall|u: int, q: int| #[trigger] fn_pos(cs@, lin@, u, q) && pos_before(u, q, t as int, m + 1) && !shadowed(cs@, lin@, u, q)
                    implies !fns_at(cs@, lin@, u)[q].bodiless by {
                    if !(u == t && q == m) {
                        assert(pos_before(u, q, t as int, m as int));
                    }
                }
            }
            m = m + 1;
        }
        proof {
            assert forall|u: int, m: int| #[trigger] fn_pos(cs@, lin@, u, m) && u < t + 1 && !shadowed(cs@, lin@, u, m)
                implies !fns_at(cs@, lin@, u)[m].bodiless by {
                if u == t {
                    assert(pos_before(u, m, t as int, fs@.len() as int));
                }
            }
        }
        t = t + 1;
    }
    Ok(())
}

/// Every base (non-main) constructor on the linearization is a droppable metadata one.
pub open spec fn base_ctors_ok(cs: Seq<Contract>, lin: Seq<usize>, main: int, state_tab: Seq<Vec<String>>) -> bool {
    forall|t: int| 0 <= t < lin.len() && lin[t] != main ==> (cs[#[trigger] lin[t] as int].constructor matches Some(bc)
        ==> metadata_only(bc, state_tab))
}

/// A base constructor that runs real initialization rejects FE468.
fn check_base_ctors(cs: &Vec<Contract>, lin: &Vec<usize>, main: usize, state_tab: &Vec<Vec<String>>) -> (r: Result<(), FrontendDiag>)
    requires
        lin_in_range(cs@, lin@),
    ensures
        r is Ok <==> base_ctors_ok(cs@, lin@, main as int, state_tab@),
        r matches Err(d) ==> d.code == codes::FE468_BASE_CONSTRUCTOR_SOL,
{
    let mut t: usize = 0;
    while t < lin.len()
        invariant
            t <= lin@.len(),
            lin_in_range(cs@, lin@),
            forall|u: int| 0 <= u < t && lin@[u] != main ==> (cs@[#[trigger] lin@[u] as int].constructor matches Some(bc)
                ==> metadata_only(bc, state_tab@)),
        decreases lin@.len() - t,
    {
        let i = lin[t];
        if i != main {
            match &cs[i].constructor {
                Some(bc) => {
                    if !is_metadata_only_ctor(bc, state_tab) {
                        return Err(
                            FrontendDiag::new(
                                codes::FE468_BASE_CONSTRUCTOR_SOL,
                                "a base contract declares a constructor that runs real init logic — only a dropped-metadata base constructor reduces to a no-op; base-constructor chaining is otherwise unsupported",
                                copy_span(&bc.span),
                            ),
                        );
                    }
                },
                None => {},
            }
        }
        t = t + 1;
    }
    Ok(())
}

/// Each base-constructor call of the deployed contract's constructor has only literal
/// arguments and names a linearized contract.
pub open spec fn main_calls_ok(cs: Seq<Contract>, lin: Seq<usize>, main: int) -> bool {
    cs[main].constructor matches Some(k) ==> forall|q: int| 0 <= q < k.base_calls@.len() ==> (#[trigger] k.base_calls@[q]).all_literal
        && exists|t: int| 0 <= t < lin.len() && (#[trigger] cs[lin[t] as int]).name@ == k.base_calls@[q].name@
}

/// A base-constructor call with a computed argument, or naming no base, rejects FE468.
fn check_main_calls(cs: &Vec<Contract>, lin: &Vec<usize>, main: usize) -> (r: Result<(), FrontendDiag>)
    requires
        lin_in_range(cs@, lin@),
        main < cs@.len(),
    ensures
        r is Ok <==> main_calls_ok(cs@, lin@, main as int),
        r matches Err(d) ==> d.code == codes::FE468_BASE_CONSTRUCTOR_SOL,
{
    match &cs[main].constructor {
        None => Ok(()),
        Some(k) => {
            let mut q: usize = 0;
            while q < k.base_calls.len()
                invariant
                    q <= k.base_calls@.len(),
                    lin_in_range(cs@, lin@),
                    main < cs@.len(),
                    cs@[main as int].constructor == Some(*k),
                    forall|p: int| 0 <= p < q ==> (#[trigger] k.base_calls@[p]).all_literal && exists|t: int| 0 <= t < lin@.len()
                        && (#[trigger] cs@[lin@[t] as int]).name@ == k.base_calls@[p].name@,
                decreases k.base_calls@.len() - q,
            {
                let bc = &k.base_calls[q];
                if !bc.all_literal {
                    proof {
                        let kk = cs@[main as int].constructor->Some_0;
                        assert(kk == *k);
                        assert(!kk.base_calls@[q as int].all_literal);
                    }
                    return Err(
                        FrontendDiag::new(
                            codes::FE468_BASE_CONSTRUCTOR_SOL,
                            "a base-constructor call has a non-literal argument — only an all-literal call reduces to a no-op",
                            copy_span(&bc.span),
                        ),
                    );
                }
                let mut t: usize = 0;
                let mut found = false;
                while t < lin.len()
                    invariant
                        t <= lin@.len(),
                        lin_in_range(cs@, lin@),
                        !found ==> forall|u: int| 0 <= u < t ==> (#[trigger] cs@[lin@[u] as int]).name@ != bc.name@,
                        found ==> exists|u: int| 0 <= u < lin@.len() && (#[trigger] cs@[lin@[u] as int]).name@ == bc.name@,
                    decreases lin@.len() - t,
                {
                    if !found && string_eq_str(&cs[lin[t]].name, bc.name.as_str()) {
                        found = true;
                    }
                    t = t + 1;
                }
                if !found {
                    proof {
                        let kk = cs@[main as int].constructor->Some_0;
                        assert(kk == *k);
                        assert(*bc == kk.base_calls@[q as int]);
                        assert(forall|u: int| 0 <= u < lin@.len() ==> (#[trigger] cs@[lin@[u] as int]).name@ != kk.base_calls@[q as int].name@);
                    }
                    return Err(
                        FrontendDiag::new(
                            codes::FE468_BASE_CONSTRUCTOR_SOL,
                            "a base-constructor call names a contract that is not a base of the deployed contract",
                            copy_span(&bc.span),
                        ),
                    );
                }
                q = q + 1;
            }
            Ok(())
        },
    }
}

/// Every modifier applied by a surviving function is declared by some linearized contract
/// (and so survives the merge).
pub open spec fn applied_declared(cs: Seq<Contract>, lin: Seq<usize>, mod_tab: Seq<Vec<String>>) -> bool {
    forall|t: int, m: int, a: int| #[trigger] fn_pos(cs, lin, t, m) && !shadowed(cs, lin, t, m) && 0 <= a
        < fns_at(cs, lin, t)[m].modifiers@.len() ==> in_table(mod_tab, (#[trigger] fns_at(cs, lin, t)[m].modifiers@[a]).name@)
}

/// An applied modifier without a surviving declaration is an internal fault (FE500).
fn check_applied(cs: &Vec<Contract>, lin: &Vec<usize>, keep: &Vec<Vec<bool>>, mod_tab: &Vec<Vec<String>>) -> (r: Result<(), FrontendDiag>)
    requires
        lin_in_range(cs@, lin@),
        keep@.len() == lin@.len(),
        forall|t: int| 0 <= t < lin@.len() ==> (#[trigger] keep@[t])@.len() == fns_at(cs@, lin@, t).len()
            && forall|m: int| 0 <= m < keep@[t]@.len() ==> keep@[t]@[m] == !shadowed(cs@, lin@, t, m),
    ensures
        r is Ok <==> applied_declared(cs@, lin@, mod_tab@),
        r matches Err(d) ==> d.code == codes::FE500_INTERNAL_MALFORMED_SOL,
{
    let mut t: usize = 0;
    while t < lin.len()
        invariant
            t <= lin@.len(),
            lin_in_range(cs@, lin@),
            keep@.len() == lin@.len(),
            forall|u: int| 0 <= u < lin@.len() ==> (#[trigger] keep@[u])@.len() == fns_at(cs@, lin@, u).len()
                && forall|m: int| 0 <= m < keep@[u]@.len() ==> keep@[u]@[m] == !shadowed(cs@, lin@, u, m),
            forall|u: int, m: int, a: int| #[trigger] fn_pos(cs@, lin@, u, m) && u < t && !shadowed(cs@, lin@, u, m) && 0 <= a
                < fns_at(cs@, lin@, u)[m].modifiers@.len() ==> in_table(mod_tab@, (#[trigger] fns_at(cs@, lin@, u)[m].modifiers@[a]).name@),
        decreases lin@.len() - t,
    {
        let fs = &cs[lin[t]].functions;
        let row = &keep[t];
        let mut m: usize = 0;
        while m < fs.len()
            invariant
                t < lin@.len(),
                lin_in_range(cs@, lin@),
                *fs == cs@[lin@[t as int] as int].functions,
                *row == keep@[t as int],
                row@.len() == fs@.len(),
                forall|q: int| 0 <= q < row@.len() ==> row@[q] == !shadowed(cs@, lin@, t as int, q),
                m <= fs@.len(),
                forall|u: int, q: int, a: int| #[trigger] fn_pos(cs@, lin@, u, q) && pos_before(u, q, t as int, m as int) && !shadowed(cs@, lin@, u, q)
                    && 0 <= a < fns_at(cs@, lin@, u)[q].modifiers@.len() ==> in_table(mod_tab@, (#[trigger] fns_at(cs@, lin@, u)[q].modifiers@[a]).name@),
            decreases fs@.len() - m,
        {
            if row[m] {
                let apps = &fs[m].modifiers;
                let mut a: usize = 0;
                while a < apps.len()
                    invariant
                        t < lin@.len(),
                        m < fs@.len(),
                        lin_in_range(cs@, lin@),
                        row@.len() == fs@.len(),
                        row@[m as int],
                        row@[m as int] == !shadowed(cs@, lin@, t as int, m as int),
                        *fs == cs@[lin@[t as int] as int].functions,
                        *apps == fs@[m as int].modifiers,
                        a <= apps@.len(),
                        forall|b: int| 0 <= b < a ==> in_table(mod_tab@, (#[trigger] apps@[b]).name@),
                    decreases apps@.len() - a,
                {
                    if !table_has(mod_tab, apps[a].name.as_str()) {
                        proof {
                            assert(fn_pos(cs@, lin@, t as int, m as int));
                            assert(fns_at(cs@, lin@, t as int)[m as int].modifiers@[a as int] == apps@[a as int]);
                            assert(!applied_declared(cs@, lin@, mod_tab@));
                        }
                        return Err(
                            FrontendDiag::new(
                                codes::FE500_INTERNAL_MALFORMED_SOL,
                                "internal: an applied modifier has no declaration after merge",
                                copy_span(&fs[m].span),
                            ),
                        );
                    }
                    a = a + 1;
                }
            }
            proof {
                assert forall|u: int, q: int, a: int| #[trigger] fn_pos(cs@, lin@, u, q) && pos_before(u, q, t as int, m + 1) && !shadowed(cs@, lin@, u, q)
                    && 0 <= a < fns_at(cs@, lin@, u)[q].modifiers@.len() implies in_table(mod_tab@, (#[trigger] fns_at(cs@, lin@, u)[q].modifiers@[a]).name@) by {
                    if !(u == t && q == m) {
                        assert(pos_before(u, q, t as int, m as int));
                    } else {
                        assert(row@[q] == !shadowed(cs@, lin@, t as int, q));
                    }
                }
            }
            m = m + 1;
        }
        proof {
            assert forall|u: int, m: int, a: int| #[trigger] fn_pos(cs@, lin@, u, m) && u < t + 1 && !shadowed(cs@, lin@, u, m) && 0 <= a
                < fns_at(cs@, lin@, u)[m].modifiers@.len() implies in_table(mod_tab@, (#[trigger] fns_at(cs@, lin@, u)[m].modifiers@[a]).name@) by {
                if u == t {
                    assert(pos_before(u, m, t as int, fs@.len() as int));
                }
            }
        }
        t = t + 1;
    }
    Ok(())
}


/// The function rows of the linearized contracts.
pub open spec fn fn_table(cs: Seq<Contract>, lin: Seq<usize>) -> Seq<Seq<Function>> {
    Seq::new(lin.len(), |t: int| fns_at(cs, lin, t))
}

/// Which functions survive (the first of each name and arity).
pub open spec fn fn_flags(cs: Seq<Contract>, lin: Seq<usize>) -> Seq<Seq<bool>> {
    Seq::new(lin.len(), |t: int| Seq::new(fns_at(cs, lin, t).len(), |m: int| !shadowed(cs, lin, t, m)))
}

/// The modifier rows of the linearized contracts.
pub open spec fn mod_table(cs: Seq<Contract>, lin: Seq<usize>) -> Seq<Seq<Modifier>> {
    Seq::new(lin.len(), |t: int| mods_at(cs, lin, t))
}

/// Which modifiers survive (the first of each name).
pub open spec fn mod_flags(cs: Seq<Contract>, lin: Seq<usize>) -> Seq<Seq<bool>> {
    Seq::new(lin.len(), |t: int| Seq::new(mods_at(cs, lin, t).len(), |m: int| !mod_shadowed(cs, lin, t, m)))
}

pub open spec fn struct_table(cs: Seq<Contract>, lin: Seq<usize>) -> Seq<Seq<Struct>> {
    Seq::new(lin.len(), |t: int| cs[lin[t] as int].structs@)
}

pub open spec fn enum_table(cs: Seq<Contract>, lin: Seq<usize>) -> Seq<Seq<Enum>> {
    Seq::new(lin.len(), |t: int| cs[lin[t] as int].enums@)
}

pub open spec fn state_table(cs: Seq<Contract>, lin: Seq<usize>) -> Seq<Seq<StateVar>> {
    Seq::new(lin.len(), |t: int| cs[lin[t] as int].state@)
}

/// No two state variables of the linearized contracts share a name.
pub open spec fn state_names_distinct(cs: Seq<Contract>, lin: Seq<usize>) -> bool {
    forall|t1: int, k1: int, t2: int, k2: int| #![trigger cs[lin[t1] as int].state@[k1], cs[lin[t2] as int].state@[k2]]
        0 <= t1 < lin.len() && 0 <= t2 < lin.len() && 0 <= k1 < cs[lin[t1] as int].state@.len() && 0 <= k2
        < cs[lin[t2] as int].state@.len() && (t1 != t2 || k1 != k2) ==> cs[lin[t1] as int].state@[k1].name@
        != cs[lin[t2] as int].state@[k2].name@
}

/// No two structs of the linearized contracts share a name.
pub open spec fn struct_names_distinct(cs: Seq<Contract>, lin: Seq<usize>) -> bool {
    forall|t1: int, k1: int, t2: int, k2: int| #![trigger cs[lin[t1] as int].structs@[k1], cs[lin[t2] as int].structs@[k2]]
        0 <= t1 < lin.len() && 0 <= t2 < lin.len() && 0 <= k1 < cs[lin[t1] as int].structs@.len() && 0 <= k2
        < cs[lin[t2] as int].structs@.len() && (t1 != t2 || k1 != k2) ==> cs[lin[t1] as int].structs@[k1].name@
        != cs[lin[t2] as int].structs@[k2].name@
}

/// No two enums of the linearized contracts share a name.
pub open spec fn enum_names_distinct(cs: Seq<Contract>, lin: Seq<usize>) -> bool {
    forall|t1: int, k1: int, t2: int, k2: int| #![trigger cs[lin[t1] as int].enums@[k1], cs[lin[t2] as int].enums@[k2]]
        0 <= t1 < lin.len() && 0 <= t2 < lin.len() && 0 <= k1 < cs[lin[t1] as int].enums@.len() && 0 <= k2
        < cs[lin[t2] as int].enums@.len() && (t1 != t2 || k1 != k2) ==> cs[lin[t1] as int].enums@[k1].name@
        != cs[lin[t2] as int].enums@[k2].name@
}

/// The deployed constructor: the main contract's own, its base calls cleared.
pub open spec fn ctor_reduced(orig: Option<Constructor>, merged: Option<Constructor>) -> bool {
    match orig {
        None => merged is None,
        Some(k) => merged matches Some(k2) && k2.params == k.params && k2.body == k.body && k2.span == k.span
            && k2.base_calls@.len() == 0,
    }
}

/// `c` is the merge of the linearization `lin` of `cs[main]`: the main contract's name,
/// span and (reduced) constructor; the surviving functions and modifiers (most derived
/// first); every struct, enum and state variable, most-base-first; concrete, no bases.
pub open spec fn merged_from(cs: Seq<Contract>, main: int, lin: Seq<usize>, c: Contract) -> bool {
    &&& c.name == cs[main].name
    &&& c.span == cs[main].span
    &&& c.kind == ContractKind::Concrete
    &&& c.bases@.len() == 0
    &&& c.functions@ == kept_all(fn_table(cs, lin), fn_flags(cs, lin))
    &&& c.modifiers@ == kept_all(mod_table(cs, lin), mod_flags(cs, lin))
    &&& c.structs@ == rev_concat(struct_table(cs, lin))
    &&& c.enums@ == rev_concat(enum_table(cs, lin))
    &&& c.state@ == rev_concat(state_table(cs, lin))
    &&& ctor_reduced(cs[main].constructor, c.constructor)
}

/// What a successful merge has checked of the linearized contracts.
pub open spec fn merge_sound(cs: Seq<Contract>, main: int, lin: Seq<usize>) -> bool {
    &&& forall|t: int| 0 <= t < lin.len() ==> mods_distinct(cs[#[trigger] lin[t] as int]) && fns_distinct(cs[lin[t] as int])
    &&& forall|t: int, m: int| #[trigger] fn_pos(cs, lin, t, m) ==> override_faithful(cs, lin, t, m)
    &&& kept_bodied(cs, lin)
    &&& struct_names_distinct(cs, lin)
    &&& enum_names_distinct(cs, lin)
    &&& state_names_distinct(cs, lin)
    &&& main_calls_ok(cs, lin, main)
    &&& forall|tab: Seq<Vec<String>>| #[trigger] state_tab_of(tab, cs, lin) ==> base_ctors_ok(cs, lin, main, tab)
    &&& forall|tab: Seq<Vec<String>>| #[trigger] mod_tab_of(tab, cs, lin) ==> applied_declared(cs, lin, tab)
}

/// Base constructors are metadata-only, whichever list of the state names is consulted.
pub open spec fn base_ctors_all(cs: Seq<Contract>, lin: Seq<usize>, main: int) -> bool {
    forall|tab: Seq<Vec<String>>| #[trigger] state_tab_of(tab, cs, lin) ==> base_ctors_ok(cs, lin, main, tab)
}

/// Every applied modifier is declared, whichever list of the modifier names is consulted.
pub open spec fn applied_all(cs: Seq<Contract>, lin: Seq<usize>) -> bool {
    forall|tab: Seq<Vec<String>>| #[trigger] mod_tab_of(tab, cs, lin) ==> applied_declared(cs, lin, tab)
}

/// The merge's checks before stage `k` all pass: (1) no duplicate within a contract, (2)
/// faithful overrides within the function limit, (3) bodied survivors, (4) distinct struct
/// and enum names, (5) distinct state names, (6) metadata-only base constructors and
/// well-formed base calls.
pub open spec fn merge_stage(cs: Seq<Contract>, main: int, lin: Seq<usize>, k: nat) -> bool {
    &&& k >= 1 ==> forall|t: int| 0 <= t < lin.len() ==> mods_distinct(cs[#[trigger] lin[t] as int]) && fns_distinct(
        cs[lin[t] as int],
    )
    &&& k >= 2 ==> (forall|t: int, m: int| #[trigger] fn_pos(cs, lin, t, m) ==> override_faithful(cs, lin, t, m)) && fns_count(
        cs,
        lin,
        lin.len() as int,
    ) <= MAX_FUNCTIONS
    &&& k >= 3 ==> kept_bodied(cs, lin)
    &&& k >= 4 ==> struct_names_distinct(cs, lin) && enum_names_distinct(cs, lin)
    &&& k >= 5 ==> state_names_distinct(cs, lin)
    &&& k >= 6 ==> base_ctors_all(cs, lin, main) && main_calls_ok(cs, lin, main)
}

/// Two name tables hold the same texts at the same places.
pub open spec fn tabs_agree(a: Seq<Vec<String>>, b: Seq<Vec<String>>) -> bool {
    a.len() == b.len() && forall|t: int| 0 <= t < a.len() ==> (#[trigger] a[t])@.len() == b[t]@.len() && forall|k: int|
        0 <= k < a[t]@.len() ==> a[t]@[k]@ == b[t]@[k]@
}

/// Tables that agree hold the same names.
proof fn lemma_tabs_agree_in_table(a: Seq<Vec<String>>, b: Seq<Vec<String>>)
    requires
        tabs_agree(a, b),
    ensures
        forall|s: Seq<char>| in_table(a, s) == in_table(b, s),
{
    assert forall|s: Seq<char>| in_table(a, s) implies in_table(b, s) by {
        let (t, k) = choose|t: int, k: int| table_pos(a, t, k) && (#[trigger] a[t]@[k])@ == s;
        assert(b[t]@[k]@ == s);
    }
    assert forall|s: Seq<char>| in_table(b, s) implies in_table(a, s) by {
        let (t, k) = choose|t: int, k: int| table_pos(b, t, k) && (#[trigger] b[t]@[k])@ == s;
        assert(a[t]@[k]@ == s);
    }
}

/// Whether the base constructors are metadata-only does not depend on which list of the
/// state names is consulted.
proof fn lemma_state_tables_any(cs: Seq<Contract>, lin: Seq<usize>, main: int, st: Seq<Vec<String>>)
    requires
        state_tab_of(st, cs, lin),
        base_ctors_ok(cs, lin, main, st),
    ensures
        base_ctors_all(cs, lin, main),
{
    assert forall|tab: Seq<Vec<String>>| #[trigger] state_tab_of(tab, cs, lin) implies base_ctors_ok(cs, lin, main, tab) by {
        assert(tabs_agree(st, tab));
        lemma_tabs_agree_in_table(st, tab);
    }
}

/// Whether the base constructors are metadata-only does not depend on which list of the
/// state names is consulted; neither does whether every applied modifier is declared.
proof fn lemma_tables_any(cs: Seq<Contract>, lin: Seq<usize>, main: int, st: Seq<Vec<String>>, md: Seq<Vec<String>>)
    requires
        state_tab_of(st, cs, lin),
        mod_tab_of(md, cs, lin),
        base_ctors_ok(cs, lin, main, st),
        applied_declared(cs, lin, md),
    ensures
        forall|tab: Seq<Vec<String>>| #[trigger] state_tab_of(tab, cs, lin) ==> base_ctors_ok(cs, lin, main, tab),
        forall|tab: Seq<Vec<String>>| #[trigger] mod_tab_of(tab, cs, lin) ==> applied_declared(cs, lin, tab),
{
    assert forall|tab: Seq<Vec<String>>| #[trigger] state_tab_of(tab, cs, lin) implies base_ctors_ok(cs, lin, main, tab) by {
        assert(tabs_agree(st, tab));
        lemma_tabs_agree_in_table(st, tab);
    }
    assert forall|tab: Seq<Vec<String>>| #[trigger] mod_tab_of(tab, cs, lin) implies applied_declared(cs, lin, tab) by {
        assert(tabs_agree(md, tab));
        lemma_tabs_agree_in_table(md, tab);
    }
}

/// `tab` lists, per linearized contract, the names of its state variables.
pub open spec fn state_tab_of(tab: Seq<Vec<String>>, cs: Seq<Contract>, lin: Seq<usize>) -> bool {
    tab.len() == lin.len() && forall|t: int| 0 <= t < lin.len() ==> (#[trigger] tab[t])@.len() == cs[lin[t] as int].state@.len()
        && forall|k: int| 0 <= k < tab[t]@.len() ==> tab[t]@[k]@ == cs[lin[t] as int].state@[k].name@
}

/// `tab` lists, per linearized contract, the names of its modifiers.
pub open spec fn mod_tab_of(tab: Seq<Vec<String>>, cs: Seq<Contract>, lin: Seq<usize>) -> bool {
    tab.len() == lin.len() && forall|t: int| 0 <= t < lin.len() ==> (#[trigger] tab[t])@.len() == cs[lin[t] as int].modifiers@.len()
        && forall|k: int| 0 <= k < tab[t]@.len() ==> tab[t]@[k]@ == cs[lin[t] as int].modifiers@[k].name@
}

/// Every rule of the merge holds of the linearized contracts: no duplicate within one
/// contract, faithful overrides, at most `MAX_FUNCTIONS` functions declared in all, every
/// surviving function bodied, struct, enum and state names distinct, base constructors
/// metadata-only, the main contract's base calls well-formed, every applied modifier
/// declared.
pub open spec fn merge_admissible(cs: Seq<Contract>, main: int, lin: Seq<usize>) -> bool {
    &&& forall|t: int| 0 <= t < lin.len() ==> mods_distinct(cs[#[trigger] lin[t] as int]) && fns_distinct(cs[lin[t] as int])
    &&& forall|t: int, m: int| #[trigger] fn_pos(cs, lin, t, m) ==> override_faithful(cs, lin, t, m)
    &&& fns_count(cs, lin, lin.len() as int) <= MAX_FUNCTIONS
    &&& kept_bodied(cs, lin)
    &&& struct_names_distinct(cs, lin)
    &&& enum_names_distinct(cs, lin)
    &&& state_names_distinct(cs, lin)
    &&& forall|tab: Seq<Vec<String>>| #[trigger] state_tab_of(tab, cs, lin) ==> base_ctors_ok(cs, lin, main, tab)
    &&& main_calls_ok(cs, lin, main)
    &&& forall|tab: Seq<Vec<String>>| #[trigger] mod_tab_of(tab, cs, lin) ==> applied_declared(cs, lin, tab)
}

/// The per-member merge of the linearized contracts into one concrete contract. Each rule
/// fails closed: a duplicate within one contract (FE450/FE420), an override with other
/// parameter types (FE420), too many functions (FE402), a surviving bodiless function
/// (FE475), a struct or enum declared twice (FE473), a shadowed state variable (FE472), a
/// base constructor with real initialization or a non-literal / unknown base call (FE468),
/// an applied modifier without declaration (FE500).
fn merge(contracts: Vec<Contract>, main_idx: usize, lin: &Vec<usize>) -> (r: Result<Contract, FrontendDiag>)
    requires
        lin_in_range(contracts@, lin@),
        no_dup(lin@),
        main_idx < contracts@.len(),
    ensures
        r matches Ok(c) ==> merged_from(contracts@, main_idx as int, lin@, c) && merge_sound(contracts@, main_idx as int, lin@),
        merge_admissible(contracts@, main_idx as int, lin@) ==> r is Ok,
        !(forall|t: int| 0 <= t < lin@.len() ==> mods_distinct(contracts@[#[trigger] lin@[t] as int]) && fns_distinct(
            contracts@[lin@[t] as int],
        )) ==> (r matches Err(d) && (d.code == codes::FE450_DUPLICATE_MODIFIER_SOL || d.code == codes::FE420_BAD_IDENTIFIER_SOL)),
        merge_stage(contracts@, main_idx as int, lin@, 1) && !(forall|t: int, m: int| #[trigger] fn_pos(contracts@, lin@, t, m)
            ==> override_faithful(contracts@, lin@, t, m)) ==> (r matches Err(d) && (d.code == codes::FE420_BAD_IDENTIFIER_SOL
            || d.code == codes::FE402_TOO_LARGE_SOL)),
        merge_stage(contracts@, main_idx as int, lin@, 1) && !(forall|t: int, m: int| #[trigger] fn_pos(contracts@, lin@, t, m)
            ==> override_faithful(contracts@, lin@, t, m)) && fns_count(contracts@, lin@, lin@.len() as int) <= MAX_FUNCTIONS
            ==> (r matches Err(d) && d.code == codes::FE420_BAD_IDENTIFIER_SOL),
        merge_stage(contracts@, main_idx as int, lin@, 2) && !kept_bodied(contracts@, lin@) ==> (r matches Err(d) && d.code
            == codes::FE475_ABSTRACT_FUNCTION_SOL),
        merge_stage(contracts@, main_idx as int, lin@, 3) && !(struct_names_distinct(contracts@, lin@) && enum_names_distinct(
            contracts@,
            lin@,
        )) ==> (r matches Err(d) && d.code == codes::FE473_CONFLICTING_TYPE_SOL),
        merge_stage(contracts@, main_idx as int, lin@, 4) && !state_names_distinct(contracts@, lin@) ==> (r matches Err(d)
            && d.code == codes::FE472_STATE_SHADOW_SOL),
        merge_stage(contracts@, main_idx as int, lin@, 5) && !(base_ctors_all(contracts@, lin@, main_idx as int) && main_calls_ok(
            contracts@,
            lin@,
            main_idx as int,
        )) ==> (r matches Err(d) && d.code == codes::FE468_BASE_CONSTRUCTOR_SOL),
        merge_stage(contracts@, main_idx as int, lin@, 6) && !applied_all(contracts@, lin@) ==> (r matches Err(d) && d.code
            == codes::FE500_INTERNAL_MALFORMED_SOL),
{
    let ghost cs = contracts@;
    reject_intra_contract_dupes(&contracts, lin)?;
    let fkeep = select_functions(&contracts, lin, &contracts[main_idx].span)?;
    check_bodied(&contracts, lin, &fkeep)?;
    let mkeep = select_modifiers(&contracts, lin);
    let snames = struct_names(&contracts, lin);
    match rev_first_dup(&snames) {
        Some(_) => {
            proof {
                if struct_names_distinct(cs, lin@) {
                    assert forall|t1: int, k1: int, t2: int, k2: int| #![trigger snames@[t1]@[k1], snames@[t2]@[k2]]
                        table_pos(snames@, t1, k1) && table_pos(snames@, t2, k2) && (t1 != t2 || k1 != k2) implies snames@[t1]@[k1]@
                        != snames@[t2]@[k2]@ by {
                        assert(cs[lin@[t1] as int].structs@[k1].name@ != cs[lin@[t2] as int].structs@[k2].name@);
                    }
                }
            }
            return Err(
                FrontendDiag::new(
                    codes::FE473_CONFLICTING_TYPE_SOL,
                    "struct is declared in two contracts (conflicting declaration)",
                    span_of(0, 0),
                ),
            );
        },
        None => {},
    }
    let enames = enum_names(&contracts, lin);
    match rev_first_dup(&enames) {
        Some(_) => {
            proof {
                if enum_names_distinct(cs, lin@) {
                    assert forall|t1: int, k1: int, t2: int, k2: int| #![trigger enames@[t1]@[k1], enames@[t2]@[k2]]
                        table_pos(enames@, t1, k1) && table_pos(enames@, t2, k2) && (t1 != t2 || k1 != k2) implies enames@[t1]@[k1]@
                        != enames@[t2]@[k2]@ by {
                        assert(cs[lin@[t1] as int].enums@[k1].name@ != cs[lin@[t2] as int].enums@[k2].name@);
                    }
                }
            }
            return Err(
                FrontendDiag::new(
                    codes::FE473_CONFLICTING_TYPE_SOL,
                    "enum is declared in two contracts (conflicting declaration)",
                    span_of(0, 0),
                ),
            );
        },
        None => {},
    }
    proof {
        assert forall|t1: int, k1: int, t2: int, k2: int| #![trigger cs[lin@[t1] as int].structs@[k1], cs[lin@[t2] as int].structs@[k2]]
            0 <= t1 < lin@.len() && 0 <= t2 < lin@.len() && 0 <= k1 < cs[lin@[t1] as int].structs@.len() && 0 <= k2
            < cs[lin@[t2] as int].structs@.len() && (t1 != t2 || k1 != k2) implies cs[lin@[t1] as int].structs@[k1].name@
            != cs[lin@[t2] as int].structs@[k2].name@ by {
            assert(snames@[t1]@[k1]@ != snames@[t2]@[k2]@);
        }
        assert forall|t1: int, k1: int, t2: int, k2: int| #![trigger cs[lin@[t1] as int].enums@[k1], cs[lin@[t2] as int].enums@[k2]]
            0 <= t1 < lin@.len() && 0 <= t2 < lin@.len() && 0 <= k1 < cs[lin@[t1] as int].enums@.len() && 0 <= k2
            < cs[lin@[t2] as int].enums@.len() && (t1 != t2 || k1 != k2) implies cs[lin@[t1] as int].enums@[k1].name@
            != cs[lin@[t2] as int].enums@[k2].name@ by {
            assert(enames@[t1]@[k1]@ != enames@[t2]@[k2]@);
        }
    }
    let vnames = state_names(&contracts, lin);
    match rev_first_dup(&vnames) {
        Some((t, k)) => {
            proof {
                if state_names_distinct(cs, lin@) {
                    assert forall|t1: int, k1: int, t2: int, k2: int| #![trigger vnames@[t1]@[k1], vnames@[t2]@[k2]]
                        table_pos(vnames@, t1, k1) && table_pos(vnames@, t2, k2) && (t1 != t2 || k1 != k2) implies vnames@[t1]@[k1]@
                        != vnames@[t2]@[k2]@ by {
                        assert(cs[lin@[t1] as int].state@[k1].name@ != cs[lin@[t2] as int].state@[k2].name@);
                    }
                }
            }
            return Err(
                FrontendDiag::new(
                    codes::FE472_STATE_SHADOW_SOL,
                    "state variable is shadowed (declared in two contracts)",
                    copy_span(&contracts[lin[t]].state[k].span),
                ),
            );
        },
        None => {},
    }
    proof {
        assert forall|t1: int, k1: int, t2: int, k2: int| #![trigger cs[lin@[t1] as int].state@[k1], cs[lin@[t2] as int].state@[k2]]
            0 <= t1 < lin@.len() && 0 <= t2 < lin@.len() && 0 <= k1 < cs[lin@[t1] as int].state@.len() && 0 <= k2
            < cs[lin@[t2] as int].state@.len() && (t1 != t2 || k1 != k2) implies cs[lin@[t1] as int].state@[k1].name@
            != cs[lin@[t2] as int].state@[k2].name@ by {
            assert(vnames@[t1]@[k1]@ != vnames@[t2]@[k2]@);
        }
        assert(state_tab_of(vnames@, cs, lin@));
    }
    check_base_ctors(&contracts, lin, main_idx, &vnames)?;
    proof {
        lemma_state_tables_any(cs, lin@, main_idx as int, vnames@);
    }
    check_main_calls(&contracts, lin, main_idx)?;
    let mnames = mod_names(&contracts, lin);
    proof {
        assert(mod_tab_of(mnames@, cs, lin@));
    }
    check_applied(&contracts, lin, &fkeep, &mnames)?;
    proof {
        lemma_tables_any(cs, lin@, main_idx as int, vnames@, mnames@);
        assert forall|t1: int, k1: int, t2: int, k2: int| #![trigger cs[lin@[t1] as int].structs@[k1], cs[lin@[t2] as int].structs@[k2]]
            0 <= t1 < lin@.len() && 0 <= t2 < lin@.len() && 0 <= k1 < cs[lin@[t1] as int].structs@.len() && 0 <= k2
            < cs[lin@[t2] as int].structs@.len() && (t1 != t2 || k1 != k2) implies cs[lin@[t1] as int].structs@[k1].name@
            != cs[lin@[t2] as int].structs@[k2].name@ by {
            assert(snames@[t1]@[k1]@ != snames@[t2]@[k2]@);
        }
        assert forall|t1: int, k1: int, t2: int, k2: int| #![trigger cs[lin@[t1] as int].enums@[k1], cs[lin@[t2] as int].enums@[k2]]
            0 <= t1 < lin@.len() && 0 <= t2 < lin@.len() && 0 <= k1 < cs[lin@[t1] as int].enums@.len() && 0 <= k2
            < cs[lin@[t2] as int].enums@.len() && (t1 != t2 || k1 != k2) implies cs[lin@[t1] as int].enums@[k1].name@
            != cs[lin@[t2] as int].enums@[k2].name@ by {
            assert(enames@[t1]@[k1]@ != enames@[t2]@[k2]@);
        }
        assert forall|t1: int, k1: int, t2: int, k2: int| #![trigger cs[lin@[t1] as int].state@[k1], cs[lin@[t2] as int].state@[k2]]
            0 <= t1 < lin@.len() && 0 <= t2 < lin@.len() && 0 <= k1 < cs[lin@[t1] as int].state@.len() && 0 <= k2
            < cs[lin@[t2] as int].state@.len() && (t1 != t2 || k1 != k2) implies cs[lin@[t1] as int].state@[k1].name@
            != cs[lin@[t2] as int].state@[k2].name@ by {
            assert(vnames@[t1]@[k1]@ != vnames@[t2]@[k2]@);
        }
    }
    // move the members out and assemble
    let mut contracts = contracts;
    let members = take_members(&mut contracts, lin);
    let Members { fns, mods, structs, enums, state } = members;
    proof {
        assert(rows(fns@) =~= fn_table(cs, lin@));
        assert(rows(mods@) =~= mod_table(cs, lin@));
        assert(rows(structs@) =~= struct_table(cs, lin@));
        assert(rows(enums@) =~= enum_table(cs, lin@));
        assert(rows(state@) =~= state_table(cs, lin@));
        assert(flag_rows(fkeep@) =~= fn_flags(cs, lin@)) by {
            assert forall|t: int| 0 <= t < lin@.len() implies #[trigger] flag_rows(fkeep@)[t] =~= fn_flags(cs, lin@)[t] by {
            }
        }
        assert(flag_rows(mkeep@) =~= mod_flags(cs, lin@)) by {
            assert forall|t: int| 0 <= t < lin@.len() implies #[trigger] flag_rows(mkeep@)[t] =~= mod_flags(cs, lin@)[t] by {
            }
        }
    }
    let functions = keep_items(fns, &fkeep);
    let modifiers = keep_items(mods, &mkeep);
    let structs = concat_rev(structs);
    let enums = concat_rev(enums);
    let state = concat_rev(state);
    let mut name = String::new();
    std::mem::swap(&mut contracts[main_idx].name, &mut name);
    let span = copy_span(&contracts[main_idx].span);
    let mut ctor: Option<Constructor> = None;
    std::mem::swap(&mut contracts[main_idx].constructor, &mut ctor);
    let constructor = match ctor {
        Some(k) => Some(Constructor { params: k.params, body: k.body, base_calls: Vec::new(), span: k.span }),
        None => None,
    };
    Ok(
        Contract {
            name,
            kind: ContractKind::Concrete,
            bases: Vec::new(),
            structs,
            state,
            functions,
            modifiers,
            constructor,
            enums,
            span,
        },
    )
}


// ── entry points ─────────────────────────────────────────────────────────────

/// `cs[i]` is a deployable sink: a concrete contract that no concrete contract derives from.
pub open spec fn is_sink(cs: Seq<Contract>, i: int) -> bool {
    &&& 0 <= i < cs.len()
    &&& cs[i].kind == ContractKind::Concrete
    &&& !exists|j: int, b: int| 0 <= j < cs.len() && cs[j].kind == ContractKind::Concrete && 0 <= b < cs[j].bases@.len()
        && (#[trigger] cs[j].bases@[b]).name@ == cs[i].name@
}

/// Whether some concrete contract lists `name` as a direct base.
fn inherited(cs: &Vec<Contract>, name: &String) -> (r: bool)
    ensures
        r == exists|j: int, b: int| 0 <= j < cs@.len() && cs@[j].kind == ContractKind::Concrete && 0 <= b < cs@[j].bases@.len()
            && (#[trigger] cs@[j].bases@[b]).name@ == name@,
{
    let mut j: usize = 0;
    while j < cs.len()
        invariant
            j <= cs@.len(),
            forall|u: int, b: int| 0 <= u < j && cs@[u].kind == ContractKind::Concrete && 0 <= b < cs@[u].bases@.len()
                ==> (#[trigger] cs@[u].bases@[b]).name@ != name@,
        decreases cs@.len() - j,
    {
        if matches!(cs[j].kind, ContractKind::Concrete) {
            let bases = &cs[j].bases;
            let mut b: usize = 0;
            while b < bases.len()
                invariant
                    j < cs@.len(),
                    cs@[j as int].kind == ContractKind::Concrete,
                    *bases == cs@[j as int].bases,
                    b <= bases@.len(),
                    forall|q: int| 0 <= q < b ==> (#[trigger] bases@[q]).name@ != name@,
                decreases bases@.len() - b,
            {
                if string_eq_str(&bases[b].name, name.as_str()) {
                    assert(cs@[j as int].bases@[b as int].name@ == name@);
                    return true;
                }
                b = b + 1;
            }
        }
        j = j + 1;
    }
    false
}

/// The deployable contract: the unique concrete sink. None while some contract is concrete
/// is a cycle among concretes (FE469); no concrete contract at all, or two sinks, FE470.
fn select_main(cs: &Vec<Contract>) -> (r: Result<usize, FrontendDiag>)
    requires
        cs@.len() > 0,
    ensures
        r matches Ok(i) ==> is_sink(cs@, i as int) && forall|j: int| #[trigger] is_sink(cs@, j) ==> j == i,
        r is Err ==> !(exists|i: int| #[trigger] is_sink(cs@, i) && forall|j: int| #[trigger] is_sink(cs@, j) ==> j == i),
        r matches Err(d) ==> d.code == codes::FE469_INHERITANCE_CYCLE_SOL || d.code == codes::FE470_AMBIGUOUS_MAIN_SOL,
        (exists|a: int, b: int| #[trigger] is_sink(cs@, a) && #[trigger] is_sink(cs@, b) && a != b) ==> (r matches Err(d)
            && d.code == codes::FE470_AMBIGUOUS_MAIN_SOL),
        !(exists|j: int| 0 <= j < cs@.len() && (#[trigger] cs@[j]).kind == ContractKind::Concrete) ==> (r matches Err(d)
            && d.code == codes::FE470_AMBIGUOUS_MAIN_SOL),
        (exists|j: int| 0 <= j < cs@.len() && (#[trigger] cs@[j]).kind == ContractKind::Concrete) && !(exists|i: int|
            #[trigger] is_sink(cs@, i)) ==> (r matches Err(d) && d.code == codes::FE469_INHERITANCE_CYCLE_SOL),
{
    let mut sinks: Vec<usize> = Vec::new();
    let mut any_concrete = false;
    let mut i: usize = 0;
    while i < cs.len()
        invariant
            i <= cs@.len(),
            forall|k: int| 0 <= k < sinks@.len() ==> #[trigger] sinks@[k] < i && is_sink(cs@, sinks@[k] as int),
            forall|k: int, l: int| 0 <= k < l < sinks@.len() ==> #[trigger] sinks@[k] < #[trigger] sinks@[l],
            forall|j: int| 0 <= j < i && is_sink(cs@, j) ==> sinks@.contains(j as usize),
            any_concrete <==> exists|j: int| 0 <= j < i && (#[trigger] cs@[j]).kind == ContractKind::Concrete,
        decreases cs@.len() - i,
    {
        let ghost old_sinks = sinks@;
        if matches!(cs[i].kind, ContractKind::Concrete) {
            any_concrete = true;
            if !inherited(cs, &cs[i].name) {
                sinks.push(i);
                proof {
                    assert(sinks@[sinks@.len() - 1] == i);
                }
            }
        }
        proof {
            assert forall|j: int| 0 <= j < i + 1 && is_sink(cs@, j) implies sinks@.contains(j as usize) by {
                if j == i {
                    assert(sinks@[sinks@.len() - 1] == i);
                } else {
                    assert(old_sinks.contains(j as usize));
                    let k = choose|k: int| 0 <= k < old_sinks.len() && old_sinks[k] == j as usize;
                    assert(sinks@[k] == j as usize);
                }
            }
        }
        i = i + 1;
    }
    if sinks.len() == 1 {
        let m = sinks[0];
        proof {
            assert forall|j: int| #[trigger] is_sink(cs@, j) implies j == m by {
                assert(sinks@.contains(j as usize));
            }
            assert forall|a: int, b: int| #[trigger] is_sink(cs@, a) && #[trigger] is_sink(cs@, b) implies a == b by {
                assert(sinks@.contains(a as usize));
                assert(sinks@.contains(b as usize));
            }
        }
        return Ok(m);
    }
    if sinks.len() == 0 {
        proof {
            assert forall|i: int| #[trigger] is_sink(cs@, i) implies false by {
                assert(sinks@.contains(i as usize));
            }
        }
        if any_concrete {
            return Err(
                FrontendDiag::new(
                    codes::FE469_INHERITANCE_CYCLE_SOL,
                    "inheritance cycle — no concrete contract is a sink (one would deploy)",
                    copy_span(&cs[0].span),
                ),
            );
        }
        return Err(
            FrontendDiag::new(
                codes::FE470_AMBIGUOUS_MAIN_SOL,
                "no concrete contract to translate (only interfaces/libraries/abstracts)",
                copy_span(&cs[0].span),
            ),
        );
    }
    proof {
        let a = sinks@[0];
        let b = sinks@[1];
        assert(is_sink(cs@, a as int) && is_sink(cs@, b as int) && a != b);
        assert forall|i: int| #[trigger] is_sink(cs@, i) implies !(forall|j: int| #[trigger] is_sink(cs@, j) ==> j == i) by {
            if i == a {
                assert(is_sink(cs@, b as int));
            } else {
                assert(is_sink(cs@, a as int));
            }
        }
    }
    Err(
        FrontendDiag::new(
            codes::FE470_AMBIGUOUS_MAIN_SOL,
            "ambiguous main: two or more independent deployable contracts — one is translated per file",
            copy_span(&cs[sinks[1]].span),
        ),
    )
}

/// No two contracts share a name.
pub open spec fn names_distinct(cs: Seq<Contract>) -> bool {
    forall|a: int, b: int| 0 <= a < b < cs.len() ==> (#[trigger] cs[a]).name@ != (#[trigger] cs[b]).name@
}

/// The file is one concrete contract without bases, which needs no flattening.
pub open spec fn lone_flat(cs: Seq<Contract>) -> bool {
    cs.len() == 1 && cs[0].kind == ContractKind::Concrete && cs[0].bases@.len() == 0
}

/// The first contract whose name an earlier contract already has.
fn first_duplicate_name(cs: &Vec<Contract>) -> (r: Option<usize>)
    ensures
        r is None <==> names_distinct(cs@),
        r matches Some(k) ==> k < cs@.len(),
{
    let mut b: usize = 0;
    while b < cs.len()
        invariant
            b <= cs@.len(),
            forall|x: int, y: int| 0 <= x < y < b ==> (#[trigger] cs@[x]).name@ != (#[trigger] cs@[y]).name@,
        decreases cs@.len() - b,
    {
        let mut a: usize = 0;
        while a < b
            invariant
                a <= b < cs@.len(),
                forall|x: int| 0 <= x < a ==> (#[trigger] cs@[x]).name@ != cs@[b as int].name@,
            decreases b - a,
        {
            if string_eq_str(&cs[a].name, cs[b].name.as_str()) {
                return Some(b);
            }
            a = a + 1;
        }
        b = b + 1;
    }
    None
}

/// `lin` is the C3 linearization of `cs[main]`: the memoized result of a linearizer whose
/// every entry (the main's and each transitive base's) satisfies `lin_ok`.
pub open spec fn c3_linearization(cs: Seq<Contract>, main: int, lin: Seq<usize>) -> bool {
    exists|memo: Seq<Option<Vec<usize>>>| #[trigger] memo_inv(cs, memo) && 0 <= main < memo.len() && memo[main] is Some
        && memo_lin(memo, main) == lin
}

/// The single contract a file or project reduces to, merged over its C3 linearization.
pub open spec fn flattened_from(cs: Seq<Contract>, main: int, c: Contract) -> bool {
    exists|lin: Seq<usize>| #[trigger] c3_linearization(cs, main, lin) && merged_from(cs, main, lin, c) && merge_sound(cs, main, lin)
}

/// Most top-level contracts one flattening accepts.
pub const MAX_FLAT_CONTRACTS: usize = 64;

/// Linearizes `cs[main]` and merges along it.
fn linearize_and_merge(contracts: Vec<Contract>, main: usize) -> (r: Result<Contract, FrontendDiag>)
    requires
        main < contracts@.len(),
    ensures
        r matches Ok(c) ==> flattened_from(contracts@, main as int, c),
        contracts@[main as int].bases@.len() == 0 && merge_admissible(contracts@, main as int, seq![main]) ==> r is Ok,
{
    let mut l = Linearizer::new(&contracts);
    proof {
        assert(l.memo@[main as int] is None);
    }
    let lin = l.lin(&contracts, main, 0)?;
    proof {
        assert(lin_ok(contracts@, main as int, lin@, l.memo@));
        assert(c3_linearization(contracts@, main as int, lin@));
        assert forall|t: int| 0 <= t < lin@.len() implies #[trigger] lin@[t] < contracts@.len() by {
        }
    }
    let ghost cs = contracts@;
    let ghost lv = lin@;
    let c = merge(contracts, main, &lin)?;
    proof {
        assert(c3_linearization(cs, main as int, lv) && merged_from(cs, main as int, lv, c) && merge_sound(cs, main as int, lv));
    }
    Ok(c)
}

/// Reduces a parsed file to the one contract to translate. A lone concrete contract without
/// bases is kept as it is; otherwise the deployable contract is the unique concrete sink,
/// merged over its C3 linearization. More than 64 contracts reject FE402, none FE470, a
/// repeated contract name FE420.
pub fn flatten(parsed: ParsedFile) -> (r: Result<Program, FrontendDiag>)
    ensures
        r matches Ok(p) ==> p.pragma == parsed.pragma,
        r matches Ok(p) ==> (parsed.contracts@.len() == 1 && parsed.contracts@[0].kind == ContractKind::Concrete
            && parsed.contracts@[0].bases@.len() == 0 && p.contract == parsed.contracts@[0]) || (parsed.contracts@.len()
            <= MAX_FLAT_CONTRACTS && names_distinct(parsed.contracts@) && exists|main: int| #[trigger] is_sink(parsed.contracts@, main)
            && (forall|j: int| #[trigger] is_sink(parsed.contracts@, j) ==> j == main) && flattened_from(parsed.contracts@, main, p.contract)),
        parsed.contracts@.len() > MAX_FLAT_CONTRACTS ==> (r matches Err(d) && d.code == codes::FE402_TOO_LARGE_SOL),
        parsed.contracts@.len() == 0 ==> (r matches Err(d) && d.code == codes::FE470_AMBIGUOUS_MAIN_SOL),
        lone_flat(parsed.contracts@) ==> (r matches Ok(p) && p.pragma == parsed.pragma && p.contract == parsed.contracts@[0]),
        !lone_flat(parsed.contracts@) && 1 <= parsed.contracts@.len() <= MAX_FLAT_CONTRACTS && !names_distinct(parsed.contracts@)
            ==> (r matches Err(d) && d.code == codes::FE420_BAD_IDENTIFIER_SOL),
        !lone_flat(parsed.contracts@) && 1 <= parsed.contracts@.len() <= MAX_FLAT_CONTRACTS && names_distinct(parsed.contracts@)
            && !(exists|i: int| #[trigger] is_sink(parsed.contracts@, i) && forall|j: int| #[trigger] is_sink(parsed.contracts@, j)
            ==> j == i) ==> (r matches Err(d) && (d.code == codes::FE469_INHERITANCE_CYCLE_SOL || d.code
            == codes::FE470_AMBIGUOUS_MAIN_SOL)),
        !lone_flat(parsed.contracts@) && parsed.contracts@.len() <= MAX_FLAT_CONTRACTS && names_distinct(parsed.contracts@)
            && (exists|a: int, b: int| #[trigger] is_sink(parsed.contracts@, a) && #[trigger] is_sink(parsed.contracts@, b)
            && a != b) ==> (r matches Err(d) && d.code == codes::FE470_AMBIGUOUS_MAIN_SOL),
        forall|m: int| #![trigger is_sink(parsed.contracts@, m)] parsed.contracts@.len() <= MAX_FLAT_CONTRACTS && names_distinct(
            parsed.contracts@,
        ) && is_sink(parsed.contracts@, m) && (forall|j: int| #[trigger] is_sink(parsed.contracts@, j) ==> j == m)
            && parsed.contracts@[m].bases@.len() == 0 && merge_admissible(parsed.contracts@, m, seq![m as usize]) ==> r is Ok,
{
    let ghost cs = parsed.contracts@;
    let ParsedFile { pragma, contracts, .. } = parsed;
    if contracts.len() == 1 && matches!(contracts[0].kind, ContractKind::Concrete) && contracts[0].bases.len() == 0 {
        let mut contracts = contracts;
        let contract = contracts.remove(0);
        return Ok(Program { pragma, contract });
    }
    if contracts.len() > MAX_FLAT_CONTRACTS {
        return Err(
            FrontendDiag::new(codes::FE402_TOO_LARGE_SOL, "too many top-level contracts (max 64)", span_of(0, 0)),
        );
    }
    if contracts.len() == 0 {
        return Err(
            FrontendDiag::new(codes::FE470_AMBIGUOUS_MAIN_SOL, "no contract to translate in this file", span_of(0, 0)),
        );
    }
    match first_duplicate_name(&contracts) {
        Some(k) => {
            return Err(
                FrontendDiag::new(
                    codes::FE420_BAD_IDENTIFIER_SOL,
                    "duplicate top-level contract name",
                    copy_span(&contracts[k].span),
                ),
            );
        },
        None => {},
    }
    let main = select_main(&contracts)?;
    let contract = linearize_and_merge(contracts, main)?;
    Ok(Program { pragma, contract })
}

/// Reduces a project union (the contracts of every file of the closure) to the entry file's
/// main contract `entry_main`, merged over its C3 linearization. More than 64 contracts
/// reject FE402, a repeated name FE420, an `entry_main` naming no contract FE500.
pub fn flatten_project(parsed: ParsedFile, entry_main: &str) -> (r: Result<Program, FrontendDiag>)
    ensures
        r matches Ok(p) ==> p.pragma == parsed.pragma && parsed.contracts@.len() <= MAX_FLAT_CONTRACTS && names_distinct(parsed.contracts@)
            && exists|main: int| #[trigger] first_named(parsed.contracts@, main, entry_main@) && flattened_from(parsed.contracts@, main, p.contract),
        parsed.contracts@.len() > MAX_FLAT_CONTRACTS ==> (r matches Err(d) && d.code == codes::FE402_TOO_LARGE_SOL),
        parsed.contracts@.len() <= MAX_FLAT_CONTRACTS && names_distinct(parsed.contracts@) && (forall|k: int| 0 <= k < parsed.contracts@.len()
            ==> (#[trigger] parsed.contracts@[k]).name@ != entry_main@) ==> (r matches Err(d) && d.code == codes::FE500_INTERNAL_MALFORMED),
        parsed.contracts@.len() <= MAX_FLAT_CONTRACTS && !names_distinct(parsed.contracts@) ==> (r matches Err(d) && d.code
            == codes::FE420_BAD_IDENTIFIER_SOL),
        forall|m: int| #![trigger first_named(parsed.contracts@, m, entry_main@)] parsed.contracts@.len() <= MAX_FLAT_CONTRACTS
            && names_distinct(parsed.contracts@) && first_named(parsed.contracts@, m, entry_main@) && parsed.contracts@[m].bases@.len()
            == 0 && merge_admissible(parsed.contracts@, m, seq![m as usize]) ==> (r matches Ok(p) && p.pragma == parsed.pragma),
{
    let ParsedFile { pragma, contracts, .. } = parsed;
    if contracts.len() > MAX_FLAT_CONTRACTS {
        return Err(
            FrontendDiag::new(
                codes::FE402_TOO_LARGE_SOL,
                "too many contracts across the project closure (max 64)",
                span_of(0, 0),
            ),
        );
    }
    match first_duplicate_name(&contracts) {
        Some(k) => {
            return Err(
                FrontendDiag::new(
                    codes::FE420_BAD_IDENTIFIER_SOL,
                    "duplicate top-level contract name across the project",
                    copy_span(&contracts[k].span),
                ),
            );
        },
        None => {},
    }
    let main = match find_contract(&contracts, entry_main) {
        Some(m) => m,
        None => {
            return Err(
                FrontendDiag::new(
                    codes::FE500_INTERNAL_MALFORMED,
                    "internal: the entry main vanished from the project union",
                    span_of(0, 0),
                ),
            );
        },
    };
    let ghost cs = contracts@;
    let contract = linearize_and_merge(contracts, main)?;
    Ok(Program { pragma, contract })
}

} // verus!
