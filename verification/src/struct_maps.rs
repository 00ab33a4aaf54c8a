//! Struct-map explosion: a `mapping(K => S)` state variable over a bounded struct `S`
//! (every field a scalar or a single-level map of scalars) becomes one map per field,
//! named `__fe_sm_{len(var)}_{var}_{field}`; the exploded struct is dropped when nothing
//! else names it, and any remaining reference to a synthesized name that was not
//! synthesized, or to an exploded variable, is refused (FE441).

use crate::check::{find_struct, first_struct};
use crate::cap_guards::{lemma_names_push, name_in, names_has};
use crate::codes;
use crate::diag::{copy_span, FrontendDiag};
use crate::emit::{listed, names_of, starts_with_chars};
use crate::inlining::{copy_type, same_type};
use crate::parser::{struct_map_synth_name, synth_name_spec, Contract, Expr, StateVar, Stmt, Struct, TypeRef};
use crate::text::clone_string;
use std::ops::Range;
use vstd::prelude::*;

verus! {

// ── Which variables explode ──────────────────────────────────────────────────

/// A struct field that can become a map: a scalar, or a map of a scalar to a scalar.
pub open spec fn field_explodable(t: TypeRef) -> bool {
    match t {
        TypeRef::Scalar { .. } => true,
        TypeRef::Mapping { key, value, .. } => (*key is Scalar) && (*value is Scalar),
        TypeRef::Array { .. } => false,
    }
}

/// Every field of the struct can become a map.
pub open spec fn explodable(s: Struct) -> bool {
    forall|i: int| 0 <= i < s.fields@.len() ==> field_explodable(#[trigger] s.fields@[i].ty)
}

/// The struct a state variable explodes into: a `mapping(K => S)` whose value names a
/// struct (the first declared under that name) that can be exploded.
pub open spec fn explode_target(sv: StateVar, structs: Seq<Struct>) -> Option<int> {
    match sv.ty {
        TypeRef::Mapping { value, .. } => match *value {
            TypeRef::Scalar { name, .. } => match first_struct(structs, name@, 0) {
                Some(i) => if explodable(structs[i]) {
                    Some(i)
                } else {
                    None
                },
                None => None,
            },
            _ => None,
        },
        _ => None,
    }
}

/// The names a state variable's explosion synthesizes, one per field in order.
pub open spec fn var_synths(sv: StateVar, structs: Seq<Struct>) -> Seq<Seq<char>> {
    match explode_target(sv, structs) {
        Some(i) => structs[i].fields@.map_values(|f: crate::parser::StructField| synth_name_spec(sv.name@, f.name@)),
        None => Seq::empty(),
    }
}

/// The names synthesized for the first `k` state variables, in order.
pub open spec fn synths_upto(state: Seq<StateVar>, structs: Seq<Struct>, k: int) -> Seq<Seq<char>>
    decreases k,
{
    if k <= 0 {
        Seq::empty()
    } else {
        synths_upto(state, structs, k - 1) + var_synths(state[k - 1], structs)
    }
}

/// The names of the state variables.
pub open spec fn state_names(state: Seq<StateVar>) -> Seq<Seq<char>> {
    state.map_values(|sv: StateVar| sv.name@)
}

/// Variable `i`'s explosion synthesizes a name already declared as a state variable or
/// synthesized before.
pub open spec fn var_collides(state: Seq<StateVar>, structs: Seq<Struct>, i: int) -> bool {
    let vs = var_synths(state[i], structs);
    exists|j: int|
        0 <= j < vs.len() && (state_names(state).contains(#[trigger] vs[j]) || (synths_upto(state, structs, i)
            + vs.take(j)).contains(vs[j]))
}

/// The first variable, from index `k` on, whose explosion collides.
pub open spec fn first_collision_from(state: Seq<StateVar>, structs: Seq<Struct>, k: int) -> Option<int>
    decreases state.len() - k,
{
    if k < 0 || k >= state.len() {
        None
    } else if var_collides(state, structs, k) {
        Some(k)
    } else {
        first_collision_from(state, structs, k + 1)
    }
}

/// How many state variables a variable becomes.
pub open spec fn explode_len(sv: StateVar, structs: Seq<Struct>) -> nat {
    match explode_target(sv, structs) {
        Some(i) => structs[i].fields@.len(),
        None => 1,
    }
}

pub open spec fn explode_len_upto(state: Seq<StateVar>, structs: Seq<Struct>) -> nat
    decreases state.len(),
{
    if state.len() == 0 {
        0
    } else {
        explode_len_upto(state.drop_last(), structs) + explode_len(state.last(), structs)
    }
}

/// `out` is what variable `sv` becomes: itself when it does not explode, else one
/// `mapping(K => F)` per field `F` of its struct, named by `synth_name_spec`, at the
/// variable's span, without initializer.
pub open spec fn exploded_var(out: Seq<StateVar>, sv: StateVar, structs: Seq<Struct>) -> bool {
    match explode_target(sv, structs) {
        None => out == seq![sv],
        Some(i) => {
            let fs = structs[i].fields@;
            &&& out.len() == fs.len()
            &&& forall|j: int|
                0 <= j < fs.len() ==> {
                    &&& (#[trigger] out[j]).name@ == synth_name_spec(sv.name@, fs[j].name@)
                    &&& out[j].init is None
                    &&& out[j].span == sv.span
                    &&& match out[j].ty {
                        TypeRef::Mapping { key, value, span } => same_type(*key, *sv.ty->Mapping_key) && same_type(
                            *value,
                            fs[j].ty,
                        ) && span == fs[j].span,
                        _ => false,
                    }
                }
        },
    }
}

/// `out` is the state list with every variable exploded in place, in order.
pub open spec fn exploded_state(out: Seq<StateVar>, state: Seq<StateVar>, structs: Seq<Struct>) -> bool
    decreases state.len(),
{
    if state.len() == 0 {
        out.len() == 0
    } else {
        let lp = explode_len_upto(state.drop_last(), structs);
        &&& out.len() == lp + explode_len(state.last(), structs)
        &&& exploded_state(out.take(lp as int), state.drop_last(), structs)
        &&& exploded_var(out.skip(lp as int), state.last(), structs)
    }
}

// ── Step one: the state list ─────────────────────────────────────────────────

proof fn lemma_names_of_has(v: Seq<String>)
    ensures
        forall|n: Seq<char>| #[trigger] names_has(v, n) <==> names_of(v).contains(n),
{
    assert forall|n: Seq<char>| #[trigger] names_has(v, n) <==> names_of(v).contains(n) by {
        if names_has(v, n) {
            let i = choose|i: int| 0 <= i < v.len() && (#[trigger] v[i])@ == n;
            assert(names_of(v)[i] == n);
        }
        if names_of(v).contains(n) {
            let i = choose|i: int| 0 <= i < names_of(v).len() && names_of(v)[i] == n;
            assert(v[i]@ == n);
        }
    }
}

/// Some state variable explodes and is named `n`.
pub open spec fn removed_name(state: Seq<StateVar>, structs: Seq<Struct>, n: Seq<char>) -> bool {
    exists|i: int| 0 <= i < state.len() && explode_target(#[trigger] state[i], structs) is Some && state[i].name@ == n
}

/// Some state variable explodes into the struct named `n`.
pub open spec fn exploded_struct_name(state: Seq<StateVar>, structs: Seq<Struct>, n: Seq<char>) -> bool {
    exists|i: int|
        0 <= i < state.len() && match explode_target(#[trigger] state[i], structs) {
            Some(j) => structs[j].name@ == n,
            None => false,
        }
}

fn is_explodable(s: &Struct) -> (r: bool)
    ensures
        r == explodable(*s),
{
    let mut k: usize = 0;
    while k < s.fields.len()
        invariant
            k <= s.fields@.len(),
            forall|i: int| 0 <= i < k ==> field_explodable(#[trigger] s.fields@[i].ty),
        decreases s.fields@.len() - k,
    {
        let ok = match &s.fields[k].ty {
            TypeRef::Scalar { .. } => true,
            TypeRef::Mapping { key, value, .. } => (match &**key {
                TypeRef::Scalar { .. } => true,
                _ => false,
            }) && (match &**value {
                TypeRef::Scalar { .. } => true,
                _ => false,
            }),
            TypeRef::Array { .. } => false,
        };
        if !ok {
            return false;
        }
        k = k + 1;
    }
    true
}

/// The struct a state variable explodes into (see `explode_target`).
fn target_of(sv: &StateVar, structs: &Vec<Struct>) -> (r: Option<usize>)
    ensures
        match r {
            Some(i) => explode_target(*sv, structs@) == Some(i as int) && i < structs@.len(),
            None => explode_target(*sv, structs@) is None,
        },
{
    match &sv.ty {
        TypeRef::Mapping { value, .. } => match &**value {
            TypeRef::Scalar { name, .. } => match find_struct(structs.as_slice(), name.as_str()) {
                Some(i) => if is_explodable(&structs[i]) {
                    Some(i)
                } else {
                    None
                },
                None => None,
            },
            _ => None,
        },
        _ => None,
    }
}

/// What step one produces: the new state list, the synthesized names in order, the names of
/// the exploded variables and the names of the exploded structs.
pub type Exploded = (Vec<StateVar>, Vec<String>, Vec<String>, Vec<String>);

/// Explodes every struct-map state variable in place (see `exploded_state`); a synthesized
/// name that repeats a state variable's or an earlier synthesized one is refused (FE441, at
/// the exploding variable).
pub fn explode_state(state: Vec<StateVar>, structs: &Vec<Struct>) -> (r: Result<Exploded, FrontendDiag>)
    ensures
        match first_collision_from(state@, structs@, 0) {
            Some(i) => r is Err && r->Err_0.code == codes::FE441_BAD_MAP_KV_SOL && r->Err_0.span == state@[i].span,
            None => r is Ok && {
                let (ns, syn, rem, ex) = r->Ok_0;
                &&& exploded_state(ns@, state@, structs@)
                &&& forall|n: Seq<char>| #[trigger] names_has(syn@, n) <==> synths_upto(state@, structs@, state@.len() as int).contains(n)
                &&& forall|n: Seq<char>| #[trigger] names_has(rem@, n) <==> removed_name(state@, structs@, n)
                &&& forall|n: Seq<char>| #[trigger] names_has(ex@, n) <==> exploded_struct_name(state@, structs@, n)
            },
        },
{
    let ghost orig = state@;
    let mut existing: Vec<String> = Vec::new();
    let mut i: usize = 0;
    while i < state.len()
        invariant
            i <= state@.len(),
            orig == state@,
            names_of(existing@) =~= state_names(orig).take(i as int),
        decreases state@.len() - i,
    {
        let ghost e0 = existing@;
        existing.push(clone_string(&state[i].name));
        proof {
            assert(names_of(existing@) =~= names_of(e0).push(state@[i as int].name@));
            assert(state_names(orig).take(i + 1) =~= state_names(orig).take(i as int).push(state_names(orig)[i as int]));
        }
        i = i + 1;
    }
    assert(state_names(orig).take(i as int) =~= state_names(orig));
    let mut synthesized: Vec<String> = Vec::new();
    let mut removed: Vec<String> = Vec::new();
    let mut exploded: Vec<String> = Vec::new();
    let mut new_state: Vec<StateVar> = Vec::new();
    let mut rest = state;
    let ghost mut k: int = 0;
    proof {
        assert(orig.skip(0) =~= orig);
        assert(orig.take(0) =~= Seq::<StateVar>::empty());
        assert(names_of(synthesized@) =~= Seq::<Seq<char>>::empty());
    }
    while rest.len() > 0
        invariant
            0 <= k <= orig.len(),
            rest@ == orig.skip(k),
            orig == state@,
            names_of(existing@) == state_names(orig),
            names_of(synthesized@) == synths_upto(orig, structs@, k),
            first_collision_from(orig, structs@, 0) == first_collision_from(orig, structs@, k),
            exploded_state(new_state@, orig.take(k), structs@),
            forall|n: Seq<char>| #[trigger] names_has(removed@, n) <==> removed_name(orig.take(k), structs@, n),
            forall|n: Seq<char>| #[trigger] names_has(exploded@, n) <==> exploded_struct_name(orig.take(k), structs@, n),
        decreases rest@.len(),
    {
        let sv = rest.remove(0);
        proof {
            assert(sv == orig[k]);
            assert(orig.take(k + 1).drop_last() =~= orig.take(k));
            assert(orig.take(k + 1).last() == sv);
        }
        let ghost ns0 = new_state@;
        let ghost syn0 = synthesized@;
        let ghost rem0 = removed@;
        let ghost ex0 = exploded@;
        match target_of(&sv, structs) {
            None => {
                new_state.push(sv);
                proof {
                    assert(var_synths(orig[k], structs@) =~= Seq::<Seq<char>>::empty());
                    assert(synths_upto(orig, structs@, k + 1) =~= synths_upto(orig, structs@, k));
                    assert(!var_collides(orig, structs@, k));
                    assert(new_state@.take(ns0.len() as int) =~= ns0);
                    assert(new_state@.skip(ns0.len() as int) =~= seq![orig[k]]);
                    assert forall|n: Seq<char>| #[trigger] removed_name(orig.take(k + 1), structs@, n) == removed_name(orig.take(k), structs@, n) by {
                        if removed_name(orig.take(k + 1), structs@, n) {
                            let w = choose|w: int| 0 <= w < orig.take(k + 1).len() && explode_target(#[trigger] orig.take(k + 1)[w], structs@) is Some && orig.take(k + 1)[w].name@ == n;
                            assert(orig.take(k)[w] == orig[w]);
                        }
                        if removed_name(orig.take(k), structs@, n) {
                            let w = choose|w: int| 0 <= w < orig.take(k).len() && explode_target(#[trigger] orig.take(k)[w], structs@) is Some && orig.take(k)[w].name@ == n;
                            assert(orig.take(k + 1)[w] == orig[w]);
                        }
                    }
                    assert forall|n: Seq<char>| #[trigger] exploded_struct_name(orig.take(k + 1), structs@, n) == exploded_struct_name(orig.take(k), structs@, n) by {
                        if exploded_struct_name(orig.take(k + 1), structs@, n) {
                            let w = choose|w: int| 0 <= w < orig.take(k + 1).len() && match explode_target(#[trigger] orig.take(k + 1)[w], structs@) { Some(j) => structs@[j].name@ == n, None => false };
                            assert(orig.take(k)[w] == orig[w]);
                        }
                        if exploded_struct_name(orig.take(k), structs@, n) {
                            let w = choose|w: int| 0 <= w < orig.take(k).len() && match explode_target(#[trigger] orig.take(k)[w], structs@) { Some(j) => structs@[j].name@ == n, None => false };
                            assert(orig.take(k + 1)[w] == orig[w]);
                        }
                    }
                }
            },
            Some(si) => {
                let sdef = &structs[si];
                let key: &TypeRef = match &sv.ty {
                    TypeRef::Mapping { key, .. } => key,
                    _ => {
                        proof {
                            assert(false);
                        }
                        &sv.ty
                    },
                };
                let ghost vs = var_synths(orig[k], structs@);
                let mut j: usize = 0;
                assert(vs.take(0) =~= Seq::<Seq<char>>::empty());
                assert(names_of(syn0) + vs.take(0) =~= names_of(syn0));
                while j < sdef.fields.len()
                    invariant
                        j <= sdef.fields@.len(),
                        *sdef == structs@[si as int],
                        explode_target(sv, structs@) == Some(si as int),
                        sv == orig[k],
                        0 <= k < orig.len(),
                        orig == state@,
                        first_collision_from(orig, structs@, 0) == first_collision_from(orig, structs@, k),
                        vs == var_synths(orig[k], structs@),
                        vs.len() == sdef.fields@.len(),
                        names_of(existing@) == state_names(orig),
                        names_of(syn0) == synths_upto(orig, structs@, k),
                        names_of(synthesized@) == names_of(syn0) + vs.take(j as int),
                        new_state@.len() == ns0.len() + j,
                        new_state@.take(ns0.len() as int) == ns0,
                        forall|q: int| 0 <= q < j ==> !(state_names(orig).contains(#[trigger] vs[q]) || (synths_upto(orig, structs@, k) + vs.take(q)).contains(vs[q])),
                        forall|q: int| 0 <= q < j ==> {
                            let o = #[trigger] new_state@[ns0.len() + q];
                            &&& o.name@ == synth_name_spec(sv.name@, sdef.fields@[q].name@)
                            &&& o.init is None
                            &&& o.span == sv.span
                            &&& match o.ty {
                                TypeRef::Mapping { key: k2, value, span } => same_type(*k2, *key) && same_type(*value, sdef.fields@[q].ty) && span == sdef.fields@[q].span,
                                _ => false,
                            }
                        },
                    decreases sdef.fields@.len() - j,
                {
                    let f = &sdef.fields[j];
                    let synth = struct_map_synth_name(sv.name.as_str(), f.name.as_str());
                    proof {
                        assert(vs[j as int] == synth@);
                        assert(names_of(synthesized@) == synths_upto(orig, structs@, k) + vs.take(j as int));
                    }
                    if name_in(&existing, synth.as_str()) || name_in(&synthesized, synth.as_str()) {
                        proof {
                            if names_has(existing@, synth@) {
                                let w = choose|w: int| 0 <= w < existing@.len() && (#[trigger] existing@[w])@ == synth@;
                                assert(names_of(existing@)[w] == synth@);
                                assert(state_names(orig).contains(vs[j as int]));
                            } else {
                                let w = choose|w: int| 0 <= w < synthesized@.len() && (#[trigger] synthesized@[w])@ == synth@;
                                assert(names_of(synthesized@)[w] == synth@);
                                assert((synths_upto(orig, structs@, k) + vs.take(j as int)).contains(vs[j as int]));
                            }
                            assert(var_collides(orig, structs@, k));
                        }
                        return Err(FrontendDiag::new(codes::FE441_BAD_MAP_KV_SOL, "struct-map explode name collision: a synthesized map name is already declared", copy_span(&sv.span)));
                    }
                    proof {
                        if state_names(orig).contains(vs[j as int]) {
                            let w = choose|w: int| 0 <= w < state_names(orig).len() && state_names(orig)[w] == vs[j as int];
                            assert(names_of(existing@)[w] == existing@[w]@);
                        }
                        if (synths_upto(orig, structs@, k) + vs.take(j as int)).contains(vs[j as int]) {
                            let w = choose|w: int| 0 <= w < names_of(synthesized@).len() && names_of(synthesized@)[w] == vs[j as int];
                            assert(names_of(synthesized@)[w] == synthesized@[w]@);
                        }
                    }
                    let ghost sy1 = synthesized@;
                    synthesized.push(clone_string(&synth));
                    proof {
                        assert(names_of(synthesized@) =~= names_of(sy1).push(synth@));
                        assert(vs.take(j + 1) =~= vs.take(j as int).push(vs[j as int]));
                        assert(names_of(syn0) + vs.take(j + 1) =~= (names_of(syn0) + vs.take(j as int)).push(vs[j as int]));
                    }
                    let ghost nsb = new_state@;
                    new_state.push(StateVar {
                        name: synth,
                        ty: TypeRef::Mapping { key: Box::new(copy_type(key)), value: Box::new(copy_type(&f.ty)), span: copy_span(&f.span) },
                        init: None,
                        span: copy_span(&sv.span),
                    });
                    proof {
                        assert(new_state@.take(ns0.len() as int) =~= ns0);
                        assert forall|q: int| 0 <= q < j + 1 implies #[trigger] new_state@[ns0.len() + q] == if q < j { nsb[ns0.len() + q] } else { new_state@.last() } by {}
                    }
                    j = j + 1;
                }
                proof {
                    assert(vs.take(j as int) =~= vs);
                    assert(synths_upto(orig, structs@, k + 1) == synths_upto(orig, structs@, k) + vs);
                    assert(!var_collides(orig, structs@, k));
                    assert(new_state@.take(ns0.len() as int) =~= ns0);
                    let tail = new_state@.skip(ns0.len() as int);
                    assert forall|q: int| 0 <= q < tail.len() implies #[trigger] tail[q] == new_state@[ns0.len() + q] by {}
                }
                let ghost r0 = removed@;
                removed.push(clone_string(&sv.name));
                let ghost x0 = exploded@;
                exploded.push(clone_string(&sdef.name));
                proof {
                    lemma_names_push(r0, removed@.last());
                    assert(r0.push(removed@.last()) =~= removed@);
                    lemma_names_push(x0, exploded@.last());
                    assert(x0.push(exploded@.last()) =~= exploded@);
                    assert forall|n: Seq<char>| #[trigger] removed_name(orig.take(k + 1), structs@, n) == (removed_name(orig.take(k), structs@, n) || orig[k].name@ == n) by {
                        if removed_name(orig.take(k + 1), structs@, n) {
                            let w = choose|w: int| 0 <= w < orig.take(k + 1).len() && explode_target(#[trigger] orig.take(k + 1)[w], structs@) is Some && orig.take(k + 1)[w].name@ == n;
                            if w < k {
                                assert(orig.take(k)[w] == orig[w]);
                            }
                        }
                        if removed_name(orig.take(k), structs@, n) {
                            let w = choose|w: int| 0 <= w < orig.take(k).len() && explode_target(#[trigger] orig.take(k)[w], structs@) is Some && orig.take(k)[w].name@ == n;
                            assert(orig.take(k + 1)[w] == orig[w]);
                        }
                        if orig[k].name@ == n {
                            assert(orig.take(k + 1)[k] == orig[k]);
                        }
                    }
                    assert forall|n: Seq<char>| #[trigger] exploded_struct_name(orig.take(k + 1), structs@, n) == (exploded_struct_name(orig.take(k), structs@, n) || structs@[si as int].name@ == n) by {
                        if exploded_struct_name(orig.take(k + 1), structs@, n) {
                            let w = choose|w: int| 0 <= w < orig.take(k + 1).len() && match explode_target(#[trigger] orig.take(k + 1)[w], structs@) { Some(j) => structs@[j].name@ == n, None => false };
                            if w < k {
                                assert(orig.take(k)[w] == orig[w]);
                            }
                        }
                        if exploded_struct_name(orig.take(k), structs@, n) {
                            let w = choose|w: int| 0 <= w < orig.take(k).len() && match explode_target(#[trigger] orig.take(k)[w], structs@) { Some(j) => structs@[j].name@ == n, None => false };
                            assert(orig.take(k + 1)[w] == orig[w]);
                        }
                        if structs@[si as int].name@ == n {
                            assert(orig.take(k + 1)[k] == orig[k]);
                        }
                    }
                }
            },
        }
        proof {
            k = k + 1;
        }
        assert(rest@ =~= orig.skip(k));
    }
    assert(orig.take(k) =~= orig);
    proof {
        lemma_names_of_has(synthesized@);
    }
    Ok((new_state, synthesized, removed, exploded))
}

// ── Step two: dropping the exploded structs nothing names ────────────────────

/// The type names `n`: a scalar named `n` anywhere in it.
pub open spec fn ty_names(t: TypeRef, n: Seq<char>) -> bool
    decreases t,
{
    match t {
        TypeRef::Scalar { name, .. } => name@ == n,
        TypeRef::Mapping { key, value, .. } => ty_names(*key, n) || ty_names(*value, n),
        TypeRef::Array { elem, .. } => ty_names(*elem, n),
    }
}

/// A local declared in the statements (inside `if` branches and `unchecked` blocks too)
/// has a type naming `n`.
pub open spec fn local_tys_name(stmts: Seq<Stmt>, n: Seq<char>) -> bool
    decreases stmts,
{
    if stmts.len() == 0 {
        false
    } else {
        local_tys_name(stmts.drop_last(), n) || stmt_local_ty_name(stmts.last(), n)
    }
}

pub open spec fn stmt_local_ty_name(s: Stmt, n: Seq<char>) -> bool
    decreases s,
{
    match s {
        Stmt::LocalVar { ty, .. } => ty_names(ty, n),
        Stmt::If { then_body, else_body, .. } => {
            proof {
                assert(decreases_to!(s => then_body));
                assert(decreases_to!(then_body => then_body@));
                assert(decreases_to!(s => else_body));
                assert(decreases_to!(else_body => else_body@));
            }
            local_tys_name(then_body@, n) || local_tys_name(else_body@, n)
        },
        Stmt::Unchecked { body, .. } => {
            proof {
                assert(decreases_to!(s => body));
                assert(decreases_to!(body => body@));
            }
            local_tys_name(body@, n)
        },
        _ => false,
    }
}

/// A parameter's type names `n`.
pub open spec fn params_name(ps: Seq<crate::parser::Param>, n: Seq<char>) -> bool {
    exists|i: int| 0 <= i < ps.len() && ty_names(#[trigger] ps[i].ty, n)
}

/// The function names the type `n`: a parameter, its return type or a local.
pub open spec fn fn_names_type(f: crate::parser::Function, n: Seq<char>) -> bool {
    params_name(f.params@, n) || (match f.ret {
        Some(t) => ty_names(t, n),
        None => false,
    }) || local_tys_name(f.body@, n)
}

/// Something in the contract names the type `n`: a state variable's type, a struct field's
/// type, a function's parameter, return or local type, a modifier's local type, or the
/// constructor's parameter or local type.
pub open spec fn type_referenced(
    state: Seq<StateVar>,
    structs: Seq<Struct>,
    fns: Seq<crate::parser::Function>,
    mods: Seq<crate::parser::Modifier>,
    ctor: Option<crate::parser::Constructor>,
    n: Seq<char>,
) -> bool {
    ||| exists|i: int| 0 <= i < state.len() && ty_names(#[trigger] state[i].ty, n)
    ||| exists|i: int, j: int|
        0 <= i < structs.len() && 0 <= j < structs[i].fields@.len() && ty_names(#[trigger] structs[i].fields@[j].ty, n)
    ||| exists|i: int| 0 <= i < fns.len() && fn_names_type(#[trigger] fns[i], n)
    ||| exists|i: int| 0 <= i < mods.len() && local_tys_name(#[trigger] mods[i].body@, n)
    ||| match ctor {
        Some(k) => params_name(k.params@, n) || local_tys_name(k.body@, n),
        None => false,
    }
}

/// The structs kept, in order: those `keep` holds of.
pub open spec fn retained(ss: Seq<Struct>, keep: spec_fn(Struct) -> bool) -> Seq<Struct>
    decreases ss.len(),
{
    if ss.len() == 0 {
        Seq::empty()
    } else if keep(ss.last()) {
        retained(ss.drop_last(), keep).push(ss.last())
    } else {
        retained(ss.drop_last(), keep)
    }
}

/// Adds every scalar name of the type to `out`.
pub fn collect_scalar_names(ty: &TypeRef, out: &mut Vec<String>)
    ensures
        forall|n: Seq<char>| #[trigger] names_has(final(out)@, n) <==> (names_has(old(out)@, n) || ty_names(*ty, n)),
    decreases ty,
{
    match ty {
        TypeRef::Scalar { name, .. } => {
            let ghost o0 = out@;
            out.push(clone_string(name));
            proof {
                lemma_names_push(o0, out@.last());
                assert(o0.push(out@.last()) =~= out@);
            }
        },
        TypeRef::Mapping { key, value, .. } => {
            collect_scalar_names(key, out);
            collect_scalar_names(value, out);
        },
        TypeRef::Array { elem, .. } => {
            collect_scalar_names(elem, out);
        },
    }
}

/// Adds every scalar name of a local's declared type in the body to `out`.
pub fn collect_local_tys(body: &Vec<Stmt>, out: &mut Vec<String>)
    ensures
        forall|n: Seq<char>| #[trigger] names_has(final(out)@, n) <==> (names_has(old(out)@, n) || local_tys_name(body@, n)),
    decreases body,
{
    let ghost o0 = out@;
    let mut k: usize = 0;
    assert(body@.take(0) =~= Seq::<Stmt>::empty());
    while k < body.len()
        invariant
            k <= body@.len(),
            forall|n: Seq<char>| #[trigger] names_has(out@, n) <==> (names_has(o0, n) || local_tys_name(body@.take(k as int), n)),
        decreases body@.len() - k,
    {
        proof {
            assert(decreases_to!(*body => body[k as int]));
            assert(body@.take(k + 1).drop_last() =~= body@.take(k as int));
            assert(body@.take(k + 1).last() == body@[k as int]);
        }
        match &body[k] {
            Stmt::LocalVar { ty, .. } => collect_scalar_names(ty, out),
            Stmt::If { then_body, else_body, .. } => {
                collect_local_tys(then_body, out);
                collect_local_tys(else_body, out);
            },
            Stmt::Unchecked { body: inner, .. } => collect_local_tys(inner, out),
            _ => {},
        }
        proof {
            assert forall|n: Seq<char>| #[trigger] local_tys_name(body@.take(k + 1), n) == (local_tys_name(
                body@.take(k as int),
                n,
            ) || stmt_local_ty_name(body@[k as int], n)) by {}
        }
        k = k + 1;
    }
    assert(body@.take(k as int) =~= body@);
}

fn collect_param_tys(ps: &Vec<crate::parser::Param>, out: &mut Vec<String>)
    ensures
        forall|n: Seq<char>| #[trigger] names_has(final(out)@, n) <==> (names_has(old(out)@, n) || params_name(ps@, n)),
{
    let ghost o0 = out@;
    let mut k: usize = 0;
    while k < ps.len()
        invariant
            k <= ps@.len(),
            forall|n: Seq<char>| #[trigger] names_has(out@, n) <==> (names_has(o0, n) || params_name(ps@.take(k as int), n)),
        decreases ps@.len() - k,
    {
        collect_scalar_names(&ps[k].ty, out);
        proof {
            assert forall|n: Seq<char>| #[trigger] params_name(ps@.take(k + 1), n) == (params_name(ps@.take(k as int), n)
                || ty_names(ps@[k as int].ty, n)) by {
                if params_name(ps@.take(k + 1), n) {
                    let i = choose|i: int| 0 <= i < ps@.take(k + 1).len() && ty_names(#[trigger] ps@.take(k + 1)[i].ty, n);
                    if i < k {
                        assert(ps@.take(k as int)[i] == ps@[i]);
                    }
                }
                if params_name(ps@.take(k as int), n) {
                    let i = choose|i: int| 0 <= i < ps@.take(k as int).len() && ty_names(#[trigger] ps@.take(k as int)[i].ty, n);
                    assert(ps@.take(k + 1)[i] == ps@[i]);
                }
                if ty_names(ps@[k as int].ty, n) {
                    assert(ps@.take(k + 1)[k as int] == ps@[k as int]);
                }
            }
        }
        k = k + 1;
    }
    assert(ps@.take(k as int) =~= ps@);
}

/// The names of every type something in the contract names (see `type_referenced`).
fn referenced_names(c: &Contract) -> (r: Vec<String>)
    ensures
        forall|n: Seq<char>| #[trigger] names_has(r@, n) <==> type_referenced(
            c.state@,
            c.structs@,
            c.functions@,
            c.modifiers@,
            c.constructor,
            n,
        ),
{
    let mut out: Vec<String> = Vec::new();
    let mut k: usize = 0;
    while k < c.state.len()
        invariant
            k <= c.state@.len(),
            forall|n: Seq<char>| #[trigger] names_has(out@, n) <==> exists|i: int| 0 <= i < k && ty_names(#[trigger] c.state@[i].ty, n),
        decreases c.state@.len() - k,
    {
        collect_scalar_names(&c.state[k].ty, &mut out);
        proof {
            assert forall|n: Seq<char>| #[trigger] names_has(out@, n) <==> exists|i: int| 0 <= i < k + 1 && ty_names(#[trigger] c.state@[i].ty, n) by {
                if ty_names(c.state@[k as int].ty, n) {}
            }
        }
        k = k + 1;
    }
    let ghost a = out@;
    let mut i: usize = 0;
    while i < c.structs.len()
        invariant
            i <= c.structs@.len(),
            forall|n: Seq<char>| #[trigger] names_has(out@, n) <==> (names_has(a, n) || exists|p: int, q: int|
                0 <= p < i && 0 <= q < c.structs@[p].fields@.len() && ty_names(#[trigger] c.structs@[p].fields@[q].ty, n)),
        decreases c.structs@.len() - i,
    {
        let ghost b = out@;
        let mut j: usize = 0;
        while j < c.structs[i].fields.len()
            invariant
                i < c.structs@.len(),
                j <= c.structs@[i as int].fields@.len(),
                forall|n: Seq<char>| #[trigger] names_has(out@, n) <==> (names_has(b, n) || exists|q: int|
                    0 <= q < j && ty_names(#[trigger] c.structs@[i as int].fields@[q].ty, n)),
            decreases c.structs@[i as int].fields@.len() - j,
        {
            collect_scalar_names(&c.structs[i].fields[j].ty, &mut out);
            proof {
                assert forall|n: Seq<char>| #[trigger] names_has(out@, n) <==> (names_has(b, n) || exists|q: int|
                    0 <= q < j + 1 && ty_names(#[trigger] c.structs@[i as int].fields@[q].ty, n)) by {
                    if ty_names(c.structs@[i as int].fields@[j as int].ty, n) {}
                }
            }
            j = j + 1;
        }
        proof {
            assert forall|n: Seq<char>| #[trigger] names_has(out@, n) <==> (names_has(a, n) || exists|p: int, q: int|
                0 <= p < i + 1 && 0 <= q < c.structs@[p].fields@.len() && ty_names(#[trigger] c.structs@[p].fields@[q].ty, n)) by {
                if exists|p: int, q: int|
                    0 <= p < i + 1 && 0 <= q < c.structs@[p].fields@.len() && ty_names(#[trigger] c.structs@[p].fields@[q].ty, n) {
                    let (p, q) = choose|p: int, q: int|
                        0 <= p < i + 1 && 0 <= q < c.structs@[p].fields@.len() && ty_names(#[trigger] c.structs@[p].fields@[q].ty, n);
                    if p == i {
                        assert(ty_names(c.structs@[i as int].fields@[q].ty, n));
                    }
                }
            }
        }
        i = i + 1;
    }
    let ghost b2 = out@;
    let mut i: usize = 0;
    while i < c.functions.len()
        invariant
            i <= c.functions@.len(),
            forall|n: Seq<char>| #[trigger] names_has(out@, n) <==> (names_has(b2, n) || exists|p: int|
                0 <= p < i && fn_names_type(#[trigger] c.functions@[p], n)),
        decreases c.functions@.len() - i,
    {
        let f = &c.functions[i];
        let ghost b3 = out@;
        collect_param_tys(&f.params, &mut out);
        match &f.ret {
            Some(t) => collect_scalar_names(t, &mut out),
            None => {},
        }
        collect_local_tys(&f.body, &mut out);
        proof {
            assert forall|n: Seq<char>| #[trigger] names_has(out@, n) <==> (names_has(b2, n) || exists|p: int|
                0 <= p < i + 1 && fn_names_type(#[trigger] c.functions@[p], n)) by {
                if fn_names_type(c.functions@[i as int], n) {}
            }
        }
        i = i + 1;
    }
    let ghost b4 = out@;
    let mut i: usize = 0;
    while i < c.modifiers.len()
        invariant
            i <= c.modifiers@.len(),
            forall|n: Seq<char>| #[trigger] names_has(out@, n) <==> (names_has(b4, n) || exists|p: int|
                0 <= p < i && local_tys_name(#[trigger] c.modifiers@[p].body@, n)),
        decreases c.modifiers@.len() - i,
    {
        collect_local_tys(&c.modifiers[i].body, &mut out);
        proof {
            assert forall|n: Seq<char>| #[trigger] names_has(out@, n) <==> (names_has(b4, n) || exists|p: int|
                0 <= p < i + 1 && local_tys_name(#[trigger] c.modifiers@[p].body@, n)) by {
                if local_tys_name(c.modifiers@[i as int].body@, n) {}
            }
        }
        i = i + 1;
    }
    match &c.constructor {
        Some(k) => {
            collect_param_tys(&k.params, &mut out);
            collect_local_tys(&k.body, &mut out);
        },
        None => {},
    }
    out
}

// ── Step three: the residual sweep ───────────────────────────────────────────

/// A place where a refused name occurs: the name and its span.
pub type Found = Option<(Seq<char>, Range<usize>)>;

pub open spec fn or_else(a: Found, b: Found) -> Found {
    match a {
        Some(x) => Some(x),
        None => b,
    }
}

/// A name the sweep refuses: a synthesized-looking `__fe_sm_` name that was not
/// synthesized, or an exploded variable.
pub open spec fn residual_name(name: Seq<char>, syn: spec_fn(Seq<char>) -> bool, rem: spec_fn(Seq<char>) -> bool) -> bool {
    (starts_with_chars(name, "__fe_sm_"@) && !syn(name)) || rem(name)
}

/// The first refused name read by the expression (operands left to right).
pub open spec fn expr_residual(e: Expr, syn: spec_fn(Seq<char>) -> bool, rem: spec_fn(Seq<char>) -> bool) -> Found
    decreases e,
{
    match e {
        Expr::Var(name, span) => if residual_name(name@, syn, rem) {
            Some((name@, span))
        } else {
            None
        },
        Expr::Unary(_, x, _) => expr_residual(*x, syn, rem),
        Expr::Bin(_, l, r, _) => or_else(expr_residual(*l, syn, rem), expr_residual(*r, syn, rem)),
        Expr::Member(b, _, _) => expr_residual(*b, syn, rem),
        Expr::Call(c, args, _) => {
            proof {
                assert(decreases_to!(e => args));
                assert(decreases_to!(args => args@));
            }
            or_else(expr_residual(*c, syn, rem), exprs_residual(args@, syn, rem))
        },
        Expr::Index(b, k, _) => or_else(expr_residual(*b, syn, rem), expr_residual(*k, syn, rem)),
        _ => None,
    }
}

pub open spec fn exprs_residual(es: Seq<Expr>, syn: spec_fn(Seq<char>) -> bool, rem: spec_fn(Seq<char>) -> bool) -> Found
    decreases es,
{
    if es.len() == 0 {
        None
    } else {
        or_else(exprs_residual(es.drop_last(), syn, rem), expr_residual(es.last(), syn, rem))
    }
}

/// The first refused name a statement reads, in evaluation order, descending into the
/// blocks it holds.
pub open spec fn stmt_residual(s: Stmt, syn: spec_fn(Seq<char>) -> bool, rem: spec_fn(Seq<char>) -> bool) -> Found
    decreases s,
{
    let ex = |e: Expr| expr_residual(e, syn, rem);
    match s {
        Stmt::Require { cond, .. } => ex(cond),
        Stmt::Assert { cond, .. } => ex(cond),
        Stmt::Return { value, .. } => match value {
            Some(v) => ex(v),
            None => None,
        },
        Stmt::CallStmt { args, .. } => exprs_residual(args@, syn, rem),
        Stmt::LocalVar { value, .. } => ex(value),
        Stmt::Assign { value, .. } => ex(value),
        Stmt::FieldAssign { value, .. } => ex(value),
        Stmt::IndexAssign { key, value, .. } => or_else(ex(key), ex(value)),
        Stmt::IndexAssign2 { k1, k2, value, .. } => or_else(ex(k1), or_else(ex(k2), ex(value))),
        Stmt::MapTransfer { from, to, amount, .. } => or_else(ex(from), or_else(ex(to), ex(amount))),
        Stmt::Erc20TransferFrom { from, spender, to, amount, .. } => or_else(
            ex(from),
            or_else(ex(spender), or_else(ex(to), ex(amount))),
        ),
        Stmt::MapSplitTransfer { from, amount, to, net, fee_to, fee, .. } => or_else(
            ex(from),
            or_else(ex(amount), or_else(ex(to), or_else(ex(net), or_else(ex(fee_to), ex(fee))))),
        ),
        Stmt::Erc20Update { from, to, value, .. } => or_else(ex(from), or_else(ex(to), ex(value))),
        Stmt::If { cond, then_body, else_body, .. } => {
            proof {
                assert(decreases_to!(s => then_body));
                assert(decreases_to!(then_body => then_body@));
                assert(decreases_to!(s => else_body));
                assert(decreases_to!(else_body => else_body@));
            }
            or_else(ex(cond), or_else(stmts_residual(then_body@, syn, rem), stmts_residual(else_body@, syn, rem)))
        },
        Stmt::Unchecked { body, .. } => {
            proof {
                assert(decreases_to!(s => body));
                assert(decreases_to!(body => body@));
            }
            stmts_residual(body@, syn, rem)
        },
        Stmt::AirdropLoop { body, .. } => {
            proof {
                assert(decreases_to!(s => body));
                assert(decreases_to!(body => body@));
            }
            stmts_residual(body@, syn, rem)
        },
        Stmt::ReservedBatch { transfer, writes, .. } => {
            proof {
                assert(decreases_to!(s => writes));
                assert(decreases_to!(writes => writes@));
            }
            let t = match transfer {
                Some(b) => {
                    proof {
                        assert(decreases_to!(s => transfer));
                        assert(decreases_to!(transfer => b));
                    }
                    stmt_residual(*b, syn, rem)
                },
                None => None,
            };
            or_else(t, stmts_residual(writes@, syn, rem))
        },
        Stmt::BatchTransfer { from, .. } => ex(from),
        _ => None,
    }
}

pub open spec fn stmts_residual(ss: Seq<Stmt>, syn: spec_fn(Seq<char>) -> bool, rem: spec_fn(Seq<char>) -> bool) -> Found
    decreases ss,
{
    if ss.len() == 0 {
        None
    } else {
        or_else(stmts_residual(ss.drop_last(), syn, rem), stmt_residual(ss.last(), syn, rem))
    }
}

/// The exec form of a found name.
pub open spec fn found_view(r: Option<(String, Range<usize>)>) -> Found {
    match r {
        Some((n, sp)) => Some((n@, sp)),
        None => None,
    }
}

fn or_else_exec(a: Option<(String, Range<usize>)>, b: Option<(String, Range<usize>)>) -> (r: Option<(String, Range<usize>)>)
    ensures
        found_view(r) == or_else(found_view(a), found_view(b)),
{
    match a {
        Some(x) => Some(x),
        None => b,
    }
}

/// The first refused name read by an expression (see `expr_residual`).
fn scan_residual_sm_expr(e: &Expr, syn: &Vec<String>, rem: &Vec<String>) -> (r: Option<(String, Range<usize>)>)
    ensures
        found_view(r) == expr_residual(*e, |n: Seq<char>| names_of(syn@).contains(n), |n: Seq<char>| names_of(rem@).contains(n)),
    decreases e,
{
    match e {
        Expr::Var(name, span) => {
            let sm = crate::emit::has_char_prefix(name.as_str(), "__fe_sm_");
            if (sm && !listed(syn, name.as_str())) || listed(rem, name.as_str()) {
                Some((clone_string(name), copy_span(span)))
            } else {
                None
            }
        },
        Expr::Unary(_, x, _) => scan_residual_sm_expr(x, syn, rem),
        Expr::Bin(_, l, r, _) => {
            let a = scan_residual_sm_expr(l, syn, rem);
            let b = scan_residual_sm_expr(r, syn, rem);
            or_else_exec(a, b)
        },
        Expr::Member(b, _, _) => scan_residual_sm_expr(b, syn, rem),
        Expr::Call(c, args, _) => {
            let a = scan_residual_sm_expr(c, syn, rem);
            let b = scan_residual_sm_exprs(args, syn, rem);
            or_else_exec(a, b)
        },
        Expr::Index(b, k, _) => {
            let x = scan_residual_sm_expr(b, syn, rem);
            let y = scan_residual_sm_expr(k, syn, rem);
            or_else_exec(x, y)
        },
        _ => None,
    }
}

fn scan_residual_sm_exprs(es: &Vec<Expr>, syn: &Vec<String>, rem: &Vec<String>) -> (r: Option<(String, Range<usize>)>)
    ensures
        found_view(r) == exprs_residual(es@, |n: Seq<char>| names_of(syn@).contains(n), |n: Seq<char>| names_of(rem@).contains(n)),
    decreases es,
{
    let ghost sp = |n: Seq<char>| names_of(syn@).contains(n);
    let ghost rp = |n: Seq<char>| names_of(rem@).contains(n);
    let mut acc: Option<(String, Range<usize>)> = None;
    let mut k: usize = 0;
    assert(es@.take(0) =~= Seq::<Expr>::empty());
    while k < es.len()
        invariant
            k <= es@.len(),
            sp == (|n: Seq<char>| names_of(syn@).contains(n)),
            rp == (|n: Seq<char>| names_of(rem@).contains(n)),
            found_view(acc) == exprs_residual(es@.take(k as int), sp, rp),
        decreases es@.len() - k,
    {
        proof {
            assert(decreases_to!(*es => es[k as int]));
            assert(es@.take(k + 1).drop_last() =~= es@.take(k as int));
            assert(es@.take(k + 1).last() == es@[k as int]);
        }
        let x = scan_residual_sm_expr(&es[k], syn, rem);
        acc = or_else_exec(acc, x);
        k = k + 1;
    }
    assert(es@.take(k as int) =~= es@);
    acc
}

/// The first refused name a statement list reads (see `stmts_residual`).
pub fn scan_residual_sm(body: &Vec<Stmt>, syn: &Vec<String>, rem: &Vec<String>) -> (r: Option<(String, Range<usize>)>)
    ensures
        found_view(r) == stmts_residual(body@, |n: Seq<char>| names_of(syn@).contains(n), |n: Seq<char>| names_of(rem@).contains(n)),
    decreases body,
{
    let ghost sp = |n: Seq<char>| names_of(syn@).contains(n);
    let ghost rp = |n: Seq<char>| names_of(rem@).contains(n);
    let mut acc: Option<(String, Range<usize>)> = None;
    let mut k: usize = 0;
    assert(body@.take(0) =~= Seq::<Stmt>::empty());
    while k < body.len()
        invariant
            k <= body@.len(),
            sp == (|n: Seq<char>| names_of(syn@).contains(n)),
            rp == (|n: Seq<char>| names_of(rem@).contains(n)),
            found_view(acc) == stmts_residual(body@.take(k as int), sp, rp),
        decreases body@.len() - k,
    {
        proof {
            assert(decreases_to!(*body => body[k as int]));
            assert(body@.take(k + 1).drop_last() =~= body@.take(k as int));
            assert(body@.take(k + 1).last() == body@[k as int]);
        }
        let x = scan_residual_sm_stmt(&body[k], syn, rem);
        acc = or_else_exec(acc, x);
        k = k + 1;
    }
    assert(body@.take(k as int) =~= body@);
    acc
}

fn scan_residual_sm_stmt(s: &Stmt, syn: &Vec<String>, rem: &Vec<String>) -> (r: Option<(String, Range<usize>)>)
    ensures
        found_view(r) == stmt_residual(*s, |n: Seq<char>| names_of(syn@).contains(n), |n: Seq<char>| names_of(rem@).contains(n)),
    decreases s,
{
    match s {
        Stmt::Require { cond, .. } => scan_residual_sm_expr(cond, syn, rem),
        Stmt::Assert { cond, .. } => scan_residual_sm_expr(cond, syn, rem),
        Stmt::Return { value, .. } => match value {
            Some(v) => scan_residual_sm_expr(v, syn, rem),
            None => None,
        },
        Stmt::CallStmt { args, .. } => scan_residual_sm_exprs(args, syn, rem),
        Stmt::LocalVar { value, .. } => scan_residual_sm_expr(value, syn, rem),
        Stmt::Assign { value, .. } => scan_residual_sm_expr(value, syn, rem),
        Stmt::FieldAssign { value, .. } => scan_residual_sm_expr(value, syn, rem),
        Stmt::IndexAssign { key, value, .. } => {
            let a = scan_residual_sm_expr(key, syn, rem);
            let b = scan_residual_sm_expr(value, syn, rem);
            or_else_exec(a, b)
        },
        Stmt::IndexAssign2 { k1, k2, value, .. } => {
            let a = scan_residual_sm_expr(k1, syn, rem);
            let b = scan_residual_sm_expr(k2, syn, rem);
            let c = scan_residual_sm_expr(value, syn, rem);
            or_else_exec(a, or_else_exec(b, c))
        },
        Stmt::MapTransfer { from, to, amount, .. } => {
            let a = scan_residual_sm_expr(from, syn, rem);
            let b = scan_residual_sm_expr(to, syn, rem);
            let c = scan_residual_sm_expr(amount, syn, rem);
            or_else_exec(a, or_else_exec(b, c))
        },
        Stmt::Erc20TransferFrom { from, spender, to, amount, .. } => {
            let a = scan_residual_sm_expr(from, syn, rem);
            let b = scan_residual_sm_expr(spender, syn, rem);
            let c = scan_residual_sm_expr(to, syn, rem);
            let d = scan_residual_sm_expr(amount, syn, rem);
            or_else_exec(a, or_else_exec(b, or_else_exec(c, d)))
        },
        Stmt::MapSplitTransfer { from, amount, to, net, fee_to, fee, .. } => {
            let a = scan_residual_sm_expr(from, syn, rem);
            let b = scan_residual_sm_expr(amount, syn, rem);
            let c = scan_residual_sm_expr(to, syn, rem);
            let d = scan_residual_sm_expr(net, syn, rem);
            let e = scan_residual_sm_expr(fee_to, syn, rem);
            let f = scan_residual_sm_expr(fee, syn, rem);
            or_else_exec(a, or_else_exec(b, or_else_exec(c, or_else_exec(d, or_else_exec(e, f)))))
        },
        Stmt::Erc20Update { from, to, value, .. } => {
            let a = scan_residual_sm_expr(from, syn, rem);
            let b = scan_residual_sm_expr(to, syn, rem);
            let c = scan_residual_sm_expr(value, syn, rem);
            or_else_exec(a, or_else_exec(b, c))
        },
        Stmt::If { cond, then_body, else_body, .. } => {
            let a = scan_residual_sm_expr(cond, syn, rem);
            let b = scan_residual_sm(then_body, syn, rem);
            let c = scan_residual_sm(else_body, syn, rem);
            or_else_exec(a, or_else_exec(b, c))
        },
        Stmt::Unchecked { body, .. } => scan_residual_sm(body, syn, rem),
        Stmt::AirdropLoop { body, .. } => scan_residual_sm(body, syn, rem),
        Stmt::ReservedBatch { transfer, writes, .. } => {
            let a = match transfer {
                Some(t) => scan_residual_sm_stmt(t, syn, rem),
                None => None,
            };
            let b = scan_residual_sm(writes, syn, rem);
            or_else_exec(a, b)
        },
        Stmt::BatchTransfer { from, .. } => scan_residual_sm_expr(from, syn, rem),
        _ => None,
    }
}

// ── The pass ─────────────────────────────────────────────────────────────────

/// The first refused name the function bodies, then the modifier bodies, then the
/// constructor body read.
pub open spec fn contract_residual(
    fns: Seq<crate::parser::Function>,
    mods: Seq<crate::parser::Modifier>,
    ctor: Option<crate::parser::Constructor>,
    syn: spec_fn(Seq<char>) -> bool,
    rem: spec_fn(Seq<char>) -> bool,
) -> Found {
    or_else(
        fns_residual(fns, syn, rem),
        or_else(
            mods_residual(mods, syn, rem),
            match ctor {
                Some(k) => stmts_residual(k.body@, syn, rem),
                None => None,
            },
        ),
    )
}

pub open spec fn fns_residual(fns: Seq<crate::parser::Function>, syn: spec_fn(Seq<char>) -> bool, rem: spec_fn(Seq<char>) -> bool) -> Found
    decreases fns.len(),
{
    if fns.len() == 0 {
        None
    } else {
        or_else(fns_residual(fns.drop_last(), syn, rem), stmts_residual(fns.last().body@, syn, rem))
    }
}

pub open spec fn mods_residual(mods: Seq<crate::parser::Modifier>, syn: spec_fn(Seq<char>) -> bool, rem: spec_fn(Seq<char>) -> bool) -> Found
    decreases mods.len(),
{
    if mods.len() == 0 {
        None
    } else {
        or_else(mods_residual(mods.drop_last(), syn, rem), stmts_residual(mods.last().body@, syn, rem))
    }
}

/// What the pass leaves of a contract whose explosion does not collide, `c` being the
/// contract before: the exploded state list, the structs that were not exploded or that
/// something still names, and everything else as it was.
pub open spec fn exploded_contract(f: Contract, c: Contract) -> bool {
    let st0 = c.state@;
    let ss0 = c.structs@;
    &&& exploded_state(f.state@, st0, ss0)
    &&& f.structs@ == retained(
        ss0,
        |s: Struct|
            !exploded_struct_name(st0, ss0, s.name@) || type_referenced(
                f.state@,
                ss0,
                c.functions@,
                c.modifiers@,
                c.constructor,
                s.name@,
            ),
    )
    &&& f.name == c.name
    &&& f.kind == c.kind
    &&& f.bases == c.bases
    &&& f.functions == c.functions
    &&& f.modifiers == c.modifiers
    &&& f.constructor == c.constructor
    &&& f.enums == c.enums
    &&& f.span == c.span
}

/// Explodes every struct-map state variable into per-field maps (see `exploded_state`),
/// drops each exploded struct nothing else names, then refuses (FE441, at the reference)
/// the first remaining read of a `__fe_sm_` name that was not synthesized or of an
/// exploded variable. A synthesized name that collides is refused first (FE441, at the
/// variable).
pub fn explode_struct_maps(p: &mut crate::parser::Program) -> (r: Result<(), FrontendDiag>)
    ensures
        match first_collision_from(old(p).contract.state@, old(p).contract.structs@, 0) {
            Some(i) => r is Err && r->Err_0.code == codes::FE441_BAD_MAP_KV_SOL && r->Err_0.span
                == old(p).contract.state@[i].span,
            None => {
                let c = old(p).contract;
                let syn = |n: Seq<char>| synths_upto(c.state@, c.structs@, c.state@.len() as int).contains(n);
                let rem = |n: Seq<char>| removed_name(c.state@, c.structs@, n);
                &&& exploded_contract(final(p).contract, c)
                &&& match contract_residual(c.functions@, c.modifiers@, c.constructor, syn, rem) {
                    Some((_, sp)) => r is Err && r->Err_0.code == codes::FE441_BAD_MAP_KV_SOL && r->Err_0.span == sp,
                    None => r is Ok,
                }
            },
        },
{
    let ghost c0 = p.contract;
    let mut old_state: Vec<StateVar> = Vec::new();
    std::mem::swap(&mut old_state, &mut p.contract.state);
    assert(old_state@ == c0.state@);
    let (new_state, synthesized, removed, exploded) = match explode_state(old_state, &p.contract.structs) {
        Ok(x) => x,
        Err(d) => {
            return Err(d);
        },
    };
    p.contract.state = new_state;
    let referenced = referenced_names(&p.contract);
    let ghost st1 = p.contract.state@;
    let ghost keep = |s: Struct|
        !exploded_struct_name(c0.state@, c0.structs@, s.name@) || type_referenced(
            st1,
            c0.structs@,
            c0.functions@,
            c0.modifiers@,
            c0.constructor,
            s.name@,
        );
    let mut old_structs: Vec<Struct> = Vec::new();
    std::mem::swap(&mut old_structs, &mut p.contract.structs);
    let ghost ss0 = old_structs@;
    let mut rest = old_structs;
    let ghost mut k: int = 0;
    proof {
        assert(ss0.take(0) =~= Seq::<Struct>::empty());
        assert(ss0.skip(0) =~= ss0);
        lemma_names_of_has(exploded@);
        lemma_names_of_has(referenced@);
    }
    while rest.len() > 0
        invariant
            0 <= k <= ss0.len(),
            rest@ == ss0.skip(k),
            ss0 == c0.structs@,
            p.contract.functions == c0.functions,
            p.contract.modifiers == c0.modifiers,
            p.contract.constructor == c0.constructor,
            p.contract.name == c0.name,
            p.contract.kind == c0.kind,
            p.contract.bases == c0.bases,
            p.contract.enums == c0.enums,
            p.contract.span == c0.span,
            p.contract.state@ == st1,
            exploded_state(st1, c0.state@, c0.structs@),
            st1 == p.contract.state@,
            keep == (|s: Struct|
                !exploded_struct_name(c0.state@, c0.structs@, s.name@) || type_referenced(
                    st1,
                    c0.structs@,
                    c0.functions@,
                    c0.modifiers@,
                    c0.constructor,
                    s.name@,
                )),
            p.contract.structs@ == retained(ss0.take(k), keep),
            forall|n: Seq<char>| #[trigger] names_has(exploded@, n) <==> exploded_struct_name(c0.state@, c0.structs@, n),
            forall|n: Seq<char>| #[trigger] names_has(referenced@, n) <==> type_referenced(
                p.contract.state@,
                c0.structs@,
                c0.functions@,
                c0.modifiers@,
                c0.constructor,
                n,
            ),
            forall|n: Seq<char>| #[trigger] names_has(exploded@, n) <==> names_of(exploded@).contains(n),
            forall|n: Seq<char>| #[trigger] names_has(referenced@, n) <==> names_of(referenced@).contains(n),
        decreases rest@.len(),
    {
        let s = rest.remove(0);
        proof {
            assert(s == ss0[k]);
            assert(ss0.take(k + 1).drop_last() =~= ss0.take(k));
            assert(ss0.take(k + 1).last() == s);
        }
        let keep_it = !listed(&exploded, s.name.as_str()) || listed(&referenced, s.name.as_str());
        proof {
            assert(keep_it == keep(s)) by {
                assert(names_has(exploded@, s.name@) == exploded_struct_name(c0.state@, c0.structs@, s.name@));
                assert(names_has(referenced@, s.name@) == type_referenced(
                    p.contract.state@,
                    c0.structs@,
                    c0.functions@,
                    c0.modifiers@,
                    c0.constructor,
                    s.name@,
                ));
            }
        }
        if keep_it {
            p.contract.structs.push(s);
        }
        proof {
            k = k + 1;
        }
        assert(rest@ =~= ss0.skip(k));
    }
    assert(ss0.take(k) =~= ss0);
    let ghost sp = |n: Seq<char>| names_of(synthesized@).contains(n);
    let ghost rp = |n: Seq<char>| names_of(removed@).contains(n);
    proof {
        lemma_names_of_has(synthesized@);
        lemma_names_of_has(removed@);
        let sp2 = |n: Seq<char>| synths_upto(c0.state@, c0.structs@, c0.state@.len() as int).contains(n);
        let rp2 = |n: Seq<char>| removed_name(c0.state@, c0.structs@, n);
        assert forall|n: Seq<char>| #[trigger] sp(n) == sp2(n) by {
            assert(names_has(synthesized@, n) == sp2(n));
        }
        assert forall|n: Seq<char>| #[trigger] rp(n) == rp2(n) by {
            assert(names_has(removed@, n) == rp2(n));
        }
        assert(sp =~= sp2);
        assert(rp =~= rp2);
    }
    let mut found: Option<(String, Range<usize>)> = None;
    let mut i: usize = 0;
    assert(p.contract.functions@.take(0) =~= Seq::<crate::parser::Function>::empty());
    while i < p.contract.functions.len()
        invariant
            i <= p.contract.functions@.len(),
            p.contract.functions == c0.functions,
            p.contract.modifiers == c0.modifiers,
            p.contract.constructor == c0.constructor,
            p.contract.name == c0.name,
            p.contract.kind == c0.kind,
            p.contract.bases == c0.bases,
            p.contract.enums == c0.enums,
            p.contract.span == c0.span,
            p.contract.state@ == st1,
            exploded_state(st1, c0.state@, c0.structs@),
            p.contract.structs@ == retained(ss0, keep),
            sp == (|n: Seq<char>| names_of(synthesized@).contains(n)),
            rp == (|n: Seq<char>| names_of(removed@).contains(n)),
            found_view(found) == fns_residual(p.contract.functions@.take(i as int), sp, rp),
        decreases p.contract.functions@.len() - i,
    {
        proof {
            assert(p.contract.functions@.take(i + 1).drop_last() =~= p.contract.functions@.take(i as int));
        }
        let x = scan_residual_sm(&p.contract.functions[i].body, &synthesized, &removed);
        found = or_else_exec(found, x);
        i = i + 1;
    }
    assert(p.contract.functions@.take(i as int) =~= p.contract.functions@);
    let mut mfound: Option<(String, Range<usize>)> = None;
    let mut i: usize = 0;
    assert(p.contract.modifiers@.take(0) =~= Seq::<crate::parser::Modifier>::empty());
    while i < p.contract.modifiers.len()
        invariant
            i <= p.contract.modifiers@.len(),
            p.contract.functions == c0.functions,
            p.contract.modifiers == c0.modifiers,
            p.contract.constructor == c0.constructor,
            p.contract.name == c0.name,
            p.contract.kind == c0.kind,
            p.contract.bases == c0.bases,
            p.contract.enums == c0.enums,
            p.contract.span == c0.span,
            p.contract.state@ == st1,
            exploded_state(st1, c0.state@, c0.structs@),
            p.contract.structs@ == retained(ss0, keep),
            found_view(found) == fns_residual(c0.functions@, sp, rp),
            sp == (|n: Seq<char>| names_of(synthesized@).contains(n)),
            rp == (|n: Seq<char>| names_of(removed@).contains(n)),
            found_view(mfound) == mods_residual(p.contract.modifiers@.take(i as int), sp, rp),
        decreases p.contract.modifiers@.len() - i,
    {
        proof {
            assert(p.contract.modifiers@.take(i + 1).drop_last() =~= p.contract.modifiers@.take(i as int));
        }
        let x = scan_residual_sm(&p.contract.modifiers[i].body, &synthesized, &removed);
        mfound = or_else_exec(mfound, x);
        i = i + 1;
    }
    assert(p.contract.modifiers@.take(i as int) =~= p.contract.modifiers@);
    let cfound = match &p.contract.constructor {
        Some(k) => scan_residual_sm(&k.body, &synthesized, &removed),
        None => None,
    };
    let all = or_else_exec(found, or_else_exec(mfound, cfound));
    match all {
        Some((name, span)) => {
            let msg = if listed(&removed, name.as_str()) {
                "a mapping-to-struct exploded into per-field maps is read whole; only `var[key].field` accesses are supported"
            } else {
                "a `var[key].field` access does not resolve to a bounded struct-map"
            };
            Err(FrontendDiag::new(codes::FE441_BAD_MAP_KV_SOL, msg, span))
        },
        None => Ok(()),
    }
}

} // verus!
