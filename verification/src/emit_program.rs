//! The SIGIL text of a whole program: the module line, the width-trap helpers the lowering
//! used, the capability types of cap mode, one `record` per struct and one for the contract
//! (its state fields), then `impl C { new(); methods }`, where `new()` is the single
//! construction site: each field gets its literal initializer or its zero default.

use crate::cap_guards::CapGuardInfo;
use crate::check::{find_struct, first_enum, first_struct, parse_uint_width, uint_width};
use crate::codes;
use crate::diag::{copy_span, FrontendDiag};
use crate::emit::{
    block_nest, emit_function, emit_stmts, function_text, is_enum_name, map_type, names_of, params_text, stmts_text, type_text,
};
use crate::parser::{Contract, Expr, Function, Param, Program, StateVar, Struct, StructField, TypeRef, Enum};
use crate::post_check::UintnHelpers;
use crate::text::{clone_string, string_eq_str};
use vstd::string::{StrSliceExecFns, StringExecFns};
use vstd::utf8::encode_utf8;
use crate::emit::EmitErr;
use vstd::prelude::*;

verus! {

/// The checked-add helper: the `u256` sum, trapping at the width bound.
pub const ADD_HELPER: &'static str =
    "fn __fe_add_checked(a: u256, b: u256, bound: u256) -> u256 { let r = (a + b); trap_if(r >= bound); return r; }\n\n";

/// The checked-multiply helper: the `u256` product, trapping at the width bound.
pub const MUL_HELPER: &'static str =
    "fn __fe_mul_checked(a: u256, b: u256, bound: u256) -> u256 { let r = (a * b); trap_if(r >= bound); return r; }\n\n";

/// The helpers a program needs, only those the lowering used.
pub open spec fn helpers_text(u: UintnHelpers) -> Seq<char> {
    (if u.add {
        ADD_HELPER@
    } else {
        Seq::empty()
    }) + (if u.mul {
        MUL_HELPER@
    } else {
        Seq::empty()
    })
}

/// ` name: T` for each struct field, comma-separated.
pub open spec fn struct_fields_text(fs: Seq<StructField>, enums: Seq<Enum>) -> Seq<char>
    decreases fs.len(),
{
    if fs.len() == 0 {
        Seq::empty()
    } else {
        struct_fields_text(fs.drop_last(), enums) + (if fs.len() > 1 {
            ","@
        } else {
            Seq::empty()
        }) + " "@ + fs.last().name@ + ": "@ + type_text(fs.last().ty, enums)
    }
}

/// `record S { … }` for each struct, in declaration order.
pub open spec fn struct_records_text(ss: Seq<Struct>, enums: Seq<Enum>) -> Seq<char>
    decreases ss.len(),
{
    if ss.len() == 0 {
        Seq::empty()
    } else {
        struct_records_text(ss.drop_last(), enums) + "record "@ + ss.last().name@ + " {"@ + struct_fields_text(
            ss.last().fields@,
            enums,
        ) + " }\n\n"@
    }
}

/// The state fields that stay in the record: all but the capability-replaced owner field.
pub open spec fn kept_state(state: Seq<StateVar>, owner: Option<Seq<char>>) -> Seq<StateVar>
    decreases state.len(),
{
    if state.len() == 0 {
        Seq::empty()
    } else {
        kept_state(state.drop_last(), owner) + (if owner == Some(state.last().name@) {
            Seq::empty()
        } else {
            seq![state.last()]
        })
    }
}

/// ` name: T` for each kept state field, comma-separated.
pub open spec fn state_fields_text(vs: Seq<StateVar>, enums: Seq<Enum>) -> Seq<char>
    decreases vs.len(),
{
    if vs.len() == 0 {
        Seq::empty()
    } else {
        state_fields_text(vs.drop_last(), enums) + (if vs.len() > 1 {
            ","@
        } else {
            Seq::empty()
        }) + " "@ + vs.last().name@ + ": "@ + type_text(vs.last().ty, enums)
    }
}

/// The contract record: its kept state fields, or a unit marker when there is none.
pub open spec fn contract_record_text(c: Contract, kept: Seq<StateVar>) -> Seq<char> {
    "record "@ + c.name@ + " {"@ + (if kept.len() == 0 {
        " __fe_unit: bool"@
    } else {
        state_fields_text(kept, c.enums@)
    }) + " }\n\n"@
}

/// The zero default of a type: `false` for `bool`, `0` for an enum or a number, an all-zero
/// record literal for a struct (its fields in order, nested at most `fuel` deep; the checker
/// rejects struct cycles, so the number of structs always suffices), an empty bounded map or
/// vector for a mapping or an array.
pub open spec fn zero_text(t: TypeRef, structs: Seq<Struct>, enums: Seq<Enum>, fuel: nat) -> Seq<char>
    decreases fuel, 0nat, 0nat,
{
    match t {
        TypeRef::Scalar { name, .. } => if name@ == "bool"@ {
            "false"@
        } else if first_enum(enums, name@, 0) is Some {
            "0"@
        } else if name@ != "uint256"@ && name@ != "uint"@ && name@ != "address"@ && name@ != "bytes32"@ && uint_width(
            name@,
        ) is None {
            match first_struct(structs, name@, 0) {
                Some(k) => if fuel == 0 {
                    "0"@
                } else {
                    name@ + " { "@ + zero_fields_text(structs[k].fields@, structs, enums, (fuel - 1) as nat) + " }"@
                },
                None => "0"@,
            }
        } else {
            "0"@
        },
        TypeRef::Mapping { value, .. } => match *value {
            TypeRef::Mapping { .. } => "BoundedMap2_u256_u256_u256_64::new()"@,
            _ => "BoundedMap_u256_u256_64::new()"@,
        },
        TypeRef::Array { .. } => "BoundedVec_u256_64::new()"@,
    }
}

/// `name: zero` for each struct field, joined with `, `.
pub open spec fn zero_fields_text(fs: Seq<StructField>, structs: Seq<Struct>, enums: Seq<Enum>, fuel: nat) -> Seq<char>
    decreases fuel, 1nat, fs.len(),
{
    if fs.len() == 0 {
        Seq::empty()
    } else {
        zero_fields_text(fs.drop_last(), structs, enums, fuel) + (if fs.len() > 1 {
            ", "@
        } else {
            Seq::empty()
        }) + fs.last().name@ + ": "@ + zero_text(fs.last().ty, structs, enums, fuel)
    }
}

/// A state field's initial value: its literal initializer, else its zero default.
pub open spec fn init_text(v: StateVar, structs: Seq<Struct>, enums: Seq<Enum>) -> Seq<char> {
    match v.init {
        Some(Expr::Num(t, _)) => t@,
        Some(Expr::Bool(b, _)) => if b {
            "true"@
        } else {
            "false"@
        },
        _ => zero_text(v.ty, structs, enums, structs.len()),
    }
}

/// ` name: value` for each kept field of the record literal, comma-separated, or the unit
/// marker when there is none.
pub open spec fn inits_text(vs: Seq<StateVar>, structs: Seq<Struct>, enums: Seq<Enum>) -> Seq<char> {
    if vs.len() == 0 {
        " __fe_unit: false"@
    } else {
        field_inits_text(vs, structs, enums)
    }
}

/// ` name: value` for each field, comma-separated.
pub open spec fn field_inits_text(vs: Seq<StateVar>, structs: Seq<Struct>, enums: Seq<Enum>) -> Seq<char>
    decreases vs.len(),
{
    if vs.len() == 0 {
        Seq::empty()
    } else {
        field_inits_text(vs.drop_last(), structs, enums) + (if vs.len() > 1 {
            ","@
        } else {
            Seq::empty()
        }) + " "@ + vs.last().name@ + ": "@ + init_text(vs.last(), structs, enums)
    }
}

// ── executable ───────────────────────────────────────────────────────────────

/// Appends the text of the helpers the lowering used.
fn emit_helpers(out: &mut String, u: UintnHelpers)
    ensures
        final(out)@ == old(out)@ + helpers_text(u),
{
    let ghost o = out@;
    if u.add {
        out.append(ADD_HELPER);
    }
    let ghost o1 = out@;
    if u.mul {
        out.append(MUL_HELPER);
    }
    assert(out@ =~= o + helpers_text(u));
}

/// Appends ` name: T` for each struct field.
fn emit_struct_fields(out: &mut String, fs: &Vec<StructField>, enums: &Vec<Enum>)
    ensures
        final(out)@ == old(out)@ + struct_fields_text(fs@, enums@),
{
    let ghost o = out@;
    let mut k: usize = 0;
    assert(fs@.take(0) =~= Seq::<StructField>::empty());
    while k < fs.len()
        invariant
            k <= fs@.len(),
            out@ == o + struct_fields_text(fs@.take(k as int), enums@),
        decreases fs@.len() - k,
    {
        assert(fs@.take(k + 1).drop_last() =~= fs@.take(k as int));
        if k > 0 {
            out.append(",");
        }
        out.append(" ");
        out.append(fs[k].name.as_str());
        out.append(": ");
        let t = map_type(&fs[k].ty, enums);
        out.append(t.as_str());
        assert(out@ =~= o + struct_fields_text(fs@.take(k + 1), enums@));
        k = k + 1;
    }
    assert(fs@.take(k as int) =~= fs@);
}

/// Appends one `record` per struct.
fn emit_struct_records(out: &mut String, ss: &Vec<Struct>, enums: &Vec<Enum>)
    ensures
        final(out)@ == old(out)@ + struct_records_text(ss@, enums@),
{
    let ghost o = out@;
    let mut k: usize = 0;
    assert(ss@.take(0) =~= Seq::<Struct>::empty());
    while k < ss.len()
        invariant
            k <= ss@.len(),
            out@ == o + struct_records_text(ss@.take(k as int), enums@),
        decreases ss@.len() - k,
    {
        assert(ss@.take(k + 1).drop_last() =~= ss@.take(k as int));
        out.append("record ");
        out.append(ss[k].name.as_str());
        out.append(" {");
        emit_struct_fields(out, &ss[k].fields, enums);
        out.append(" }\n\n");
        assert(out@ =~= o + struct_records_text(ss@.take(k + 1), enums@));
        k = k + 1;
    }
    assert(ss@.take(k as int) =~= ss@);
}

/// The zero default of a type (see `zero_text`).
fn zero_default(t: &TypeRef, structs: &Vec<Struct>, enums: &Vec<Enum>, fuel: usize) -> (r: String)
    ensures
        r@ == zero_text(*t, structs@, enums@, fuel as nat),
    decreases fuel, 0nat, 0nat,
{
    match t {
        TypeRef::Scalar { name, .. } => {
            if string_eq_str(name, "bool") {
                String::from_str("false")
            } else if is_enum_name(enums, name.as_str()) {
                String::from_str("0")
            } else if !string_eq_str(name, "uint256") && !string_eq_str(name, "uint") && !string_eq_str(name, "address")
                && !string_eq_str(name, "bytes32") && parse_uint_width(name.as_str()).is_none() {
                match find_struct(structs.as_slice(), name.as_str()) {
                    Some(k) => {
                        if fuel == 0 {
                            String::from_str("0")
                        } else {
                            let inner = zero_fields(&structs[k].fields, structs, enums, fuel - 1);
                            let mut s = clone_string(name);
                            s.append(" { ");
                            s.append(inner.as_str());
                            s.append(" }");
                            s
                        }
                    },
                    None => String::from_str("0"),
                }
            } else {
                String::from_str("0")
            }
        },
        TypeRef::Mapping { value, .. } => match &**value {
            TypeRef::Mapping { .. } => String::from_str("BoundedMap2_u256_u256_u256_64::new()"),
            _ => String::from_str("BoundedMap_u256_u256_64::new()"),
        },
        TypeRef::Array { .. } => String::from_str("BoundedVec_u256_64::new()"),
    }
}

/// `name: zero` for each struct field (see `zero_fields_text`).
fn zero_fields(fs: &Vec<StructField>, structs: &Vec<Struct>, enums: &Vec<Enum>, fuel: usize) -> (r: String)
    ensures
        r@ == zero_fields_text(fs@, structs@, enums@, fuel as nat),
    decreases fuel, 1nat, fs@.len(),
{
    let mut out = String::new();
    let mut k: usize = 0;
    assert(fs@.take(0) =~= Seq::<StructField>::empty());
    while k < fs.len()
        invariant
            k <= fs@.len(),
            out@ == zero_fields_text(fs@.take(k as int), structs@, enums@, fuel as nat),
        decreases fs@.len() - k,
    {
        assert(fs@.take(k + 1).drop_last() =~= fs@.take(k as int));
        if k > 0 {
            out.append(", ");
        }
        out.append(fs[k].name.as_str());
        out.append(": ");
        let z = zero_default(&fs[k].ty, structs, enums, fuel);
        out.append(z.as_str());
        assert(out@ =~= zero_fields_text(fs@.take(k + 1), structs@, enums@, fuel as nat));
        k = k + 1;
    }
    assert(fs@.take(k as int) =~= fs@);
    out
}

/// Whether a state field is the capability-replaced owner field.
fn is_owner(v: &StateVar, owner: Option<&String>) -> (r: bool)
    ensures
        r == (match owner {
            Some(o) => Some(o@),
            None => None::<Seq<char>>,
        } == Some(v.name@)),
{
    match owner {
        Some(o) => string_eq_str(&v.name, o.as_str()),
        None => false,
    }
}

/// Appends ` name: T` for each kept state field (or the unit marker) of the contract record.
fn emit_contract_record(out: &mut String, c: &Contract, owner: Option<&String>)
    ensures
        final(out)@ == old(out)@ + contract_record_text(*c, kept_state(c.state@, match owner {
            Some(o) => Some(o@),
            None => None::<Seq<char>>,
        })),
{
    let ghost ow = match owner {
        Some(o) => Some(o@),
        None => None::<Seq<char>>,
    };
    let ghost o = out@;
    out.append("record ");
    out.append(c.name.as_str());
    out.append(" {");
    let ghost o1 = out@;
    let mut nfields: usize = 0;
    let mut k: usize = 0;
    assert(c.state@.take(0) =~= Seq::<StateVar>::empty());
    while k < c.state.len()
        invariant
            k <= c.state@.len(),
            nfields == kept_state(c.state@.take(k as int), ow).len(),
            nfields <= k,
            ow == match owner {
                Some(o) => Some(o@),
                None => None::<Seq<char>>,
            },
            out@ == o1 + state_fields_text(kept_state(c.state@.take(k as int), ow), c.enums@),
        decreases c.state@.len() - k,
    {
        assert(c.state@.take(k + 1).drop_last() =~= c.state@.take(k as int));
        assert(c.state@.take(k + 1).last() == c.state@[k as int]);
        let ghost before = kept_state(c.state@.take(k as int), ow);
        if !is_owner(&c.state[k], owner) {
            if nfields > 0 {
                out.append(",");
            }
            out.append(" ");
            out.append(c.state[k].name.as_str());
            out.append(": ");
            let t = map_type(&c.state[k].ty, &c.enums);
            out.append(t.as_str());
            nfields = nfields + 1;
            proof {
                let after = before + seq![c.state@[k as int]];
                assert(kept_state(c.state@.take(k + 1), ow) == after);
                assert(after.drop_last() =~= before);
            }
        } else {
            assert(kept_state(c.state@.take(k + 1), ow) =~= before);
        }
        k = k + 1;
    }
    assert(c.state@.take(k as int) =~= c.state@);
    if nfields == 0 {
        out.append(" __fe_unit: bool");
    }
    out.append(" }\n\n");
}

/// `name: T` for each constructor parameter, joined with `, `.
pub open spec fn ctor_params_text(ps: Seq<Param>, enums: Seq<Enum>) -> Seq<char>
    decreases ps.len(),
{
    if ps.len() == 0 {
        Seq::empty()
    } else {
        ctor_params_text(ps.drop_last(), enums) + (if ps.len() > 1 {
            ", "@
        } else {
            Seq::empty()
        }) + ps.last().name@ + ": "@ + type_text(ps.last().ty, enums)
    }
}

/// The owner field that cap mode replaces by a capability.
pub open spec fn owner_of(cap: Option<CapGuardInfo>) -> Option<Seq<char>> {
    match cap {
        Some(i) => Some(i.owner_field@),
        None => None,
    }
}

/// The capability type that holds authority over the contract.
pub open spec fn owner_cap_name(c: Contract) -> Seq<char> {
    c.name@ + "_Owner"@
}

/// The capability type that may mint the owner capability at deployment.
pub open spec fn deploy_cap_name(c: Contract) -> Seq<char> {
    c.name@ + "_Deploy"@
}

/// A synthesized capability type name is usable: at most 64 bytes (the contract name it
/// extends is already a legal identifier), and neither the contract's name nor a method's.
pub open spec fn cap_name_ok(c: Contract, nm: Seq<char>) -> bool {
    &&& encode_utf8(nm).len() <= 64
    &&& nm != c.name@
    &&& forall|k: int| 0 <= k < c.functions@.len() ==> (#[trigger] c.functions@[k]).name@ != nm
}

/// The capability type declarations of cap mode.
pub open spec fn cap_decls_text(c: Contract) -> Seq<char> {
    "cap type "@ + deploy_cap_name(c) + " { mint_owner }\n"@ + "cap type "@ + owner_cap_name(c) + " mintable_by "@
        + deploy_cap_name(c) + " { all }\n\n"@
}

/// The synthesized `new()`: with a constructor, it builds the record in `__fe_c`, runs the
/// constructor body on it (parameters in scope) and returns it; in cap mode it takes the
/// deploy capability and returns the record with a freshly minted owner capability;
/// otherwise it returns the record literal. Each field holds its initial value.
pub open spec fn ctor_text(c: Contract, st: Seq<Seq<char>>, owner: Option<Seq<char>>) -> Result<Seq<char>, EmitErr> {
    let inits = inits_text(kept_state(c.state@, owner), c.structs@, c.enums@);
    match c.constructor {
        Some(ct) => {
            let head = "    pub fn new("@ + ctor_params_text(ct.params@, c.enums@) + ") -> "@ + c.name@ + " {\n"@
                + "        let mut __fe_c = "@ + c.name@ + " {"@ + inits + " };\n"@;
            match stmts_text(
                ct.body@,
                st,
                names_of(ct.params@.map_values(|p: Param| p.name)),
                2,
                c.structs@,
                c.enums@,
                "__fe_c"@,
            ) {
                Ok((t, _)) => Ok(head + t + "        return __fe_c;\n    }\n"@),
                Err(x) => Err(x),
            }
        },
        None => if owner is Some {
            Ok(
                "    pub fn new(__fe_deploy: &"@ + deploy_cap_name(c) + ") -> ("@ + c.name@ + ", "@ + owner_cap_name(c)
                    + ") {\n"@ + "        let __fe_c = "@ + c.name@ + " {"@ + inits + " };\n"@
                    + "        return (__fe_c, mint "@ + owner_cap_name(c) + " for __fe_c);\n"@ + "    }\n"@,
            )
        } else {
            Ok("    pub fn new() -> "@ + c.name@ + " {\n"@ + "        return "@ + c.name@ + " {"@ + inits + " };\n    }\n"@)
        },
    }
}

/// The methods, each after a blank line; the first one that cannot be rendered rejects.
pub open spec fn fns_text(c: Contract, fs: Seq<Function>, st: Seq<Seq<char>>, cap: Option<CapGuardInfo>) -> Result<
    Seq<char>,
    EmitErr,
>
    decreases fs.len(),
{
    if fs.len() == 0 {
        Ok(Seq::empty())
    } else {
        match fns_text(c, fs.drop_last(), st, cap) {
            Err(x) => Err(x),
            Ok(t) => match function_text(c, fs.last(), st, cap) {
                Err(x) => Err(x),
                Ok(u) => Ok(t + "\n"@ + u),
            },
        }
    }
}

/// The SIGIL text of a program named `module` (before the parse self-check): the module
/// line, the used helpers, in cap mode the capability types (FE457 at the contract when a
/// synthesized name is unusable), the struct records, the contract record, then the impl
/// block with `new()` and the methods.
pub open spec fn program_text(p: Program, module: Seq<char>, cap: Option<CapGuardInfo>, u: UintnHelpers) -> Result<
    Seq<char>,
    EmitErr,
> {
    let c = p.contract;
    let owner = owner_of(cap);
    let st = c.state@.map_values(|v: StateVar| v.name@);
    if cap is Some && !(cap_name_ok(c, owner_cap_name(c)) && cap_name_ok(c, deploy_cap_name(c))) {
        Err((codes::FE457_CAP_NAME_COLLISION_SOL, c.span))
    } else {
        let head = "module "@ + module + ";\n\n"@ + helpers_text(u) + (if cap is Some {
            cap_decls_text(c)
        } else {
            Seq::empty()
        }) + struct_records_text(c.structs@, c.enums@) + contract_record_text(c, kept_state(c.state@, owner))
            + "impl "@ + c.name@ + " {\n"@;
        match ctor_text(c, st, owner) {
            Err(x) => Err(x),
            Ok(ct) => match fns_text(c, c.functions@, st, cap) {
                Err(x) => Err(x),
                Ok(ft) => Ok(head + ct + ft + "}\n"@),
            },
        }
    }
}

/// A state field's initial value (see `init_text`).
fn init_value(v: &StateVar, structs: &Vec<Struct>, enums: &Vec<Enum>) -> (r: String)
    ensures
        r@ == init_text(*v, structs@, enums@),
{
    match &v.init {
        Some(Expr::Num(t, _)) => clone_string(t),
        Some(Expr::Bool(b, _)) => if *b {
            String::from_str("true")
        } else {
            String::from_str("false")
        },
        _ => zero_default(&v.ty, structs, enums, structs.len()),
    }
}

/// Appends the record literal's field initializers (see `inits_text`).
fn emit_field_inits(out: &mut String, c: &Contract, owner: Option<&String>)
    ensures
        final(out)@ == old(out)@ + inits_text(kept_state(c.state@, match owner {
            Some(o) => Some(o@),
            None => None::<Seq<char>>,
        }), c.structs@, c.enums@),
{
    let ghost ow = match owner {
        Some(o) => Some(o@),
        None => None::<Seq<char>>,
    };
    let ghost o1 = out@;
    let mut nfields: usize = 0;
    let mut k: usize = 0;
    assert(c.state@.take(0) =~= Seq::<StateVar>::empty());
    while k < c.state.len()
        invariant
            k <= c.state@.len(),
            nfields == kept_state(c.state@.take(k as int), ow).len(),
            nfields <= k,
            ow == match owner {
                Some(o) => Some(o@),
                None => None::<Seq<char>>,
            },
            out@ == o1 + field_inits_text(kept_state(c.state@.take(k as int), ow), c.structs@, c.enums@),
        decreases c.state@.len() - k,
    {
        assert(c.state@.take(k + 1).drop_last() =~= c.state@.take(k as int));
        assert(c.state@.take(k + 1).last() == c.state@[k as int]);
        let ghost before = kept_state(c.state@.take(k as int), ow);
        if !is_owner(&c.state[k], owner) {
            if nfields > 0 {
                out.append(",");
            }
            out.append(" ");
            out.append(c.state[k].name.as_str());
            out.append(": ");
            let v = init_value(&c.state[k], &c.structs, &c.enums);
            out.append(v.as_str());
            nfields = nfields + 1;
            proof {
                let after = before + seq![c.state@[k as int]];
                assert(kept_state(c.state@.take(k + 1), ow) == after);
                assert(after.drop_last() =~= before);
            }
        } else {
            assert(kept_state(c.state@.take(k + 1), ow) =~= before);
        }
        k = k + 1;
    }
    assert(c.state@.take(k as int) =~= c.state@);
    if nfields == 0 {
        out.append(" __fe_unit: false");
    }
}

/// `name: T` for each constructor parameter, and the parameter names in order.
fn ctor_params(ps: &Vec<Param>, enums: &Vec<Enum>) -> (r: (String, Vec<String>))
    ensures
        r.0@ == ctor_params_text(ps@, enums@),
        names_of(r.1@) == names_of(ps@.map_values(|p: Param| p.name)),
{
    let mut text = String::new();
    let mut locals: Vec<String> = Vec::new();
    let mut k: usize = 0;
    assert(ps@.take(0) =~= Seq::<Param>::empty());
    while k < ps.len()
        invariant
            k <= ps@.len(),
            text@ == ctor_params_text(ps@.take(k as int), enums@),
            names_of(locals@) =~= names_of(ps@.map_values(|p: Param| p.name)).take(k as int),
        decreases ps@.len() - k,
    {
        assert(ps@.take(k + 1).drop_last() =~= ps@.take(k as int));
        assert(ps@.take(k + 1).last() == ps@[k as int]);
        if k > 0 {
            text.append(", ");
        }
        text.append(ps[k].name.as_str());
        text.append(": ");
        let t = map_type(&ps[k].ty, enums);
        text.append(t.as_str());
        let ghost l0 = locals@;
        locals.push(clone_string(&ps[k].name));
        proof {
            assert(names_of(locals@) =~= names_of(l0).push(ps@[k as int].name@));
            let all = names_of(ps@.map_values(|p: Param| p.name));
            assert(all[k as int] == ps@[k as int].name@);
            assert(all.take(k + 1) =~= all.take(k as int).push(all[k as int]));
        }
        assert(text@ =~= ctor_params_text(ps@.take(k + 1), enums@));
        k = k + 1;
    }
    assert(ps@.take(k as int) =~= ps@);
    assert(names_of(ps@.map_values(|p: Param| p.name)).take(k as int) =~= names_of(ps@.map_values(|p: Param| p.name)));
    (text, locals)
}

/// The record literal `C { … }` of `new()`.
fn record_literal(c: &Contract, owner: Option<&String>) -> (r: String)
    ensures
        r@ == c.name@ + " {"@ + inits_text(kept_state(c.state@, match owner {
            Some(o) => Some(o@),
            None => None::<Seq<char>>,
        }), c.structs@, c.enums@) + " };\n"@,
{
    let mut s = clone_string(&c.name);
    s.append(" {");
    emit_field_inits(&mut s, c, owner);
    s.append(" };\n");
    s
}

/// Appends `new()` (see `ctor_text`).
fn emit_constructor(out: &mut String, c: &Contract, state: &Vec<String>, owner: Option<&String>) -> (r: Result<(), FrontendDiag>)
    requires
        c.constructor matches Some(ct) ==> 2 + block_nest(ct.body@) <= usize::MAX,
    ensures
        match ctor_text(*c, names_of(state@), match owner {
            Some(o) => Some(o@),
            None => None::<Seq<char>>,
        }) {
            Ok(t) => r is Ok && final(out)@ == old(out)@ + t,
            Err(x) => r is Err && r->Err_0.code == x.0 && r->Err_0.span == x.1,
        },
{
    let lit = record_literal(c, owner);
    match &c.constructor {
        Some(ct) => {
            let (ptext, mut locals) = ctor_params(&ct.params, &c.enums);
            let mut s = String::from_str("    pub fn new(");
            s.append(ptext.as_str());
            s.append(") -> ");
            s.append(c.name.as_str());
            s.append(" {\n");
            s.append("        let mut __fe_c = ");
            s.append(lit.as_str());
            match emit_stmts(&mut s, &ct.body, state, &mut locals, 2, &c.structs, &c.enums, "__fe_c") {
                Ok(()) => {},
                Err(d) => {
                    return Err(d);
                },
            }
            s.append("        return __fe_c;\n    }\n");
            proof {
                let inits = inits_text(kept_state(c.state@, match owner {
                    Some(o) => Some(o@),
                    None => None::<Seq<char>>,
                }), c.structs@, c.enums@);
                let head = "    pub fn new("@ + ctor_params_text(ct.params@, c.enums@) + ") -> "@ + c.name@ + " {\n"@
                    + "        let mut __fe_c = "@ + c.name@ + " {"@ + inits + " };\n"@;
                let t = stmts_text(ct.body@, names_of(state@), names_of(ct.params@.map_values(|p: Param| p.name)), 2, c.structs@, c.enums@, "__fe_c"@)->Ok_0.0;
                assert(s@ =~= head + t + "        return __fe_c;\n    }\n"@);
            }
            out.append(s.as_str());
            Ok(())
        },
        None => {
            let mut s = String::new();
            if owner.is_some() {
                s.append("    pub fn new(__fe_deploy: &");
                s.append(c.name.as_str());
                s.append("_Deploy");
                s.append(") -> (");
                s.append(c.name.as_str());
                s.append(", ");
                s.append(c.name.as_str());
                s.append("_Owner");
                s.append(") {\n");
                s.append("        let __fe_c = ");
                s.append(lit.as_str());
                s.append("        return (__fe_c, mint ");
                s.append(c.name.as_str());
                s.append("_Owner");
                s.append(" for __fe_c);\n");
                s.append("    }\n");
                proof {
                    let inits = inits_text(kept_state(c.state@, match owner {
                        Some(o) => Some(o@),
                        None => None::<Seq<char>>,
                    }), c.structs@, c.enums@);
                    assert(s@ =~= "    pub fn new(__fe_deploy: &"@ + deploy_cap_name(*c) + ") -> ("@ + c.name@ + ", "@ + owner_cap_name(*c)
                        + ") {\n"@ + "        let __fe_c = "@ + c.name@ + " {"@ + inits + " };\n"@
                        + "        return (__fe_c, mint "@ + owner_cap_name(*c) + " for __fe_c);\n"@ + "    }\n"@);
                }
            } else {
                s.append("    pub fn new() -> ");
                s.append(c.name.as_str());
                s.append(" {\n");
                s.append("        return ");
                s.append(lit.as_str());
                s.append("    }\n");
                proof {
                    let inits = inits_text(kept_state(c.state@, match owner {
                        Some(o) => Some(o@),
                        None => None::<Seq<char>>,
                    }), c.structs@, c.enums@);
                    assert(" };\n"@ + "    }\n"@ =~= " };\n    }\n"@) by {
                        reveal_strlit(" };\n");
                        reveal_strlit("    }\n");
                        reveal_strlit(" };\n    }\n");
                    }
                    assert(s@ =~= "    pub fn new() -> "@ + c.name@ + " {\n"@ + "        return "@ + c.name@ + " {"@ + inits + " };\n    }\n"@);
                }
            }
            out.append(s.as_str());
            Ok(())
        },
    }
}

/// Whether a synthesized capability type name is usable (see `cap_name_ok`).
fn cap_name_usable(c: &Contract, nm: &str) -> (r: bool)
    ensures
        r == cap_name_ok(*c, nm@),
{
    let b = nm.as_bytes();
    if b.len() > 64 {
        return false;
    }
    if string_eq_str(&c.name, nm) {
        return false;
    }
    let mut k: usize = 0;
    while k < c.functions.len()
        invariant
            k <= c.functions@.len(),
            forall|j: int| 0 <= j < k ==> (#[trigger] c.functions@[j]).name@ != nm@,
        decreases c.functions@.len() - k,
    {
        if string_eq_str(&c.functions[k].name, nm) {
            return false;
        }
        k = k + 1;
    }
    true
}

/// Cap mode's synthesized capability type names must be usable (FE457 at the contract).
pub fn validate_cap_names(c: &Contract) -> (r: Result<(), FrontendDiag>)
    ensures
        r is Ok <==> cap_name_ok(*c, owner_cap_name(*c)) && cap_name_ok(*c, deploy_cap_name(*c)),
        r matches Err(d) ==> d.code == codes::FE457_CAP_NAME_COLLISION_SOL && d.span == c.span,
{
    let mut owner = clone_string(&c.name);
    owner.append("_Owner");
    let mut deploy = clone_string(&c.name);
    deploy.append("_Deploy");
    if !cap_name_usable(c, owner.as_str()) || !cap_name_usable(c, deploy.as_str()) {
        return Err(
            FrontendDiag::new(
                codes::FE457_CAP_NAME_COLLISION_SOL,
                "cap-mode: a synthesized cap-type name is too long or collides with the contract record or a function name",
                copy_span(&c.span),
            ),
        );
    }
    Ok(())
}

/// An error of a prefix of the methods is the error of every longer prefix.
proof fn lemma_fns_err_grows(c: Contract, fs: Seq<Function>, st: Seq<Seq<char>>, cap: Option<CapGuardInfo>, i: int, j: int)
    requires
        0 <= i <= j <= fs.len(),
        fns_text(c, fs.take(i), st, cap) is Err,
    ensures
        fns_text(c, fs.take(j), st, cap) == fns_text(c, fs.take(i), st, cap),
    decreases j - i,
{
    if i < j {
        lemma_fns_err_grows(c, fs, st, cap, i, j - 1);
        assert(fs.take(j).drop_last() =~= fs.take(j - 1));
    }
}

/// Appends the methods, each after a blank line (see `fns_text`).
fn emit_functions(out: &mut String, c: &Contract, state: &Vec<String>, cap: Option<&CapGuardInfo>) -> (r: Result<(), FrontendDiag>)
    requires
        forall|k: int| 0 <= k < c.functions@.len() ==> 2 + block_nest((#[trigger] c.functions@[k]).body@) <= usize::MAX,
    ensures
        match fns_text(*c, c.functions@, names_of(state@), match cap {
            Some(i) => Some(*i),
            None => None,
        }) {
            Ok(t) => r is Ok && final(out)@ == old(out)@ + t,
            Err(x) => r is Err && r->Err_0.code == x.0 && r->Err_0.span == x.1,
        },
{
    let ghost capv = match cap {
        Some(i) => Some(*i),
        None => None::<CapGuardInfo>,
    };
    let ghost o = out@;
    let ghost st = names_of(state@);
    let mut f: usize = 0;
    assert(c.functions@.take(0) =~= Seq::<Function>::empty());
    assert(o + Seq::<char>::empty() =~= o);
    while f < c.functions.len()
        invariant
            f <= c.functions@.len(),
            st == names_of(state@),
            capv == match cap {
                Some(i) => Some(*i),
                None => None::<CapGuardInfo>,
            },
            forall|q: int| 0 <= q < c.functions@.len() ==> 2 + block_nest((#[trigger] c.functions@[q]).body@) <= usize::MAX,
            fns_text(*c, c.functions@.take(f as int), st, capv) matches Ok(t) && out@ == o + t,
        decreases c.functions@.len() - f,
    {
        assert(c.functions@.take(f + 1).drop_last() =~= c.functions@.take(f as int));
        assert(c.functions@.take(f + 1).last() == c.functions@[f as int]);
        let ghost t0 = fns_text(*c, c.functions@.take(f as int), st, capv)->Ok_0;
        let mut s = String::from_str("\n");
        match emit_function(&mut s, c, &c.functions[f], state, cap) {
            Ok(()) => {},
            Err(d) => {
                proof {
                    lemma_fns_err_grows(*c, c.functions@, st, capv, f + 1, c.functions@.len() as int);
                    assert(c.functions@.take(c.functions@.len() as int) =~= c.functions@);
                }
                return Err(d);
            },
        }
        out.append(s.as_str());
        assert(out@ =~= o + (t0 + "\n"@ + function_text(*c, c.functions@[f as int], st, capv)->Ok_0));
        f = f + 1;
    }
    assert(c.functions@.take(f as int) =~= c.functions@);
    Ok(())
}

/// The state field names, in order.
fn state_names(c: &Contract) -> (r: Vec<String>)
    ensures
        names_of(r@) == c.state@.map_values(|v: StateVar| v.name@),
{
    let mut state: Vec<String> = Vec::new();
    let mut k: usize = 0;
    while k < c.state.len()
        invariant
            k <= c.state@.len(),
            names_of(state@) =~= c.state@.map_values(|v: StateVar| v.name@).take(k as int),
        decreases c.state@.len() - k,
    {
        let ghost s0 = state@;
        state.push(clone_string(&c.state[k].name));
        assert(names_of(state@) =~= names_of(s0).push(c.state@[k as int].name@));
        k = k + 1;
    }
    assert(c.state@.map_values(|v: StateVar| v.name@).take(k as int) =~= c.state@.map_values(|v: StateVar| v.name@));
    state
}

/// The declarations before `impl`: module line, helpers, capability types, records.
fn emit_head(c: &Contract, module: &str, cap_mode: bool, owner: Option<&String>, uintn: UintnHelpers) -> (r: String)
    ensures
        r@ == "module "@ + module@ + ";\n\n"@ + helpers_text(uintn) + (if cap_mode {
            cap_decls_text(*c)
        } else {
            Seq::empty()
        }) + struct_records_text(c.structs@, c.enums@) + contract_record_text(*c, kept_state(c.state@, match owner {
            Some(o) => Some(o@),
            None => None::<Seq<char>>,
        })) + "impl "@ + c.name@ + " {\n"@,
{
    let mut out = String::from_str("module ");
    out.append(module);
    out.append(";\n\n");
    emit_helpers(&mut out, uintn);
    let ghost o1 = out@;
    if cap_mode {
        out.append("cap type ");
        out.append(c.name.as_str());
        out.append("_Deploy");
        out.append(" { mint_owner }\n");
        out.append("cap type ");
        out.append(c.name.as_str());
        out.append("_Owner");
        out.append(" mintable_by ");
        out.append(c.name.as_str());
        out.append("_Deploy");
        out.append(" { all }\n\n");
        assert(out@ =~= o1 + cap_decls_text(*c));
    } else {
        assert(out@ =~= o1 + Seq::<char>::empty());
    }
    emit_struct_records(&mut out, &c.structs, &c.enums);
    emit_contract_record(&mut out, c, owner);
    out.append("impl ");
    out.append(c.name.as_str());
    out.append(" {\n");
    out
}

/// The SIGIL text of a program named `module`, before the parse self-check (see
/// `program_text`).
pub fn emit_text(p: &Program, module: &str, cap: Option<&CapGuardInfo>, uintn: UintnHelpers) -> (r: Result<String, FrontendDiag>)
    requires
        forall|k: int| 0 <= k < p.contract.functions@.len() ==> 2 + block_nest((#[trigger] p.contract.functions@[k]).body@)
            <= usize::MAX,
        p.contract.constructor matches Some(ct) ==> 2 + block_nest(ct.body@) <= usize::MAX,
    ensures
        match program_text(*p, module@, match cap {
            Some(i) => Some(*i),
            None => None,
        }, uintn) {
            Ok(t) => r matches Ok(s) && s@ == t,
            Err(x) => r matches Err(d) && d.code == x.0 && d.span == x.1,
        },
{
    let c = &p.contract;
    let owner: Option<&String> = match cap {
        Some(i) => Some(&i.owner_field),
        None => None,
    };
    if cap.is_some() {
        match validate_cap_names(c) {
            Ok(()) => {},
            Err(d) => {
                return Err(d);
            },
        }
    }
    let state = state_names(c);
    let mut out = emit_head(c, module, cap.is_some(), owner, uintn);
    match emit_constructor(&mut out, c, &state, owner) {
        Ok(()) => {},
        Err(d) => {
            return Err(d);
        },
    }
    match emit_functions(&mut out, c, &state, cap) {
        Ok(()) => {},
        Err(d) => {
            return Err(d);
        },
    }
    out.append("}\n");
    Ok(out)
}

} // verus!
