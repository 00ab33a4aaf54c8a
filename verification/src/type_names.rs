//! Type names: which narrow unsigned names the checker admits (`uintN` for exactly the
//! widths N that are multiples of 8 from 8 to 248), the closed set of mapping and array types
//! it accepts, and the SIGIL type that a checked type is emitted as.

use crate::check::{all_digit_chars, digits_value, enum_named, first_enum, resolve_spec, uint_width, TyPos, TyV};
use crate::emit::type_text;
use crate::parser::{Enum, Struct, TypeRef};
use crate::text::{dec_chars, digit_char};
use vstd::prelude::*;

verus! {

/// A digit's character reads back as the digit.
proof fn lemma_digit_char_value(k: nat)
    requires
        k < 10,
    ensures
        digit_char(k) as int - '0' as int == k,
        crate::check::is_digit_char(digit_char(k)),
{
    let b: u8 = (48 + k) as u8;
    assert(b as int == 48 + k);
    assert(digit_char(k) == b as char);
    assert((b as char) as int == b as int);
}

/// The characters of `dec_chars(n)` are digits that read back as `n`.
proof fn lemma_dec_chars_read_back(n: nat)
    ensures
        dec_chars(n).len() > 0,
        all_digit_chars(dec_chars(n)),
        digits_value(dec_chars(n)) == n,
    decreases n,
{
    if n >= 10 {
        lemma_dec_chars_read_back(n / 10);
        let d = dec_chars(n / 10);
        let c = digit_char(n % 10);
        assert(dec_chars(n) == d.push(c));
        assert(d.push(c).drop_last() =~= d);
        assert(n == (n / 10) * 10 + n % 10) by (nonlinear_arith);
        lemma_digit_char_value(n % 10);
        assert(d.push(c).last() == c);
        assert(digits_value(d.push(c)) == digits_value(d) * 10 + ((c as int - '0' as int) as nat));
        assert forall|k: int| 0 <= k < d.push(c).len() implies crate::check::is_digit_char(#[trigger] d.push(c)[k]) by {
            if k < d.len() {
                assert(d.push(c)[k] == d[k]);
            }
        }
    } else {
        let s = seq![digit_char(n)];
        assert(s.drop_last() =~= Seq::<char>::empty());
        lemma_digit_char_value(n);
        assert(s.last() == digit_char(n));
        assert(digits_value(s) == digits_value(Seq::<char>::empty()) * 10 + ((digit_char(n) as int - '0' as int) as nat));
        assert(dec_chars(n) == s);
    }
}

/// The type name `uintN`, with N written in decimal, is a narrow unsigned type exactly when N
/// is a multiple of 8 from 8 to 248, and then of width N.
pub proof fn lemma_uint_width_names(n: nat)
    ensures
        uint_width("uint"@ + dec_chars(n)) == if 8 <= n <= 248 && n % 8 == 0 {
            Some(n as u16)
        } else {
            None
        },
{
    reveal_strlit("uint");
    lemma_dec_chars_read_back(n);
    let d = dec_chars(n);
    let w = "uint"@ + d;
    assert(w.take(4) =~= "uint"@);
    assert(w.skip(4) =~= d);
    assert(crate::check::is_digit_char(d[0]));
    assert(crate::check::unsigned_part(d) == d);
}

/// The SIGIL type that carries values of a checked type: `bool` stays, a struct is its
/// record, a mapping is the bounded one- or two-key map, an array the bounded vector, and
/// every other value type (`uint256`, `uintN`, `address`, an enum) the `u256` carrier.
pub open spec fn sigil_carrier(t: TyV) -> Seq<char> {
    match t {
        TyV::Bool => "bool"@,
        TyV::Named(n) => n,
        TyV::Mapping(_, v) => match *v {
            TyV::Mapping(..) => "BoundedMap2_u256_u256_u256_64"@,
            _ => "BoundedMap_u256_u256_64"@,
        },
        TyV::Array(_) => "BoundedVec_u256_64"@,
        _ => "u256"@,
    }
}

/// `first_enum` finds an enum from position `k` on exactly when one of those is named `n`.
proof fn lemma_first_enum_found(enums: Seq<Enum>, n: Seq<char>, k: int)
    requires
        0 <= k <= enums.len(),
    ensures
        first_enum(enums, n, k) is Some <==> exists|j: int| k <= j < enums.len() && (#[trigger] enums[j]).name@ == n,
    decreases enums.len() - k,
{
    if k < enums.len() {
        lemma_first_enum_found(enums, n, k + 1);
        if first_enum(enums, n, k + 1) is Some {
            let j = choose|j: int| k + 1 <= j < enums.len() && (#[trigger] enums[j]).name@ == n;
            assert(k <= j < enums.len() && enums[j].name@ == n);
        }
    }
}

/// Every declared type the checker accepts is emitted as the SIGIL type that carries its
/// checked type.
pub proof fn lemma_type_text_carries_checked_type(t: TypeRef, pos: TyPos, structs: Seq<Struct>, enums: Seq<Enum>)
    ensures
        resolve_spec(t, pos, structs, enums) matches Ok(ty) ==> type_text(t, enums) == sigil_carrier(ty),
{
    match t {
        TypeRef::Scalar { name, .. } => {
            lemma_first_enum_found(enums, name@, 0);
            assert(enum_named(enums, name@) <==> first_enum(enums, name@, 0) is Some);
        },
        _ => {},
    }
}

/// A mapping key or array element type: `address` or the `uint256` carrier.
pub open spec fn key_type(t: TyV) -> bool {
    t is Address || t is U256
}

/// A scalar mapping value type: a key type or `bool`.
pub open spec fn value_type(t: TyV) -> bool {
    key_type(t) || t is Bool
}

/// The closed set of container types: a mapping (state fields only) from a key type to a
/// value type or to one more mapping of that kind; an array (parameters only) of a key type.
pub open spec fn container_allowed(t: TyV, pos: TyPos) -> bool {
    match t {
        TyV::Mapping(k, v) => pos == TyPos::StateField && key_type(*k) && (value_type(*v) || match *v {
            TyV::Mapping(k2, v2) => key_type(*k2) && value_type(*v2),
            _ => false,
        }),
        TyV::Array(e) => pos == TyPos::Param && key_type(*e),
        _ => true,
    }
}

/// Every type the checker accepts lies in the closed subset: mappings only for state fields,
/// keyed by `address` or `uint256` and at most two deep, arrays only for parameters.
pub proof fn lemma_resolved_types_closed(t: TypeRef, pos: TyPos, structs: Seq<Struct>, enums: Seq<Enum>)
    ensures
        resolve_spec(t, pos, structs, enums) matches Ok(ty) ==> container_allowed(ty, pos),
{
}

} // verus!
