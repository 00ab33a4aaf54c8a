//! Stable diagnostic codes of the Solidity frontend (`FE4xx` rejects, `FE500` internal).

use vstd::prelude::*;

verus! {

pub const FE401_UNSUPPORTED_SOL: &'static str = "FE401";
pub const FE402_TOO_LARGE_SOL: &'static str = "FE402";
pub const FE410_UNSUPPORTED_TYPE: &'static str = "FE410";
pub const FE411_UNCHECKED_OR_PRAGMA: &'static str = "FE411";
pub const FE412_NON_CEI: &'static str = "FE412";
pub const FE413_INDETERMINATE_INIT: &'static str = "FE413";
pub const FE414_BAD_GUARD: &'static str = "FE414";
pub const FE420_BAD_IDENTIFIER_SOL: &'static str = "FE420";
pub const FE430_BAD_NUMBER_SOL: &'static str = "FE430";
pub const FE440_NESTED_MAPPING_SOL: &'static str = "FE440";
pub const FE441_BAD_MAP_KV_SOL: &'static str = "FE441";
pub const FE442_BAD_INDEX_SOL: &'static str = "FE442";
pub const FE443_ADDRESS_OP_SOL: &'static str = "FE443";
pub const FE445_TYPE_MISMATCH_SOL: &'static str = "FE445";
pub const FE446_VIEW_WRITE_SOL: &'static str = "FE446";
pub const FE447_MODIFIER_PLACEHOLDER_SOL: &'static str = "FE447";
pub const FE448_PARAMETERIZED_MODIFIER_SOL: &'static str = "FE448";
pub const FE449_MODIFIER_LOCAL_COLLISION_SOL: &'static str = "FE449";
pub const FE450_DUPLICATE_MODIFIER_SOL: &'static str = "FE450";
pub const FE451_UNDEFINED_MODIFIER_SOL: &'static str = "FE451";
pub const FE452_UNSUPPORTED_ATTRIBUTE_SOL: &'static str = "FE452";
pub const FE453_MODIFIER_SUFFIX_SOL: &'static str = "FE453";
pub const FE454_ADDRESS_USED_AS_DATA_SOL: &'static str = "FE454";
pub const FE455_CAP_NEAR_MISS_SOL: &'static str = "FE455";
pub const FE456_MULTIPLE_OWNER_AUTHORITIES_SOL: &'static str = "FE456";
pub const FE457_CAP_NAME_COLLISION_SOL: &'static str = "FE457";
pub const FE460_STRUCT_FIELD_MISMATCH_SOL: &'static str = "FE460";
pub const FE461_BAD_STRUCT_SHAPE_SOL: &'static str = "FE461";
pub const FE462_UINTN_WIDTH_SOL: &'static str = "FE462";
pub const FE463_DUPLICATE_CONSTRUCTOR_SOL: &'static str = "FE463";
pub const FE464_UNSUPPORTED_CTOR_SOL: &'static str = "FE464";
pub const FE465_CTOR_CAP_UNSUPPORTED_SOL: &'static str = "FE465";
pub const FE466_BAD_ENUM_MEMBER_SOL: &'static str = "FE466";
pub const FE467_BAD_ENUM_SHAPE_SOL: &'static str = "FE467";
pub const FE468_BASE_CONSTRUCTOR_SOL: &'static str = "FE468";
pub const FE469_INHERITANCE_CYCLE_SOL: &'static str = "FE469";
pub const FE470_AMBIGUOUS_MAIN_SOL: &'static str = "FE470";
pub const FE471_NON_LINEARIZABLE_SOL: &'static str = "FE471";
pub const FE472_STATE_SHADOW_SOL: &'static str = "FE472";
pub const FE473_CONFLICTING_TYPE_SOL: &'static str = "FE473";
pub const FE475_ABSTRACT_FUNCTION_SOL: &'static str = "FE475";
pub const FE476_IMPORT_OR_BASE_SOL: &'static str = "FE476";
pub const FE477_USING_FOR_SOL: &'static str = "FE477";
pub const FE478_INLINE_ASSEMBLY_SOL: &'static str = "FE478";
pub const FE479_BITWISE_OP_SOL: &'static str = "FE479";
pub const FE480_TERNARY_SOL: &'static str = "FE480";
pub const FE481_EMIT_ARG_EFFECTFUL_SOL: &'static str = "FE481";
pub const FE482_NON_CONSTANT_POW_SOL: &'static str = "FE482";
pub const FE484_CALL_BODY_RETURNS_SOL: &'static str = "FE484";
pub const FE485_CALL_RECURSION_SOL: &'static str = "FE485";
pub const FE486_CALL_VALUE_MULTI_SOL: &'static str = "FE486";
pub const FE487_CALL_IN_CAP_MODE_SOL: &'static str = "FE487";
pub const FE488_STATE_CAPTURE_SOL: &'static str = "FE488";
pub const FE489_CALL_SHORTCIRCUIT_SOL: &'static str = "FE489";
pub const FE490_SAFEMATH_SHAPE_SOL: &'static str = "FE490";
pub const FE491_ARRAY_TYPE_SOL: &'static str = "FE491";
pub const FE492_AIRDROP_SHAPE_SOL: &'static str = "FE492";
pub const FE500_INTERNAL_MALFORMED: &'static str = "FE500";
pub const FE500_INTERNAL_MALFORMED_SOL: &'static str = "FE500";

} // verus!
