use sigil_frontends::check::{check, num_fits_width, parse_uint_width, pow2_decimal, pragma_body_is_0_8};
use sigil_frontends::codes;
use sigil_frontends::flatten::flatten;
use sigil_frontends::lexer::lex;
use sigil_frontends::parser::{parse, Program};

fn program(src: &str) -> Program {
    let toks = lex(src).expect("lexes");
    flatten(parse(toks, src.len()).expect("parses")).expect("flattens")
}

fn check_code(src: &str) -> Option<&'static str> {
    check(&program(src)).err().map(|d| d.code)
}

fn body(fields: &str, funcs: &str) -> String {
    format!("pragma solidity ^0.8.0;\ncontract A {{ {fields} {funcs} }}")
}

#[test]
fn accepts_a_checks_then_effects_function() {
    let src = body("uint256 x;", "function f(uint256 a) public { require(a > 0); x = a + 1; }");
    assert_eq!(check_code(&src), None);
}

#[test]
fn rejects_a_missing_pragma_at_the_origin() {
    let d = check(&program("contract A { uint256 x; }")).unwrap_err();
    assert_eq!(d.code, codes::FE411_UNCHECKED_OR_PRAGMA);
    assert_eq!(d.span, 0..0);
}

#[test]
fn rejects_a_pre_0_8_pragma() {
    let src = "pragma solidity ^0.7.6;\ncontract A { uint256 x; }";
    let d = check(&program(src)).unwrap_err();
    assert_eq!(d.code, codes::FE411_UNCHECKED_OR_PRAGMA);
    assert_eq!(d.span, 0..23);
}

#[test]
fn pragma_ranges() {
    assert!(pragma_body_is_0_8("solidity ^0.8.0"));
    assert!(pragma_body_is_0_8("solidity >=0.8.2 <0.9.0"));
    assert!(pragma_body_is_0_8("solidity >= 0.8.0"));
    assert!(pragma_body_is_0_8("solidity 0.8.19"));
    assert!(pragma_body_is_0_8("solidity ^0.10.0"));
    assert!(!pragma_body_is_0_8("solidity ^0.7.0"));
    assert!(!pragma_body_is_0_8("solidity <0.9.0"));
    assert!(!pragma_body_is_0_8("solidity ^0.8.0 || ^0.9.0"));
    assert!(!pragma_body_is_0_8("solidity ^1.0.0"));
    assert!(!pragma_body_is_0_8("solidity ^0.8.x"));
    assert!(!pragma_body_is_0_8("solidity >="));
    assert!(!pragma_body_is_0_8("solidity"));
    assert!(!pragma_body_is_0_8("solidity >=0.7.0 <0.9.0"));
}

#[test]
fn rejects_a_guard_after_a_storage_write() {
    let src = body("uint256 x;", "function f(uint256 a) public { x = 1; require(a > 0); }");
    assert_eq!(check_code(&src), Some(codes::FE412_NON_CEI));
}

#[test]
fn rejects_checked_arithmetic_after_a_storage_write() {
    let src = body("uint256 x; uint256 y;", "function f(uint256 a) public { x = 1; y = a + 1; }");
    assert_eq!(check_code(&src), Some(codes::FE412_NON_CEI));
}

#[test]
fn a_local_shadowing_a_state_field_is_no_storage_write() {
    let src = body("uint256 x;", "function f(uint256 a) public { uint256 x = 1; x = 2; require(a > 0); }");
    assert_eq!(check_code(&src), None);
}

#[test]
fn rejects_an_address_used_as_a_number() {
    let src = body("address o; uint256 x;", "function f() public { x = o; }");
    assert_eq!(check_code(&src), Some(codes::FE443_ADDRESS_OP_SOL));
}

#[test]
fn rejects_a_view_function_that_writes() {
    let src = body("uint256 x;", "function f() public view { x = 1; }");
    assert_eq!(check_code(&src), Some(codes::FE446_VIEW_WRITE_SOL));
}

#[test]
fn bool_map_writes_must_be_literals() {
    let ok = body("mapping(address => bool) m;", "function f(address a) public { m[a] = true; }");
    assert_eq!(check_code(&ok), None);
    let bad = body("mapping(address => bool) m;", "function f(address a, bool b) public { m[a] = b; }");
    assert_eq!(check_code(&bad), Some(codes::FE441_BAD_MAP_KV_SOL));
}

#[test]
fn narrowing_into_uint8_is_refused() {
    let src = body("uint8 s; uint256 x;", "function f() public { s = x; }");
    assert_eq!(check_code(&src), Some(codes::FE462_UINTN_WIDTH_SOL));
}

#[test]
fn uint8_literals_must_fit() {
    let ok = body("uint8 s;", "function f() public { s = 255; }");
    assert_eq!(check_code(&ok), None);
    let bad = body("uint8 s;", "function f() public { s = 256; }");
    assert_eq!(check_code(&bad), Some(codes::FE430_BAD_NUMBER_SOL));
}

#[test]
fn rejects_a_duplicate_enum_member() {
    let src = body("enum E { A, A } uint256 x;", "");
    assert_eq!(check_code(&src), Some(codes::FE467_BAD_ENUM_SHAPE_SOL));
}

#[test]
fn rejects_a_self_containing_struct() {
    let src = body("struct S { uint256 a; S inner; } uint256 x;", "");
    assert_eq!(check_code(&src), Some(codes::FE461_BAD_STRUCT_SHAPE_SOL));
}

#[test]
fn rejects_a_mapping_parameter() {
    let src = body("uint256 x;", "function f(mapping(address => uint256) m) public { x = 1; }");
    assert_eq!(check_code(&src), Some(codes::FE410_UNSUPPORTED_TYPE));
}

#[test]
fn rejects_an_unknown_type() {
    let src = body("int256 x;", "");
    assert_eq!(check_code(&src), Some(codes::FE410_UNSUPPORTED_TYPE));
}

#[test]
fn rejects_a_raw_sender_read() {
    let src = body("address o;", "function f() public { o = msg.sender; }");
    assert_eq!(check_code(&src), Some(codes::FE410_UNSUPPORTED_TYPE));
}

#[test]
fn rejects_a_non_literal_state_initializer() {
    let src = body("uint256 x = 1; uint256 y = x;", "");
    assert_eq!(check_code(&src), Some(codes::FE413_INDETERMINATE_INIT));
}

#[test]
fn modifiers_are_not_checked_directly() {
    let src = body("uint256 x;", "modifier m() { _; }");
    assert_eq!(check_code(&src), None);
}

#[test]
fn uint_widths() {
    assert_eq!(parse_uint_width("uint8"), Some(8));
    assert_eq!(parse_uint_width("uint248"), Some(248));
    assert_eq!(parse_uint_width("uint256"), None);
    assert_eq!(parse_uint_width("uint"), None);
    assert_eq!(parse_uint_width("uint7"), None);
    assert_eq!(parse_uint_width("uint+16"), Some(16));
}

#[test]
fn literal_widths() {
    assert!(num_fits_width("255", 8));
    assert!(!num_fits_width("256", 8));
    assert!(num_fits_width("000255", 8));
    assert!(num_fits_width("0x00ff", 8));
    assert!(!num_fits_width("0x100", 8));
    assert!(num_fits_width("0", 8));
    assert!(num_fits_width("1461501637330902918203684832716283019655932542975", 160));
    assert!(!num_fits_width("1461501637330902918203684832716283019655932542976", 160));
}

#[test]
fn powers_of_two_in_decimal() {
    assert_eq!(pow2_decimal(0), "1");
    assert_eq!(pow2_decimal(8), "256");
    assert_eq!(pow2_decimal(160), "1461501637330902918203684832716283019655932542976");
}
