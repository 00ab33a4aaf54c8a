use sigil_frontends::cap_guards::CapGuardInfo;
use sigil_frontends::codes;
use sigil_frontends::emit_program::{emit_text, validate_cap_names, ADD_HELPER};
use sigil_frontends::flatten::flatten;
use sigil_frontends::lexer::lex;
use sigil_frontends::parser::{parse, Program};
use sigil_frontends::post_check::UintnHelpers;

fn program(members: &str) -> Program {
    let src = format!("pragma solidity ^0.8.0;\ncontract A {{ {members} }}");
    let toks = lex(&src).expect("lexes");
    flatten(parse(toks, src.len()).expect("parses")).expect("flattens")
}

const NONE: UintnHelpers = UintnHelpers { add: false, mul: false };

#[test]
fn emits_records_and_a_zero_defaulting_constructor() {
    let p = program("uint256 x; bool b = true; uint256 y = 7;");
    let text = emit_text(&p, "token", None, NONE).unwrap();
    assert_eq!(
        text,
        "module token;\n\nrecord A { x: u256, b: bool, y: u256 }\n\nimpl A {\n    pub fn new() -> A {\n        return A { x: 0, b: true, y: 7 };\n    }\n}\n"
    );
}

#[test]
fn a_stateless_contract_gets_the_unit_marker_and_struct_defaults_nest() {
    let p = program("");
    let text = emit_text(&p, "m", None, NONE).unwrap();
    assert!(text.contains("record A { __fe_unit: bool }"));
    assert!(text.contains("return A { __fe_unit: false };"));
    let p = program("struct P { uint256 a; bool f; } P p; mapping(address => uint256) m;");
    let text = emit_text(&p, "m", None, NONE).unwrap();
    assert!(text.contains("record P { a: u256, f: bool }\n\n"));
    assert!(text.contains("return A { p: P { a: 0, f: false }, m: BoundedMap_u256_u256_64::new() };"));
}

#[test]
fn used_width_helpers_are_emitted_and_methods_follow_new() {
    let p = program("uint256 x; function f() public { x = 1; }");
    let text = emit_text(&p, "m", None, UintnHelpers { add: true, mul: false }).unwrap();
    assert!(text.starts_with(&format!("module m;\n\n{ADD_HELPER}record A")));
    assert!(!text.contains("__fe_mul_checked"));
    assert!(text.contains("    }\n\n    pub fn f(self: A @Mut) {\n"));
    assert!(text.ends_with("    }\n}\n"));
}

#[test]
fn cap_mode_drops_the_owner_field_and_mints_the_owner_cap() {
    let p = program("address owner; uint256 x;");
    let cap = CapGuardInfo { owner_field: "owner".to_string(), guarded_methods: vec![] };
    let text = emit_text(&p, "m", Some(&cap), NONE).unwrap();
    assert!(text.contains("cap type A_Deploy { mint_owner }\ncap type A_Owner mintable_by A_Deploy { all }\n\n"));
    assert!(text.contains("record A { x: u256 }"));
    assert!(text.contains("    pub fn new(__fe_deploy: &A_Deploy) -> (A, A_Owner) {\n        let __fe_c = A { x: 0 };\n        return (__fe_c, mint A_Owner for __fe_c);\n    }\n"));
}

#[test]
fn a_colliding_cap_name_is_rejected() {
    let p = program("address owner; function A_Owner() public {}");
    assert_eq!(validate_cap_names(&p.contract).unwrap_err().code, codes::FE457_CAP_NAME_COLLISION_SOL);
    let cap = CapGuardInfo { owner_field: "owner".to_string(), guarded_methods: vec![] };
    let d = emit_text(&p, "m", Some(&cap), NONE).unwrap_err();
    assert_eq!(d.code, codes::FE457_CAP_NAME_COLLISION_SOL);
    assert_eq!(d.span, p.contract.span);
}
