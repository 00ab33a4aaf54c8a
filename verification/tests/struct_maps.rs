use sigil_frontends::codes;
use sigil_frontends::flatten::flatten;
use sigil_frontends::lexer::lex;
use sigil_frontends::parser::{parse, Program, TypeRef};
use sigil_frontends::struct_maps::{collect_local_tys, collect_scalar_names, explode_struct_maps, scan_residual_sm};

fn program(src: &str) -> Program {
    let toks = lex(src).expect("lexes");
    flatten(parse(toks, src.len()).expect("parses")).expect("flattens")
}

fn contract(members: &str) -> Program {
    program(&format!("pragma solidity ^0.8.0;\ncontract A {{ {members} }}"))
}

#[test]
fn struct_map_explodes_into_per_field_maps() {
    let mut p = contract(
        "struct S { uint256 a; bool b; } mapping(address => S) m; uint256 x; \
         function f(address k) public { m[k].a = 1; }",
    );
    explode_struct_maps(&mut p).expect("explodes");
    let names: Vec<&str> = p.contract.state.iter().map(|s| s.name.as_str()).collect();
    assert_eq!(names, vec!["__fe_sm_1_m_a", "__fe_sm_1_m_b", "x"]);
    match &p.contract.state[1].ty {
        TypeRef::Mapping { key, value, .. } => {
            assert!(matches!(key.as_ref(), TypeRef::Scalar { name, .. } if name == "address"));
            assert!(matches!(value.as_ref(), TypeRef::Scalar { name, .. } if name == "bool"));
        }
        other => panic!("unexpected {other:?}"),
    }
    assert!(p.contract.structs.is_empty());
}

#[test]
fn struct_still_named_elsewhere_is_kept() {
    let mut p = contract(
        "struct S { uint256 a; } mapping(address => S) m; S s; \
         function f(address k) public { m[k].a = 1; }",
    );
    explode_struct_maps(&mut p).expect("explodes");
    assert_eq!(p.contract.structs.len(), 1);
}

#[test]
fn unbounded_struct_is_not_exploded_and_its_access_is_refused() {
    let mut p = contract(
        "struct S { uint256 a; mapping(address => mapping(address => uint256)) d; } mapping(address => S) m; uint256 x; \
         function f(address k) public { x = m[k].a; }",
    );
    let d = explode_struct_maps(&mut p).unwrap_err();
    assert_eq!(d.code, codes::FE441_BAD_MAP_KV_SOL);
    assert_eq!(p.contract.state.len(), 2);
    assert_eq!(p.contract.state[0].name, "m");
}

#[test]
fn access_through_a_plain_mapping_is_refused_at_the_reference() {
    let mut p = contract("mapping(address => uint256) n; uint256 x; function f(address k) public { x = n[k].a; }");
    let d = explode_struct_maps(&mut p).unwrap_err();
    assert_eq!(d.code, codes::FE441_BAD_MAP_KV_SOL);
    assert!(d.span.start > 0);
}

#[test]
fn synthesized_name_colliding_with_a_state_variable_is_refused() {
    let mut p = contract("struct S { uint256 a; } mapping(address => S) m; uint256 __fe_sm_1_m_a;");
    let span = p.contract.state[0].span.clone();
    let d = explode_struct_maps(&mut p).unwrap_err();
    assert_eq!(d.code, codes::FE441_BAD_MAP_KV_SOL);
    assert_eq!(d.span, span);
}

#[test]
fn contract_without_struct_maps_is_unchanged() {
    let mut p = contract("uint256 x; function f() public { x = 1; }");
    explode_struct_maps(&mut p).expect("passes");
    assert_eq!(p.contract.state.len(), 1);
    assert_eq!(p.contract.state[0].name, "x");
}

#[test]
fn type_name_collection() {
    let p = contract("mapping(address => uint8) m; function f() public { if (true) { bool b = true; } }");
    let mut names: Vec<String> = Vec::new();
    collect_scalar_names(&p.contract.state[0].ty, &mut names);
    assert_eq!(names, vec!["address".to_string(), "uint8".to_string()]);
    let mut locals: Vec<String> = Vec::new();
    collect_local_tys(&p.contract.functions[0].body, &mut locals);
    assert_eq!(locals, vec!["bool".to_string()]);
    assert!(scan_residual_sm(&p.contract.functions[0].body, &Vec::new(), &Vec::new()).is_none());
}
