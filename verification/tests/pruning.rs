use sigil_frontends::codes;
use sigil_frontends::flatten::flatten;
use sigil_frontends::lexer::lex;
use sigil_frontends::parser::{parse, Program};
use sigil_frontends::pruning::{collect_callees_stmts, prune_functions, reject_impure_msgsender};

fn program(src: &str) -> Program {
    let toks = lex(src).expect("lexes");
    flatten(parse(toks, src.len()).expect("parses")).expect("flattens")
}

fn contract(members: &str) -> Program {
    program(&format!("pragma solidity ^0.8.0;\ncontract A {{ {members} }}"))
}

fn names(p: &Program) -> Vec<String> {
    p.contract.functions.iter().map(|f| f.name.clone()).collect()
}

#[test]
fn dead_internal_functions_are_swept_and_called_ones_kept() {
    let mut p = contract(
        "uint256 x; function used(uint256 v) internal returns (uint256) { return v + 1; } function dead() private { x = 0; } function f() public { x = used(2); }",
    );
    prune_functions(&mut p.contract);
    assert_eq!(names(&p), vec!["used".to_string(), "f".to_string()]);
}

#[test]
fn public_functions_survive_even_when_uncalled() {
    let mut p = contract("uint256 x; function a() public { x = 1; } function b() external { x = 2; } function c() internal { x = 3; }");
    prune_functions(&mut p.contract);
    assert_eq!(names(&p), vec!["a".to_string(), "b".to_string()]);
}

#[test]
fn supports_interface_is_dropped_only_when_view() {
    let mut p = contract(
        "function supportsInterface(bytes4 id) public view returns (bool) { return true; } uint256 x; function g() public { x = 1; }",
    );
    prune_functions(&mut p.contract);
    assert_eq!(names(&p), vec!["g".to_string()]);
}

#[test]
fn calls_inside_branches_and_statements_are_collected() {
    let p = contract(
        "uint256 x; function h(uint256 v) internal { x = v; } function k() internal returns (uint256) { return 1; } function f(uint256 a) public { if (a > k()) { h(a); } }",
    );
    let mut out: Vec<String> = Vec::new();
    collect_callees_stmts(&p.contract.functions[2].body, &mut out);
    assert!(out.iter().any(|n| n == "h"));
    assert!(out.iter().any(|n| n == "k"));
    assert!(!out.iter().any(|n| n == "f"));
}

#[test]
fn the_pure_msg_sender_shim_is_accepted() {
    let p = contract("function _msgSender() internal view returns (address) { return msg.sender; }");
    assert!(reject_impure_msgsender(&p.contract).is_ok());
}

#[test]
fn an_msg_sender_with_another_body_is_refused() {
    let p = contract(
        "uint256 x; function _msgSender() internal returns (address) { x = 1; return msg.sender; }",
    );
    let d = reject_impure_msgsender(&p.contract).unwrap_err();
    assert_eq!(d.code, codes::FE481_EMIT_ARG_EFFECTFUL_SOL);
    assert_eq!(d.span, p.contract.functions[0].span);
}

#[test]
fn an_msg_sender_with_parameters_is_refused() {
    let p = contract("function _msgSender(uint256 a) internal view returns (address) { return msg.sender; }");
    assert!(reject_impure_msgsender(&p.contract).is_err());
}
