use sigil_frontends::codes;
use sigil_frontends::flatten::flatten;
use sigil_frontends::lexer::lex;
use sigil_frontends::overloads::{disambiguate_overloads, mangle_overload};
use sigil_frontends::parser::{parse, Contract, Expr, Stmt};

fn contract(members: &str) -> Contract {
    let src = format!("pragma solidity ^0.8.0;\ncontract A {{ {members} }}");
    let toks = lex(&src).expect("lexes");
    flatten(parse(toks, src.len()).expect("parses")).expect("flattens").contract
}

fn callee(s: &Stmt) -> &str {
    match s {
        Stmt::CallStmt { callee, .. } => callee.as_str(),
        other => panic!("unexpected {other:?}"),
    }
}

#[test]
fn overload_names_carry_the_arity() {
    assert_eq!(mangle_overload("f", 2), "__fe_ov2_f");
    assert_eq!(mangle_overload("transfer", 10), "__fe_ov10_transfer");
}

#[test]
fn overloads_are_renamed_and_calls_follow_their_argument_count() {
    let mut c = contract(
        "uint256 x; function f(uint256 a) internal { x = a; } \
         function f(uint256 a, uint256 b) internal { x = a + b; } \
         function h(uint256 a) internal returns (uint256) { return a; } \
         function g() public { f(1); f(1, 2); x = h(f2(3)); }",
    );
    disambiguate_overloads(&mut c).expect("disambiguates");
    let names: Vec<&str> = c.functions.iter().map(|f| f.name.as_str()).collect();
    assert_eq!(names, vec!["__fe_ov1_f", "__fe_ov2_f", "h", "g"]);
    let body = &c.functions[3].body;
    assert_eq!(callee(&body[0]), "__fe_ov1_f");
    assert_eq!(callee(&body[1]), "__fe_ov2_f");
    match &body[2] {
        Stmt::Assign { value: Expr::Call(c, _, _), .. } => assert!(matches!(&**c, Expr::Var(n, _) if n == "h")),
        other => panic!("unexpected {other:?}"),
    }
}

#[test]
fn a_call_matching_no_overload_arity_is_rejected() {
    let mut c = contract(
        "uint256 x; function f(uint256 a) internal { x = a; } \
         function f(uint256 a, uint256 b) internal { x = a + b; } \
         function g() public { f(1, 2, 3); }",
    );
    let d = disambiguate_overloads(&mut c).unwrap_err();
    assert_eq!(d.code, codes::FE420_BAD_IDENTIFIER_SOL);
}

#[test]
fn a_contract_without_overloads_is_unchanged() {
    let mut c = contract("uint256 x; function f(uint256 a) internal { x = a; } function g() public { f(1); }");
    disambiguate_overloads(&mut c).expect("nothing to do");
    assert_eq!(c.functions[0].name, "f");
    assert_eq!(callee(&c.functions[1].body[0]), "f");
}
