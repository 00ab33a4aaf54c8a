use sigil_frontends::flatten::flatten;
use sigil_frontends::lexer::lex;
use sigil_frontends::lowering::{lower_sender, lower_sender_ctor, SENDER_PARAM};
use sigil_frontends::parser::{parse, Expr, Program, Stmt};
use sigil_frontends::preprocess::{normalize_literals, uint256_max_decimal, unwrap_unchecked, unwrap_unchecked_stmts};

fn program(src: &str) -> Program {
    let toks = lex(src).expect("lexes");
    flatten(parse(toks, src.len()).expect("parses")).expect("flattens")
}

fn contract(members: &str) -> Program {
    program(&format!("pragma solidity ^0.8.0;\ncontract A {{ {members} }}"))
}

fn has_unchecked(body: &[Stmt]) -> bool {
    body.iter().any(|s| match s {
        Stmt::Unchecked { .. } => true,
        Stmt::If { then_body, else_body, .. } => has_unchecked(then_body) || has_unchecked(else_body),
        _ => false,
    })
}

fn reads_msg_sender(e: &Expr) -> bool {
    match e {
        Expr::Member(b, m, _) => {
            (m == "sender" && matches!(b.as_ref(), Expr::Var(n, _) if n == "msg")) || reads_msg_sender(b)
        }
        Expr::Call(c, args, _) => reads_msg_sender(c) || args.iter().any(reads_msg_sender),
        Expr::Index(b, k, _) => reads_msg_sender(b) || reads_msg_sender(k),
        Expr::Bin(_, l, r, _) => reads_msg_sender(l) || reads_msg_sender(r),
        Expr::Unary(_, x, _) => reads_msg_sender(x),
        _ => false,
    }
}

#[test]
fn unchecked_block_without_locals_is_spliced_in_place() {
    let mut p = contract("uint256 x; function f() public { x = 1; unchecked { x += 2; x -= 1; } x = 5; }");
    unwrap_unchecked(&mut p.contract);
    let body = &p.contract.functions[0].body;
    assert_eq!(body.len(), 4);
    assert!(!has_unchecked(body));
    assert!(matches!(&body[1], Stmt::Assign { target, .. } if target == "x"));
    assert!(matches!(&body[3], Stmt::Assign { value: Expr::Num(v, _), .. } if v == "5"));
}

#[test]
fn unchecked_locals_are_renamed_with_numbered_prefixes() {
    let mut p = contract(
        "uint256 x; function f() public { unchecked { uint256 t = 1; x = t; } } function g() public { unchecked { uint256 t = 2; x = t; } }",
    );
    unwrap_unchecked(&mut p.contract);
    let f = &p.contract.functions[0].body;
    assert!(matches!(&f[0], Stmt::LocalVar { name, .. } if name == "__fe_unchk0_t"));
    assert!(matches!(&f[1], Stmt::Assign { value: Expr::Var(n, _), .. } if n == "__fe_unchk0_t"));
    let g = &p.contract.functions[1].body;
    assert!(matches!(&g[0], Stmt::LocalVar { name, .. } if name == "__fe_unchk1_t"));
    assert!(matches!(&g[1], Stmt::Assign { target, .. } if target == "x"));
}

#[test]
fn unchecked_inside_if_branches_is_spliced_and_nested_blocks_flatten() {
    let mut p = contract(
        "uint256 x; function f(uint256 a) public { if (a > 0) { unchecked { x = 1; unchecked { x = 2; } } } else { x = 3; } }",
    );
    unwrap_unchecked(&mut p.contract);
    let body = &p.contract.functions[0].body;
    assert_eq!(body.len(), 1);
    match &body[0] {
        Stmt::If { then_body, else_body, .. } => {
            assert_eq!(then_body.len(), 2);
            assert_eq!(else_body.len(), 1);
        }
        other => panic!("unexpected {other:?}"),
    }
    assert!(!has_unchecked(body));
}

#[test]
fn unchecked_counter_is_shared_and_advances_past_renamed_blocks_only() {
    let mut p = contract("uint256 x; function f() public { unchecked { x = 1; } unchecked { uint256 y = 2; x = y; } }");
    let body = std::mem::take(&mut p.contract.functions[0].body);
    let mut counter: usize = 7;
    let out = unwrap_unchecked_stmts(body, &mut counter);
    assert_eq!(counter, 8);
    assert_eq!(out.len(), 3);
    assert!(matches!(&out[1], Stmt::LocalVar { name, .. } if name == "__fe_unchk7_y"));
}

#[test]
fn msg_sender_becomes_a_leading_parameter() {
    let mut p = contract("mapping(address => uint256) b; function f(uint256 v) public { b[msg.sender] = v; }");
    let f = &mut p.contract.functions[0];
    lower_sender(f);
    assert_eq!(f.params.len(), 2);
    assert_eq!(f.params[0].name, SENDER_PARAM);
    assert_eq!(f.params[1].name, "v");
    match &f.body[0] {
        Stmt::IndexAssign { key: Expr::Var(n, _), .. } => assert_eq!(n, SENDER_PARAM),
        other => panic!("unexpected {other:?}"),
    }
}

#[test]
fn function_without_msg_sender_keeps_its_parameters() {
    let mut p = contract("uint256 x; function f(uint256 v) public { x = v; }");
    let f = &mut p.contract.functions[0];
    lower_sender(f);
    assert_eq!(f.params.len(), 1);
    assert_eq!(f.params[0].name, "v");
}

#[test]
fn constructor_msg_sender_is_rewritten_inside_conditions() {
    let mut p = contract("address owner; constructor() { owner = msg.sender; require(msg.sender != address(0)); }");
    let c = p.contract.constructor.as_mut().expect("constructor");
    lower_sender_ctor(c);
    assert_eq!(c.params.len(), 1);
    assert_eq!(c.params[0].name, SENDER_PARAM);
    match &c.body[1] {
        Stmt::Require { cond, .. } => assert!(!reads_msg_sender(cond)),
        other => panic!("unexpected {other:?}"),
    }
    assert!(matches!(&c.body[0], Stmt::Assign { value: Expr::Var(n, _), .. } if n == SENDER_PARAM));
}

#[test]
fn address_zero_becomes_the_literal_zero_in_functions_and_modifiers() {
    let mut p = contract(
        "address owner; modifier m(address a) { require(a != address(0)); _; } function f(address to) public m(to) { if (to == address(address(0))) { revert(); } owner = to; }",
    );
    normalize_literals(&mut p.contract);
    match &p.contract.functions[0].body[0] {
        Stmt::If { cond: Expr::Bin(_, _, r, _), .. } => assert!(matches!(r.as_ref(), Expr::Num(v, _) if v == "0")),
        other => panic!("unexpected {other:?}"),
    }
    match &p.contract.modifiers[0].body[0] {
        Stmt::Require { cond: Expr::Bin(_, _, r, _), .. } => assert!(matches!(r.as_ref(), Expr::Num(v, _) if v == "0")),
        other => panic!("unexpected {other:?}"),
    }
}

#[test]
fn type_uint256_max_becomes_its_decimal_value() {
    let mut p = contract("uint256 x; function f() public { x = type(uint256).max; x = type(uint).max; }");
    normalize_literals(&mut p.contract);
    let max = "115792089237316195423570985008687907853269984665640564039457584007913129639935";
    for s in &p.contract.functions[0].body {
        assert!(matches!(s, Stmt::Assign { value: Expr::Num(v, _), .. } if v == max));
    }
    assert_eq!(uint256_max_decimal(), max);
}

#[test]
fn other_address_casts_and_the_constructor_are_left_alone() {
    let mut p = contract(
        "address owner; constructor() { owner = address(0); } function f(address a) public { owner = address(0x0); owner = address(a); }",
    );
    normalize_literals(&mut p.contract);
    let ctor = p.contract.constructor.as_ref().expect("constructor");
    assert!(matches!(&ctor.body[0], Stmt::Assign { value: Expr::Call(..), .. }));
    let body = &p.contract.functions[0].body;
    assert!(matches!(&body[0], Stmt::Assign { value: Expr::Call(..), .. }));
    assert!(matches!(&body[1], Stmt::Assign { value: Expr::Call(..), .. }));
}

#[test]
fn unchecked_inside_an_airdrop_loop_body_is_spliced() {
    let mut p = contract(
        "mapping(address => uint256) b; function f(address o, address[] memory recipients, uint256[] memory amounts) public { for (uint256 i = 0; i < recipients.length; i++) { unchecked { b[o] -= amounts[i]; } b[recipients[i]] += amounts[i]; } }",
    );
    unwrap_unchecked(&mut p.contract);
    match &p.contract.functions[0].body[0] {
        Stmt::AirdropLoop { body, .. } => {
            assert_eq!(body.len(), 2);
            assert!(!has_unchecked(body));
        }
        other => panic!("unexpected {other:?}"),
    }
}
