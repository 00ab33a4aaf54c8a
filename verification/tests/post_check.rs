use sigil_frontends::codes;
use sigil_frontends::flatten::flatten;
use sigil_frontends::lexer::lex;
use sigil_frontends::parser::{parse, BinOp, Expr, Program, Stmt};
use sigil_frontends::post_check::{lower_bool_maps, lower_enum_members, rewrite_bool_read, rewrite_enum_expr};

fn program(src: &str) -> Program {
    let toks = lex(src).expect("lexes");
    flatten(parse(toks, src.len()).expect("parses")).expect("flattens")
}

fn contract(members: &str) -> Program {
    program(&format!("pragma solidity ^0.8.0;\ncontract A {{ {members} }}"))
}

fn is_num(e: &Expr, t: &str) -> bool {
    matches!(e, Expr::Num(v, _) if v == t)
}

#[test]
fn bool_map_writes_store_numbers_and_reads_compare_to_one() {
    let mut p = contract(
        "mapping(address => bool) ok; uint256 x; function f(address k) public { ok[k] = true; ok[k] = false; if (ok[k]) { x = 1; } }",
    );
    lower_bool_maps(&mut p).expect("lowers");
    let body = &p.contract.functions[0].body;
    assert!(matches!(&body[0], Stmt::IndexAssign { value, .. } if is_num(value, "1")));
    assert!(matches!(&body[1], Stmt::IndexAssign { value, .. } if is_num(value, "0")));
    match &body[2] {
        Stmt::If { cond: Expr::Bin(BinOp::Eq, read, one, _), .. } => {
            assert!(matches!(read.as_ref(), Expr::Index(..)));
            assert!(is_num(one, "1"));
        }
        other => panic!("unexpected {other:?}"),
    }
}

#[test]
fn two_key_bool_map_reads_are_wrapped_once() {
    let mut p = contract(
        "mapping(bytes32 => mapping(address => bool)) roles; function f(bytes32 r, address a) public { roles[r][a] = true; require(roles[r][a]); }",
    );
    lower_bool_maps(&mut p).expect("lowers");
    let body = &p.contract.functions[0].body;
    assert!(matches!(&body[0], Stmt::IndexAssign2 { value, .. } if is_num(value, "1")));
    match &body[1] {
        Stmt::Require { cond: Expr::Bin(BinOp::Eq, read, _, _), .. } => match read.as_ref() {
            Expr::Index(inner, _, _) => assert!(matches!(inner.as_ref(), Expr::Index(..))),
            other => panic!("unexpected {other:?}"),
        },
        other => panic!("unexpected {other:?}"),
    }
}

#[test]
fn non_literal_bool_map_write_is_internal() {
    let mut p = contract("mapping(address => bool) ok; uint256 x; function f(address k) public { ok[k] = x > 0; }");
    let d = lower_bool_maps(&mut p).unwrap_err();
    assert_eq!(d.code, codes::FE500_INTERNAL_MALFORMED_SOL);
}

#[test]
fn contract_without_bool_maps_is_untouched() {
    let mut p = contract("mapping(address => uint256) m; function f(address k) public { m[k] = 1; }");
    lower_bool_maps(&mut p).expect("no-op");
    assert!(matches!(&p.contract.functions[0].body[0], Stmt::IndexAssign { value, .. } if is_num(value, "1")));
}

#[test]
fn enum_members_become_indices_unless_shadowed() {
    let mut p = contract(
        "enum Color { Red, Green, Blue } uint256 x; function f() public { x = Color.Blue; } function g(uint256 Color) public { x = Color.Green; }",
    );
    lower_enum_members(&mut p).expect("lowers");
    assert!(matches!(&p.contract.functions[0].body[0], Stmt::Assign { value, .. } if is_num(value, "2")));
    assert!(matches!(&p.contract.functions[1].body[0], Stmt::Assign { value: Expr::Member(..), .. }));
}

#[test]
fn unknown_enum_member_is_refused_at_the_access() {
    let mut p = contract("enum Color { Red } uint256 x; function f() public { x = Color.Purple; }");
    let span = match &p.contract.functions[0].body[0] {
        Stmt::Assign { value, .. } => value.span(),
        _ => panic!("expected an assignment"),
    };
    let d = lower_enum_members(&mut p).unwrap_err();
    assert_eq!(d.code, codes::FE466_BAD_ENUM_MEMBER_SOL);
    assert_eq!(d.span, span);
}

#[test]
fn local_shadowing_an_enum_is_respected_after_its_declaration() {
    let mut p = contract(
        "enum Color { Red, Green } uint256 x; function f() public { x = Color.Green; uint256 Color = 3; x = Color.Red; }",
    );
    lower_enum_members(&mut p).expect("lowers");
    let body = &p.contract.functions[0].body;
    assert!(matches!(&body[0], Stmt::Assign { value, .. } if is_num(value, "1")));
    assert!(matches!(&body[2], Stmt::Assign { value: Expr::Member(..), .. }));
}

#[test]
fn expression_level_rewrites() {
    let var = |n: &str| Box::new(Expr::Var(n.to_string(), 0..0));
    let read = Expr::Index(var("ok"), var("k"), 4..9);
    let out = rewrite_bool_read(read, &vec!["ok".to_string()], &Vec::new());
    match out {
        Expr::Bin(BinOp::Eq, _, one, sp) => {
            assert!(is_num(&one, "1"));
            assert_eq!(sp, 4..9);
        }
        other => panic!("unexpected {other:?}"),
    }
    let plain = Expr::Index(var("m"), var("k"), 0..0);
    assert!(matches!(rewrite_bool_read(plain, &vec!["ok".to_string()], &Vec::new()), Expr::Index(..)));
    let p = contract("enum E { A, B } function f() public { }");
    let member = Expr::Member(var("E"), "B".to_string(), 1..2);
    assert!(is_num(&rewrite_enum_expr(member, &Vec::new(), &p.contract.enums).unwrap(), "1"));
}

use sigil_frontends::post_check::lower_uintn_arith;

fn call_name(e: &Expr) -> Option<(String, usize, String)> {
    match e {
        Expr::Call(c, args, _) => match (c.as_ref(), args.last()) {
            (Expr::Var(n, _), Some(Expr::Num(bound, _))) => Some((n.clone(), args.len(), bound.clone())),
            _ => None,
        },
        _ => None,
    }
}

#[test]
fn same_width_narrow_arithmetic_is_width_trapped() {
    let mut p = contract(
        "uint8 a; uint8 b; uint16 c; uint256 d; function f() public { a = a + b; c = c * c; d = d + d; a += b; }",
    );
    let h = lower_uintn_arith(&mut p);
    assert!(h.add);
    assert!(h.mul);
    let body = &p.contract.functions[0].body;
    match &body[0] {
        Stmt::Assign { value, .. } => assert_eq!(call_name(value), Some(("__fe_add_checked".to_string(), 3, "256".to_string()))),
        other => panic!("unexpected {other:?}"),
    }
    match &body[1] {
        Stmt::Assign { value, .. } => assert_eq!(call_name(value), Some(("__fe_mul_checked".to_string(), 3, "65536".to_string()))),
        other => panic!("unexpected {other:?}"),
    }
    assert!(matches!(&body[2], Stmt::Assign { value: Expr::Bin(BinOp::Add, ..), .. }));
    match &body[3] {
        Stmt::Assign { op, value, .. } => {
            assert!(matches!(op, sigil_frontends::parser::AssignOp::Eq));
            assert_eq!(call_name(value), Some(("__fe_add_checked".to_string(), 3, "256".to_string())));
        }
        other => panic!("unexpected {other:?}"),
    }
}

#[test]
fn wide_arithmetic_uses_no_helper() {
    let mut p = contract("uint256 d; function f(uint256 x) public { d = d + x; d -= 1; }");
    let h = lower_uintn_arith(&mut p);
    assert!(!h.add);
    assert!(!h.mul);
}
