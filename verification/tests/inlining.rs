use sigil_frontends::codes;
use sigil_frontends::flatten::flatten;
use sigil_frontends::inlining::{
    block_depth, collect_local_names, expr_depth, has_placeholder, inline_modifiers, placeholder_has_suffix,
    prepare_modifier_body, rename_name, rename_stmt, splice, strip_tail_pure_returns,
};
use sigil_frontends::lexer::lex;
use sigil_frontends::parser::{parse, Expr, Program, Stmt};

fn program(src: &str) -> Program {
    let toks = lex(src).expect("lexes");
    flatten(parse(toks, src.len()).expect("parses")).expect("flattens")
}

fn contract(members: &str) -> Program {
    program(&format!("pragma solidity ^0.8.0;\ncontract A {{ {members} }}"))
}

fn local_name(s: &Stmt) -> Option<&str> {
    match s {
        Stmt::LocalVar { name, .. } => Some(name.as_str()),
        _ => None,
    }
}

#[test]
fn parameterless_modifier_is_spliced_around_the_body() {
    let mut p = contract(
        "address owner; uint256 x; modifier onlyOwner() { require(msg.sender == owner); _; } \
         function f() public onlyOwner { x = 1; }",
    );
    inline_modifiers(&mut p.contract).expect("inlines");
    let f = &p.contract.functions[0];
    assert!(f.modifiers.is_empty());
    assert_eq!(f.body.len(), 2);
    assert!(matches!(f.body[0], Stmt::Require { .. }));
    assert!(matches!(f.body[1], Stmt::Assign { .. }));
}

#[test]
fn parameterized_modifier_binds_its_argument_once() {
    let mut p = contract(
        "uint256 x; modifier atLeast(uint256 n) { require(x >= n); _; } \
         function f() public atLeast(5) { x = 1; }",
    );
    inline_modifiers(&mut p.contract).expect("inlines");
    let f = &p.contract.functions[0];
    assert_eq!(f.body.len(), 3);
    assert_eq!(local_name(&f.body[0]), Some("__fe_m0_n"));
    match &f.body[1] {
        Stmt::Require { cond: Expr::Bin(_, _, r, _), .. } => {
            assert!(matches!(r.as_ref(), Expr::Var(v, _) if v == "__fe_m0_n"));
        }
        other => panic!("unexpected {other:?}"),
    }
}

#[test]
fn stacked_modifiers_nest_leftmost_outermost_and_number_right_to_left() {
    let mut p = contract(
        "uint256 x; modifier a(uint256 n) { require(x >= n); _; } modifier b(uint256 m) { require(x <= m); _; } \
         function f() public a(1) b(2) { x = 1; } function g() public b(3) { x = 2; }",
    );
    inline_modifiers(&mut p.contract).expect("inlines");
    let f = &p.contract.functions[0];
    assert_eq!(f.body.len(), 5);
    assert_eq!(local_name(&f.body[0]), Some("__fe_m1_n"));
    assert_eq!(local_name(&f.body[2]), Some("__fe_m0_m"));
    assert!(matches!(f.body[4], Stmt::Assign { .. }));
    let g = &p.contract.functions[1];
    assert_eq!(local_name(&g.body[0]), Some("__fe_m2_m"));
}

#[test]
fn duplicate_modifier_is_refused_at_the_second_declaration() {
    let mut p = contract(
        "uint256 x; modifier m() { _; } modifier m() { require(x > 0); _; } function f() public m { x = 1; }",
    );
    let second = p.contract.modifiers[1].span.clone();
    let d = inline_modifiers(&mut p.contract).unwrap_err();
    assert_eq!(d.code, codes::FE450_DUPLICATE_MODIFIER_SOL);
    assert_eq!(d.span, second);
}

#[test]
fn undefined_modifier_is_refused() {
    let mut p = contract("uint256 x; function f() public nope { x = 1; }");
    let span = p.contract.functions[0].span.clone();
    let d = inline_modifiers(&mut p.contract).unwrap_err();
    assert_eq!(d.code, codes::FE451_UNDEFINED_MODIFIER_SOL);
    assert_eq!(d.span, span);
}

#[test]
fn modifier_with_a_suffix_is_refused() {
    let mut p = contract("uint256 x; modifier m() { _; x = 2; } function f() public m { x = 1; }");
    let d = inline_modifiers(&mut p.contract).unwrap_err();
    assert_eq!(d.code, codes::FE453_MODIFIER_SUFFIX_SOL);
}

#[test]
fn wrong_argument_count_is_refused() {
    let mut p = contract(
        "uint256 x; modifier atLeast(uint256 n) { require(x >= n); _; } function f() public atLeast { x = 1; }",
    );
    let d = inline_modifiers(&mut p.contract).unwrap_err();
    assert_eq!(d.code, codes::FE448_PARAMETERIZED_MODIFIER_SOL);
}

#[test]
fn modifier_local_colliding_with_a_parameter_is_refused() {
    let mut p = contract(
        "uint256 x; modifier m() { uint256 t = 1; require(t > 0); _; } function f(uint256 t) public m { x = t; }",
    );
    let d = inline_modifiers(&mut p.contract).unwrap_err();
    assert_eq!(d.code, codes::FE449_MODIFIER_LOCAL_COLLISION_SOL);
}

#[test]
fn modifier_local_colliding_with_a_state_variable_is_refused() {
    let mut p = contract("uint256 x; modifier m() { uint256 x = 1; _; } function f() public m { }");
    let d = inline_modifiers(&mut p.contract).unwrap_err();
    assert_eq!(d.code, codes::FE449_MODIFIER_LOCAL_COLLISION_SOL);
}

#[test]
fn shadowed_state_reference_is_refused() {
    let mut p = contract(
        "address owner; modifier onlyOwner() { require(msg.sender == owner); _; } \
         function f(address owner) public onlyOwner { }",
    );
    let d = inline_modifiers(&mut p.contract).unwrap_err();
    assert_eq!(d.code, codes::FE488_STATE_CAPTURE_SOL);
}

#[test]
fn merged_body_deeper_than_the_limit_is_refused() {
    let mut p = contract(
        "uint256 x; modifier m() { if (true) { if (true) { _; } } } function f() public m { x = 1; }",
    );
    let mut body = std::mem::take(&mut p.contract.functions[0].body);
    for _ in 0..10 {
        body = vec![Stmt::If { cond: Expr::Bool(true, 0..0), then_body: body, else_body: Vec::new(), span: 0..0 }];
    }
    p.contract.functions[0].body = body;
    let span = p.contract.functions[0].span.clone();
    let d = inline_modifiers(&mut p.contract).unwrap_err();
    assert_eq!(d.code, codes::FE402_TOO_LARGE_SOL);
    assert_eq!(d.span, span);
    assert!(p.contract.functions[0].modifiers.is_empty());
    assert_eq!(block_depth(&p.contract.functions[0].body), 13);
}

#[test]
fn functions_without_modifiers_are_untouched() {
    let mut p = contract("uint256 x; function f() public { x = 1; }");
    inline_modifiers(&mut p.contract).expect("inlines");
    assert_eq!(p.contract.functions[0].body.len(), 1);
}

#[test]
fn splice_without_placeholder_is_internal() {
    let d = splice(Vec::new(), Vec::new()).unwrap_err();
    assert_eq!(d.code, codes::FE500_INTERNAL_MALFORMED_SOL);
    assert_eq!(d.span, 0..0);
}

#[test]
fn placeholder_and_suffix_queries() {
    let p = contract("uint256 x; modifier m() { if (x > 0) { _; } else { x = 1; } } modifier n() { if (x > 0) { _; } x = 2; }");
    let m = &p.contract.modifiers[0];
    let n = &p.contract.modifiers[1];
    assert!(has_placeholder(&m.body));
    assert!(!placeholder_has_suffix(&m.body));
    assert!(placeholder_has_suffix(&n.body));
    let mut names: Vec<String> = Vec::new();
    collect_local_names(&m.body, &mut names);
    assert!(names.is_empty());
}

#[test]
fn depths_and_renaming() {
    let p = contract("uint256 x; function f(uint256 a) public { if (a > 1) { x = a + 2 * a; } }");
    let f = &p.contract.functions[0];
    // if(1 + max(cond 2, body: assign value depth 3)) = 4
    assert_eq!(block_depth(&f.body), 4);
    match &f.body[0] {
        Stmt::If { cond, .. } => assert_eq!(expr_depth(cond), 2),
        _ => panic!("expected an if"),
    }
    let names = vec!["a".to_string()];
    assert_eq!(rename_name(&"a".to_string(), &names, "__fe_m3_"), "__fe_m3_a");
    assert_eq!(rename_name(&"b".to_string(), &names, "__fe_m3_"), "b");
}

#[test]
fn prepare_copies_a_parameterless_body_and_keeps_the_counter() {
    let p = contract("uint256 x; modifier m() { require(x > 0); _; } modifier k(uint256 q) { require(x > q); _; }");
    let mut counter: usize = 7;
    let body = prepare_modifier_body(&p.contract.modifiers[0], &Vec::new(), &mut counter);
    assert_eq!(counter, 7);
    assert_eq!(body.len(), 2);
    let args = vec![Expr::Num("4".to_string(), 0..1)];
    let body = prepare_modifier_body(&p.contract.modifiers[1], &args, &mut counter);
    assert_eq!(counter, 8);
    assert_eq!(local_name(&body[0]), Some("__fe_m7_q"));
}

fn body_of(members: &str) -> Vec<Stmt> {
    contract(members).contract.functions.remove(0).body
}

#[test]
fn tail_pure_returns_are_dropped() {
    let body = body_of("uint256 x; function f() public returns (uint256) { x = 1; return 2; }");
    let out = strip_tail_pure_returns(body).expect("strippable");
    assert_eq!(out.len(), 1);
    assert!(matches!(&out[0], Stmt::Assign { target, .. } if target == "x"));
    let body = body_of("uint256 x; function f() public { x = 1; }");
    let out = strip_tail_pure_returns(body).expect("nothing to strip");
    assert_eq!(out.len(), 1);
    assert!(matches!(out[0], Stmt::Assign { .. }));
}

#[test]
fn tail_if_returns_are_dropped_in_each_branch() {
    let body = body_of(
        "uint256 x; function f() public returns (uint256) { if (x > 0) { x = 2; return x; } else { return 0; } }",
    );
    let out = strip_tail_pure_returns(body).expect("strippable");
    assert_eq!(out.len(), 1);
    match &out[0] {
        Stmt::If { then_body, else_body, .. } => {
            assert_eq!(then_body.len(), 1);
            assert!(matches!(then_body[0], Stmt::Assign { .. }));
            assert!(else_body.is_empty());
        }
        other => panic!("unexpected {other:?}"),
    }
}

#[test]
fn early_or_effectful_returns_are_kept() {
    let body = body_of("uint256 x; function f() public returns (uint256) { if (x > 0) { return 1; } x = 2; return 3; }");
    assert!(strip_tail_pure_returns(body).is_none());
    let body = body_of("uint256 x; function f() public returns (uint256) { return x + 1; }");
    assert!(strip_tail_pure_returns(body).is_none());
}

#[test]
fn renaming_reaches_transfer_statements() {
    let s = Stmt::BatchTransfer {
        map: "bal".to_string(),
        from: Expr::Var("a".to_string(), 1..2),
        recipients: "r".to_string(),
        amounts: "amt".to_string(),
        span: 0..9,
    };
    let names = vec!["a".to_string(), "r".to_string(), "bal".to_string()];
    match rename_stmt(&s, &names, "p_") {
        Stmt::BatchTransfer { map, from, recipients, amounts, span } => {
            assert_eq!(map, "p_bal");
            assert!(matches!(from, Expr::Var(n, _) if n == "p_a"));
            assert_eq!(recipients, "p_r");
            assert_eq!(amounts, "amt");
            assert_eq!(span, 0..9);
        }
        other => panic!("unexpected {other:?}"),
    }
}
