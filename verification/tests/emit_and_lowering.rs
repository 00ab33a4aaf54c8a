use sigil_frontends::codes;
use sigil_frontends::emit::{bin_op, emit_expr, emit_function, emit_stmts, map_type, resolve_name};
use sigil_frontends::flatten::flatten;
use sigil_frontends::lexer::lex;
use sigil_frontends::lowering::D;
use sigil_frontends::parser::{parse, BinOp, Expr, Program, Stmt, TypeRef, UnOp};

fn program(src: &str) -> Program {
    let toks = lex(src).expect("lexes");
    flatten(parse(toks, src.len()).expect("parses")).expect("flattens")
}

fn contract(members: &str) -> Program {
    program(&format!("pragma solidity ^0.8.0;\ncontract A {{ {members} }}"))
}

fn render(p: &Program, fidx: usize) -> Result<String, &'static str> {
    let c = &p.contract;
    let state: Vec<String> = c.state.iter().map(|s| s.name.clone()).collect();
    let mut locals: Vec<String> = c.functions[fidx].params.iter().map(|p| p.name.clone()).collect();
    let mut out = String::new();
    emit_stmts(&mut out, &c.functions[fidx].body, &state, &mut locals, 2, &c.structs, &c.enums, "self")
        .map_err(|d| d.code)?;
    Ok(out)
}

#[test]
fn and_is_lowered_to_a_guarded_temporary() {
    let mut p = contract("uint256 x; function f(uint256 a, uint256 b) public { require(a > 0 && b > 0); x = 1; }");
    let body = std::mem::take(&mut p.contract.functions[0].body);
    let mut d = D::new();
    let out = d.block(body).expect("lowers");
    assert_eq!(d.counter, 1);
    assert_eq!(out.len(), 4);
    match &out[0] {
        Stmt::LocalVar { name, ty: TypeRef::Scalar { name: t, .. }, .. } => {
            assert_eq!(name, "__fe_0");
            assert_eq!(t, "bool");
        }
        other => panic!("unexpected {other:?}"),
    }
    match &out[1] {
        Stmt::If { cond: Expr::Var(v, _), then_body, else_body, .. } => {
            assert_eq!(v, "__fe_0");
            assert_eq!(then_body.len(), 1);
            assert!(else_body.is_empty());
            assert!(matches!(&then_body[0], Stmt::Assign { target, .. } if target == "__fe_0"));
        }
        other => panic!("unexpected {other:?}"),
    }
    assert!(matches!(&out[2], Stmt::Require { cond: Expr::Var(v, _), .. } if v == "__fe_0"));
    assert!(matches!(&out[3], Stmt::Assign { .. }));
}

#[test]
fn or_guards_the_right_operand_in_the_else_branch_and_numbers_in_order() {
    let mut p = contract(
        "uint256 x; function f(uint256 a, uint256 b) public { if (a > 0 || b > 0) { require(a == 1 && b == 2); } }",
    );
    let body = std::mem::take(&mut p.contract.functions[0].body);
    let mut d = D::new();
    let out = d.block(body).expect("lowers");
    assert_eq!(d.counter, 2);
    assert_eq!(out.len(), 3);
    match &out[1] {
        Stmt::If { then_body, else_body, .. } => {
            assert!(then_body.is_empty());
            assert_eq!(else_body.len(), 1);
        }
        other => panic!("unexpected {other:?}"),
    }
    match &out[2] {
        Stmt::If { cond: Expr::Var(v, _), then_body, .. } => {
            assert_eq!(v, "__fe_0");
            assert_eq!(then_body.len(), 3);
            assert!(matches!(&then_body[0], Stmt::LocalVar { name, .. } if name == "__fe_1"));
        }
        other => panic!("unexpected {other:?}"),
    }
}

#[test]
fn statements_without_logic_are_unchanged() {
    let mut p = contract("uint256 x; function f(uint256 a) public { x = a + 1; }");
    let body = std::mem::take(&mut p.contract.functions[0].body);
    let mut d = D::new();
    let out = d.block(body).expect("lowers");
    assert_eq!(d.counter, 0);
    assert_eq!(out.len(), 1);
}

#[test]
fn emits_assignments_guards_and_map_updates() {
    let p = contract(
        "uint256 x; mapping(address => uint256) m; function f(uint256 a, address k) public { require(a > 0); x = a + 1; m[k] += a; x -= 2; }",
    );
    assert_eq!(
        render(&p, 0).unwrap(),
        "        trap_if(!((a > 0)));\n        self.x = (a + 1);\n        self.m.insert(k, self.m.get_or(k, 0) + (a));\n        self.x = self.x - (2);\n"
    );
}

#[test]
fn emits_literal_false_require_as_trap_and_if_blocks() {
    let p = contract("uint256 x; function f(uint256 a) public { if (a == 1) { uint256 x = 2; x = 3; } else { revert(); } x = 4; require(false); }");
    assert_eq!(
        render(&p, 0).unwrap(),
        "        if (a == 1) {\n            let mut x: u256 = 2;\n            x = 3;\n        } else {\n            trap_if(true);\n        }\n        self.x = 4;\n        trap();\n"
    );
}

#[test]
fn emits_a_method_header() {
    let p = contract("uint256 x; function f(uint256 a) public { x = a; } function g() private view returns (uint256) { return x; }");
    let state = vec!["x".to_string()];
    let mut out = String::new();
    emit_function(&mut out, &p.contract, &p.contract.functions[0], &state, None).unwrap();
    emit_function(&mut out, &p.contract, &p.contract.functions[1], &state, None).unwrap();
    assert_eq!(
        out,
        "    pub fn f(self: A @Mut, a: u256) {\n        self.x = a;\n    }\n    fn g(self: A) -> u256 {\n        return self.x;\n    }\n"
    );
}

#[test]
fn refuses_a_method_with_uninlined_modifiers() {
    let p = contract("uint256 x; modifier m() { _; } function f() public m { x = 1; }");
    let mut out = String::new();
    let d = emit_function(&mut out, &p.contract, &p.contract.functions[0], &vec!["x".to_string()], None).unwrap_err();
    assert_eq!(d.code, codes::FE500_INTERNAL_MALFORMED_SOL);
    assert_eq!(d.span, p.contract.functions[0].span);
}

#[test]
fn refuses_unary_minus_and_deep_indexing() {
    let neg = Expr::Unary(UnOp::Neg, Box::new(Expr::Num("1".to_string(), 0..1)), 3..5);
    let d = emit_expr(&neg, &Vec::new(), &Vec::new(), &Vec::new(), "self").unwrap_err();
    assert_eq!(d.code, codes::FE401_UNSUPPORTED_SOL);
    assert_eq!(d.span, 3..5);
    let var = |n: &str| Box::new(Expr::Var(n.to_string(), 0..0));
    let deep = Expr::Index(
        Box::new(Expr::Index(Box::new(Expr::Index(var("m"), var("a"), 0..0)), var("b"), 0..0)),
        var("c"),
        7..9,
    );
    let d = emit_expr(&deep, &Vec::new(), &Vec::new(), &Vec::new(), "self").unwrap_err();
    assert_eq!(d.code, codes::FE442_BAD_INDEX_SOL);
    assert_eq!(d.span, 7..9);
}

#[test]
fn emits_two_key_reads_helpers_and_lengths() {
    let var = |n: &str| Box::new(Expr::Var(n.to_string(), 0..0));
    let two = Expr::Index(Box::new(Expr::Index(var("m"), var("a"), 0..0)), var("b"), 0..0);
    let state = vec!["m".to_string()];
    assert_eq!(emit_expr(&two, &state, &Vec::new(), &Vec::new(), "self").unwrap(), "self.m.get_or(a, b, 0)");
    let call = Expr::Call(var("__fe_add_checked"), vec![Expr::Var("a".to_string(), 0..0), Expr::Num("2".to_string(), 0..0)], 0..0);
    assert_eq!(emit_expr(&call, &state, &Vec::new(), &Vec::new(), "self").unwrap(), "__fe_add_checked(a, 2)");
    let len = Expr::Member(var("xs"), "length".to_string(), 0..0);
    assert_eq!(emit_expr(&len, &state, &Vec::new(), &Vec::new(), "self").unwrap(), "xs.len()");
    let not = Expr::Unary(UnOp::Not, var("b"), 0..0);
    assert_eq!(emit_expr(&not, &state, &Vec::new(), &Vec::new(), "self").unwrap(), "!(b)");
}

#[test]
fn names_types_and_operators() {
    let state = vec!["owner".to_string()];
    assert_eq!(resolve_name("owner", &state, &Vec::new(), "self"), "self.owner");
    assert_eq!(resolve_name("owner", &state, &vec!["owner".to_string()], "self"), "owner");
    assert_eq!(resolve_name("owner", &state, &Vec::new(), "__fe_c"), "__fe_c.owner");
    assert_eq!(bin_op(BinOp::Le), "<=");
    let scalar = |n: &str| TypeRef::Scalar { name: n.to_string(), span: 0..0 };
    assert_eq!(map_type(&scalar("uint8"), &Vec::new()), "u256");
    assert_eq!(map_type(&scalar("address"), &Vec::new()), "u256");
    assert_eq!(map_type(&scalar("bool"), &Vec::new()), "bool");
    assert_eq!(map_type(&scalar("Point"), &Vec::new()), "Point");
    let map2 = TypeRef::Mapping {
        key: Box::new(scalar("address")),
        value: Box::new(TypeRef::Mapping { key: Box::new(scalar("address")), value: Box::new(scalar("uint256")), span: 0..0 }),
        span: 0..0,
    };
    assert_eq!(map_type(&map2, &Vec::new()), "BoundedMap2_u256_u256_u256_64");
}
