use sigil_frontends::cap_guards::{detect_cap_directive, recognize_cap_guards, stmt_span, CAP_DIRECTIVE};
use sigil_frontends::codes;
use sigil_frontends::flatten::{c3_merge, flatten, flatten_project};
use sigil_frontends::lexer::{lex, TokKind};
use sigil_frontends::parser::{parse, Contract, ContractKind, Expr, Program, Stmt};

fn parse_src(src: &str) -> sigil_frontends::parser::ParsedFile {
    let toks = lex(src).expect("lexes");
    parse(toks, src.len()).expect("parses")
}

fn program(src: &str) -> Program {
    flatten(parse_src(src)).expect("flattens")
}

fn contract_of(src: &str) -> Contract {
    program(src).contract
}

const TOKEN: &str = "pragma solidity ^0.8.0;
contract Token {
    mapping(address => uint256) balances;
    address owner;
    modifier onlyOwner() { require(msg.sender == owner); _; }
    function mint(address to, uint256 amt) public onlyOwner { balances[to] += amt; }
}";

#[test]
fn lex_ends_with_eof_and_keeps_spans() {
    let toks = lex("contract A { }").unwrap();
    assert_eq!(toks.len(), 5);
    assert_eq!(toks[0].kind, TokKind::Contract);
    assert_eq!(toks[0].span, 0..8);
    assert_eq!(toks[1].kind, TokKind::Ident("A".to_string()));
    assert_eq!(toks[1].span, 9..10);
    assert_eq!(toks[2].kind, TokKind::LBrace);
    assert_eq!(toks[3].kind, TokKind::RBrace);
    assert_eq!(toks[4].kind, TokKind::Eof);
}

#[test]
fn lex_skips_comments_and_keeps_pragma_body() {
    let toks = lex("// hi\npragma solidity ^0.8.0;\n/* block */ x").unwrap();
    assert_eq!(toks[0].kind, TokKind::Pragma("solidity ^0.8.0".to_string()));
    assert_eq!(toks[1].kind, TokKind::Ident("x".to_string()));
    assert_eq!(toks[2].kind, TokKind::Eof);
}

#[test]
fn lex_operators_longest_match() {
    let toks = lex("a **= b").err();
    // `**=` is not an operator of the subset: `**` then `=`.
    assert!(toks.is_none());
    let toks = lex("a ** b >= c == d").unwrap();
    let kinds: Vec<TokKind> = toks.into_iter().map(|t| t.kind).collect();
    assert_eq!(kinds[1], TokKind::Pow);
    assert_eq!(kinds[3], TokKind::GtEq);
    assert_eq!(kinds[5], TokKind::EqEq);
}

#[test]
fn parse_keeps_the_solidity_pragma_and_contract() {
    let f = parse_src(TOKEN);
    let (body, _) = f.pragma.as_ref().unwrap();
    assert_eq!(body, "solidity ^0.8.0");
    assert_eq!(f.contracts.len(), 1);
    let c = &f.contracts[0];
    assert_eq!(c.name, "Token");
    assert_eq!(c.kind, ContractKind::Concrete);
    assert_eq!(c.state.len(), 2);
    assert_eq!(c.modifiers.len(), 1);
    assert_eq!(c.functions.len(), 1);
    assert_eq!(c.functions[0].modifiers.len(), 1);
    assert_eq!(c.functions[0].modifiers[0].name, "onlyOwner");
}

#[test]
fn parse_folds_safemath_calls_into_checked_operators() {
    let src = "contract A { using SafeMath for uint256; uint256 x; function f(uint256 a, uint256 b) public { x = a.add(b); } }";
    let f = parse_src(src);
    match &f.contracts[0].functions[0].body[0] {
        Stmt::Assign { value, .. } => match value {
            Expr::Bin(op, _, _, _) => assert_eq!(*op, sigil_frontends::parser::BinOp::Add),
            other => panic!("unexpected {other:?}"),
        },
        other => panic!("unexpected {other:?}"),
    }
}

#[test]
fn parse_keeps_a_safemath_call_without_the_directive() {
    let src = "contract A { uint256 x; function f(uint256 a, uint256 b) public { x = a.add(b); } }";
    let f = parse_src(src);
    match &f.contracts[0].functions[0].body[0] {
        Stmt::Assign { value, .. } => assert!(matches!(value, Expr::Call(..))),
        other => panic!("unexpected {other:?}"),
    }
}

#[test]
fn parse_rejects_a_modifier_without_placeholder() {
    let src = "contract A { modifier m() { require(true); } }";
    let toks = lex(src).unwrap();
    let d = parse(toks, src.len()).unwrap_err();
    assert_eq!(d.code, codes::FE447_MODIFIER_PLACEHOLDER_SOL);
}

#[test]
fn parse_counts_a_placeholder_nested_in_unchecked() {
    let src = "contract A { uint256 c; modifier m() { if (c > 0) { unchecked { _; } } else { _; } } }";
    let toks = lex(src).unwrap();
    let d = parse(toks, src.len()).unwrap_err();
    assert_eq!(d.code, codes::FE447_MODIFIER_PLACEHOLDER_SOL);
}

#[test]
fn c3_merge_orders_a_diamond() {
    // D is B, C; B is A; C is A  (indices: A=0, B=1, C=2)
    let lists = vec![vec![1, 0], vec![2, 0], vec![1, 2]];
    let mut out = vec![3];
    c3_merge(lists, &mut out, "D", &(0..0)).unwrap();
    assert_eq!(out, vec![3, 1, 2, 0]);
}

#[test]
fn c3_merge_rejects_contradictory_orders() {
    let lists = vec![vec![0, 1], vec![1, 0]];
    let mut out = vec![2];
    let d = c3_merge(lists, &mut out, "X", &(3..4)).unwrap_err();
    assert_eq!(d.code, codes::FE471_NON_LINEARIZABLE_SOL);
    assert_eq!(d.span, 3..4);
    assert!(d.message.contains("`X`"));
    assert_eq!(out, vec![2]);
}

#[test]
fn flatten_merges_base_members_derived_wins() {
    let src = "pragma solidity ^0.8.0;
contract Base { uint256 a; function f() public { a = 1; } function g() public { a = 2; } }
contract Child is Base { uint256 b; function f() public { b = 3; } }";
    let p = program(src);
    assert_eq!(p.contract.name, "Child");
    let names: Vec<&str> = p.contract.state.iter().map(|s| s.name.as_str()).collect();
    assert!(names.contains(&"a") && names.contains(&"b"));
    let fnames: Vec<&str> = p.contract.functions.iter().map(|f| f.name.as_str()).collect();
    assert_eq!(fnames.iter().filter(|n| **n == "f").count(), 1);
    assert!(fnames.contains(&"g"));
    let f = p.contract.functions.iter().find(|f| f.name == "f").unwrap();
    match &f.body[0] {
        Stmt::Assign { target, .. } => assert_eq!(target, "b"),
        other => panic!("unexpected {other:?}"),
    }
}

#[test]
fn flatten_rejects_an_inheritance_cycle() {
    let src = "contract A is B { } contract B is A { }";
    let d = flatten(parse_src(src)).unwrap_err();
    assert_eq!(d.code, codes::FE469_INHERITANCE_CYCLE_SOL);
}

#[test]
fn flatten_rejects_two_unrelated_concrete_contracts() {
    let src = "contract A { uint256 x; } contract B { uint256 y; }";
    let d = flatten(parse_src(src)).unwrap_err();
    assert_eq!(d.code, codes::FE470_AMBIGUOUS_MAIN_SOL);
}

#[test]
fn flatten_rejects_state_shadowing() {
    let src = "contract A { uint256 x; } contract B is A { uint256 x; }";
    let d = flatten(parse_src(src)).unwrap_err();
    assert_eq!(d.code, codes::FE472_STATE_SHADOW_SOL);
}

#[test]
fn flatten_project_picks_the_named_entry() {
    let src = "contract A { uint256 x; } contract B { uint256 y; }";
    let p = flatten_project(parse_src(src), "B").unwrap();
    assert_eq!(p.contract.name, "B");
}

#[test]
fn cap_directive_is_an_exact_trimmed_line() {
    assert!(detect_cap_directive("pragma solidity ^0.8.0;\n   // sigil:cap-access-control  \ncontract A {}"));
    assert!(!detect_cap_directive("// sigil:cap-access-control-please\n"));
    assert!(!detect_cap_directive("x // sigil:cap-access-control\n"));
    assert!(detect_cap_directive(CAP_DIRECTIVE));
}

#[test]
fn cap_directive_tolerates_crlf_and_unicode_white_space() {
    assert!(detect_cap_directive("contract A {}\r\n\t// sigil:cap-access-control\r\n"));
    assert!(detect_cap_directive("\u{3000}// sigil:cap-access-control\u{2028}"));
    assert!(!detect_cap_directive("// sigil:cap-access-control\u{200B}\n"));
}

#[test]
fn cap_off_is_inert() {
    let c = contract_of(TOKEN);
    assert!(recognize_cap_guards(&c, false).unwrap().is_none());
}

#[test]
fn cap_recognizes_the_owner_gate() {
    let c = contract_of(TOKEN);
    let info = recognize_cap_guards(&c, true).unwrap().unwrap();
    assert_eq!(info.owner_field, "owner");
    assert_eq!(info.guarded_methods, vec!["mint".to_string()]);
}

#[test]
fn cap_rejects_a_near_miss_gate() {
    let src = "contract T { address owner; uint256 x;
        modifier onlyOwner() { require(msg.sender != owner); _; }
        function f() public onlyOwner { x = 1; } }";
    let c = contract_of(src);
    let d = recognize_cap_guards(&c, true).unwrap_err();
    assert_eq!(d.code, codes::FE455_CAP_NEAR_MISS_SOL);
    assert_eq!(d.span, c.modifiers[0].span);
}

#[test]
fn cap_rejects_two_owner_fields() {
    let src = "contract T { address owner; address admin; uint256 x;
        modifier onlyOwner() { require(msg.sender == owner); _; }
        modifier onlyAdmin() { require(admin == msg.sender); _; }
        function f() public onlyOwner { x = 1; } }";
    let c = contract_of(src);
    let d = recognize_cap_guards(&c, true).unwrap_err();
    assert_eq!(d.code, codes::FE456_MULTIPLE_OWNER_AUTHORITIES_SOL);
    assert_eq!(d.span, c.modifiers[1].span);
}

#[test]
fn cap_rejects_an_owner_used_as_data() {
    let src = "contract T { address owner; uint256 x;
        modifier onlyOwner() { require(msg.sender == owner); _; }
        function f() public onlyOwner { x = 1; }
        function g() public { owner = msg.sender; } }";
    let c = contract_of(src);
    let d = recognize_cap_guards(&c, true).unwrap_err();
    assert_eq!(d.code, codes::FE454_ADDRESS_USED_AS_DATA_SOL);
    assert_eq!(d.span, stmt_span(&c.functions[1].body[0]));
}

#[test]
fn cap_rejects_a_guarded_body_reading_the_sender() {
    let src = "contract T { address owner; mapping(address => uint256) b;
        modifier onlyOwner() { require(msg.sender == owner); _; }
        function f() public onlyOwner { b[msg.sender] = 1; } }";
    let c = contract_of(src);
    let d = recognize_cap_guards(&c, true).unwrap_err();
    assert_eq!(d.code, codes::FE454_ADDRESS_USED_AS_DATA_SOL);
    assert_eq!(d.span, c.functions[0].span);
}

#[test]
fn cap_without_applied_gate_is_inert() {
    let src = "contract T { address owner; uint256 x;
        modifier onlyOwner() { require(msg.sender == owner); _; }
        function f() public { x = 1; } }";
    let c = contract_of(src);
    assert!(recognize_cap_guards(&c, true).unwrap().is_none());
}

#[test]
fn cap_rejects_a_constructor() {
    let src = "contract T { address owner; uint256 x; constructor() { x = 1; }
        modifier onlyOwner() { require(msg.sender == owner); _; }
        function f() public onlyOwner { x = 1; } }";
    let c = contract_of(src);
    let d = recognize_cap_guards(&c, true).unwrap_err();
    assert_eq!(d.code, codes::FE465_CTOR_CAP_UNSUPPORTED_SOL);
    assert_eq!(d.span, c.span);
}

#[test]
fn cap_rejects_an_initialized_owner() {
    let src = "contract T { address owner = 0x1234; uint256 x;
        modifier onlyOwner() { require(msg.sender == owner); _; }
        function f() public onlyOwner { x = 1; } }";
    let c = contract_of(src);
    let d = recognize_cap_guards(&c, true).unwrap_err();
    assert_eq!(d.code, codes::FE454_ADDRESS_USED_AS_DATA_SOL);
    assert_eq!(d.span, c.state[0].span);
}

fn parse_code(src: &str) -> &'static str {
    let toks = lex(src).unwrap();
    parse(toks, src.len()).unwrap_err().code
}

#[test]
fn parse_rejects_operators_outside_the_subset() {
    assert_eq!(parse_code("contract C { uint256 x; function f() public { x = x & 1; } }"), codes::FE479_BITWISE_OP_SOL);
    assert_eq!(parse_code("contract C { uint256 x; function f() public { x = x << 2; } }"), codes::FE479_BITWISE_OP_SOL);
    assert_eq!(parse_code("contract C { uint256 x; function f() public { x = ~x; } }"), codes::FE479_BITWISE_OP_SOL);
    assert_eq!(parse_code("contract C { uint256 x; function f() public { x = x > 1 ? 2 : 3; } }"), codes::FE480_TERNARY_SOL);
    assert_eq!(parse_code("contract C { uint256 x; function f() public { x = x ** 2; } }"), codes::FE482_NON_CONSTANT_POW_SOL);
    assert_eq!(parse_code("contract C { uint256 x = 2 ** 256; }"), codes::FE430_BAD_NUMBER_SOL);
}

#[test]
fn parse_folds_a_right_associative_literal_power() {
    let pf = parse_src("contract C { uint256 x = 2 ** 3 ** 2; }");
    match &pf.contracts[0].state[0].init {
        Some(Expr::Num(text, span)) => {
            assert_eq!(text, "512");
            assert_eq!(span.clone(), 25..36);
        }
        other => panic!("unexpected {other:?}"),
    }
}

#[test]
fn parse_gives_the_pragma_contract_and_state_variable_with_spans() {
    let src = "pragma solidity ^0.8.0; contract C { uint256 x; }";
    assert_eq!(src.len(), 49);
    let pf = parse(lex(src).unwrap(), 49).unwrap();
    let (text, span) = pf.pragma.as_ref().unwrap();
    assert_eq!(text, "solidity ^0.8.0");
    assert_eq!(span.clone(), 0..23);
    assert!(pf.imports.is_empty());
    assert_eq!(pf.contracts.len(), 1);
    let c = &pf.contracts[0];
    assert_eq!(c.name, "C");
    assert!(matches!(c.kind, ContractKind::Concrete));
    assert!(c.bases.is_empty() && c.functions.is_empty() && c.modifiers.is_empty());
    assert!(c.structs.is_empty() && c.enums.is_empty() && c.constructor.is_none());
    assert_eq!(c.span.clone(), 24..49);
    assert_eq!(c.state.len(), 1);
    let v = &c.state[0];
    assert_eq!(v.name, "x");
    assert!(v.init.is_none());
    assert_eq!(v.span.clone(), 37..47);
    match &v.ty {
        sigil_frontends::parser::TypeRef::Scalar { name, span } => {
            assert_eq!(name, "uint256");
            assert_eq!(span.clone(), 37..44);
        }
        other => panic!("unexpected {other:?}"),
    }
}

#[test]
fn parse_keeps_the_last_contract_of_a_file() {
    let pf = parse_src("contract A { uint256 a; } contract B { uint256 b; }");
    assert_eq!(pf.contracts.len(), 2);
    assert_eq!(pf.contracts[1].name, "B");
}

#[test]
fn flatten_keeps_state_most_base_first_and_the_derived_override() {
    let p = program("contract A { uint256 a; function f() public {} } contract B is A { uint256 b; function f() public { a = 1; } }");
    let c = p.contract;
    assert_eq!(c.name, "B");
    assert!(matches!(c.kind, ContractKind::Concrete));
    assert!(c.bases.is_empty());
    let names: Vec<&str> = c.state.iter().map(|v| v.name.as_str()).collect();
    assert_eq!(names, vec!["a", "b"]);
    assert_eq!(c.functions.len(), 1);
    assert_eq!(c.functions[0].body.len(), 1);
    match &c.functions[0].body[0] {
        Stmt::Assign { target, value: Expr::Num(n, _), .. } => {
            assert_eq!(target, "a");
            assert_eq!(n, "1");
        }
        other => panic!("unexpected {other:?}"),
    }
}
