use sigil_frontends::flatten::flatten;
use sigil_frontends::lexer::lex;
use sigil_frontends::parser::{parse, Expr, Program, Stmt};
use sigil_frontends::preprocess::normalize_literals;
use sigil_frontends::codes;
use sigil_frontends::transfers::{
    as_counter_index, expr_eq, expr_mentions_var, recognize_airdrop, recognize_split, recognize_transfer_from, recognize_transfers,
    recognize_update,
};

fn program(src: &str) -> Program {
    let toks = lex(src).expect("lexes");
    flatten(parse(toks, src.len()).expect("parses")).expect("flattens")
}

fn body(members: &str) -> Vec<Stmt> {
    let mut p = program(&format!("pragma solidity ^0.8.0;\ncontract A {{ mapping(address => uint256) b; mapping(address => uint256) c; {members} }}"));
    std::mem::take(&mut p.contract.functions[0].body)
}

fn var_is(e: &Expr, n: &str) -> bool {
    matches!(e, Expr::Var(v, _) if v == n)
}

#[test]
fn compound_debit_credit_pair_folds_into_one_transfer() {
    let src = body("function f(address x, address y, uint256 v) public { b[x] -= v; b[y] += v; }");
    let span0 = match &src[0] {
        Stmt::IndexAssign { span, .. } => span.clone(),
        _ => panic!(),
    };
    let span1 = match &src[1] {
        Stmt::IndexAssign { span, .. } => span.clone(),
        _ => panic!(),
    };
    let out = recognize_transfers(src);
    assert_eq!(out.len(), 1);
    match &out[0] {
        Stmt::MapTransfer { map, from, to, amount, span } => {
            assert_eq!(map, "b");
            assert!(var_is(from, "x"));
            assert!(var_is(to, "y"));
            assert!(var_is(amount, "v"));
            assert_eq!(span.start, span0.start);
            assert_eq!(span.end, span1.end);
        }
        other => panic!("unexpected {other:?}"),
    }
}

#[test]
fn expanded_debit_credit_pair_folds() {
    let out = recognize_transfers(body("function f(address x, address y, uint256 v) public { b[x] = b[x] - v; b[y] = b[y] + v; }"));
    assert_eq!(out.len(), 1);
    assert!(matches!(&out[0], Stmt::MapTransfer { .. }));
}

#[test]
fn different_maps_or_amounts_do_not_fold() {
    let out = recognize_transfers(body("function f(address x, address y, uint256 v, uint256 w) public { b[x] -= v; c[y] += v; b[x] -= v; b[y] += w; }"));
    assert_eq!(out.len(), 4);
    assert!(out.iter().all(|s| matches!(s, Stmt::IndexAssign { .. })));
}

#[test]
fn map_read_operands_do_not_fold() {
    let out = recognize_transfers(body("function f(address x, address y) public { b[x] -= b[x]; b[y] += b[x]; }"));
    assert_eq!(out.len(), 2);
}

#[test]
fn local_alias_debit_folds_after_pure_checks() {
    let out = recognize_transfers(body(
        "function f(address x, address y, uint256 v) public { uint256 fb = b[x]; require(fb >= v); b[x] = fb - v; b[y] += v; }",
    ));
    assert_eq!(out.len(), 3);
    assert!(matches!(&out[0], Stmt::LocalVar { .. }));
    assert!(matches!(&out[1], Stmt::Require { .. }));
    assert!(matches!(&out[2], Stmt::MapTransfer { .. }));
}

#[test]
fn alias_is_invalidated_by_an_intervening_write() {
    let out = recognize_transfers(body(
        "uint256 t; function f(address x, address y, uint256 v) public { uint256 fb = b[x]; t = 1; b[x] = fb - v; b[y] += v; }",
    ));
    assert_eq!(out.len(), 4);
}

#[test]
fn pairs_inside_if_branches_fold() {
    let out = recognize_transfers(body(
        "function f(address x, address y, uint256 v) public { if (v > 0) { b[x] -= v; b[y] += v; } else { b[x] += v; } }",
    ));
    match &out[0] {
        Stmt::If { then_body, else_body, .. } => {
            assert_eq!(then_body.len(), 1);
            assert!(matches!(&then_body[0], Stmt::MapTransfer { .. }));
            assert_eq!(else_body.len(), 1);
        }
        other => panic!("unexpected {other:?}"),
    }
}

#[test]
fn expression_equality_ignores_spans() {
    let a = Expr::Var("x".to_string(), 0..1);
    let b = Expr::Var("x".to_string(), 5..6);
    let c = Expr::Var("y".to_string(), 0..1);
    assert!(expr_eq(&a, &b));
    assert!(!expr_eq(&a, &c));
}

fn two_key(members: &str) -> Vec<Stmt> {
    let mut p = program(&format!(
        "pragma solidity ^0.8.0;\ncontract A {{ mapping(address => uint256) b; mapping(address => mapping(address => uint256)) al; {members} }}"
    ));
    std::mem::take(&mut p.contract.functions[0].body)
}

#[test]
fn allowance_debit_then_balance_transfer_folds_into_transfer_from() {
    let src = two_key(
        "function f(address x, address s, address y, uint256 v) public { require(al[x][s] >= v); al[x][s] -= v; b[x] -= v; b[y] += v; }",
    );
    let out = recognize_transfer_from(recognize_transfers(src));
    assert_eq!(out.len(), 2);
    assert!(matches!(&out[0], Stmt::Require { .. }));
    match &out[1] {
        Stmt::Erc20TransferFrom { bal_map, alw_map, from, spender, to, amount, oz5_infinite, .. } => {
            assert_eq!(bal_map, "b");
            assert_eq!(alw_map, "al");
            assert!(var_is(from, "x"));
            assert!(var_is(spender, "s"));
            assert!(var_is(to, "y"));
            assert!(var_is(amount, "v"));
            assert!(!oz5_infinite);
        }
        other => panic!("unexpected {other:?}"),
    }
}

#[test]
fn expanded_allowance_debit_folds_but_a_different_owner_does_not() {
    let ok = recognize_transfer_from(recognize_transfers(two_key(
        "function f(address x, address s, address y, uint256 v) public { al[x][s] = al[x][s] - v; b[x] -= v; b[y] += v; }",
    )));
    assert_eq!(ok.len(), 1);
    let other = recognize_transfer_from(recognize_transfers(two_key(
        "function f(address x, address s, address y, uint256 v) public { al[y][s] -= v; b[x] -= v; b[y] += v; }",
    )));
    assert_eq!(other.len(), 2);
    assert!(matches!(&other[0], Stmt::IndexAssign2 { .. }));
    assert!(matches!(&other[1], Stmt::MapTransfer { .. }));
}

#[test]
fn debit_with_two_credits_folds_into_a_split() {
    let out = recognize_split(recognize_transfers(body(
        "function f(address x, address y, address z, uint256 v, uint256 n, uint256 fee) public { b[x] -= v; b[y] += n; b[z] += fee; }",
    )));
    assert_eq!(out.len(), 1);
    match &out[0] {
        Stmt::MapSplitTransfer { map, from, amount, to, net, fee_to, fee, .. } => {
            assert_eq!(map, "b");
            assert!(var_is(from, "x"));
            assert!(var_is(amount, "v"));
            assert!(var_is(to, "y"));
            assert!(var_is(net, "n"));
            assert!(var_is(fee_to, "z"));
            assert!(var_is(fee, "fee"));
        }
        other => panic!("unexpected {other:?}"),
    }
}

#[test]
fn a_cross_map_triple_is_not_a_split() {
    let out = recognize_split(recognize_transfers(body(
        "function f(address x, address y, address z, uint256 v, uint256 n, uint256 fee) public { b[x] -= v; b[y] += n; c[z] += fee; }",
    )));
    assert_eq!(out.len(), 3);
}

#[test]
fn update_dispatch_pair_folds_into_one_update() {
    let out = recognize_update(body(
        "uint256 ts; function f(address x, address y, uint256 v) public { if (x == 0) { ts += v; } else { b[x] -= v; } if (y == 0) { ts -= v; } else { b[y] += v; } }",
    ));
    assert_eq!(out.len(), 1);
    match &out[0] {
        Stmt::Erc20Update { map, ts_field, from, to, value, .. } => {
            assert_eq!(map, "b");
            assert_eq!(ts_field, "ts");
            assert!(var_is(from, "x"));
            assert!(var_is(to, "y"));
            assert!(var_is(value, "v"));
        }
        other => panic!("unexpected {other:?}"),
    }
}

#[test]
fn update_with_the_guarded_local_debit_folds_after_literal_normalization() {
    let mut p = program(
        "pragma solidity ^0.8.0;\ncontract A { mapping(address => uint256) b; uint256 ts; function f(address x, address y, uint256 v) public { if (x == address(0)) { ts = ts + v; } else { uint256 fb = b[x]; if (fb < v) { revert(); } b[x] = fb - v; } if (y == address(0)) { ts = ts - v; } else { b[y] = b[y] + v; } } }",
    );
    normalize_literals(&mut p.contract);
    let out = recognize_update(std::mem::take(&mut p.contract.functions[0].body));
    assert_eq!(out.len(), 1);
    assert!(matches!(&out[0], Stmt::Erc20Update { .. }));
}

#[test]
fn update_pair_with_mismatched_keys_is_left_alone() {
    let out = recognize_update(body(
        "uint256 ts; function f(address x, address y, uint256 v) public { if (x == 0) { ts += v; } else { b[y] -= v; } if (y == 0) { ts -= v; } else { b[y] += v; } }",
    ));
    assert_eq!(out.len(), 2);
}

#[test]
fn airdrop_loop_folds_into_a_batch_transfer() {
    let src = body(
        "function f(address o, address[] memory recipients, uint256[] memory amounts) public { for (uint256 i = 0; i < recipients.length; i++) { b[o] -= amounts[i]; b[recipients[i]] += amounts[i]; } }",
    );
    let out = recognize_airdrop(src).expect("folds");
    assert_eq!(out.len(), 1);
    match &out[0] {
        Stmt::BatchTransfer { map, from, recipients, amounts, .. } => {
            assert_eq!(map, "b");
            assert!(var_is(from, "o"));
            assert_eq!(recipients, "recipients");
            assert_eq!(amounts, "amounts");
        }
        other => panic!("unexpected {other:?}"),
    }
}

#[test]
fn airdrop_with_a_loop_variant_sender_is_refused() {
    let src = body(
        "function f(address[] memory recipients, uint256[] memory amounts) public { for (uint256 i = 0; i < recipients.length; i++) { b[recipients[i]] -= amounts[i]; b[recipients[i]] += amounts[i]; } }",
    );
    let d = recognize_airdrop(src).unwrap_err();
    assert_eq!(d.code, codes::FE492_AIRDROP_SHAPE_SOL);
}

#[test]
fn airdrop_operands_resolve_through_a_let_prelude() {
    let src = body(
        "function f(address o, address[] memory recipients, uint256[] memory amounts) public { for (uint256 i = 0; i < recipients.length; i++) { address fr = o; uint256 am = amounts[i]; b[fr] -= am; b[recipients[i]] += am; } }",
    );
    let out = recognize_airdrop(src).expect("folds");
    match &out[0] {
        Stmt::BatchTransfer { from, amounts, .. } => {
            assert!(var_is(from, "o"));
            assert_eq!(amounts, "amounts");
        }
        other => panic!("unexpected {other:?}"),
    }
}

#[test]
fn counter_index_and_mentions() {
    let e = Expr::Index(Box::new(Expr::Var("a".to_string(), 0..1)), Box::new(Expr::Var("i".to_string(), 2..3)), 0..4);
    assert_eq!(as_counter_index(&e, "i"), Some("a".to_string()));
    assert_eq!(as_counter_index(&e, "j"), None);
    assert!(expr_mentions_var(&e, "i"));
    assert!(!expr_mentions_var(&e, "k"));
}
