use std::collections::HashSet;

use sigil_frontends::desugar::{pass_index, FunctionPass, FUNCTION_PASS_ORDER};

#[test]
fn function_pass_order_is_unique_and_respects_dependencies() {
    let unique: HashSet<_> = FUNCTION_PASS_ORDER.iter().copied().collect();
    assert_eq!(unique.len(), FUNCTION_PASS_ORDER.len());

    let dependencies = [
        (FunctionPass::Update, FunctionPass::SpendTransfer),
        (FunctionPass::SpendTransfer, FunctionPass::Transfer),
        (FunctionPass::Transfer, FunctionPass::TransferFrom),
        (FunctionPass::TransferFrom, FunctionPass::Split),
        (FunctionPass::Split, FunctionPass::Airdrop),
        (FunctionPass::Airdrop, FunctionPass::TotalCei),
        (FunctionPass::TotalCei, FunctionPass::ReserveMultiMap),
    ];
    for (before, after) in dependencies {
        let before_index = FUNCTION_PASS_ORDER.iter().position(|pass| *pass == before);
        let after_index = FUNCTION_PASS_ORDER.iter().position(|pass| *pass == after);
        assert!(before_index < after_index, "{before:?} must precede {after:?}");
    }
}

#[test]
fn pass_index_finds_each_pass() {
    assert_eq!(pass_index(FunctionPass::Update), 0);
    assert_eq!(pass_index(FunctionPass::Airdrop), 5);
    assert_eq!(pass_index(FunctionPass::ReserveMultiMap), 7);
}
