//! The order of the per-function lowering passes, and the dependencies it respects.

use vstd::prelude::*;

verus! {

/// One per-function lowering pass of the desugaring.
#[derive(Debug, Clone, Copy, PartialEq, Eq, Hash)]
pub enum FunctionPass {
    Update,
    SpendTransfer,
    Transfer,
    TransferFrom,
    Split,
    Airdrop,
    TotalCei,
    ReserveMultiMap,
}

/// The order in which the per-function passes run; the first six recognize transfer
/// shapes, the last two rewrite storage.
pub const FUNCTION_PASS_ORDER: [FunctionPass; 8] = [
    FunctionPass::Update,
    FunctionPass::SpendTransfer,
    FunctionPass::Transfer,
    FunctionPass::TransferFrom,
    FunctionPass::Split,
    FunctionPass::Airdrop,
    FunctionPass::TotalCei,
    FunctionPass::ReserveMultiMap,
];

/// `a` must run before `b`: each pass consumes the shapes its predecessor leaves.
pub open spec fn pass_dependency(a: FunctionPass, b: FunctionPass) -> bool {
    ||| a == FunctionPass::Update && b == FunctionPass::SpendTransfer
    ||| a == FunctionPass::SpendTransfer && b == FunctionPass::Transfer
    ||| a == FunctionPass::Transfer && b == FunctionPass::TransferFrom
    ||| a == FunctionPass::TransferFrom && b == FunctionPass::Split
    ||| a == FunctionPass::Split && b == FunctionPass::Airdrop
    ||| a == FunctionPass::Airdrop && b == FunctionPass::TotalCei
    ||| a == FunctionPass::TotalCei && b == FunctionPass::ReserveMultiMap
}

/// The position of a pass in `FUNCTION_PASS_ORDER`.
pub fn pass_index(p: FunctionPass) -> (r: usize)
    ensures
        r < 8,
        FUNCTION_PASS_ORDER@[r as int] == p,
        forall|k: int| 0 <= k < 8 && FUNCTION_PASS_ORDER@[k] == p ==> k == r,
{
    let order = FUNCTION_PASS_ORDER;
    let mut k: usize = 0;
    while k < 8
        invariant
            k <= 8,
            order@ == FUNCTION_PASS_ORDER@,
            forall|j: int| 0 <= j < k ==> order@[j] != p,
        decreases 8 - k,
    {
        let same = match (order[k], p) {
            (FunctionPass::Update, FunctionPass::Update) => true,
            (FunctionPass::SpendTransfer, FunctionPass::SpendTransfer) => true,
            (FunctionPass::Transfer, FunctionPass::Transfer) => true,
            (FunctionPass::TransferFrom, FunctionPass::TransferFrom) => true,
            (FunctionPass::Split, FunctionPass::Split) => true,
            (FunctionPass::Airdrop, FunctionPass::Airdrop) => true,
            (FunctionPass::TotalCei, FunctionPass::TotalCei) => true,
            (FunctionPass::ReserveMultiMap, FunctionPass::ReserveMultiMap) => true,
            _ => false,
        };
        if same {
            proof {
                lemma_pass_order_unique();
            }
            return k;
        }
        k = k + 1;
    }
    proof {
        lemma_pass_order_complete(p);
    }
    0
}

/// Every pass occurs in the order, and no pass occurs twice.
pub proof fn lemma_pass_order_unique()
    ensures
        FUNCTION_PASS_ORDER@.len() == 8,
        forall|i: int, j: int| 0 <= i < j < 8 ==> FUNCTION_PASS_ORDER@[i] != FUNCTION_PASS_ORDER@[j],
{
}

/// Every pass occurs in the order.
pub proof fn lemma_pass_order_complete(p: FunctionPass)
    ensures
        exists|k: int| 0 <= k < 8 && FUNCTION_PASS_ORDER@[k] == p,
{
    match p {
        FunctionPass::Update => assert(FUNCTION_PASS_ORDER@[0] == p),
        FunctionPass::SpendTransfer => assert(FUNCTION_PASS_ORDER@[1] == p),
        FunctionPass::Transfer => assert(FUNCTION_PASS_ORDER@[2] == p),
        FunctionPass::TransferFrom => assert(FUNCTION_PASS_ORDER@[3] == p),
        FunctionPass::Split => assert(FUNCTION_PASS_ORDER@[4] == p),
        FunctionPass::Airdrop => assert(FUNCTION_PASS_ORDER@[5] == p),
        FunctionPass::TotalCei => assert(FUNCTION_PASS_ORDER@[6] == p),
        FunctionPass::ReserveMultiMap => assert(FUNCTION_PASS_ORDER@[7] == p),
    }
}

/// The pass order is a permutation of the passes in which every pass runs after each
/// pass it depends on.
pub proof fn lemma_pass_order_respects_dependencies(a: FunctionPass, b: FunctionPass)
    requires
        pass_dependency(a, b),
    ensures
        exists|i: int, j: int| 0 <= i < j < 8 && FUNCTION_PASS_ORDER@[i] == a && FUNCTION_PASS_ORDER@[j] == b,
{
    if a == FunctionPass::Update {
        assert(FUNCTION_PASS_ORDER@[0] == a && FUNCTION_PASS_ORDER@[1] == b);
    } else if a == FunctionPass::SpendTransfer {
        assert(FUNCTION_PASS_ORDER@[1] == a && FUNCTION_PASS_ORDER@[2] == b);
    } else if a == FunctionPass::Transfer {
        assert(FUNCTION_PASS_ORDER@[2] == a && FUNCTION_PASS_ORDER@[3] == b);
    } else if a == FunctionPass::TransferFrom {
        assert(FUNCTION_PASS_ORDER@[3] == a && FUNCTION_PASS_ORDER@[4] == b);
    } else if a == FunctionPass::Split {
        assert(FUNCTION_PASS_ORDER@[4] == a && FUNCTION_PASS_ORDER@[5] == b);
    } else if a == FunctionPass::Airdrop {
        assert(FUNCTION_PASS_ORDER@[5] == a && FUNCTION_PASS_ORDER@[6] == b);
    } else {
        assert(FUNCTION_PASS_ORDER@[6] == a && FUNCTION_PASS_ORDER@[7] == b);
    }
}

} // verus!
