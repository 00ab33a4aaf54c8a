//! Totality bounds shared by the frontend stages.

use vstd::prelude::*;

verus! {

/// Largest accepted source text, in bytes.
pub const MAX_INPUT_BYTES: usize = 1048576;

/// Most functions (and, per kind, other members) one contract may declare.
pub const MAX_FUNCTIONS: usize = 256;

/// Most modifier applications on one function.
pub const MAX_MODIFIERS_PER_FN: usize = 16;

/// The reserved prefix of every identifier the frontend synthesizes.
pub const SYNTH_PREFIX: &'static str = "__fe_";

} // verus!
