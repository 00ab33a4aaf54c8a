//! Verified Solidity-subset frontend: lexer, parser, inheritance flattening,
//! checker helpers and desugaring passes.

pub mod diag;
pub mod text;
pub mod codes;
pub mod limits;
pub mod lexer;
pub mod decimal;
pub mod parser;
pub mod flatten;
pub mod desugar;
pub mod cap_guards;
pub mod check;
pub mod inlining;
pub mod lowering;
pub mod emit;
pub mod struct_maps;
pub mod post_check;
pub mod preprocess;
pub mod pruning;
pub mod transfers;
pub mod overloads;
pub mod map_names;
pub mod emit_program;
pub mod spellings;
pub mod literals;
pub mod type_names;
