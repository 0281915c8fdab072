//! Semantic analysis for a small functional language: spans, types, unification,
//! inference, exhaustiveness checking and constant folding.

pub mod agree;
pub mod check;
pub mod const_fold;
pub mod context;
pub mod cover;
pub mod data;
pub mod def;
pub mod display;
pub mod elab;
pub mod error;
pub mod example;
pub mod exhaustive;
pub mod hir;
pub mod infer;
pub mod judge;
pub mod mir;
pub mod model;
pub mod ops;
pub mod reify;
pub mod span;
pub mod table;
pub mod text;
pub mod ty;
pub mod unify;
pub mod vars;
