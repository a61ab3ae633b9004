//! Analyses of a small guarded-command language: nondeterministic
//! execution and trace validation, information-flow analysis against a
//! security lattice, and bounded random program generation.

pub mod ast;
pub mod calc;
pub mod config;
pub mod determinism;
pub mod fingerprint;
pub mod flows;
pub mod generation;
pub mod interpreter;
pub mod memory;
pub mod names;
pub mod pg;
pub mod render;
pub mod security;
pub mod semantics;
pub mod validator;
