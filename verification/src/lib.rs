//! A compiler core that lowers a small state-machine description
//! language into textual finite-state-machine IR.
//!
//! The input is an AST ([`ast::ASTNode`]) supplied by an external
//! parser. [`cfg::convert`] turns it into a [`cfg::StateMachine`]:
//! each state's body becomes a binary-branching control-flow graph,
//! and a depth-first search collects one transition per path to each
//! terminal, carrying the guards (negated on else-edges) and actions
//! along the path. [`codegen::generate`] renders the machine as IR
//! text. Both directions are specified against mathematical views and
//! verified; every error case is pinned down in the contracts.

pub mod ast;
pub mod cfg;
pub mod codegen;
pub mod error;
pub mod utils;
