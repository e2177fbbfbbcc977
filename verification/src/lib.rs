//! Lowering of a small functional expression language into a control-flow
//! graph in static-single-assignment form.
//!
//! The crate has two passes. [`resolve_names::resolve_names`] stamps every
//! binder and every reference of an expression tree with a number that tells
//! shadowed bindings of one name apart. [`generate_code::generate_code`]
//! lowers an expression tree into a module of functions made of basic
//! blocks, with phi instructions where control flow joins.
//!
//! What each pass computes is defined by a function on mathematical trees
//! ([`resolve_names::resolved`], [`generate_code::module_of`]); the passes
//! are proved to compute exactly that. The other modules prove what follows
//! for every tree: how shadowing is resolved ([`resolve_names_proofs`]), how
//! values are named and conditionals joined ([`generate_code_proofs`]), that
//! every generated function is a well-formed control-flow graph
//! ([`control_flow`]) whose blocks can all be reached ([`reachability`]) and
//! whose numbered values are defined once ([`single_assignment`]), and that
//! both passes go by the names alone ([`same_names`]).

pub mod code;
pub mod control_flow;
pub mod error;
pub mod expression;
pub mod generate_code;
pub mod generate_code_proofs;
pub mod reachability;
pub mod resolve_names;
pub mod resolve_names_proofs;
pub mod same_names;
pub mod scope;
pub mod single_assignment;

pub use code::{
    Block, Constant, Function, Instruction, InstructionBase, Label, Module, Name, Terminator, Type,
    Value,
};
pub use error::CompileError;
pub use expression::{Expression, Identifier};
