//! The compiler: from source text to a syntax tree, and the analyses and
//! bookkeeping that later compiler stages rely on.

pub mod bindings;
pub mod branch_dependencies;
pub mod bytecode;
pub mod call_graph;
pub mod changes;
pub mod dependencies;
pub mod divergence;
pub mod fragments;
pub mod function_calls;
pub mod graph;
pub mod hash;
pub mod instructions;
pub mod host;
pub mod intrinsics;
pub mod location;
pub mod parse;
pub mod recursion;
pub mod scopes;
pub mod source_map;
pub mod syntax;
pub mod table;
pub mod tokens;
