//! Crosscut: the runtime, compiler and editor core of an interactive
//! programming language.

pub mod builds;
pub mod builtins;
pub mod compiler;
pub mod data_stack;
pub mod debugger;
pub mod display;
pub mod editor;
pub mod game_engine;
pub mod host;
pub mod intrinsics;
pub mod language;
pub mod memory;
pub mod nodes;
pub mod operands;
pub mod packages;
pub mod platform;
pub mod program;
pub mod text;
pub mod token;
