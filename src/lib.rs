use vstd::prelude::*;

pub mod ast;
pub mod compiler;
pub mod diagnostic;
pub mod expression;
pub mod function;
pub mod program;
pub mod runtime;
pub mod state;
pub mod type_def;
pub mod value;

pub use program::{compile, compile_parsed, compile_with_external, compile_with_state, Program};
pub use runtime::VrlRuntime;

verus! {

} // verus!
