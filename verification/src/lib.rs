//! A small stack-machine virtual machine together with an incremental
//! compiler for a Forth-like language.
//!
//! The machine executes a flat, growable image of opcodes over an operand
//! stack and a call/return stack, under an optional execution budget, and
//! can be extended by host-registered trap handlers.  The compiler turns
//! source text into tokens and tokens into opcodes, supporting named word
//! definitions and structured `IF`/`ELSE`/`THEN` conditionals.
use vstd::prelude::*;

pub mod error;
pub mod forth_compiler;
pub mod stack_machine;
pub mod state;

pub use error::ForthError;
pub use forth_compiler::Token;

verus! {

/// Outcome of offering a token or event to a chain of handlers: either some
/// handler claimed it, or none did and the next party may try.
pub enum Handled {
    Handled,
    NotHandled,
}

} // verus!
