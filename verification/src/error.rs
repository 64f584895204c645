//! The error type shared by the tokenizer, the compiler and the interpreter.
use vstd::prelude::*;

use crate::stack_machine::StackMachineError;

verus! {

/// Errors the Forth interpreter can return.
#[derive(Debug)]
pub enum ForthError {
    UnknownError,
    UnknownToken(String),
    PopOfEmptyStack,
    InvalidSyntax(String),
    MissingSemicolonAfterColon,
    UnhandledTrap,
    RanOutOfGas,
}

/// Mathematical model of a `ForthError`: string payloads become character
/// sequences.
pub ghost enum ForthErrorView {
    UnknownError,
    UnknownToken(Seq<char>),
    PopOfEmptyStack,
    InvalidSyntax(Seq<char>),
    MissingSemicolonAfterColon,
    UnhandledTrap,
    RanOutOfGas,
}

impl View for ForthError {
    type V = ForthErrorView;

    open spec fn view(&self) -> ForthErrorView {
        match self {
            ForthError::UnknownError => ForthErrorView::UnknownError,
            ForthError::UnknownToken(s) => ForthErrorView::UnknownToken(s@),
            ForthError::PopOfEmptyStack => ForthErrorView::PopOfEmptyStack,
            ForthError::InvalidSyntax(s) => ForthErrorView::InvalidSyntax(s@),
            ForthError::MissingSemicolonAfterColon => ForthErrorView::MissingSemicolonAfterColon,
            ForthError::UnhandledTrap => ForthErrorView::UnhandledTrap,
            ForthError::RanOutOfGas => ForthErrorView::RanOutOfGas,
        }
    }
}

/// The model of the interpreter error a machine error is folded into.
pub open spec fn spec_from_stack_machine_error(err: StackMachineError) -> ForthErrorView {
    match err {
        StackMachineError::NumberStackUnderflow => ForthErrorView::PopOfEmptyStack,
        StackMachineError::UnkownError => ForthErrorView::UnknownError,
        StackMachineError::UnhandledTrap => ForthErrorView::UnhandledTrap,
        StackMachineError::RanOutOfGas => ForthErrorView::RanOutOfGas,
    }
}

/// Folds a machine error into the interpreter's error type.
impl From<StackMachineError> for ForthError {
    fn from(err: StackMachineError) -> (r: ForthError) {
        match err {
            StackMachineError::NumberStackUnderflow => ForthError::PopOfEmptyStack,
            StackMachineError::UnkownError => ForthError::UnknownError,
            StackMachineError::UnhandledTrap => ForthError::UnhandledTrap,
            StackMachineError::RanOutOfGas => ForthError::RanOutOfGas,
        }
    }
}

/// What `ForthError::from` returns for each machine error.
impl vstd::std_specs::convert::FromSpecImpl<StackMachineError> for ForthError {
    open spec fn obeys_from_spec() -> bool {
        true
    }

    open spec fn from_spec(err: StackMachineError) -> ForthError {
        match err {
            StackMachineError::NumberStackUnderflow => ForthError::PopOfEmptyStack,
            StackMachineError::UnkownError => ForthError::UnknownError,
            StackMachineError::UnhandledTrap => ForthError::UnhandledTrap,
            StackMachineError::RanOutOfGas => ForthError::RanOutOfGas,
        }
    }
}

} // verus!
