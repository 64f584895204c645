//! The interpreter state a host primes and inspects: the operand stack, with
//! the tokens set aside for later handling.
use vstd::prelude::*;

use crate::error::ForthError;
use crate::error::ForthErrorView;
use crate::forth_compiler::Token;

verus! {

/// The operand stack as a host manipulates it between runs.
#[derive(Debug)]
pub struct NumberStack {
    pub number_stack: Vec<i64>,
}

impl NumberStack {
    /// An empty operand stack.
    pub fn new() -> (r: NumberStack)
        ensures
            r.number_stack@ == Seq::<i64>::empty(),
    {
        NumberStack { number_stack: Vec::new() }
    }

    /// Pushes a number onto the top of the stack.
    pub fn push_stack(&mut self, n: i64)
        ensures
            final(self).number_stack@ == old(self).number_stack@.push(n),
    {
        self.number_stack.push(n);
    }

    /// Pops the top of the stack, or reports that it was empty.
    pub fn pop_stack(&mut self) -> (r: Result<i64, ForthError>)
        ensures
            old(self).number_stack@.len() == 0 ==> final(self).number_stack@ == old(
                self,
            ).number_stack@ && (r matches Err(e) && e@ == ForthErrorView::PopOfEmptyStack),
            old(self).number_stack@.len() > 0 ==> final(self).number_stack@ == old(
                self,
            ).number_stack@.drop_last() && r == Ok::<i64, ForthError>(
                old(self).number_stack@.last(),
            ),
    {
        match self.number_stack.pop() {
            Some(x) => Ok(x),
            None => Err(ForthError::PopOfEmptyStack),
        }
    }

    /// The whole stack, for bulk inspection or modification.
    pub fn access_stack(&mut self) -> (r: &mut Vec<i64>)
        ensures
            *r == old(self).number_stack,
            final(self).number_stack == *final(r),
    {
        &mut self.number_stack
    }
}

/// Interpreter state handed to host-side token handlers: the operand stack
/// and a stack of tokens put aside.
pub struct State {
    pub number_stack: NumberStack,
    pub token_stack: Vec<Token>,
}

impl State {
    /// A fresh state: empty operand stack, no tokens put aside.
    pub fn new() -> (r: State)
        ensures
            r.number_stack.number_stack@ == Seq::<i64>::empty(),
            r.token_stack@ == Seq::<Token>::empty(),
    {
        State { number_stack: NumberStack::new(), token_stack: Vec::new() }
    }
}

} // verus!
