//! The loops that enclose the statement being lowered, innermost last, each
//! with the block that tests its condition and the block that follows it.

use vstd::prelude::*;
use crate::error::SemanticError;

verus! {

/// Where `continue` and `break` go in one loop.
#[derive(Debug, Clone, Copy, PartialEq, Eq, Structural)]
pub struct LoopTarget {
    pub cond: usize,
    pub exit: usize,
}

pub struct LoopStack {
    targets: Vec<LoopTarget>,
}

impl LoopStack {
    /// The enclosing loops, outermost first.
    pub closed spec fn view(&self) -> Seq<LoopTarget> {
        self.targets@
    }

    /// Whether every block that the loops name is one of the first `n`.
    pub open spec fn below(&self, n: int) -> bool {
        forall|i: int|
            0 <= i < self@.len() ==> (#[trigger] self@[i]).cond < n && self@[i].exit < n
    }

    /// No enclosing loop.
    pub fn new() -> (loops: LoopStack)
        ensures
            loops@ == Seq::<LoopTarget>::empty(),
    {
        LoopStack { targets: Vec::new() }
    }

    /// Enters a loop.
    pub fn push(&mut self, target: LoopTarget)
        ensures
            final(self)@ == old(self)@.push(target),
    {
        self.targets.push(target);
    }

    /// Leaves the innermost loop, if there is one.
    pub fn pop(&mut self)
        ensures
            final(self)@ == if old(self)@.len() > 0 {
                old(self)@.drop_last()
            } else {
                old(self)@
            },
    {
        self.targets.pop();
    }

    /// Where `break` goes: behind the innermost enclosing loop. Fails
    /// outside any loop.
    pub fn break_target(&self) -> (r: Result<usize, SemanticError>)
        ensures
            r == if self@.len() > 0 {
                Ok(self@.last().exit)
            } else {
                Err::<usize, SemanticError>(SemanticError::BreakOutsideLoop)
            },
    {
        let n = self.targets.len();
        if n > 0 {
            Ok(self.targets[n - 1].exit)
        } else {
            Err(SemanticError::BreakOutsideLoop)
        }
    }

    /// Where `continue` goes: to the condition of the innermost enclosing
    /// loop. Fails outside any loop.
    pub fn continue_target(&self) -> (r: Result<usize, SemanticError>)
        ensures
            r == if self@.len() > 0 {
                Ok(self@.last().cond)
            } else {
                Err::<usize, SemanticError>(SemanticError::ContinueOutsideLoop)
            },
    {
        let n = self.targets.len();
        if n > 0 {
            Ok(self.targets[n - 1].cond)
        } else {
            Err(SemanticError::ContinueOutsideLoop)
        }
    }
}

} // verus!
