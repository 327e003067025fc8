//! The cells whose formulas are being evaluated. Reaching one of them again
//! means a formula refers to itself, directly or through other cells; the
//! evaluator then answers `#CYCLE!` instead of recursing without end.
use crate::text::string_from;
use vstd::prelude::*;

verus! {

/// The sentinel for a formula that refers back to itself.
pub open spec fn cycle_seq() -> Seq<char> {
    seq!['#', 'C', 'Y', 'C', 'L', 'E', '!']
}

/// `#CYCLE!`.
pub fn cycle_sentinel() -> (r: String)
    ensures
        r@ == cycle_seq(),
{
    string_from(vec!['#', 'C', 'Y', 'C', 'L', 'E', '!'])
}

/// The stack of cells being evaluated, innermost last.
pub struct EvalGuard {
    stack: Vec<(usize, usize)>,
}

impl EvalGuard {
    /// The cells being evaluated, outermost first.
    pub closed spec fn in_flight(&self) -> Seq<(usize, usize)> {
        self.stack@
    }

    /// No cell is being evaluated.
    pub fn new() -> (g: Self)
        ensures
            g.in_flight() == Seq::<(usize, usize)>::empty(),
    {
        EvalGuard { stack: Vec::new() }
    }

    /// Starts evaluating `(row, col)`: `false`, and nothing changes, when
    /// that cell is already being evaluated.
    pub fn enter(&mut self, row: usize, col: usize) -> (ok: bool)
        ensures
            ok == !old(self).in_flight().contains((row, col)),
            final(self).in_flight() == if ok {
                old(self).in_flight().push((row, col))
            } else {
                old(self).in_flight()
            },
    {
        let mut i: usize = 0;
        while i < self.stack.len()
            invariant
                i <= self.stack@.len(),
                forall|k: int| 0 <= k < i ==> self.stack@[k] != (row, col),
            decreases self.stack.len() - i,
        {
            if self.stack[i].0 == row && self.stack[i].1 == col {
                assert(self.stack@[i as int] == (row, col));
                return false;
            }
            i += 1;
        }
        self.stack.push((row, col));
        true
    }

    /// Ends evaluating the innermost cell.
    pub fn leave(&mut self)
        ensures
            final(self).in_flight() == if old(self).in_flight().len() > 0 {
                old(self).in_flight().drop_last()
            } else {
                old(self).in_flight()
            },
    {
        if self.stack.len() > 0 {
            self.stack.pop();
        }
    }

    /// How many cells are being evaluated.
    pub fn depth(&self) -> (n: usize)
        ensures
            n == self.in_flight().len(),
    {
        self.stack.len()
    }
}

} // verus!
