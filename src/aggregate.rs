//! `COUNTA`, the aggregate that reads cell texts rather than numbers.
use crate::cellref::{dec_label, decimal_text};
use crate::range::{aggregate_operands, aggregate_spec, operands_view, Operand, OperandModel};
use crate::sheet::Spreadsheet;
use crate::text::{error_sentinel, error_seq};
use vstd::prelude::*;

verus! {

/// Whether an operand counts for `COUNTA`: a cell that holds text, or a
/// single argument whose named cell holds text or, naming none, is itself
/// non-empty.
pub open spec fn operand_filled(s: &Spreadsheet, o: OperandModel) -> bool {
    match o {
        OperandModel::Cell(r, c) => s.cell(r, c).len() > 0,
        OperandModel::Value(Some((r, c)), _) => s.cell(r, c).len() > 0,
        OperandModel::Value(None, t) => t.len() > 0,
    }
}

/// The number of operands that count for `COUNTA`.
pub open spec fn count_filled(s: &Spreadsheet, ops: Seq<OperandModel>) -> nat
    decreases ops.len(),
{
    if ops.len() == 0 {
        0
    } else {
        count_filled(s, ops.drop_last()) + if operand_filled(s, ops.last()) {
            1nat
        } else {
            0nat
        }
    }
}

impl Spreadsheet {
    /// `COUNTA`: counts the non-empty cells of ranges and the non-empty
    /// single arguments; `#ERROR` when a range has a corner that is no address.
    pub fn evaluate_counta(&self, args: &str) -> (r: String)
        requires
            self.wf(),
        ensures
            r@ == match aggregate_spec(args@) {
                Some(ops) => dec_label(count_filled(self, ops)),
                None => error_seq(),
            },
    {
        match aggregate_operands(args) {
            None => error_sentinel(),
            Some(ops) => {
                let ghost ov = operands_view(ops@);
                let mut count: usize = 0;
                let mut i: usize = 0;
                while i < ops.len()
                    invariant
                        self.wf(),
                        i <= ops@.len(),
                        ov == operands_view(ops@),
                        count <= i,
                        count == count_filled(self, ov.subrange(0, i as int)),
                    decreases ops.len() - i,
                {
                    assert(ov.subrange(0, i + 1).drop_last() =~= ov.subrange(0, i as int));
                    assert(ov[i as int] == ops@[i as int]@);
                    let filled = match &ops[i] {
                        Operand::Cell(r, c) => self.is_filled(*r, *c),
                        Operand::Value(Some((r, c)), _) => self.is_filled(*r, *c),
                        Operand::Value(None, t) => !t.as_str().is_empty(),
                    };
                    if filled {
                        count += 1;
                    }
                    i += 1;
                }
                assert(ov.subrange(0, ops@.len() as int) =~= ov);
                decimal_text(count)
            },
        }
    }
}

} // verus!
