//! Editing operations on a sheet: the selection's address, clearing cells,
//! and jumping to the edges of the data in a row or column.
use crate::cellref::{cell_name, col_label, dec_label};
use crate::sheet::{entry_at, max_of, min_of, text_in, Spreadsheet};
use crate::text::push_char;
use vstd::prelude::*;

verus! {

/// Which end of a row's or column's data to find.
#[derive(Clone, Copy, Debug, PartialEq, Eq, Structural)]
pub enum Edge {
    First,
    Last,
}

/// A stored cell's position along its line: its column when lines are
/// rows, else its row.
pub open spec fn along(e: crate::sheet::CellEntry, by_row: bool) -> usize {
    if by_row {
        e.col
    } else {
        e.row
    }
}

/// The line a stored cell lies on: its row when lines are rows, else its column.
pub open spec fn line_of(e: crate::sheet::CellEntry, by_row: bool) -> usize {
    if by_row {
        e.row
    } else {
        e.col
    }
}

/// Whether the cell at position `k` of line `line` holds text.
pub open spec fn filled_at(s: &Spreadsheet, by_row: bool, line: usize, k: usize) -> bool {
    if by_row {
        s.cell(line, k).len() > 0
    } else {
        s.cell(k, line).len() > 0
    }
}

/// `r` is the position of the data's first or last cell along a line:
/// `None` when the line holds no text; otherwise a filled position with no
/// filled position before it (first) or after it (last).
pub open spec fn edge_ok(s: &Spreadsheet, by_row: bool, line: usize, edge: Edge, r: Option<usize>) -> bool {
    match r {
        None => forall|k: usize| !#[trigger] filled_at(s, by_row, line, k),
        Some(p) => filled_at(s, by_row, line, p) && forall|k: usize|
            #[trigger] filled_at(s, by_row, line, k) ==> if edge == Edge::First {
                p <= k
            } else {
                k <= p
            },
    }
}

/// The address of the selection (`A1:B3`), or of the cursor's cell when
/// nothing is selected.
pub open spec fn selection_ref_spec(s: &Spreadsheet) -> Seq<char> {
    match s.selection_anchor {
        Some((ar, ac)) => col_label(min_of(ac, s.cursor_col) as nat) + dec_label(
            min_of(ar, s.cursor_row) as nat + 1,
        ) + seq![':'] + col_label(max_of(ac, s.cursor_col) as nat) + dec_label(
            max_of(ar, s.cursor_row) as nat + 1,
        ),
        None => col_label(s.cursor_col as nat) + dec_label(s.cursor_row as nat + 1),
    }
}

/// Whether `(r, c)` lies in the rectangle from `a` to `b` (inclusive).
pub open spec fn in_rect(r: usize, c: usize, a: (usize, usize), b: (usize, usize)) -> bool {
    a.0 <= r <= b.0 && a.1 <= c <= b.1
}

/// The cursor's line: its row when moving along a row, else its column.
pub open spec fn line_pos(s: &Spreadsheet, by_row: bool) -> usize {
    if by_row {
        s.cursor_row
    } else {
        s.cursor_col
    }
}

/// The cursor's position along its line.
pub open spec fn cursor_pos(s: &Spreadsheet, by_row: bool) -> usize {
    if by_row {
        s.cursor_col
    } else {
        s.cursor_row
    }
}

/// `after` is `before` with the cursor moved along its row (`by_row`) or
/// column to the first or last filled cell, dropping the selection; or,
/// when that line holds no text, unchanged.
pub open spec fn jumped(before: &Spreadsheet, after: &Spreadsheet, by_row: bool, edge: Edge) -> bool {
    &&& after.cells == before.cells
    &&& after.num_rows == before.num_rows
    &&& after.num_cols == before.num_cols
    &&& line_pos(after, by_row) == line_pos(before, by_row)
    &&& {
        let line = line_pos(before, by_row);
        ||| (exists|p: usize|
            #[trigger] edge_ok(before, by_row, line, edge, Some(p)) && cursor_pos(after, by_row)
                == p) && (after.selection_anchor is None)
        ||| edge_ok(before, by_row, line, edge, None) && cursor_pos(after, by_row) == cursor_pos(
            before,
            by_row,
        ) && after.selection_anchor == before.selection_anchor
    }
}

impl Spreadsheet {
    /// The address of the selection, or of the cursor's cell.
    pub fn selection_ref(&self) -> (r: String)
        requires
            self.cursor_row < usize::MAX,
            self.selection_anchor matches Some((ar, _)) ==> ar < usize::MAX,
        ensures
            r@ == selection_ref_spec(self),
    {
        match self.get_selection_range() {
            Some(((r0, c0), (r1, c1))) => {
                let mut out = cell_name(r0, c0);
                push_char(&mut out, ':');
                let tail = cell_name(r1, c1);
                let v = crate::text::chars_of(tail.as_str());
                let ghost head = out@;
                let mut i: usize = 0;
                while i < v.len()
                    invariant
                        i <= v@.len(),
                        out@ == head + v@.subrange(0, i as int),
                    decreases v.len() - i,
                {
                    push_char(&mut out, v[i]);
                    assert(v@.subrange(0, i + 1) =~= v@.subrange(0, i as int).push(v@[i as int]));
                    i += 1;
                }
                assert(v@.subrange(0, v@.len() as int) =~= v@);
                out
            },
            None => cell_name(self.cursor_row, self.cursor_col),
        }
    }

    /// Clears the selected cells and drops the selection; without a
    /// selection, clears the cursor's cell.
    pub fn delete_cell(&mut self)
        requires
            old(self).wf(),
        ensures
            final(self).wf(),
            final(self).selection_anchor is None,
            final(self).cursor_row == old(self).cursor_row,
            final(self).cursor_col == old(self).cursor_col,
            final(self).num_rows == old(self).num_rows,
            final(self).num_cols == old(self).num_cols,
            forall|r: usize, c: usize|
                #[trigger] final(self).cell(r, c) == if match old(self).selection_anchor {
                    Some((ar, ac)) => in_rect(
                        r,
                        c,
                        (min_of(ar, old(self).cursor_row), min_of(ac, old(self).cursor_col)),
                        (max_of(ar, old(self).cursor_row), max_of(ac, old(self).cursor_col)),
                    ),
                    None => r == old(self).cursor_row && c == old(self).cursor_col,
                } {
                    Seq::<char>::empty()
                } else {
                    old(self).cell(r, c)
                },
    {
        let (a, b) = match self.get_selection_range() {
            Some(range) => range,
            None => ((self.cursor_row, self.cursor_col), (self.cursor_row, self.cursor_col)),
        };
        self.clear_selection();
        let ghost es = self.cells@;
        let ghost cr = self.cursor_row;
        let ghost cc = self.cursor_col;
        let ghost nr = self.num_rows;
        let ghost nc = self.num_cols;
        let mut row: u128 = a.0 as u128;
        while row <= b.0 as u128
            invariant
                a.0 <= row <= b.0 as u128 + 1,
                a.0 <= b.0,
                a.1 <= b.1,
                self.wf(),
                self.cursor_row == cr,
                self.cursor_col == cc,
                self.num_rows == nr,
                self.num_cols == nc,
                self.selection_anchor is None,
                forall|r: usize, c: usize|
                    #[trigger] self.cell(r, c) == if a.0 <= r && (r as u128) < row && a.1 <= c
                        <= b.1 {
                        Seq::<char>::empty()
                    } else {
                        text_in(es, r, c)
                    },
            decreases b.0 as u128 + 1 - row,
        {
            let mut col: u128 = a.1 as u128;
            while col <= b.1 as u128
                invariant
                    a.0 <= row <= b.0,
                    a.1 <= col <= b.1 as u128 + 1,
                    a.1 <= b.1,
                    self.wf(),
                    self.cursor_row == cr,
                    self.cursor_col == cc,
                    self.num_rows == nr,
                    self.num_cols == nc,
                    self.selection_anchor is None,
                    forall|r: usize, c: usize|
                        #[trigger] self.cell(r, c) == if (a.0 <= r && (r as u128) < row && a.1 <= c
                            <= b.1) || (r as u128 == row && a.1 <= c && (c as u128) < col) {
                            Seq::<char>::empty()
                        } else {
                            text_in(es, r, c)
                        },
                decreases b.1 as u128 + 1 - col,
            {
                self.set_cell(row as usize, col as usize, String::new());
                col += 1;
            }
            row += 1;
        }
    }

    /// The first or last filled position along row `line` (`by_row`) or
    /// column `line`.
    pub fn find_edge(&self, by_row: bool, line: usize, edge: Edge) -> (r: Option<usize>)
        requires
            self.wf(),
        ensures
            edge_ok(self, by_row, line, edge, r),
    {
        let mut best: Option<usize> = None;
        let mut i: usize = 0;
        while i < self.cells.len()
            invariant
                self.wf(),
                i <= self.cells@.len(),
                match best {
                    None => forall|j: int|
                        0 <= j < i ==> line_of(#[trigger] self.cells@[j], by_row) != line,
                    Some(p) => (exists|j: int|
                        0 <= j < i && line_of(self.cells@[j], by_row) == line && along(
                            self.cells@[j],
                            by_row,
                        ) == p) && forall|j: int|
                        0 <= j < i && line_of(#[trigger] self.cells@[j], by_row) == line ==> if edge
                            == Edge::First {
                            p <= along(self.cells@[j], by_row)
                        } else {
                            along(self.cells@[j], by_row) <= p
                        },
                },
            decreases self.cells@.len() - i,
        {
            let e = self.cells.at(i);
            let on_line = if by_row {
                e.row == line
            } else {
                e.col == line
            };
            if on_line {
                let k = if by_row {
                    e.col
                } else {
                    e.row
                };
                let better = match best {
                    None => true,
                    Some(p) => if edge == Edge::First {
                        k < p
                    } else {
                        k > p
                    },
                };
                if better {
                    best = Some(k);
                }
            }
            i += 1;
        }
        proof {
            let es = self.cells@;
            assert forall|k: usize| #[trigger] filled_at(self, by_row, line, k) implies exists|j: int|
                0 <= j < es.len() && line_of(es[j], by_row) == line && along(es[j], by_row) == k by {
                let (r, c) = if by_row {
                    (line, k)
                } else {
                    (k, line)
                };
                let j = choose|j: int| entry_at(es, j, r, c);
            }
            match best {
                Some(p) => {
                    let j = choose|j: int|
                        0 <= j < es.len() && line_of(es[j], by_row) == line && along(es[j], by_row)
                            == p;
                    crate::sheet::lemma_text_at_index(es, j);
                },
                None => {},
            }
        }
        best
    }

    /// The rightmost column holding data in `row`.
    pub fn find_last_col_in_row(&self, row: usize) -> (r: Option<usize>)
        requires
            self.wf(),
        ensures
            edge_ok(self, true, row, Edge::Last, r),
    {
        self.find_edge(true, row, Edge::Last)
    }

    /// The leftmost column holding data in `row`.
    pub fn find_first_col_in_row(&self, row: usize) -> (r: Option<usize>)
        requires
            self.wf(),
        ensures
            edge_ok(self, true, row, Edge::First, r),
    {
        self.find_edge(true, row, Edge::First)
    }

    /// The bottom row holding data in `col`.
    pub fn find_last_row_in_col(&self, col: usize) -> (r: Option<usize>)
        requires
            self.wf(),
        ensures
            edge_ok(self, false, col, Edge::Last, r),
    {
        self.find_edge(false, col, Edge::Last)
    }

    /// The top row holding data in `col`.
    pub fn find_first_row_in_col(&self, col: usize) -> (r: Option<usize>)
        requires
            self.wf(),
        ensures
            edge_ok(self, false, col, Edge::First, r),
    {
        self.find_edge(false, col, Edge::First)
    }

    /// Moves the cursor along its row (`by_row`) or column to the first or
    /// last filled cell, dropping the selection; nothing happens when that
    /// line is empty.
    pub fn jump_to_edge(&mut self, by_row: bool, edge: Edge)
        requires
            old(self).wf(),
        ensures
            jumped(old(self), final(self), by_row, edge),
    {
        let line = if by_row {
            self.cursor_row
        } else {
            self.cursor_col
        };
        match self.find_edge(by_row, line, edge) {
            Some(p) => {
                if by_row {
                    self.cursor_col = p;
                } else {
                    self.cursor_row = p;
                }
                self.selection_anchor = None;
                assert(edge_ok(old(self), by_row, line_pos(old(self), by_row), edge, Some(p)));
            },
            None => {},
        }
    }

    /// Jumps to the last data column of the cursor's row.
    pub fn jump_to_last_col(&mut self)
        requires
            old(self).wf(),
        ensures
            jumped(old(self), final(self), true, Edge::Last),
    {
        self.jump_to_edge(true, Edge::Last)
    }

    /// Jumps to the first data column of the cursor's row.
    pub fn jump_to_first_col(&mut self)
        requires
            old(self).wf(),
        ensures
            jumped(old(self), final(self), true, Edge::First),
    {
        self.jump_to_edge(true, Edge::First)
    }

    /// Jumps to the last data row of the cursor's column.
    pub fn jump_to_last_row(&mut self)
        requires
            old(self).wf(),
        ensures
            jumped(old(self), final(self), false, Edge::Last),
    {
        self.jump_to_edge(false, Edge::Last)
    }

    /// Jumps to the first data row of the cursor's column.
    pub fn jump_to_first_row(&mut self)
        requires
            old(self).wf(),
        ensures
            jumped(old(self), final(self), false, Edge::First),
    {
        self.jump_to_edge(false, Edge::First)
    }
}

} // verus!
