//! Deleting and inserting whole rows and columns. Cells inside the grid's
//! extent shift to close or open the gap; the extent shrinks or grows by one.
use crate::sheet::{text_in, CellEntry, Spreadsheet};
use vstd::prelude::*;

verus! {

/// The text at `(r, c)` after row `row` was deleted from a grid of `nr` rows
/// and `nc` columns whose cells were `es`.
pub open spec fn after_row_delete(es: Seq<CellEntry>, row: usize, nr: usize, nc: usize, r: usize, c: usize) -> Seq<char> {
    if c >= nc || r < row {
        text_in(es, r, c)
    } else if row >= nr {
        if r == row {
            Seq::empty()
        } else {
            text_in(es, r, c)
        }
    } else if r + 1 < nr {
        text_in(es, (r + 1) as usize, c)
    } else if r + 1 == nr {
        Seq::empty()
    } else {
        text_in(es, r, c)
    }
}

/// The text at `(r, c)` after column `col` was deleted.
pub open spec fn after_col_delete(es: Seq<CellEntry>, col: usize, nr: usize, nc: usize, r: usize, c: usize) -> Seq<char> {
    if r >= nr || c < col {
        text_in(es, r, c)
    } else if col >= nc {
        if c == col {
            Seq::empty()
        } else {
            text_in(es, r, c)
        }
    } else if c + 1 < nc {
        text_in(es, r, (c + 1) as usize)
    } else if c + 1 == nc {
        Seq::empty()
    } else {
        text_in(es, r, c)
    }
}

/// The extent after removing one line from `n`: one less, but at least one.
pub open spec fn shrunk(n: usize, at: usize) -> usize {
    if at < n {
        if n - 1 == 0 {
            1
        } else {
            (n - 1) as usize
        }
    } else {
        n
    }
}

/// The text at `(x, y)` once rows `low` to `nr - 1` moved down by one
/// (a row moves only where its cell holds text).
pub open spec fn rows_moved_down(es: Seq<CellEntry>, nr: usize, nc: usize, low: usize, x: usize, y: usize) -> Seq<char> {
    if y >= nc || x < low || x > nr || (x == nr && low == nr) {
        text_in(es, x, y)
    } else if x == low {
        Seq::empty()
    } else if x < nr {
        text_in(es, (x - 1) as usize, y)
    } else if text_in(es, (nr - 1) as usize, y).len() > 0 {
        text_in(es, (nr - 1) as usize, y)
    } else {
        text_in(es, x, y)
    }
}

/// The text at `(x, y)` once columns `low` to `nc - 1` moved right by one.
pub open spec fn cols_moved_right(es: Seq<CellEntry>, nr: usize, nc: usize, low: usize, x: usize, y: usize) -> Seq<char> {
    if x >= nr || y < low || y > nc || (y == nc && low == nc) {
        text_in(es, x, y)
    } else if y == low {
        Seq::empty()
    } else if y < nc {
        text_in(es, x, (y - 1) as usize)
    } else if text_in(es, x, (nc - 1) as usize).len() > 0 {
        text_in(es, x, (nc - 1) as usize)
    } else {
        text_in(es, x, y)
    }
}

/// The text at `(r, c)` after a row was inserted below row `row` of a grid
/// of `nr` rows and `nc` columns.
pub open spec fn after_row_insert(es: Seq<CellEntry>, row: usize, nr: usize, nc: usize, r: usize, c: usize) -> Seq<char> {
    if row + 1 >= nr {
        text_in(es, r, c)
    } else {
        rows_moved_down(es, nr, nc, (row + 1) as usize, r, c)
    }
}

/// The text at `(r, c)` after a column was inserted right of column `col`.
pub open spec fn after_col_insert(es: Seq<CellEntry>, col: usize, nr: usize, nc: usize, r: usize, c: usize) -> Seq<char> {
    if col + 1 >= nc {
        text_in(es, r, c)
    } else {
        cols_moved_right(es, nr, nc, (col + 1) as usize, r, c)
    }
}

impl Spreadsheet {
    /// Moves the text of `(from_r, from_c)` to `(to_r, to_c)`, leaving the
    /// source empty.
    fn move_text(&mut self, from_r: usize, from_c: usize, to_r: usize, to_c: usize)
        requires
            old(self).wf(),
            !(from_r == to_r && from_c == to_c),
        ensures
            final(self).wf(),
            final(self).cell(to_r, to_c) == old(self).cell(from_r, from_c),
            final(self).cell(from_r, from_c) == Seq::<char>::empty(),
            forall|r: usize, c: usize|
                !(r == from_r && c == from_c) && !(r == to_r && c == to_c)
                    ==> #[trigger] final(self).cell(r, c) == old(self).cell(r, c),
            final(self).num_rows == old(self).num_rows,
            final(self).num_cols == old(self).num_cols,
            final(self).cursor_row == old(self).cursor_row,
            final(self).cursor_col == old(self).cursor_col,
            final(self).selection_anchor == old(self).selection_anchor,
    {
        let v = self.get_cell(from_r, from_c).to_string();
        self.set_cell(from_r, from_c, String::new());
        self.set_cell(to_r, to_c, v);
    }

    /// Deletes row `row`: its cells inside the extent are removed, the rows
    /// below it (inside the extent) move up by one, and the extent loses a
    /// row (keeping at least one) when `row` was inside it.
    pub fn delete_row(&mut self, row: usize)
        requires
            old(self).wf(),
        ensures
            final(self).wf(),
            forall|r: usize, c: usize|
                #[trigger] final(self).cell(r, c) == after_row_delete(
                    old(self).cells@,
                    row,
                    old(self).num_rows,
                    old(self).num_cols,
                    r,
                    c,
                ),
            final(self).num_rows == shrunk(old(self).num_rows, row),
            final(self).num_cols == old(self).num_cols,
            final(self).cursor_row == old(self).cursor_row,
            final(self).cursor_col == old(self).cursor_col,
            final(self).selection_anchor == old(self).selection_anchor,
    {
        let ghost es = self.cells@;
        let nr = self.num_rows;
        let nc = self.num_cols;
        let ghost cr = self.cursor_row;
        let ghost cc = self.cursor_col;
        let ghost anchor = self.selection_anchor;
        if row < nr {
            self.num_rows = if nr - 1 == 0 {
                1
            } else {
                nr - 1
            };
        }
        let ghost new_nr = self.num_rows;
        let mut col: usize = 0;
        while col < nc
            invariant
                col <= nc,
                new_nr == self.num_rows,
                nc == self.num_cols,
                self.wf(),
                self.cursor_row == cr,
                self.cursor_col == cc,
                self.selection_anchor == anchor,
                forall|r: usize, c: usize|
                    #[trigger] self.cell(r, c) == if r == row && c < col {
                        Seq::<char>::empty()
                    } else {
                        text_in(es, r, c)
                    },
            decreases nc - col,
        {
            self.set_cell(row, col, String::new());
            col += 1;
        }
        if row < nr {
            let mut r: usize = row + 1;
            while r < nr
                invariant
                    row < r <= nr,
                    new_nr == self.num_rows,
                    nc == self.num_cols,
                    self.wf(),
                    self.cursor_row == cr,
                    self.cursor_col == cc,
                    self.selection_anchor == anchor,
                    forall|x: usize, c: usize|
                        #[trigger] self.cell(x, c) == if c >= nc || x < row || x >= r {
                            text_in(es, x, c)
                        } else if x + 1 < r {
                            text_in(es, (x + 1) as usize, c)
                        } else {
                            Seq::<char>::empty()
                        },
                decreases nr - r,
            {
                let mut c: usize = 0;
                while c < nc
                    invariant
                        row < r < nr,
                        c <= nc,
                        new_nr == self.num_rows,
                        nc == self.num_cols,
                        self.wf(),
                        self.cursor_row == cr,
                        self.cursor_col == cc,
                        self.selection_anchor == anchor,
                        forall|x: usize, y: usize|
                            #[trigger] self.cell(x, y) == if y >= nc || x < row || x > r {
                                text_in(es, x, y)
                            } else if x + 1 < r {
                                text_in(es, (x + 1) as usize, y)
                            } else if x + 1 == r {
                                if y < c {
                                    text_in(es, r, y)
                                } else {
                                    Seq::<char>::empty()
                                }
                            } else if y < c {
                                Seq::<char>::empty()
                            } else {
                                text_in(es, x, y)
                            },
                    decreases nc - c,
                {
                    self.move_text(r, c, r - 1, c);
                    c += 1;
                }
                r += 1;
            }
        }
        assert forall|r: usize, c: usize|
            #[trigger] self.cell(r, c) == after_row_delete(es, row, nr, nc, r, c) by {}
    }

    /// Deletes column `col`: its cells inside the extent are removed, the
    /// columns right of it (inside the extent) move left by one, and the
    /// extent loses a column (keeping at least one) when `col` was inside it.
    pub fn delete_column(&mut self, col: usize)
        requires
            old(self).wf(),
        ensures
            final(self).wf(),
            forall|r: usize, c: usize|
                #[trigger] final(self).cell(r, c) == after_col_delete(
                    old(self).cells@,
                    col,
                    old(self).num_rows,
                    old(self).num_cols,
                    r,
                    c,
                ),
            final(self).num_cols == shrunk(old(self).num_cols, col),
            final(self).num_rows == old(self).num_rows,
            final(self).cursor_row == old(self).cursor_row,
            final(self).cursor_col == old(self).cursor_col,
            final(self).selection_anchor == old(self).selection_anchor,
    {
        let ghost es = self.cells@;
        let nr = self.num_rows;
        let nc = self.num_cols;
        let ghost cr = self.cursor_row;
        let ghost cc = self.cursor_col;
        let ghost anchor = self.selection_anchor;
        if col < nc {
            self.num_cols = if nc - 1 == 0 {
                1
            } else {
                nc - 1
            };
        }
        let ghost new_nc = self.num_cols;
        let mut row: usize = 0;
        while row < nr
            invariant
                row <= nr,
                nr == self.num_rows,
                new_nc == self.num_cols,
                self.wf(),
                self.cursor_row == cr,
                self.cursor_col == cc,
                self.selection_anchor == anchor,
                forall|r: usize, c: usize|
                    #[trigger] self.cell(r, c) == if c == col && r < row {
                        Seq::<char>::empty()
                    } else {
                        text_in(es, r, c)
                    },
            decreases nr - row,
        {
            self.set_cell(row, col, String::new());
            row += 1;
        }
        if col < nc {
            let mut c: usize = col + 1;
            while c < nc
                invariant
                    col < c <= nc,
                    nr == self.num_rows,
                    new_nc == self.num_cols,
                    self.wf(),
                    self.cursor_row == cr,
                    self.cursor_col == cc,
                    self.selection_anchor == anchor,
                    forall|x: usize, y: usize|
                        #[trigger] self.cell(x, y) == if x >= nr || y < col || y >= c {
                            text_in(es, x, y)
                        } else if y + 1 < c {
                            text_in(es, x, (y + 1) as usize)
                        } else {
                            Seq::<char>::empty()
                        },
                decreases nc - c,
            {
                let mut r: usize = 0;
                while r < nr
                    invariant
                        col < c < nc,
                        r <= nr,
                        nr == self.num_rows,
                        new_nc == self.num_cols,
                        self.wf(),
                        self.cursor_row == cr,
                        self.cursor_col == cc,
                        self.selection_anchor == anchor,
                        forall|x: usize, y: usize|
                            #[trigger] self.cell(x, y) == if x >= nr || y < col || y > c {
                                text_in(es, x, y)
                            } else if y + 1 < c {
                                text_in(es, x, (y + 1) as usize)
                            } else if y + 1 == c {
                                if x < r {
                                    text_in(es, x, c)
                                } else {
                                    Seq::<char>::empty()
                                }
                            } else if x < r {
                                Seq::<char>::empty()
                            } else {
                                text_in(es, x, y)
                            },
                    decreases nr - r,
                {
                    self.move_text(r, c, r, c - 1);
                    r += 1;
                }
                c += 1;
            }
        }
        assert forall|r: usize, c: usize|
            #[trigger] self.cell(r, c) == after_col_delete(es, col, nr, nc, r, c) by {}
    }

    /// Inserts an empty row below row `row`: the extent gains a row and the
    /// rows below `row` inside the old extent move down by one.
    pub fn insert_row_after(&mut self, row: usize)
        requires
            old(self).wf(),
            old(self).num_rows < usize::MAX,
        ensures
            final(self).wf(),
            forall|r: usize, c: usize|
                #[trigger] final(self).cell(r, c) == after_row_insert(
                    old(self).cells@,
                    row,
                    old(self).num_rows,
                    old(self).num_cols,
                    r,
                    c,
                ),
            final(self).num_rows == old(self).num_rows + 1,
            final(self).num_cols == old(self).num_cols,
            final(self).cursor_row == old(self).cursor_row,
            final(self).cursor_col == old(self).cursor_col,
            final(self).selection_anchor == old(self).selection_anchor,
    {
        let ghost es = self.cells@;
        let nr = self.num_rows;
        let nc = self.num_cols;
        let ghost cr = self.cursor_row;
        let ghost cc = self.cursor_col;
        let ghost anchor = self.selection_anchor;
        self.num_rows = nr + 1;
        if row < nr && row + 1 < nr {
            let mut r: usize = nr;
            while r > row + 1
                invariant
                    row + 1 <= r <= nr,
                    nr < usize::MAX,
                    self.num_rows == nr + 1,
                    nc == self.num_cols,
                    self.wf(),
                    self.cursor_row == cr,
                    self.cursor_col == cc,
                    self.selection_anchor == anchor,
                    forall|x: usize, y: usize|
                        #[trigger] self.cell(x, y) == rows_moved_down(es, nr, nc, r, x, y),
                decreases r,
            {
                r -= 1;
                let mut c: usize = 0;
                while c < nc
                    invariant
                        row + 1 <= r < nr,
                        nr < usize::MAX,
                        c <= nc,
                        self.num_rows == nr + 1,
                        nc == self.num_cols,
                        self.wf(),
                        self.cursor_row == cr,
                        self.cursor_col == cc,
                        self.selection_anchor == anchor,
                        forall|x: usize, y: usize|
                            #[trigger] self.cell(x, y) == if y < c {
                                rows_moved_down(es, nr, nc, r, x, y)
                            } else {
                                rows_moved_down(es, nr, nc, (r + 1) as usize, x, y)
                            },
                    decreases nc - c,
                {
                    if self.is_filled(r, c) {
                        self.move_text(r, c, r + 1, c);
                    }
                    c += 1;
                }
            }
        }
        assert forall|r: usize, c: usize|
            #[trigger] self.cell(r, c) == after_row_insert(es, row, nr, nc, r, c) by {}
    }

    /// Inserts an empty column right of column `col`: the extent gains a
    /// column and the columns right of `col` inside the old extent move
    /// right by one.
    pub fn insert_column_after(&mut self, col: usize)
        requires
            old(self).wf(),
            old(self).num_cols < usize::MAX,
        ensures
            final(self).wf(),
            forall|r: usize, c: usize|
                #[trigger] final(self).cell(r, c) == after_col_insert(
                    old(self).cells@,
                    col,
                    old(self).num_rows,
                    old(self).num_cols,
                    r,
                    c,
                ),
            final(self).num_cols == old(self).num_cols + 1,
            final(self).num_rows == old(self).num_rows,
            final(self).cursor_row == old(self).cursor_row,
            final(self).cursor_col == old(self).cursor_col,
            final(self).selection_anchor == old(self).selection_anchor,
    {
        let ghost es = self.cells@;
        let nr = self.num_rows;
        let nc = self.num_cols;
        let ghost cr = self.cursor_row;
        let ghost cc = self.cursor_col;
        let ghost anchor = self.selection_anchor;
        self.num_cols = nc + 1;
        if col < nc && col + 1 < nc {
            let mut c: usize = nc;
            while c > col + 1
                invariant
                    col + 1 <= c <= nc,
                    nc < usize::MAX,
                    self.num_cols == nc + 1,
                    nr == self.num_rows,
                    self.wf(),
                    self.cursor_row == cr,
                    self.cursor_col == cc,
                    self.selection_anchor == anchor,
                    forall|x: usize, y: usize|
                        #[trigger] self.cell(x, y) == cols_moved_right(es, nr, nc, c, x, y),
                decreases c,
            {
                c -= 1;
                let mut r: usize = 0;
                while r < nr
                    invariant
                        col + 1 <= c < nc,
                        nc < usize::MAX,
                        r <= nr,
                        self.num_cols == nc + 1,
                        nr == self.num_rows,
                        self.wf(),
                        self.cursor_row == cr,
                        self.cursor_col == cc,
                        self.selection_anchor == anchor,
                        forall|x: usize, y: usize|
                            #[trigger] self.cell(x, y) == if x < r {
                                cols_moved_right(es, nr, nc, c, x, y)
                            } else {
                                cols_moved_right(es, nr, nc, (c + 1) as usize, x, y)
                            },
                    decreases nr - r,
                {
                    if self.is_filled(r, c) {
                        self.move_text(r, c, r, c + 1);
                    }
                    r += 1;
                }
            }
        }
        assert forall|r: usize, c: usize|
            #[trigger] self.cell(r, c) == after_col_insert(es, col, nr, nc, r, c) by {}
    }
}

} // verus!
