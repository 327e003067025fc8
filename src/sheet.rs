//! The grid that formulas read and the shell bridge writes: cell texts by
//! (row, column), the grid's extent, the cursor and the selection anchor.
//! A cell that holds no entry reads as the empty text; writing the empty
//! text removes the entry.
use crate::args::{split_args_spec, views};
use crate::cellref::{col_label, dec_label, ref_spec, strict_ref_spec};
use vstd::prelude::*;

verus! {

/// Rows of a new sheet.
pub const DEFAULT_ROWS: usize = 100;

/// Columns of a new sheet.
pub const DEFAULT_COLS: usize = 26;

/// One stored cell.
pub struct CellEntry {
    pub row: usize,
    pub col: usize,
    pub text: String,
}

/// The stored cells. Only this module changes them, through `Spreadsheet`'s
/// methods, which keep them well formed (see `entries_wf`).
pub struct CellStore {
    entries: Vec<CellEntry>,
}

impl View for CellStore {
    type V = Seq<CellEntry>;

    closed spec fn view(&self) -> Seq<CellEntry> {
        self.entries@
    }
}

impl CellStore {
    /// The number of stored cells.
    pub fn len(&self) -> (n: usize)
        ensures
            n == self@.len(),
    {
        self.entries.len()
    }

    /// The stored cell at position `i`.
    pub fn at(&self, i: usize) -> (e: &CellEntry)
        requires
            i < self@.len(),
        ensures
            *e == self@[i as int],
    {
        &self.entries[i]
    }
}

/// A sheet: the stored cells and the grid's state around them.
pub struct Spreadsheet {
    pub cells: CellStore,
    pub num_rows: usize,
    pub num_cols: usize,
    pub cursor_row: usize,
    pub cursor_col: usize,
    pub selection_anchor: Option<(usize, usize)>,
}

pub open spec fn entry_at(es: Seq<CellEntry>, i: int, r: usize, c: usize) -> bool {
    0 <= i < es.len() && es[i].row == r && es[i].col == c
}

pub open spec fn has_entry(es: Seq<CellEntry>, r: usize, c: usize) -> bool {
    exists|i: int| entry_at(es, i, r, c)
}

/// The text stored for `(r, c)` in `es`, empty when there is none.
pub open spec fn text_in(es: Seq<CellEntry>, r: usize, c: usize) -> Seq<char> {
    if has_entry(es, r, c) {
        es[choose|i: int| entry_at(es, i, r, c)].text@
    } else {
        Seq::empty()
    }
}

/// No two entries share a position, and no entry holds the empty text.
pub open spec fn entries_wf(es: Seq<CellEntry>) -> bool {
    &&& forall|i: int, j: int|
        0 <= i < es.len() && 0 <= j < es.len() && i != j ==> !(es[i].row == es[j].row
            && es[i].col == es[j].col)
    &&& forall|i: int| 0 <= i < es.len() ==> (#[trigger] es[i]).text@.len() > 0
}

pub proof fn lemma_text_at_index(es: Seq<CellEntry>, i: int)
    requires
        entries_wf(es),
        0 <= i < es.len(),
    ensures
        text_in(es, es[i].row, es[i].col) == es[i].text@,
{
    assert(entry_at(es, i, es[i].row, es[i].col));
    let j = choose|j: int| entry_at(es, j, es[i].row, es[i].col);
    assert(j == i);
}

impl Spreadsheet {
    /// The stored cells are well formed.
    pub open spec fn wf(&self) -> bool {
        entries_wf(self.cells@)
    }

    /// The text of the cell at `(r, c)`.
    pub open spec fn cell(&self, r: usize, c: usize) -> Seq<char> {
        text_in(self.cells@, r, c)
    }

    /// An empty sheet of the default extent, cursor on the first cell.
    pub fn new() -> (s: Self)
        ensures
            s.wf(),
            forall|r: usize, c: usize| s.cell(r, c) == Seq::<char>::empty(),
            s.num_rows == DEFAULT_ROWS,
            s.num_cols == DEFAULT_COLS,
            s.cursor_row == 0,
            s.cursor_col == 0,
            s.selection_anchor is None,
    {
        Spreadsheet {
            cells: CellStore { entries: Vec::new() },
            num_rows: DEFAULT_ROWS,
            num_cols: DEFAULT_COLS,
            cursor_row: 0,
            cursor_col: 0,
            selection_anchor: None,
        }
    }

    /// Removes every stored cell.
    pub fn clear_cells(&mut self)
        ensures
            final(self).wf(),
            forall|r: usize, c: usize| final(self).cell(r, c) == Seq::<char>::empty(),
            final(self).num_rows == old(self).num_rows,
            final(self).num_cols == old(self).num_cols,
            final(self).cursor_row == old(self).cursor_row,
            final(self).cursor_col == old(self).cursor_col,
            final(self).selection_anchor == old(self).selection_anchor,
    {
        self.cells = CellStore { entries: Vec::new() };
    }

    /// Whether the cell at `(row, col)` holds text.
    pub fn is_filled(&self, row: usize, col: usize) -> (r: bool)
        requires
            self.wf(),
        ensures
            r == (self.cell(row, col).len() > 0),
    {
        !self.get_cell(row, col).is_empty()
    }

    fn find(&self, row: usize, col: usize) -> (r: Option<usize>)
        ensures
            match r {
                Some(i) => entry_at(self.cells@, i as int, row, col),
                None => !has_entry(self.cells@, row, col),
            },
    {
        let mut i: usize = 0;
        while i < self.cells.len()
            invariant
                i <= self.cells@.len(),
                forall|j: int| 0 <= j < i ==> !entry_at(self.cells@, j, row, col),
            decreases self.cells@.len() - i,
        {
            if self.cells.at(i).row == row && self.cells.at(i).col == col {
                return Some(i);
            }
            i += 1;
        }
        None
    }

    /// The text of the cell at `(row, col)`; empty when nothing is stored.
    pub fn get_cell(&self, row: usize, col: usize) -> (r: &str)
        requires
            self.wf(),
        ensures
            r@ == self.cell(row, col),
    {
        match self.find(row, col) {
            Some(i) => {
                proof {
                    lemma_text_at_index(self.cells@, i as int);
                }
                self.cells.at(i).text.as_str()
            },
            None => {
                proof {
                    reveal_strlit("");
                }
                ""
            },
        }
    }

    /// Stores `value` at `(row, col)`; the empty text removes the cell.
    pub fn set_cell(&mut self, row: usize, col: usize, value: String)
        requires
            old(self).wf(),
        ensures
            final(self).wf(),
            final(self).cell(row, col) == value@,
            forall|r: usize, c: usize|
                !(r == row && c == col) ==> #[trigger] final(self).cell(r, c) == old(self).cell(r, c),
            final(self).num_rows == old(self).num_rows,
            final(self).num_cols == old(self).num_cols,
            final(self).cursor_row == old(self).cursor_row,
            final(self).cursor_col == old(self).cursor_col,
            final(self).selection_anchor == old(self).selection_anchor,
    {
        let ghost es = self.cells@;
        let empty = value.as_str().is_empty();
        match self.find(row, col) {
            Some(i) => {
                if empty {
                    self.cells.entries.remove(i);
                    let ghost ns = self.cells@;
                    assert(ns =~= es.remove(i as int));
                    proof {
                        lemma_remove_keeps(es, i as int);
                    }
                } else {
                    self.cells.entries[i] = CellEntry { row, col, text: value };
                    let ghost ns = self.cells@;
                    proof {
                        lemma_update_keeps(es, i as int, ns);
                    }
                }
            },
            None => {
                if !empty {
                    self.cells.entries.push(CellEntry { row, col, text: value });
                    proof {
                        lemma_push_keeps(es, self.cells@);
                    }
                } else {
                    assert(value@.len() == 0);
                    assert(value@ =~= Seq::<char>::empty());
                }
            },
        }
    }

    /// The largest row and the largest column that hold a cell, each 0 when
    /// no cell is stored.
    pub fn get_data_bounds(&self) -> (r: (usize, usize))
        requires
            self.wf(),
        ensures
            forall|row: usize, col: usize|
                #[trigger] self.cell(row, col).len() > 0 ==> row <= r.0 && col <= r.1,
            r.0 == 0 || exists|col: usize| #[trigger] self.cell(r.0, col).len() > 0,
            r.1 == 0 || exists|row: usize| #[trigger] self.cell(row, r.1).len() > 0,
            r == bounds_of(self.cells@),
    {
        let mut max_row: usize = 0;
        let mut max_col: usize = 0;
        let mut i: usize = 0;
        while i < self.cells.len()
            invariant
                i <= self.cells@.len(),
                entries_wf(self.cells@),
                forall|j: int| 0 <= j < i ==> self.cells@[j].row <= max_row,
                forall|j: int| 0 <= j < i ==> self.cells@[j].col <= max_col,
                max_row == 0 || exists|j: int| 0 <= j < i && self.cells@[j].row == max_row,
                max_col == 0 || exists|j: int| 0 <= j < i && self.cells@[j].col == max_col,
                (max_row, max_col) == bounds_of(self.cells@.subrange(0, i as int)),
            decreases self.cells@.len() - i,
        {
            assert(self.cells@.subrange(0, i + 1).drop_last() =~= self.cells@.subrange(0, i as int));
            if self.cells.at(i).row > max_row {
                max_row = self.cells.at(i).row;
            }
            if self.cells.at(i).col > max_col {
                max_col = self.cells.at(i).col;
            }
            i += 1;
        }
        proof {
            let es = self.cells@;
            assert(es.subrange(0, es.len() as int) =~= es);
            assert forall|row: usize, col: usize|
                #[trigger] self.cell(row, col).len() > 0 implies row <= max_row && col
                <= max_col by {
                let j = choose|j: int| entry_at(es, j, row, col);
            }
            if max_row != 0 {
                let j = choose|j: int| 0 <= j < es.len() && es[j].row == max_row;
                lemma_text_at_index(es, j);
                assert(self.cell(max_row, es[j].col).len() > 0);
            }
            if max_col != 0 {
                let j = choose|j: int| 0 <= j < es.len() && es[j].col == max_col;
                lemma_text_at_index(es, j);
                assert(self.cell(es[j].row, max_col).len() > 0);
            }
        }
        (max_row, max_col)
    }

    /// Moves the cursor by `(dr, dc)`, staying inside the grid. With
    /// `extend_selection` the selection keeps (or takes) its anchor at the
    /// old cursor; without, the selection is dropped.
    pub fn move_cursor(&mut self, dr: isize, dc: isize, extend_selection: bool)
        ensures
            final(self).cursor_row == clamp_move(old(self).cursor_row, dr, old(self).num_rows),
            final(self).cursor_col == clamp_move(old(self).cursor_col, dc, old(self).num_cols),
            final(self).selection_anchor == if extend_selection {
                match old(self).selection_anchor {
                    Some(a) => Some(a),
                    None => Some((old(self).cursor_row, old(self).cursor_col)),
                }
            } else {
                None
            },
            final(self).cells == old(self).cells,
            final(self).num_rows == old(self).num_rows,
            final(self).num_cols == old(self).num_cols,
    {
        if extend_selection {
            if self.selection_anchor.is_none() {
                self.selection_anchor = Some((self.cursor_row, self.cursor_col));
            }
        } else {
            self.selection_anchor = None;
        }
        self.cursor_row = moved(self.cursor_row, dr, self.num_rows);
        self.cursor_col = moved(self.cursor_col, dc, self.num_cols);
    }

    /// The selected rectangle as (top-left, bottom-right), or `None` when no
    /// selection is anchored.
    pub fn get_selection_range(&self) -> (r: Option<((usize, usize), (usize, usize))>)
        ensures
            match self.selection_anchor {
                Some((ar, ac)) => r == Some(
                    (
                        (min_of(ar, self.cursor_row), min_of(ac, self.cursor_col)),
                        (max_of(ar, self.cursor_row), max_of(ac, self.cursor_col)),
                    ),
                ),
                None => r is None,
            },
    {
        match self.selection_anchor {
            Some((ar, ac)) => {
                let r0 = if ar < self.cursor_row {
                    ar
                } else {
                    self.cursor_row
                };
                let r1 = if ar < self.cursor_row {
                    self.cursor_row
                } else {
                    ar
                };
                let c0 = if ac < self.cursor_col {
                    ac
                } else {
                    self.cursor_col
                };
                let c1 = if ac < self.cursor_col {
                    self.cursor_col
                } else {
                    ac
                };
                Some(((r0, c0), (r1, c1)))
            },
            None => None,
        }
    }

    /// Drops the selection anchor.
    pub fn clear_selection(&mut self)
        ensures
            final(self).selection_anchor is None,
            final(self).cells == old(self).cells,
            final(self).cursor_row == old(self).cursor_row,
            final(self).cursor_col == old(self).cursor_col,
            final(self).num_rows == old(self).num_rows,
            final(self).num_cols == old(self).num_cols,
    {
        self.selection_anchor = None;
    }
}

impl Spreadsheet {
    /// The label of column `col` (`0` gives `A`).
    pub fn col_name(col: usize) -> (r: String)
        ensures
            r@ == col_label(col as nat),
    {
        crate::cellref::col_name(col)
    }

    /// The address of the cursor's cell, such as `B7`.
    pub fn cell_ref(&self) -> (r: String)
        requires
            self.cursor_row < usize::MAX,
        ensures
            r@ == col_label(self.cursor_col as nat) + dec_label(self.cursor_row as nat + 1),
    {
        crate::cellref::cell_name(self.cursor_row, self.cursor_col)
    }

    /// Reads a cell address the lenient way formulas do (see
    /// `cellref::parse_cell_ref`).
    pub fn parse_cell_ref(&self, cell_ref: &str) -> (r: Option<(usize, usize)>)
        ensures
            r == ref_spec(cell_ref@),
    {
        crate::cellref::parse_cell_ref(cell_ref)
    }

    /// Reads an address typed by a user (see `cellref::parse_cell_reference`).
    pub fn parse_cell_reference(input: &str) -> (r: Option<(usize, usize)>)
        ensures
            r == strict_ref_spec(input@),
    {
        crate::cellref::parse_cell_reference(input)
    }

    /// Splits a function's argument text at its top-level commas.
    pub fn split_function_args(&self, args: &str) -> (r: Vec<String>)
        ensures
            views(r@) == split_args_spec(args@),
    {
        crate::args::split_function_args(args)
    }
}

/// The largest row and the largest column among stored cells, each 0 when
/// there are none.
pub open spec fn bounds_of(es: Seq<CellEntry>) -> (usize, usize)
    decreases es.len(),
{
    if es.len() == 0 {
        (0, 0)
    } else {
        let (r, c) = bounds_of(es.drop_last());
        (max_of(r, es.last().row), max_of(c, es.last().col))
    }
}

pub open spec fn min_of(a: usize, b: usize) -> usize {
    if a < b {
        a
    } else {
        b
    }
}

pub open spec fn max_of(a: usize, b: usize) -> usize {
    if a < b {
        b
    } else {
        a
    }
}

/// A cursor coordinate moved by `d`, kept at 0 or above and below `limit`.
pub open spec fn clamp_move(pos: usize, d: isize, limit: usize) -> usize {
    let p = pos as int + d as int;
    let p = if p < 0 {
        0
    } else {
        p
    };
    if limit == 0 {
        0
    } else if p > limit - 1 {
        (limit - 1) as usize
    } else {
        p as usize
    }
}

fn moved(pos: usize, d: isize, limit: usize) -> (r: usize)
    ensures
        r == clamp_move(pos, d, limit),
{
    let p: i128 = pos as i128 + d as i128;
    let p: i128 = if p < 0 {
        0
    } else {
        p
    };
    if limit == 0 {
        0
    } else if p > (limit - 1) as i128 {
        limit - 1
    } else {
        p as usize
    }
}

proof fn lemma_remove_keeps(es: Seq<CellEntry>, i: int)
    requires
        entries_wf(es),
        0 <= i < es.len(),
    ensures
        entries_wf(es.remove(i)),
        !has_entry(es.remove(i), es[i].row, es[i].col),
        forall|r: usize, c: usize|
            !(r == es[i].row && c == es[i].col) ==> #[trigger] text_in(es.remove(i), r, c)
                == text_in(es, r, c),
{
    let ns = es.remove(i);
    assert forall|a: int, b: int|
        0 <= a < ns.len() && 0 <= b < ns.len() && a != b implies !(ns[a].row == ns[b].row
        && ns[a].col == ns[b].col) by {
        let a1 = if a < i {
            a
        } else {
            a + 1
        };
        let b1 = if b < i {
            b
        } else {
            b + 1
        };
        assert(ns[a] == es[a1]);
        assert(ns[b] == es[b1]);
    }
    assert forall|a: int| 0 <= a < ns.len() implies (#[trigger] ns[a]).text@.len() > 0 by {
        let a1 = if a < i {
            a
        } else {
            a + 1
        };
        assert(ns[a] == es[a1]);
    }
    if has_entry(ns, es[i].row, es[i].col) {
        let a = choose|a: int| entry_at(ns, a, es[i].row, es[i].col);
        let a1 = if a < i {
            a
        } else {
            a + 1
        };
        assert(ns[a] == es[a1]);
        assert(false);
    }
    assert forall|r: usize, c: usize|
        !(r == es[i].row && c == es[i].col) implies #[trigger] text_in(ns, r, c) == text_in(
        es,
        r,
        c,
    ) by {
        if has_entry(es, r, c) {
            let j = choose|j: int| entry_at(es, j, r, c);
            let j1 = if j < i {
                j
            } else {
                j - 1
            };
            assert(j != i);
            assert(ns[j1] == es[j]);
            assert(entry_at(ns, j1, r, c));
            lemma_text_at_index(es, j);
            lemma_text_at_index(ns, j1);
        } else if has_entry(ns, r, c) {
            let a = choose|a: int| entry_at(ns, a, r, c);
            let a1 = if a < i {
                a
            } else {
                a + 1
            };
            assert(ns[a] == es[a1]);
            assert(entry_at(es, a1, r, c));
        }
    }
}

proof fn lemma_update_keeps(es: Seq<CellEntry>, i: int, ns: Seq<CellEntry>)
    requires
        entries_wf(es),
        0 <= i < es.len(),
        ns.len() == es.len(),
        forall|j: int| 0 <= j < es.len() && j != i ==> ns[j] == es[j],
        ns[i].row == es[i].row,
        ns[i].col == es[i].col,
        ns[i].text@.len() > 0,
    ensures
        entries_wf(ns),
        text_in(ns, es[i].row, es[i].col) == ns[i].text@,
        forall|r: usize, c: usize|
            !(r == es[i].row && c == es[i].col) ==> #[trigger] text_in(ns, r, c) == text_in(
                es,
                r,
                c,
            ),
{
    assert forall|a: int, b: int|
        0 <= a < ns.len() && 0 <= b < ns.len() && a != b implies !(ns[a].row == ns[b].row
        && ns[a].col == ns[b].col) by {
        assert(ns[a].row == es[a].row && ns[a].col == es[a].col);
        assert(ns[b].row == es[b].row && ns[b].col == es[b].col);
    }
    assert forall|a: int| 0 <= a < ns.len() implies (#[trigger] ns[a]).text@.len() > 0 by {
        if a != i {
            assert(ns[a] == es[a]);
        }
    }
    lemma_text_at_index(ns, i);
    assert forall|r: usize, c: usize|
        !(r == es[i].row && c == es[i].col) implies #[trigger] text_in(ns, r, c) == text_in(
        es,
        r,
        c,
    ) by {
        if has_entry(es, r, c) {
            let j = choose|j: int| entry_at(es, j, r, c);
            assert(j != i);
            assert(entry_at(ns, j, r, c));
            lemma_text_at_index(es, j);
            lemma_text_at_index(ns, j);
        } else if has_entry(ns, r, c) {
            let a = choose|a: int| entry_at(ns, a, r, c);
            assert(a != i);
            assert(entry_at(es, a, r, c));
        }
    }
}

proof fn lemma_push_keeps(es: Seq<CellEntry>, ns: Seq<CellEntry>)
    requires
        entries_wf(es),
        ns.len() == es.len() + 1,
        forall|j: int| 0 <= j < es.len() ==> ns[j] == es[j],
        !has_entry(es, ns.last().row, ns.last().col),
        ns.last().text@.len() > 0,
    ensures
        entries_wf(ns),
        text_in(ns, ns.last().row, ns.last().col) == ns.last().text@,
        forall|r: usize, c: usize|
            !(r == ns.last().row && c == ns.last().col) ==> #[trigger] text_in(ns, r, c)
                == text_in(es, r, c),
{
    let n = es.len() as int;
    assert forall|a: int, b: int|
        0 <= a < ns.len() && 0 <= b < ns.len() && a != b implies !(ns[a].row == ns[b].row
        && ns[a].col == ns[b].col) by {
        if a < n && b < n {
            assert(ns[a] == es[a] && ns[b] == es[b]);
        } else if a < n {
            assert(ns[a] == es[a]);
            if ns[a].row == ns[b].row && ns[a].col == ns[b].col {
                assert(entry_at(es, a, ns.last().row, ns.last().col));
            }
        } else if b < n {
            assert(ns[b] == es[b]);
            if ns[a].row == ns[b].row && ns[a].col == ns[b].col {
                assert(entry_at(es, b, ns.last().row, ns.last().col));
            }
        }
    }
    assert forall|a: int| 0 <= a < ns.len() implies (#[trigger] ns[a]).text@.len() > 0 by {
        if a < n {
            assert(ns[a] == es[a]);
        }
    }
    lemma_text_at_index(ns, n);
    assert forall|r: usize, c: usize|
        !(r == ns.last().row && c == ns.last().col) implies #[trigger] text_in(ns, r, c)
        == text_in(es, r, c) by {
        if has_entry(es, r, c) {
            let j = choose|j: int| entry_at(es, j, r, c);
            assert(entry_at(ns, j, r, c));
            lemma_text_at_index(es, j);
            lemma_text_at_index(ns, j);
        } else if has_entry(ns, r, c) {
            let a = choose|a: int| entry_at(ns, a, r, c);
            assert(a != n);
            assert(entry_at(es, a, r, c));
        }
    }
}

} // verus!
