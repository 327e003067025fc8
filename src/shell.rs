//! The shell bridge's decisions. Running the command is left to the caller;
//! here the command text is extracted and its output is written back into
//! the sheet, either as a table or as one cell.
use crate::sheet::Spreadsheet;
use crate::table::{max_width, table_spec, table_view, table_width, text_table};
use crate::text::{
    chars_of, is_quoted, lemma_trim_len, string_from, string_of, trim, trim_bounds, trim_seq,
};
use vstd::prelude::*;

verus! {

/// The command of a `SHELL` call: the quoted text without its quotes, or
/// the argument trimmed.
pub open spec fn shell_command_spec(args: Seq<char>) -> Seq<char> {
    if is_quoted(args) {
        args.subrange(1, args.len() - 1)
    } else {
        trim_seq(args)
    }
}

/// Extracts the command of a `SHELL` call from its argument text.
pub fn shell_command(args: &str) -> (r: String)
    ensures
        r@ == shell_command_spec(args@),
{
    let v = chars_of(args);
    let n = v.len();
    if n >= 2 && ((v[0] == '"' && v[n - 1] == '"') || (v[0] == '\'' && v[n - 1] == '\'')) {
        string_of(&v, 1, n - 1)
    } else {
        let (lo, hi) = trim_bounds(&v);
        string_of(&v, lo, hi)
    }
}

/// The number of rows that hold more than one word.
pub open spec fn multi_rows(t: Seq<Seq<Seq<char>>>) -> int
    decreases t.len(),
{
    if t.len() == 0 {
        0
    } else {
        multi_rows(t.drop_last()) + if t.last().len() > 1 {
            1int
        } else {
            0int
        }
    }
}

/// Output is read as a table when at least half of its non-blank lines
/// hold more than one word.
pub open spec fn is_tabular(t: Seq<Seq<Seq<char>>>) -> bool {
    multi_rows(t) * 2 >= t.len()
}

/// The text at `(r, c)` after table `t` was written from `(sr, sc)` over a
/// cell that held `before`: the first row always overwrites, later rows
/// only fill empty cells.
pub open spec fn table_write(
    t: Seq<Seq<Seq<char>>>,
    sr: int,
    sc: int,
    r: int,
    c: int,
    before: Seq<char>,
) -> Seq<char> {
    if sr <= r < sr + t.len() && sc <= c < sc + t[r - sr].len() && (r == sr || before.len()
        == 0) {
        t[r - sr][c - sc]
    } else {
        before
    }
}

pub open spec fn ok_seq() -> Seq<char> {
    seq!['O', 'K']
}

impl Spreadsheet {
    /// Writes a command's standard output back from the invoking cell
    /// `(start_row, start_col)` and returns `OK`. Output that is empty after
    /// trimming changes nothing. Tabular output (see `is_tabular`) is
    /// written word by word, one row per non-blank line, and the extent
    /// grows to hold it; other output replaces the invoking cell's text.
    pub fn apply_shell_output(&mut self, stdout: &str, start_row: usize, start_col: usize) -> (r:
        String)
        requires
            old(self).wf(),
            start_row as int + stdout@.len() < usize::MAX,
            start_col as int + stdout@.len() < usize::MAX,
        ensures
            r@ == ok_seq(),
            final(self).wf(),
            ({
                let out = trim_seq(stdout@);
                let t = table_spec(out);
                if out.len() == 0 || t.len() == 0 {
                    final(self).cells@ == old(self).cells@ && final(self).num_rows == old(
                        self,
                    ).num_rows && final(self).num_cols == old(self).num_cols
                } else if is_tabular(t) {
                    &&& forall|row: usize, col: usize|
                        #[trigger] final(self).cell(row, col) == table_write(
                            t,
                            start_row as int,
                            start_col as int,
                            row as int,
                            col as int,
                            old(self).cell(row, col),
                        )
                    &&& final(self).num_rows as int == if start_row + t.len() > old(
                        self,
                    ).num_rows {
                        start_row + t.len()
                    } else {
                        old(self).num_rows as int
                    }
                    &&& final(self).num_cols as int == if start_col + max_width(t) > old(
                        self,
                    ).num_cols {
                        start_col + max_width(t)
                    } else {
                        old(self).num_cols as int
                    }
                } else {
                    &&& final(self).cell(start_row, start_col) == out
                    &&& forall|row: usize, col: usize|
                        !(row == start_row && col == start_col) ==> #[trigger] final(self).cell(
                            row,
                            col,
                        ) == old(self).cell(row, col)
                    &&& final(self).num_rows == old(self).num_rows
                    &&& final(self).num_cols == old(self).num_cols
                }
            }),
    {
        let ok = string_from(vec!['O', 'K']);
        let out = trim(stdout);
        proof {
            lemma_trim_len(stdout@);
        }
        if out.as_str().is_empty() {
            return ok;
        }
        let t = text_table(out.as_str());
        let ghost tv = table_view(t@);
        proof {
            crate::table::lemma_table_bounds(out@);
        }
        if t.len() == 0 {
            return ok;
        }
        let mut multi: usize = 0;
        let mut k: usize = 0;
        while k < t.len()
            invariant
                k <= t@.len(),
                tv == table_view(t@),
                multi <= k,
                multi == multi_rows(tv.subrange(0, k as int)),
            decreases t.len() - k,
        {
            assert(tv.subrange(0, k + 1).drop_last() =~= tv.subrange(0, k as int));
            assert(tv[k as int].len() == t@[k as int]@.len());
            if t[k].len() > 1 {
                multi += 1;
            }
            k += 1;
        }
        assert(tv.subrange(0, t@.len() as int) =~= tv);
        if multi >= t.len() - multi {
            let width = table_width(&t);
            let end_row = start_row + t.len();
            if end_row > self.num_rows {
                self.num_rows = end_row;
            }
            let end_col = start_col + width;
            if end_col > self.num_cols {
                self.num_cols = end_col;
            }
            let ghost nr = self.num_rows;
            let ghost nc = self.num_cols;
            let ghost es = self.cells@;
            let mut i: usize = 0;
            while i < t.len()
                invariant
                    i <= t@.len(),
                    tv == table_view(t@),
                    tv.len() == t@.len(),
                    self.wf(),
                    start_row + t@.len() <= usize::MAX,
                    start_col + max_width(tv) <= usize::MAX,
                    forall|q: int| 0 <= q < tv.len() ==> #[trigger] tv[q].len() <= max_width(tv),
                    self.num_rows == nr,
                    self.num_cols == nc,
                    es == old(self).cells@,
                    forall|row: usize, col: usize|
                        #[trigger] self.cell(row, col) == if row < start_row + i {
                            table_write(
                                tv,
                                start_row as int,
                                start_col as int,
                                row as int,
                                col as int,
                                crate::sheet::text_in(es, row, col),
                            )
                        } else {
                            crate::sheet::text_in(es, row, col)
                        },
                decreases t.len() - i,
            {
                let row_words = &t[i];
                assert(tv[i as int] == crate::args::views(row_words@));
                let r = start_row + i;
                let mut j: usize = 0;
                while j < row_words.len()
                    invariant
                        i < t@.len(),
                        r == start_row + i,
                        j <= row_words@.len(),
                        tv == table_view(t@),
                        tv[i as int] == crate::args::views(row_words@),
                        row_words@.len() <= max_width(tv),
                        start_col + max_width(tv) <= usize::MAX,
                        self.wf(),
                        self.num_rows == nr,
                        self.num_cols == nc,
                        forall|row: usize, col: usize|
                            #[trigger] self.cell(row, col) == if row < r || (row == r && start_col
                                <= col < start_col + j) {
                                table_write(
                                    tv,
                                    start_row as int,
                                    start_col as int,
                                    row as int,
                                    col as int,
                                    crate::sheet::text_in(es, row, col),
                                )
                            } else {
                                crate::sheet::text_in(es, row, col)
                            },
                    decreases row_words.len() - j,
                {
                    let c = start_col + j;
                    if i == 0 || !self.is_filled(r, c) {
                        let wr: &String = &row_words[j];
                        let w = wr.clone();
                        assert(crate::args::views(row_words@)[j as int] == row_words@[j as int]@);
                        self.set_cell(r, c, w);
                    }
                    j += 1;
                }
                i += 1;
            }
        } else {
            self.set_cell(start_row, start_col, out);
        }
        ok
    }
}

} // verus!
