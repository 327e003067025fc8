//! Clipboard text: a rectangle of cells as tab-separated lines, and pasting
//! such text at the cursor.
use crate::args::{sep_state, split_on, split_spec, views};
use crate::sheet::{text_in, Spreadsheet};
use crate::text::{chars_of, push_char, string_of};
use vstd::prelude::*;

verus! {

/// Pieces joined with `sep` between them.
pub open spec fn join_with(ws: Seq<Seq<char>>, sep: char) -> Seq<char>
    decreases ws.len(),
{
    if ws.len() == 0 {
        Seq::empty()
    } else if ws.len() == 1 {
        ws[0]
    } else {
        join_with(ws.drop_last(), sep) + seq![sep] + ws.last()
    }
}

/// `l` without one trailing carriage return.
pub open spec fn strip_cr(l: Seq<char>) -> Seq<char> {
    if l.len() > 0 && l.last() == '\r' {
        l.drop_last()
    } else {
        l
    }
}

/// The lines of `s` as `str::lines` gives them: the pieces between `\n`,
/// each piece that ended in `\n` without a final `\r`, and no last piece
/// when it is empty.
pub open spec fn lines_spec(s: Seq<char>) -> Seq<Seq<char>> {
    let p = split_spec(s, '\n');
    let init = p.drop_last().map_values(|l: Seq<char>| strip_cr(l));
    if p.last().len() == 0 {
        init
    } else {
        init.push(p.last())
    }
}

/// The text at `(r, c)` after pasting lines `ls` at `(dr, dc)` over a cell
/// that held `before`: each line's tab-separated values fill a row, and an
/// empty value leaves its cell alone.
pub open spec fn paste_cell(ls: Seq<Seq<char>>, dr: int, dc: int, r: int, c: int, before: Seq<char>) -> Seq<char> {
    if dr <= r < dr + ls.len() {
        let vals = split_spec(ls[r - dr], '\t');
        if dc <= c < dc + vals.len() && vals[c - dc].len() > 0 {
            vals[c - dc]
        } else {
            before
        }
    } else {
        before
    }
}

/// The largest number of values on one line.
pub open spec fn widest(ls: Seq<Seq<char>>) -> int
    decreases ls.len(),
{
    if ls.len() == 0 {
        0
    } else {
        let w = widest(ls.drop_last());
        let n = split_spec(ls.last(), '\t').len() as int;
        if n > w {
            n
        } else {
            w
        }
    }
}

/// The row text of row `r` from column `c0`, `n` cells, tab-separated.
pub open spec fn row_text(s: &Spreadsheet, r: usize, c0: int, n: nat) -> Seq<char> {
    join_with(Seq::new(n, |j: int| s.cell(r, (c0 + j) as usize)), '\t')
}

proof fn lemma_widest(ls: Seq<Seq<char>>)
    ensures
        forall|i: int| 0 <= i < ls.len() ==> #[trigger] split_spec(ls[i], '\t').len() <= widest(ls),
        widest(ls) >= 0,
    decreases ls.len(),
{
    if ls.len() > 0 {
        lemma_widest(ls.drop_last());
        assert forall|i: int| 0 <= i < ls.len() implies #[trigger] split_spec(ls[i], '\t').len()
            <= widest(ls) by {
            if i < ls.len() - 1 {
                assert(ls[i] == ls.drop_last()[i]);
            }
        }
    }
}

/// The lines of a text, as `str::lines` gives them.
pub fn text_lines(s: &str) -> (r: Vec<String>)
    ensures
        views(r@) == lines_spec(s@),
{
    let parts = split_on(s, '\n');
    let ghost ps = views(parts@);
    let n = parts.len();
    let mut out: Vec<String> = Vec::new();
    let mut i: usize = 0;
    while n > 0 && i < n - 1
        invariant
            i + 1 <= n || n == 0,
            n == parts@.len(),
            ps == views(parts@),
            views(out@) == ps.subrange(0, i as int).map_values(|l: Seq<char>| strip_cr(l)),
        decreases n - i,
    {
        let v = chars_of(parts[i].as_str());
        let end = if v.len() > 0 && v[v.len() - 1] == '\r' {
            v.len() - 1
        } else {
            v.len()
        };
        let line = string_of(&v, 0, end);
        assert(ps[i as int] == parts@[i as int]@);
        assert(line@ == strip_cr(ps[i as int])) by {
            if v@.len() > 0 && v@.last() == '\r' {
                assert(v@.subrange(0, end as int) =~= v@.drop_last());
            } else {
                assert(v@.subrange(0, end as int) =~= v@);
            }
        }
        let ghost before = out@;
        out.push(line);
        assert(views(out@) =~= views(before).push(line@));
        assert(ps.subrange(0, i + 1).map_values(|l: Seq<char>| strip_cr(l)) =~= ps.subrange(
            0,
            i as int,
        ).map_values(|l: Seq<char>| strip_cr(l)).push(strip_cr(ps[i as int])));
        i += 1;
    }
    proof {
        assert(ps == split_spec(s@, '\n'));
        assert(ps.len() >= 1);
        assert(ps.drop_last() =~= ps.subrange(0, i as int));
    }
    let last = &parts[n - 1];
    assert(ps.last() == last@);
    if !last.as_str().is_empty() {
        let ghost before = out@;
        out.push(last.clone());
        assert(views(out@) =~= views(before).push(last@));
    }
    out
}

proof fn lemma_widest_le(ls: Seq<Seq<char>>, m: int)
    requires
        forall|i: int| 0 <= i < ls.len() ==> #[trigger] split_spec(ls[i], '\t').len() <= m,
        m >= 0,
    ensures
        widest(ls) <= m,
    decreases ls.len(),
{
    if ls.len() > 0 {
        let init = ls.drop_last();
        assert forall|i: int| 0 <= i < init.len() implies #[trigger] split_spec(init[i], '\t').len()
            <= m by {
            assert(init[i] == ls[i]);
        }
        lemma_widest_le(init, m);
        assert(ls.last() == ls[ls.len() - 1]);
    }
}

/// A text's lines number at most one more than its characters, and no line
/// splits into more values than that either.
proof fn lemma_lines_bounds(s: Seq<char>)
    ensures
        lines_spec(s).len() <= s.len() + 1,
        widest(lines_spec(s)) <= s.len() + 1,
{
    crate::table::lemma_sep_state_bound(s, '\n');
    let (p, c) = sep_state(s, '\n');
    let ls = lines_spec(s);
    let parts = split_spec(s, '\n');
    assert forall|i: int| 0 <= i < ls.len() implies #[trigger] split_spec(ls[i], '\t').len() <= s.len()
        + 1 by {
        assert(ls[i].len() <= s.len()) by {
            if i < parts.len() - 1 {
                assert(parts[i] == p[i]);
                assert(ls[i] == strip_cr(parts[i]));
            } else {
                assert(ls[i] == parts.last());
            }
        }
        crate::table::lemma_sep_state_bound(ls[i], '\t');
    }
    lemma_widest_le(ls, s.len() as int + 1);
}

fn append_str(out: &mut String, t: &str)
    ensures
        final(out)@ == old(out)@ + t@,
{
    let v = chars_of(t);
    let ghost start = out@;
    let mut k: usize = 0;
    while k < v.len()
        invariant
            k <= v@.len(),
            out@ == start + v@.subrange(0, k as int),
        decreases v.len() - k,
    {
        push_char(out, v[k]);
        assert(v@.subrange(0, k + 1) =~= v@.subrange(0, k as int).push(v@[k as int]));
        k += 1;
    }
    assert(v@.subrange(0, v@.len() as int) =~= v@);
}

impl Spreadsheet {
    /// The cells of `row` from column `c0` to `c1` (inclusive), tab-separated.
    pub fn row_line(&self, row: usize, c0: usize, c1: usize) -> (r: String)
        requires
            self.wf(),
            c0 <= c1,
        ensures
            r@ == row_text(self, row, c0 as int, (c1 - c0 + 1) as nat),
    {
        let ghost cells = Seq::new((c1 - c0 + 1) as nat, |j: int| self.cell(row, (c0 + j) as usize));
        let mut line = String::new();
        let mut col: u128 = c0 as u128;
        assert(cells.subrange(0, 0) =~= Seq::<Seq<char>>::empty());
        while col <= c1 as u128
            invariant
                self.wf(),
                c0 <= col <= c1 as u128 + 1,
                c0 <= c1,
                cells == Seq::new((c1 - c0 + 1) as nat, |j: int| self.cell(row, (c0 + j) as usize)),
                line@ == join_with(cells.subrange(0, col - c0), '\t'),
            decreases c1 as u128 + 1 - col,
        {
            if col > c0 as u128 {
                push_char(&mut line, '\t');
            }
            let t = self.get_cell(row, col as usize);
            append_str(&mut line, t);
            let ghost sub = cells.subrange(0, col + 1 - c0);
            assert(sub.drop_last() =~= cells.subrange(0, col - c0));
            assert(sub.last() == cells[col - c0]);
            assert(cells[col - c0] == t@);
            if col == c0 as u128 {
                assert(sub =~= seq![t@]);
                assert(line@ =~= t@);
            }
            col += 1;
        }
        assert(cells.subrange(0, cells.len() as int) =~= cells);
        line
    }

    /// The cells from `a` to `b` (inclusive) as text: the cells of a row
    /// separated by tabs, the rows by newlines.
    pub fn selection_text(&self, a: (usize, usize), b: (usize, usize)) -> (r: String)
        requires
            self.wf(),
            a.0 <= b.0,
            a.1 <= b.1,
        ensures
            r@ == join_with(
                Seq::new(
                    (b.0 - a.0 + 1) as nat,
                    |i: int| row_text(self, (a.0 + i) as usize, a.1 as int, (b.1 - a.1 + 1) as nat),
                ),
                '\n',
            ),
    {
        let ghost rows = Seq::new(
            (b.0 - a.0 + 1) as nat,
            |i: int| row_text(self, (a.0 + i) as usize, a.1 as int, (b.1 - a.1 + 1) as nat),
        );
        let mut out = String::new();
        let mut row: u128 = a.0 as u128;
        assert(rows.subrange(0, 0) =~= Seq::<Seq<char>>::empty());
        while row <= b.0 as u128
            invariant
                self.wf(),
                a.0 <= row <= b.0 as u128 + 1,
                a.0 <= b.0,
                a.1 <= b.1,
                rows == Seq::new(
                    (b.0 - a.0 + 1) as nat,
                    |i: int| row_text(self, (a.0 + i) as usize, a.1 as int, (b.1 - a.1 + 1) as nat),
                ),
                out@ == join_with(rows.subrange(0, row - a.0), '\n'),
            decreases b.0 as u128 + 1 - row,
        {
            if row > a.0 as u128 {
                push_char(&mut out, '\n');
            }
            let line = self.row_line(row as usize, a.1, b.1);
            append_str(&mut out, line.as_str());
            let ghost sub = rows.subrange(0, row + 1 - a.0);
            assert(sub.drop_last() =~= rows.subrange(0, row - a.0));
            assert(sub.last() == rows[row - a.0]);
            assert(rows[row - a.0] == line@);
            if row == a.0 as u128 {
                assert(sub =~= seq![line@]);
                assert(out@ =~= line@);
            }
            row += 1;
        }
        assert(rows.subrange(0, rows.len() as int) =~= rows);
        out
    }

    /// Pastes tab-separated text at the cursor: line `i` fills row
    /// `cursor_row + i` and its value `j` column `cursor_col + j`; an empty
    /// value leaves its cell alone. The extent grows to hold every value and
    /// the selection is dropped.
    pub fn paste_text(&mut self, text: &str)
        requires
            old(self).wf(),
            old(self).cursor_row as int + text@.len() + 1 <= usize::MAX,
            old(self).cursor_col as int + text@.len() + 1 <= usize::MAX,
        ensures
            final(self).wf(),
            forall|r: usize, c: usize|
                #[trigger] final(self).cell(r, c) == paste_cell(
                    lines_spec(text@),
                    old(self).cursor_row as int,
                    old(self).cursor_col as int,
                    r as int,
                    c as int,
                    old(self).cell(r, c),
                ),
            final(self).num_rows as int == if lines_spec(text@).len() > 0 && old(self).cursor_row
                + lines_spec(text@).len() > old(self).num_rows {
                old(self).cursor_row + lines_spec(text@).len()
            } else {
                old(self).num_rows as int
            },
            final(self).num_cols as int == if lines_spec(text@).len() > 0 && old(self).cursor_col
                + widest(lines_spec(text@)) > old(self).num_cols {
                old(self).cursor_col + widest(lines_spec(text@))
            } else {
                old(self).num_cols as int
            },
            final(self).cursor_row == old(self).cursor_row,
            final(self).cursor_col == old(self).cursor_col,
            final(self).selection_anchor is None,
    {
        let lines = text_lines(text);
        let ghost ls = views(lines@);
        proof {
            lemma_lines_bounds(text@);
        }
        let dr = self.cursor_row;
        let dc = self.cursor_col;
        let mut width: usize = 0;
        let mut k: usize = 0;
        while k < lines.len()
            invariant
                k <= lines@.len(),
                ls == views(lines@),
                width == widest(ls.subrange(0, k as int)),
                widest(ls) <= usize::MAX,
            decreases lines.len() - k,
        {
            assert(ls.subrange(0, k + 1).drop_last() =~= ls.subrange(0, k as int));
            assert(ls[k as int] == lines@[k as int]@);
            let n = split_on(lines[k].as_str(), '\t').len();
            if n > width {
                width = n;
            }
            k += 1;
        }
        assert(ls.subrange(0, lines@.len() as int) =~= ls);
        if lines.len() > 0 {
            if dr + lines.len() > self.num_rows {
                self.num_rows = dr + lines.len();
            }
            if dc + width > self.num_cols {
                self.num_cols = dc + width;
            }
        }
        self.clear_selection();
        let ghost es = self.cells@;
        let ghost nr = self.num_rows;
        let ghost nc = self.num_cols;
        proof {
            lemma_widest(ls);
        }
        let mut i: usize = 0;
        while i < lines.len()
            invariant
                i <= lines@.len(),
                ls == views(lines@),
                dr == old(self).cursor_row,
                dc == old(self).cursor_col,
                dr + ls.len() <= usize::MAX,
                dc + widest(ls) <= usize::MAX,
                forall|q: int| 0 <= q < ls.len() ==> #[trigger] split_spec(ls[q], '\t').len() <= widest(ls),
                self.wf(),
                self.cursor_row == dr,
                self.cursor_col == dc,
                self.num_rows == nr,
                self.num_cols == nc,
                self.selection_anchor is None,
                forall|x: usize, y: usize|
                    #[trigger] self.cell(x, y) == if x < dr + i {
                        paste_cell(ls, dr as int, dc as int, x as int, y as int, text_in(es, x, y))
                    } else {
                        text_in(es, x, y)
                    },
            decreases lines.len() - i,
        {
            let vals = split_on(lines[i].as_str(), '\t');
            assert(ls[i as int] == lines@[i as int]@);
            let ghost vs = views(vals@);
            assert(vs.len() <= widest(ls));
            let mut j: usize = 0;
            while j < vals.len()
                invariant
                    i < ls.len(),
                    j <= vals@.len(),
                    vs == views(vals@),
                    vs == split_spec(ls[i as int], '\t'),
                    dr == old(self).cursor_row,
                    dc == old(self).cursor_col,
                    dr + ls.len() <= usize::MAX,
                    dc + vs.len() <= usize::MAX,
                    self.wf(),
                    self.cursor_row == dr,
                    self.cursor_col == dc,
                    self.num_rows == nr,
                    self.num_cols == nc,
                    self.selection_anchor is None,
                    forall|x: usize, y: usize|
                        #[trigger] self.cell(x, y) == if x < dr + i || (x == dr + i && dc <= y && y
                            < dc + j) {
                            paste_cell(ls, dr as int, dc as int, x as int, y as int, text_in(es, x, y))
                        } else {
                            text_in(es, x, y)
                        },
                decreases vals.len() - j,
            {
                assert(vs[j as int] == vals@[j as int]@);
                if !vals[j].as_str().is_empty() {
                    let v = vals[j].clone();
                    self.set_cell(dr + i, dc + j, v);
                }
                j += 1;
            }
            i += 1;
        }
    }
}

} // verus!
