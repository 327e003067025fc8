//! The command line (`:A10`, `:q`), closing a formula's parentheses when
//! editing ends, and searching the grid for text.
use crate::cellref::strict_ref_spec;
use crate::sheet::Spreadsheet;
use crate::text::{chars_eq, chars_of, find_chars, find_seq, push_char, trim_seq};
use crate::textfns::{lower_of, to_lower, to_upper, upper_of};
use vstd::prelude::*;

verus! {

/// What a command asks for.
#[derive(Clone, Copy, Debug, PartialEq, Eq, Structural)]
pub enum Command {
    /// `q` or `quit`, in any case.
    Quit,
    /// Move the cursor to this cell.
    Goto(usize, usize),
    /// An address outside the grid's extent.
    OutOfRange,
    /// Anything else.
    Unknown,
}

/// The command that `text` asks for on a grid of `nr` rows and `nc` columns.
pub open spec fn command_spec(text: Seq<char>, nr: usize, nc: usize) -> Command {
    let cmd = upper_of(trim_seq(text));
    if cmd == seq!['Q'] || cmd == seq!['Q', 'U', 'I', 'T'] {
        Command::Quit
    } else {
        match strict_ref_spec(cmd) {
            Some((r, c)) => if r < nr && c < nc {
                Command::Goto(r, c)
            } else {
                Command::OutOfRange
            },
            None => Command::Unknown,
        }
    }
}

/// The number of times `ch` occurs in `s`.
pub open spec fn count_char(s: Seq<char>, ch: char) -> nat
    decreases s.len(),
{
    if s.len() == 0 {
        0
    } else {
        count_char(s.drop_last(), ch) + if s.last() == ch {
            1nat
        } else {
            0nat
        }
    }
}

/// The text with enough `)` appended to close every `(` that its closing
/// parentheses leave open (counted, not matched).
pub open spec fn closed_spec(s: Seq<char>) -> Seq<char> {
    let open = count_char(s, '(');
    let close = count_char(s, ')');
    if open > close {
        s + Seq::new((open - close) as nat, |i: int| ')')
    } else {
        s
    }
}

/// The cells of rows below `nr` and columns below `nc`, row by row, whose
/// lower-cased text contains `q`.
pub open spec fn matches_in(s: &Spreadsheet, q: Seq<char>, nr: nat, nc: nat) -> Seq<(usize, usize)>
    decreases nr,
{
    if nr == 0 {
        Seq::empty()
    } else {
        matches_in(s, q, (nr - 1) as nat, nc) + row_matches(s, q, (nr - 1) as nat, nc)
    }
}

/// The matching cells of row `r` among its first `nc` columns.
pub open spec fn row_matches(s: &Spreadsheet, q: Seq<char>, r: nat, nc: nat) -> Seq<(usize, usize)>
    decreases nc,
{
    if nc == 0 {
        Seq::empty()
    } else {
        let c = (nc - 1) as nat;
        let rest = row_matches(s, q, r, c);
        if cell_matches(s.cell(r as usize, c as usize), q) {
            rest.push((r as usize, c as usize))
        } else {
            rest
        }
    }
}

/// A non-empty cell text that contains the lower-cased query once lower-cased.
pub open spec fn cell_matches(text: Seq<char>, q: Seq<char>) -> bool {
    text.len() > 0 && find_seq(lower_of(text), q) is Some
}

impl Spreadsheet {
    /// Ends editing the cursor's cell: a formula gets its open parentheses
    /// closed, the text is stored, and the cursor moves by `(dr, dc)`
    /// without extending the selection.
    pub fn finish_editing_with_move(&mut self, buffer: &str, formula_mode: bool, dr: isize, dc: isize)
        requires
            old(self).wf(),
        ensures
            final(self).wf(),
            final(self).cell(old(self).cursor_row, old(self).cursor_col) == if formula_mode {
                closed_spec(buffer@)
            } else {
                buffer@
            },
            forall|r: usize, c: usize|
                !(r == old(self).cursor_row && c == old(self).cursor_col)
                    ==> #[trigger] final(self).cell(r, c) == old(self).cell(r, c),
            final(self).cursor_row == crate::sheet::clamp_move(
                old(self).cursor_row,
                dr,
                old(self).num_rows,
            ),
            final(self).cursor_col == crate::sheet::clamp_move(
                old(self).cursor_col,
                dc,
                old(self).num_cols,
            ),
            final(self).selection_anchor is None,
    {
        let text = if formula_mode {
            close_parens(buffer)
        } else {
            String::from_str(buffer)
        };
        self.set_cell(self.cursor_row, self.cursor_col, text);
        let ghost es = self.cells@;
        assert forall|r: usize, c: usize|
            !(r == old(self).cursor_row && c == old(self).cursor_col) implies
            crate::sheet::text_in(es, r, c) == old(self).cell(r, c) by {
            assert(self.cell(r, c) == old(self).cell(r, c));
        }
        self.move_cursor(dr, dc, false);
        assert forall|r: usize, c: usize| #[trigger]
            self.cell(r, c) == crate::sheet::text_in(es, r, c) by {}
    }

    /// Carries out a command typed after `:` and says what it was: an
    /// address inside the grid moves the cursor there and drops the
    /// selection; any other command leaves the sheet as it was.
    pub fn execute_command(&mut self, command: &str) -> (r: Command)
        ensures
            r == command_spec(command@, old(self).num_rows, old(self).num_cols),
            final(self).cells == old(self).cells,
            final(self).num_rows == old(self).num_rows,
            final(self).num_cols == old(self).num_cols,
            match r {
                Command::Goto(row, col) => final(self).cursor_row == row && final(self).cursor_col
                    == col && final(self).selection_anchor is None,
                _ => final(self).cursor_row == old(self).cursor_row && final(self).cursor_col == old(
                    self,
                ).cursor_col && final(self).selection_anchor == old(self).selection_anchor,
            },
    {
        let r = self.command_action(command);
        if let Command::Goto(row, col) = r {
            self.cursor_row = row;
            self.cursor_col = col;
            self.selection_anchor = None;
        }
        r
    }

    /// Reads a command typed after `:`.
    pub fn command_action(&self, command: &str) -> (r: Command)
        ensures
            r == command_spec(command@, self.num_rows, self.num_cols),
    {
        let t = crate::text::trim(command);
        let cmd = to_upper(t.as_str());
        let v = chars_of(cmd.as_str());
        let q = vec!['Q'];
        let quit = vec!['Q', 'U', 'I', 'T'];
        assert(q@ =~= seq!['Q']);
        assert(quit@ =~= seq!['Q', 'U', 'I', 'T']);
        if chars_eq(&v, &q) || chars_eq(&v, &quit) {
            return Command::Quit;
        }
        match crate::cellref::parse_cell_reference(cmd.as_str()) {
            Some((r, c)) => {
                if r < self.num_rows && c < self.num_cols {
                    Command::Goto(r, c)
                } else {
                    Command::OutOfRange
                }
            },
            None => Command::Unknown,
        }
    }

    /// Finds the cells of the grid's extent whose text contains `query`,
    /// ignoring case, and moves the cursor to the first of them.
    pub fn update_find_matches(&mut self, query: &str) -> (r: Vec<(usize, usize)>)
        requires
            old(self).wf(),
        ensures
            query@.len() == 0 ==> r@.len() == 0,
            query@.len() > 0 ==> r@ == matches_in(
                old(self),
                lower_of(query@),
                old(self).num_rows as nat,
                old(self).num_cols as nat,
            ),
            final(self).cells == old(self).cells,
            final(self).num_rows == old(self).num_rows,
            final(self).num_cols == old(self).num_cols,
            final(self).selection_anchor == old(self).selection_anchor,
            r@.len() > 0 ==> final(self).cursor_row == r@[0].0 && final(self).cursor_col == r@[0].1,
            r@.len() == 0 ==> final(self).cursor_row == old(self).cursor_row && final(self).cursor_col
                == old(self).cursor_col,
    {
        let found = self.find_matches(query);
        if found.len() > 0 {
            self.cursor_row = found[0].0;
            self.cursor_col = found[0].1;
        }
        found
    }

    /// Finds the cells of the grid's extent whose text contains `query`,
    /// ignoring case, row by row; none for an empty query.
    pub fn find_matches(&self, query: &str) -> (r: Vec<(usize, usize)>)
        requires
            self.wf(),
        ensures
            query@.len() == 0 ==> r@.len() == 0,
            query@.len() > 0 ==> r@ == matches_in(
                self,
                lower_of(query@),
                self.num_rows as nat,
                self.num_cols as nat,
            ),
    {
        let mut out: Vec<(usize, usize)> = Vec::new();
        if query.is_empty() {
            return out;
        }
        let q = chars_of(to_lower(query).as_str());
        let mut row: usize = 0;
        while row < self.num_rows
            invariant
                self.wf(),
                row <= self.num_rows,
                q@ == lower_of(query@),
                out@ == matches_in(self, q@, row as nat, self.num_cols as nat),
            decreases self.num_rows - row,
        {
            let ghost before = out@;
            let mut col: usize = 0;
            while col < self.num_cols
                invariant
                    self.wf(),
                    row < self.num_rows,
                    col <= self.num_cols,
                    q@ == lower_of(query@),
                    out@ == before + row_matches(self, q@, row as nat, col as nat),
                decreases self.num_cols - col,
            {
                let text = self.get_cell(row, col);
                if !text.is_empty() {
                    let low = chars_of(to_lower(text).as_str());
                    if find_chars(&low, &q).is_some() {
                        out.push((row, col));
                    }
                }
                col += 1;
            }
            row += 1;
        }
        out
    }
}

/// Appends the `)` that a formula leaves open.
pub fn close_parens(buffer: &str) -> (r: String)
    ensures
        r@ == closed_spec(buffer@),
{
    let v = chars_of(buffer);
    let mut open: usize = 0;
    let mut close: usize = 0;
    let mut i: usize = 0;
    while i < v.len()
        invariant
            i <= v@.len(),
            open == count_char(v@.subrange(0, i as int), '('),
            close == count_char(v@.subrange(0, i as int), ')'),
            open <= i,
            close <= i,
        decreases v.len() - i,
    {
        assert(v@.subrange(0, i + 1).drop_last() =~= v@.subrange(0, i as int));
        if v[i] == '(' {
            open += 1;
        } else if v[i] == ')' {
            close += 1;
        }
        i += 1;
    }
    assert(v@.subrange(0, v@.len() as int) =~= v@);
    let mut out = crate::text::string_of(&v, 0, v.len());
    if open > close {
        let n = open - close;
        let mut k: usize = 0;
        while k < n
            invariant
                k <= n,
                out@ == v@ + Seq::new(k as nat, |j: int| ')'),
            decreases n - k,
        {
            push_char(&mut out, ')');
            assert(v@ + Seq::new((k + 1) as nat, |j: int| ')') =~= (v@ + Seq::new(
                k as nat,
                |j: int| ')',
            )).push(')'));
            k += 1;
        }
    }
    out
}

} // verus!
