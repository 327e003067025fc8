//! Reading white-space separated text into rows of words, and loading such
//! text (for example piped command output) into a sheet.
use crate::args::{sep_state, split_on, split_spec, split_words, views, words_spec, words_state};
use crate::sheet::{bounds_of, max_of, Spreadsheet, DEFAULT_COLS, DEFAULT_ROWS};
use vstd::prelude::*;

verus! {

/// The rows of words of the given lines; lines without words are skipped.
pub open spec fn table_of(lines: Seq<Seq<char>>) -> Seq<Seq<Seq<char>>>
    decreases lines.len(),
{
    if lines.len() == 0 {
        Seq::empty()
    } else if words_spec(lines.last()).len() > 0 {
        table_of(lines.drop_last()).push(words_spec(lines.last()))
    } else {
        table_of(lines.drop_last())
    }
}

/// The table of a text: its lines' words, blank lines skipped.
pub open spec fn table_spec(text: Seq<char>) -> Seq<Seq<Seq<char>>> {
    table_of(split_spec(text, '\n'))
}

pub open spec fn table_view(t: Seq<Vec<String>>) -> Seq<Seq<Seq<char>>> {
    t.map_values(|row: Vec<String>| views(row@))
}

/// The text a table puts at `(r, c)`: the word, or empty outside the table.
pub open spec fn table_cell(t: Seq<Seq<Seq<char>>>, r: int, c: int) -> Seq<char> {
    if 0 <= r < t.len() && 0 <= c < t[r].len() {
        t[r][c]
    } else {
        Seq::empty()
    }
}

/// The length of the longest row from position `i` on.
pub open spec fn max_width(t: Seq<Seq<Seq<char>>>) -> int
    decreases t.len(),
{
    if t.len() == 0 {
        0
    } else {
        let w = max_width(t.drop_last());
        if t.last().len() > w {
            t.last().len() as int
        } else {
            w
        }
    }
}

/// Splits text into lines and each line into words, dropping blank lines.
pub fn text_table(text: &str) -> (r: Vec<Vec<String>>)
    ensures
        table_view(r@) == table_spec(text@),
{
    let lines = split_on(text, '\n');
    let ghost ls = views(lines@);
    let mut out: Vec<Vec<String>> = Vec::new();
    let mut i: usize = 0;
    while i < lines.len()
        invariant
            i <= lines@.len(),
            ls == views(lines@),
            ls == split_spec(text@, '\n'),
            table_view(out@) == table_of(ls.subrange(0, i as int)),
        decreases lines.len() - i,
    {
        let words = split_words(lines[i].as_str());
        assert(ls.subrange(0, i + 1).drop_last() =~= ls.subrange(0, i as int));
        assert(ls[i as int] == lines@[i as int]@);
        if words.len() > 0 {
            let ghost before = out@;
            out.push(words);
            assert(table_view(out@) =~= table_view(before).push(words_spec(ls[i as int])));
        }
        i += 1;
    }
    assert(ls.subrange(0, lines@.len() as int) =~= ls);
    out
}

/// The width of the widest row of a table.
pub fn table_width(t: &Vec<Vec<String>>) -> (w: usize)
    ensures
        w == max_width(table_view(t@)),
{
    let ghost tv = table_view(t@);
    let mut w: usize = 0;
    let mut i: usize = 0;
    while i < t.len()
        invariant
            i <= t@.len(),
            tv == table_view(t@),
            w == max_width(tv.subrange(0, i as int)),
        decreases t.len() - i,
    {
        assert(tv.subrange(0, i + 1).drop_last() =~= tv.subrange(0, i as int));
        assert(tv[i as int].len() == t@[i as int]@.len());
        if t[i].len() > w {
            w = t[i].len();
        }
        i += 1;
    }
    assert(tv.subrange(0, t@.len() as int) =~= tv);
    w
}

proof fn lemma_words_state_bound(s: Seq<char>)
    ensures
        words_state(s).0.len() + words_state(s).1.len() <= s.len(),
    decreases s.len(),
{
    if s.len() > 0 {
        lemma_words_state_bound(s.drop_last());
    }
}

pub proof fn lemma_sep_state_bound(s: Seq<char>, sep: char)
    ensures
        sep_state(s, sep).0.len() + sep_state(s, sep).1.len() <= s.len(),
        forall|k: int|
            0 <= k < sep_state(s, sep).0.len() ==> (#[trigger] sep_state(s, sep).0[k]).len()
                <= s.len(),
    decreases s.len(),
{
    if s.len() > 0 {
        lemma_sep_state_bound(s.drop_last(), sep);
        let (p, c) = sep_state(s.drop_last(), sep);
        if s.last() == sep {
            assert forall|k: int|
                0 <= k < sep_state(s, sep).0.len() implies (#[trigger] sep_state(
                s,
                sep,
            ).0[k]).len() <= s.len() by {
                if k < p.len() {
                    assert(sep_state(s, sep).0[k] == p[k]);
                }
            }
        }
    }
}

proof fn lemma_max_width_bounds(t: Seq<Seq<Seq<char>>>)
    ensures
        forall|q: int| 0 <= q < t.len() ==> #[trigger] t[q].len() <= max_width(t),
        max_width(t) >= 0,
    decreases t.len(),
{
    if t.len() > 0 {
        lemma_max_width_bounds(t.drop_last());
        assert forall|q: int| 0 <= q < t.len() implies #[trigger] t[q].len() <= max_width(t) by {
            if q < t.len() - 1 {
                assert(t[q] == t.drop_last()[q]);
            }
        }
    }
}

proof fn lemma_table_of_bound(lines: Seq<Seq<char>>, m: int)
    requires
        forall|k: int| 0 <= k < lines.len() ==> (#[trigger] lines[k]).len() <= m,
        m >= 0,
    ensures
        table_of(lines).len() <= lines.len(),
        max_width(table_of(lines)) <= m,
    decreases lines.len(),
{
    if lines.len() > 0 {
        let init = lines.drop_last();
        assert forall|k: int| 0 <= k < init.len() implies (#[trigger] init[k]).len() <= m by {
            assert(init[k] == lines[k]);
        }
        lemma_table_of_bound(init, m);
        let w = words_spec(lines.last());
        lemma_words_state_bound(lines.last());
        assert(lines.last() == lines[lines.len() - 1]);
        if w.len() > 0 {
            assert(table_of(lines).drop_last() =~= table_of(init));
        }
    }
}

/// A table has at most one row more than its text has characters, and no
/// row longer than the text.
pub proof fn lemma_table_bounds(s: Seq<char>)
    ensures
        table_spec(s).len() <= s.len() + 1,
        max_width(table_spec(s)) <= s.len(),
        forall|q: int|
            0 <= q < table_spec(s).len() ==> #[trigger] table_spec(s)[q].len() <= max_width(
                table_spec(s),
            ),
{
    lemma_sep_state_bound(s, '\n');
    let (p, c) = sep_state(s, '\n');
    let lines = split_spec(s, '\n');
    assert forall|k: int| 0 <= k < lines.len() implies (#[trigger] lines[k]).len() <= s.len() by {
        if k < p.len() {
            assert(lines[k] == p[k]);
        }
    }
    lemma_table_of_bound(lines, s.len() as int);
    lemma_max_width_bounds(table_spec(s));
}

impl Spreadsheet {
    /// Loads white-space separated text: each non-blank line becomes a row
    /// and each word a cell; all earlier cells are dropped. The extent grows
    /// to fit the text and never falls below the default. Invalid UTF-8 is
    /// replaced, so loading never fails.
    pub fn load_from_buffer(&mut self, buffer: &[u8]) -> (r: Result<(), ()>)
        requires
            old(self).wf(),
        ensures
            r is Ok,
            final(self).wf(),
            forall|row: usize, col: usize|
                #[trigger] final(self).cell(row, col) == table_cell(
                    table_spec(lossy_of(buffer@)),
                    row as int,
                    col as int,
                ),
            final(self).num_rows as int == if table_spec(lossy_of(buffer@)).len()
                > DEFAULT_ROWS {
                table_spec(lossy_of(buffer@)).len() as int
            } else {
                DEFAULT_ROWS as int
            },
            final(self).num_cols as int == if max_width(table_spec(lossy_of(buffer@)))
                > DEFAULT_COLS {
                max_width(table_spec(lossy_of(buffer@)))
            } else {
                DEFAULT_COLS as int
            },
    {
        let text = decode_lossy(buffer);
        let t = text_table(text.as_str());
        self.load_table(&t);
        Ok(())
    }

    /// Replaces the sheet's cells with a table's texts, row by row; the
    /// extent, cursor and selection stay.
    pub fn fill_table(&mut self, t: &Vec<Vec<String>>)
        requires
            old(self).wf(),
        ensures
            final(self).wf(),
            forall|row: usize, col: usize|
                #[trigger] final(self).cell(row, col) == table_cell(
                    table_view(t@),
                    row as int,
                    col as int,
                ),
            final(self).num_rows == old(self).num_rows,
            final(self).num_cols == old(self).num_cols,
            final(self).cursor_row == old(self).cursor_row,
            final(self).cursor_col == old(self).cursor_col,
            final(self).selection_anchor == old(self).selection_anchor,
    {
        let ghost tv = table_view(t@);
        let ghost nr = self.num_rows;
        let ghost nc = self.num_cols;
        let ghost cr = self.cursor_row;
        let ghost cc = self.cursor_col;
        let ghost anchor = self.selection_anchor;
        self.clear_cells();
        let mut i: usize = 0;
        while i < t.len()
            invariant
                i <= t@.len(),
                tv == table_view(t@),
                self.wf(),
                self.num_rows == nr,
                self.num_cols == nc,
                self.cursor_row == cr,
                self.cursor_col == cc,
                self.selection_anchor == anchor,
                forall|row: usize, col: usize|
                    #[trigger] self.cell(row, col) == if (row < i && col < tv[row as int].len()) {
                        tv[row as int][col as int]
                    } else {
                        Seq::<char>::empty()
                    },
            decreases t.len() - i,
        {
            let row_words = &t[i];
            assert(tv[i as int] == views(row_words@));
            let mut j: usize = 0;
            while j < row_words.len()
                invariant
                    i < t@.len(),
                    j <= row_words@.len(),
                    tv == table_view(t@),
                    tv[i as int] == views(row_words@),
                    self.wf(),
                    self.num_rows == nr,
                    self.num_cols == nc,
                    self.cursor_row == cr,
                    self.cursor_col == cc,
                    self.selection_anchor == anchor,
                    forall|row: usize, col: usize|
                        #[trigger] self.cell(row, col) == if (row < i && col < tv[row as int].len())
                            || (row == i && col < j) {
                            tv[row as int][col as int]
                        } else {
                            Seq::<char>::empty()
                        },
                decreases row_words.len() - j,
            {
                let wr: &String = &row_words[j];
                let w = wr.clone();
                assert(*wr == row_words@[j as int]);
                assert(w == *wr);
                assert(views(row_words@)[j as int] == row_words@[j as int]@);
                assert(w@ == tv[i as int][j as int]);
                self.set_cell(i, j, w);
                j += 1;
            }
            i += 1;
        }
        assert(tv.len() == t@.len());
        assert forall|row: usize, col: usize|
            #[trigger] self.cell(row, col) == table_cell(tv, row as int, col as int) by {}
    }

    /// Replaces the sheet's cells with a table and fits the extent to it.
    pub fn load_table(&mut self, t: &Vec<Vec<String>>)
        requires
            old(self).wf(),
        ensures
            final(self).wf(),
            forall|row: usize, col: usize|
                #[trigger] final(self).cell(row, col) == table_cell(
                    table_view(t@),
                    row as int,
                    col as int,
                ),
            final(self).num_rows as int == if t@.len() > DEFAULT_ROWS {
                t@.len() as int
            } else {
                DEFAULT_ROWS as int
            },
            final(self).num_cols as int == if max_width(table_view(t@)) > DEFAULT_COLS {
                max_width(table_view(t@))
            } else {
                DEFAULT_COLS as int
            },
    {
        let rows = t.len();
        let width = table_width(t);
        self.num_rows = if rows > DEFAULT_ROWS {
            rows
        } else {
            DEFAULT_ROWS
        };
        self.num_cols = if width > DEFAULT_COLS {
            width
        } else {
            DEFAULT_COLS
        };
        self.fill_table(t);
    }
}

/// Why delimited data could not be read to its end.
#[derive(Clone, Copy, Debug, PartialEq, Eq, Structural)]
pub enum LoadError {
    /// A record was malformed (unequal field counts, invalid UTF-8).
    Malformed,
}

/// The extent that holds index `n`, at least `floor`.
pub open spec fn extent_for(n: usize, floor: usize) -> usize {
    if n < usize::MAX {
        max_of((n + 1) as usize, floor)
    } else {
        n
    }
}

impl Spreadsheet {
    /// Loads delimited records (CSV with `,`, TSV with a tab; no header
    /// row): record `i` fills row `i`, field `j` column `j`, after all
    /// earlier cells are dropped. When a record cannot be read, the records
    /// before it stay loaded, the extent is kept and `Malformed` is
    /// returned; otherwise the extent fits the data, never below the default.
    pub fn load_delimited(&mut self, data: &[u8], delimiter: u8) -> (r: Result<(), LoadError>)
        requires
            old(self).wf(),
        ensures
            final(self).wf(),
            forall|row: usize, col: usize|
                #[trigger] final(self).cell(row, col) == table_cell(
                    csv_read(data@, delimiter).0,
                    row as int,
                    col as int,
                ),
            r is Err == csv_read(data@, delimiter).1,
            r is Err ==> final(self).num_rows == old(self).num_rows && final(self).num_cols == old(
                self,
            ).num_cols,
            r is Ok ==> final(self).num_rows == extent_for(bounds_of(final(self).cells@).0, DEFAULT_ROWS)
                && final(self).num_cols == extent_for(bounds_of(final(self).cells@).1, DEFAULT_COLS),
    {
        let (rows, failed) = read_records(data, delimiter);
        self.fill_table(&rows);
        assert forall|row: usize, col: usize|
            #[trigger] crate::sheet::text_in(self.cells@, row, col) == table_cell(
                csv_read(data@, delimiter).0,
                row as int,
                col as int,
            ) by {
            assert(self.cell(row, col) == table_cell(table_view(rows@), row as int, col as int));
        }
        if failed {
            return Err(LoadError::Malformed);
        }
        let ghost es = self.cells@;
        let (mr, mc) = self.get_data_bounds();
        self.num_rows = if mr < usize::MAX {
            if mr + 1 > DEFAULT_ROWS {
                mr + 1
            } else {
                DEFAULT_ROWS
            }
        } else {
            mr
        };
        self.num_cols = if mc < usize::MAX {
            if mc + 1 > DEFAULT_COLS {
                mc + 1
            } else {
                DEFAULT_COLS
            }
        } else {
            mc
        };
        assert forall|row: usize, col: usize|
            #[trigger] self.cell(row, col) == crate::sheet::text_in(es, row, col) by {}
        Ok(())
    }

    /// Loads comma-separated records (see `load_delimited`).
    pub fn load_csv(&mut self, data: &[u8]) -> (r: Result<(), LoadError>)
        requires
            old(self).wf(),
        ensures
            final(self).wf(),
            forall|row: usize, col: usize|
                #[trigger] final(self).cell(row, col) == table_cell(
                    csv_read(data@, 44u8).0,
                    row as int,
                    col as int,
                ),
            r is Err == csv_read(data@, 44u8).1,
    {
        self.load_delimited(data, 44u8)
    }

    /// Loads tab-separated records (see `load_delimited`).
    pub fn load_tsv(&mut self, data: &[u8]) -> (r: Result<(), LoadError>)
        requires
            old(self).wf(),
        ensures
            final(self).wf(),
            forall|row: usize, col: usize|
                #[trigger] final(self).cell(row, col) == table_cell(
                    csv_read(data@, 9u8).0,
                    row as int,
                    col as int,
                ),
            r is Err == csv_read(data@, 9u8).1,
    {
        self.load_delimited(data, 9u8)
    }
}

/// What the `csv` crate reads from bytes with the given delimiter and no
/// header row: the fields of the records before the first error, and
/// whether an error stopped the reading.
pub uninterp spec fn csv_read(data: Seq<u8>, delimiter: u8) -> (Seq<Seq<Seq<char>>>, bool);

/// Relies on `csv::Reader::records` (reader built by `csv::ReaderBuilder`
/// with the delimiter and no header row): the records up to the first
/// error, each as its fields' texts, and whether an error came.
#[verifier::external_body]
fn read_records(data: &[u8], delimiter: u8) -> (r: (Vec<Vec<String>>, bool))
    ensures
        table_view(r.0@) == csv_read(data@, delimiter).0,
        r.1 == csv_read(data@, delimiter).1,
{
    let mut reader = csv::ReaderBuilder::new().delimiter(delimiter).has_headers(false).from_reader(data);
    let mut rows: Vec<Vec<String>> = Vec::new();
    for record in reader.records() {
        match record {
            Ok(fields) => rows.push(fields.iter().map(|f| f.to_string()).collect()),
            Err(_) => return (rows, true),
        }
    }
    (rows, false)
}

/// What `String::from_utf8_lossy` gives for a byte sequence.
pub uninterp spec fn lossy_of(b: Seq<u8>) -> Seq<char>;

/// Relies on `String::from_utf8_lossy`: the text of the bytes, with each
/// invalid sequence replaced; a function of the bytes.
#[verifier::external_body]
fn decode_lossy(b: &[u8]) -> (r: String)
    ensures
        r@ == lossy_of(b@),
{
    String::from_utf8_lossy(b).into_owned()
}

} // verus!
