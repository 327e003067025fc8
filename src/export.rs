//! Saving a sheet as CSV or TSV text: every row from the first to the last
//! that holds data, each with every column up to the last that holds data.
//! In CSV a field holding a comma, a quote or a newline is quoted, its
//! quotes doubled.
use crate::clipboard::join_with;
use crate::sheet::{bounds_of, Spreadsheet};
use crate::text::{chars_of, push_char};
use crate::types::SaveFormat;
use vstd::prelude::*;

verus! {

/// `s` with each `"` doubled.
pub open spec fn double_quotes(s: Seq<char>) -> Seq<char>
    decreases s.len(),
{
    if s.len() == 0 {
        Seq::empty()
    } else if s.last() == '"' {
        double_quotes(s.drop_last()) + seq!['"', '"']
    } else {
        double_quotes(s.drop_last()).push(s.last())
    }
}

/// A field as written: in CSV, quoted when it holds `,`, `"` or a newline.
pub open spec fn field_out(fmt: SaveFormat, s: Seq<char>) -> Seq<char> {
    if fmt == SaveFormat::Csv && (s.contains(',') || s.contains('"') || s.contains('\n')) {
        seq!['"'] + double_quotes(s) + seq!['"']
    } else {
        s
    }
}

/// The field separator of a format.
pub open spec fn sep_of(fmt: SaveFormat) -> char {
    if fmt == SaveFormat::Csv {
        ','
    } else {
        '\t'
    }
}

/// Row `r` as written, with columns `0..=mc`.
pub open spec fn export_line(s: &Spreadsheet, fmt: SaveFormat, r: usize, mc: usize) -> Seq<char> {
    join_with(Seq::new(mc as nat + 1, |c: int| field_out(fmt, s.cell(r, c as usize))), sep_of(fmt))
}

/// Lines, each followed by a newline.
pub open spec fn terminated(ls: Seq<Seq<char>>) -> Seq<char>
    decreases ls.len(),
{
    if ls.len() == 0 {
        Seq::empty()
    } else {
        terminated(ls.drop_last()) + ls.last() + seq!['\n']
    }
}

/// The saved text of a sheet.
pub open spec fn export_spec(s: &Spreadsheet, fmt: SaveFormat) -> Seq<char> {
    let (mr, mc) = bounds_of(s.cells@);
    terminated(Seq::new(mr as nat + 1, |r: int| export_line(s, fmt, r as usize, mc)))
}

fn append_chars(out: &mut String, v: &Vec<char>)
    ensures
        final(out)@ == old(out)@ + v@,
{
    let ghost start = out@;
    let mut k: usize = 0;
    while k < v.len()
        invariant
            k <= v@.len(),
            out@ == start + v@.subrange(0, k as int),
        decreases v.len() - k,
    {
        push_char(out, v[k]);
        assert(v@.subrange(0, k + 1) =~= v@.subrange(0, k as int).push(v@[k as int]));
        k += 1;
    }
    assert(v@.subrange(0, v@.len() as int) =~= v@);
}

/// Appends a field as the format writes it.
fn append_field(out: &mut String, fmt: SaveFormat, text: &str)
    ensures
        final(out)@ == old(out)@ + field_out(fmt, text@),
{
    let v = chars_of(text);
    let mut special = false;
    let mut i: usize = 0;
    while i < v.len()
        invariant
            i <= v@.len(),
            special == exists|k: int| 0 <= k < i && (v@[k] == ',' || v@[k] == '"' || v@[k] == '\n'),
        decreases v.len() - i,
    {
        if v[i] == ',' || v[i] == '"' || v[i] == '\n' {
            special = true;
        }
        i += 1;
    }
    proof {
        if special {
            let k = choose|k: int| 0 <= k < v@.len() && (v@[k] == ',' || v@[k] == '"' || v@[k] == '\n');
            assert(v@.contains(v@[k]));
        } else {
            assert(!v@.contains(',') && !v@.contains('"') && !v@.contains('\n')) by {
                if v@.contains(',') || v@.contains('"') || v@.contains('\n') {
                    let k = choose|k: int| 0 <= k < v@.len() && (v@[k] == ',' || v@[k] == '"' || v@[k] == '\n');
                    assert(false);
                }
            }
        }
    }
    if fmt == SaveFormat::Csv && special {
        push_char(out, '"');
        let ghost start = out@;
        let mut j: usize = 0;
        while j < v.len()
            invariant
                j <= v@.len(),
                out@ == start + double_quotes(v@.subrange(0, j as int)),
            decreases v.len() - j,
        {
            assert(v@.subrange(0, j + 1).drop_last() =~= v@.subrange(0, j as int));
            let ghost before = out@;
            if v[j] == '"' {
                push_char(out, '"');
                push_char(out, '"');
                assert(out@ =~= before + seq!['"', '"']);
            } else {
                push_char(out, v[j]);
            }
            j += 1;
        }
        assert(v@.subrange(0, v@.len() as int) =~= v@);
        push_char(out, '"');
    } else {
        append_chars(out, &v);
    }
}

impl Spreadsheet {
    /// The sheet as CSV or TSV text, one line per row.
    pub fn export_text(&self, fmt: SaveFormat) -> (r: String)
        requires
            self.wf(),
        ensures
            r@ == export_spec(self, fmt),
    {
        let (mr, mc) = self.get_data_bounds();
        let ghost lines = Seq::new(mr as nat + 1, |r: int| export_line(self, fmt, r as usize, mc));
        let sep = if fmt == SaveFormat::Csv {
            ','
        } else {
            '\t'
        };
        let mut out = String::new();
        let mut row: u128 = 0;
        assert(lines.subrange(0, 0) =~= Seq::<Seq<char>>::empty());
        while row <= mr as u128
            invariant
                self.wf(),
                row <= mr as u128 + 1,
                sep == sep_of(fmt),
                lines == Seq::new(mr as nat + 1, |r: int| export_line(self, fmt, r as usize, mc)),
                out@ == terminated(lines.subrange(0, row as int)),
            decreases mr as u128 + 1 - row,
        {
            let ghost fields = Seq::new(
                mc as nat + 1,
                |c: int| field_out(fmt, self.cell(row as usize, c as usize)),
            );
            let mut line = String::new();
            let mut col: u128 = 0;
            assert(fields.subrange(0, 0) =~= Seq::<Seq<char>>::empty());
            while col <= mc as u128
                invariant
                    self.wf(),
                    row <= mr,
                    col <= mc as u128 + 1,
                    sep == sep_of(fmt),
                    fields == Seq::new(
                        mc as nat + 1,
                        |c: int| field_out(fmt, self.cell(row as usize, c as usize)),
                    ),
                    line@ == join_with(fields.subrange(0, col as int), sep),
                decreases mc as u128 + 1 - col,
            {
                let ghost before = line@;
                if col > 0 {
                    push_char(&mut line, sep);
                }
                let ghost mid = line@;
                append_field(&mut line, fmt, self.get_cell(row as usize, col as usize));
                let ghost sub = fields.subrange(0, col + 1);
                assert(sub.drop_last() =~= fields.subrange(0, col as int));
                assert(sub.last() == fields[col as int]);
                if col == 0 {
                    assert(sub =~= seq![fields[0]]);
                    assert(line@ =~= fields[0]);
                }
                col += 1;
            }
            assert(fields.subrange(0, fields.len() as int) =~= fields);
            assert(lines[row as int] == line@);
            let lv = chars_of(line.as_str());
            append_chars(&mut out, &lv);
            push_char(&mut out, '\n');
            let ghost sub = lines.subrange(0, row + 1);
            assert(sub.drop_last() =~= lines.subrange(0, row as int));
            assert(sub.last() == line@);
            row += 1;
        }
        assert(lines.subrange(0, lines.len() as int) =~= lines);
        out
    }
}

/// The file name a sheet is saved under: the base name with the format's
/// extension.
pub fn save_file_name(base: &str, fmt: SaveFormat) -> (r: String)
    ensures
        r@ == base@ + if fmt == SaveFormat::Csv {
            seq!['.', 'c', 's', 'v']
        } else {
            seq!['.', 't', 's', 'v']
        },
{
    let mut out = String::from_str(base);
    let ext = if fmt == SaveFormat::Csv {
        vec!['.', 'c', 's', 'v']
    } else {
        vec!['.', 't', 's', 'v']
    };
    append_chars(&mut out, &ext);
    out
}

} // verus!
