//! The cell bookkeeping of `VLOOKUP` and `SUMIF`: which rows a lookup scans,
//! which row it settles on, and which cell is summed for which criteria cell.
//! Comparing numbers is the caller's part; it hands over what it found.
use crate::cellref::{parse_cell_ref, ref_spec};
use crate::range::{range_cells, range_spec};
use crate::text::{chars_of, find_seq, find_span, string_of, trim, trim_seq};
use vstd::prelude::*;

verus! {

/// The rows whose cell lies in column `target`, in order.
pub open spec fn rows_in_col(cells: Seq<(usize, usize)>, target: usize) -> Seq<usize>
    decreases cells.len(),
{
    if cells.len() == 0 {
        Seq::empty()
    } else if cells.last().1 == target {
        rows_in_col(cells.drop_last(), target).push(cells.last().0)
    } else {
        rows_in_col(cells.drop_last(), target)
    }
}

/// The largest column among the cells of row `row`, at least `floor`.
pub open spec fn max_col_in_row(cells: Seq<(usize, usize)>, row: usize, floor: usize) -> usize
    decreases cells.len(),
{
    if cells.len() == 0 {
        floor
    } else {
        let m = max_col_in_row(cells.drop_last(), row, floor);
        if cells.last().0 == row && cells.last().1 > m {
            cells.last().1
        } else {
            m
        }
    }
}

proof fn lemma_max_col_ge(cells: Seq<(usize, usize)>, row: usize, floor: usize)
    ensures
        max_col_in_row(cells, row, floor) >= floor,
    decreases cells.len(),
{
    if cells.len() > 0 {
        lemma_max_col_ge(cells.drop_last(), row, floor);
    }
}

/// Why a lookup cannot scan its table.
#[derive(Clone, Copy, Debug, PartialEq, Eq, Structural)]
pub enum LookupError {
    /// The column index is 0 or beyond the table's first row (`#ERROR`).
    BadColumn,
    /// The table covers no cell (`#N/A`).
    NoTable,
}

/// The scan of a lookup over `cells` for the one-based column `col_index`:
/// the lookup column (the first cell's), the column whose cell is returned,
/// and the rows of the lookup column's cells. The table's width is taken
/// from its first row.
pub open spec fn layout_spec(cells: Seq<(usize, usize)>, col_index: usize) -> Result<
    (usize, usize, Seq<usize>),
    LookupError,
> {
    if col_index == 0 {
        Err(LookupError::BadColumn)
    } else if cells.len() == 0 {
        Err(LookupError::NoTable)
    } else {
        let target = cells[0].1;
        let last = max_col_in_row(cells, cells[0].0, target);
        if col_index - 1 > last - target {
            Err(LookupError::BadColumn)
        } else {
            Ok((target, (target + col_index - 1) as usize, rows_in_col(cells, target)))
        }
    }
}

/// Lays out the scan of a lookup (see `layout_spec`).
pub fn vlookup_layout(cells: &Vec<(usize, usize)>, col_index: usize) -> (r: Result<
    (usize, usize, Vec<usize>),
    LookupError,
>)
    ensures
        match r {
            Ok((t, c, rows)) => layout_spec(cells@, col_index) == Ok::<
                (usize, usize, Seq<usize>),
                LookupError,
            >((t, c, rows@)),
            Err(e) => layout_spec(cells@, col_index) == Err::<(usize, usize, Seq<usize>), LookupError>(
                e,
            ),
        },
{
    if col_index == 0 {
        return Err(LookupError::BadColumn);
    }
    if cells.len() == 0 {
        return Err(LookupError::NoTable);
    }
    let first_row = cells[0].0;
    let target = cells[0].1;
    let mut max_col = target;
    let mut rows: Vec<usize> = Vec::new();
    let mut i: usize = 0;
    while i < cells.len()
        invariant
            i <= cells@.len(),
            cells@.len() > 0,
            first_row == cells@[0].0,
            target == cells@[0].1,
            max_col == max_col_in_row(cells@.subrange(0, i as int), first_row, target),
            rows@ == rows_in_col(cells@.subrange(0, i as int), target),
        decreases cells.len() - i,
    {
        assert(cells@.subrange(0, i + 1).drop_last() =~= cells@.subrange(0, i as int));
        let (r, c) = cells[i];
        if r == first_row && c > max_col {
            max_col = c;
        }
        if c == target {
            rows.push(r);
        }
        i += 1;
    }
    assert(cells@.subrange(0, cells@.len() as int) =~= cells@);
    proof {
        lemma_max_col_ge(cells@, first_row, target);
    }
    if col_index - 1 > max_col - target {
        return Err(LookupError::BadColumn);
    }
    Ok((target, target + (col_index - 1), rows))
}

/// What the caller found when comparing one lookup-column cell with the
/// value looked up.
#[derive(Clone, Copy, Debug)]
pub struct KeyFacts {
    /// The cell's text reads as a number.
    pub cell_number: bool,
    /// The looked-up value reads as a number.
    pub lookup_number: bool,
    /// Both are numbers and the cell's is not above the looked-up one.
    pub not_above: bool,
    /// Both are numbers and they differ by less than machine epsilon.
    pub near: bool,
    /// The cell's text equals the looked-up text.
    pub text_equal: bool,
}

/// The row (position among the scanned cells) a lookup settles on, scanning
/// from `i` with `found` the row taken so far. Approximate mode takes each
/// numeric key not above the value and stops at the first one above;
/// exact mode stops at the first numeric key near the value. In both, a
/// non-numeric key equal to the value is taken and ends the scan.
pub open spec fn lookup_from(facts: Seq<KeyFacts>, approximate: bool, i: int, found: Option<int>) -> Option<int>
    decreases facts.len() - i,
{
    if i < 0 || i >= facts.len() {
        found
    } else {
        let f = facts[i];
        if f.cell_number {
            if approximate {
                if f.lookup_number {
                    if f.not_above {
                        lookup_from(facts, approximate, i + 1, Some(i))
                    } else {
                        found
                    }
                } else {
                    lookup_from(facts, approximate, i + 1, found)
                }
            } else if f.lookup_number && f.near {
                Some(i)
            } else {
                lookup_from(facts, approximate, i + 1, found)
            }
        } else if f.text_equal {
            Some(i)
        } else {
            lookup_from(facts, approximate, i + 1, found)
        }
    }
}

/// Chooses the matching row of a lookup from the facts on each scanned cell.
pub fn vlookup_match(facts: &Vec<KeyFacts>, approximate: bool) -> (r: Option<usize>)
    ensures
        match r {
            Some(i) => lookup_from(facts@, approximate, 0, None) == Some(i as int),
            None => lookup_from(facts@, approximate, 0, None) is None,
        },
{
    let mut found: Option<usize> = None;
    let mut i: usize = 0;
    while i < facts.len()
        invariant
            i <= facts@.len(),
            found matches Some(k) ==> k < i,
            lookup_from(facts@, approximate, 0, None) == lookup_from(
                facts@,
                approximate,
                i as int,
                match found {
                    Some(k) => Some(k as int),
                    None => None,
                },
            ),
        decreases facts.len() - i,
    {
        let f = facts[i];
        if f.cell_number {
            if approximate {
                if f.lookup_number {
                    if f.not_above {
                        found = Some(i);
                    } else {
                        return found;
                    }
                }
            } else if f.lookup_number && f.near {
                return Some(i);
            }
        } else if f.text_equal {
            return Some(i);
        }
        i += 1;
    }
    found
}

/// Splits a trimmed range argument at its first `:` into trimmed corners.
pub open spec fn corners(t: Seq<char>) -> Option<(Seq<char>, Seq<char>)> {
    match find_seq(t, seq![':']) {
        Some(k) => Some((trim_seq(t.subrange(0, k)), trim_seq(t.subrange(k + 1, t.len() as int)))),
        None => None,
    }
}

/// The cells a `SUMIF` sum range names: a range's cells, or one cell.
pub open spec fn sum_cells_spec(sr: Seq<char>) -> Option<Seq<(usize, usize)>> {
    match corners(sr) {
        Some((a, b)) => range_spec(a, b),
        None => match ref_spec(sr) {
            Some(p) => Some(seq![p]),
            None => None,
        },
    }
}

/// For each criteria cell of `SUMIF`, the cell whose value is summed when
/// the criteria cell matches; `None` (giving `#ERROR`) for a malformed
/// range, or a range sum range of another size.
pub open spec fn sumif_spec(range: Seq<char>, sum_range: Option<Seq<char>>) -> Option<
    Seq<((usize, usize), Option<(usize, usize)>)>,
> {
    match corners(range) {
        Some((a, b)) => match range_spec(a, b) {
            None => None,
            Some(crit) => {
                let sums = match sum_range {
                    Some(sr) => sum_cells_spec(sr),
                    None => Some(crit),
                };
                match sums {
                    None => None,
                    Some(s) => if s.len() == crit.len() {
                        Some(Seq::new(crit.len(), |i: int| (crit[i], Some(s[i]))))
                    } else {
                        None
                    },
                }
            },
        },
        None => match ref_spec(range) {
            Some(p) => Some(
                seq![
                    (
                        p,
                        match sum_range {
                            Some(sr) => ref_spec(sr),
                            None => Some(p),
                        },
                    ),
                ],
            ),
            None => None,
        },
    }
}

pub open spec fn opt_view(o: Option<&str>) -> Option<Seq<char>> {
    match o {
        Some(s) => Some(s@),
        None => None,
    }
}

fn colon() -> (r: Vec<char>)
    ensures
        r@ == seq![':'],
{
    vec![':']
}

fn split_corners(t: &str) -> (r: Option<(String, String)>)
    ensures
        match r {
            Some((a, b)) => corners(t@) == Some((a@, b@)),
            None => corners(t@) is None,
        },
{
    let v = chars_of(t);
    match find_span(&v, &colon()) {
        Some((k, k1)) => {
            let a = trim(string_of(&v, 0, k).as_str());
            let b = trim(string_of(&v, k1, v.len()).as_str());
            Some((a, b))
        },
        None => None,
    }
}

fn sum_cells(sr: &str) -> (r: Option<Vec<(usize, usize)>>)
    ensures
        match r {
            Some(v) => sum_cells_spec(sr@) == Some(v@),
            None => sum_cells_spec(sr@) is None,
        },
{
    match split_corners(sr) {
        Some((a, b)) => range_cells(a.as_str(), b.as_str()),
        None => match parse_cell_ref(sr) {
            Some(p) => Some(vec![p]),
            None => None,
        },
    }
}

fn pair_up(crit: &Vec<(usize, usize)>, s: &Vec<(usize, usize)>) -> (r: Vec<
    ((usize, usize), Option<(usize, usize)>),
>)
    requires
        s@.len() == crit@.len(),
    ensures
        r@ == Seq::new(crit@.len(), |k: int| (crit@[k], Some(s@[k]))),
{
    let mut out: Vec<((usize, usize), Option<(usize, usize)>)> = Vec::new();
    let mut i: usize = 0;
    while i < crit.len()
        invariant
            i <= crit@.len(),
            s@.len() == crit@.len(),
            out@ == Seq::new(i as nat, |k: int| (crit@[k], Some(s@[k]))),
        decreases crit.len() - i,
    {
        out.push((crit[i], Some(s[i])));
        assert(out@ =~= Seq::new((i + 1) as nat, |k: int| (crit@[k], Some(s@[k]))));
        i += 1;
    }
    out
}

/// Pairs each `SUMIF` criteria cell with the cell summed for it. `range`
/// and `sum_range` are the trimmed arguments.
pub fn sumif_pairs(range: &str, sum_range: Option<&str>) -> (r: Option<
    Vec<((usize, usize), Option<(usize, usize)>)>,
>)
    ensures
        match r {
            Some(v) => sumif_spec(range@, opt_view(sum_range)) == Some(v@),
            None => sumif_spec(range@, opt_view(sum_range)) is None,
        },
{
    match split_corners(range) {
        Some((a, b)) => match range_cells(a.as_str(), b.as_str()) {
            None => None,
            Some(crit) => match sum_range {
                Some(sr) => match sum_cells(sr) {
                    None => None,
                    Some(s) => {
                        if s.len() != crit.len() {
                            None
                        } else {
                            Some(pair_up(&crit, &s))
                        }
                    },
                },
                None => Some(pair_up(&crit, &crit)),
            },
        },
        None => match parse_cell_ref(range) {
            Some(p) => {
                let target = match sum_range {
                    Some(sr) => parse_cell_ref(sr),
                    None => Some(p),
                };
                let out = vec![(p, target)];
                assert(out@ =~= seq![(p, target)]);
                Some(out)
            },
            None => None,
        },
    }
}

} // verus!
