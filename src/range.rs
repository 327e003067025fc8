//! Ranges such as `A1:B3` and the operands of the aggregate functions.
//! A range denotes the rectangle spanned by its two corners, whichever
//! corner comes first; its cells are listed row by row.
use crate::args::{sep_state, split_on, split_spec, views};
use crate::cellref::{col_label, dec_label, parse_cell_ref, ref_spec};
use crate::text::{chars_of, find_from, find_seq, find_span, is_ws, string_of, trim, trim_seq};
use vstd::prelude::*;

verus! {

pub open spec fn min_u(a: usize, b: usize) -> usize {
    if a < b {
        a
    } else {
        b
    }
}

pub open spec fn max_u(a: usize, b: usize) -> usize {
    if a < b {
        b
    } else {
        a
    }
}

/// The cells of row `r` from column `c0` to `c1`, both included.
pub open spec fn row_cells(r: int, c0: int, c1: int) -> Seq<(usize, usize)> {
    Seq::new((c1 - c0 + 1) as nat, |k: int| (r as usize, (c0 + k) as usize))
}

/// The cells of rows `r0` to `r1` and columns `c0` to `c1`, row by row.
pub open spec fn rect_cells(r0: int, r1: int, c0: int, c1: int) -> Seq<(usize, usize)>
    decreases r1 - r0 + 1,
{
    if r1 < r0 {
        Seq::empty()
    } else {
        rect_cells(r0, r1 - 1, c0, c1) + row_cells(r1, c0, c1)
    }
}

/// The cells of the rectangle with corners `a` and `b` (row, column).
pub open spec fn span_spec(a: (usize, usize), b: (usize, usize)) -> Seq<(usize, usize)> {
    rect_cells(
        min_u(a.0, b.0) as int,
        max_u(a.0, b.0) as int,
        min_u(a.1, b.1) as int,
        max_u(a.1, b.1) as int,
    )
}

/// The cells of the range with corner texts `start` and `end`, or `None`
/// when either corner is not a cell address.
pub open spec fn range_spec(start: Seq<char>, end: Seq<char>) -> Option<Seq<(usize, usize)>> {
    match (ref_spec(start), ref_spec(end)) {
        (Some(a), Some(b)) => Some(span_spec(a, b)),
        _ => None,
    }
}

/// The cells of the rectangle spanned by corners `a` and `b`, row by row.
pub fn span_cells(a: (usize, usize), b: (usize, usize)) -> (r: Vec<(usize, usize)>)
    requires
        a.0 < usize::MAX,
        a.1 < usize::MAX,
        b.0 < usize::MAX,
        b.1 < usize::MAX,
    ensures
        r@ == span_spec(a, b),
{
    let r0 = if a.0 < b.0 {
        a.0
    } else {
        b.0
    };
    let r1 = if a.0 < b.0 {
        b.0
    } else {
        a.0
    };
    let c0 = if a.1 < b.1 {
        a.1
    } else {
        b.1
    };
    let c1 = if a.1 < b.1 {
        b.1
    } else {
        a.1
    };
    let mut out: Vec<(usize, usize)> = Vec::new();
    let mut row = r0;
    while row <= r1
        invariant
            r0 <= row <= r1 + 1,
            r1 < usize::MAX,
            c0 <= c1 < usize::MAX,
            out@ == rect_cells(r0 as int, row - 1, c0 as int, c1 as int),
        decreases r1 + 1 - row,
    {
        let mut col = c0;
        while col <= c1
            invariant
                c0 <= col <= c1 + 1,
                c1 < usize::MAX,
                r0 <= row <= r1,
                out@ == rect_cells(r0 as int, row - 1, c0 as int, c1 as int) + Seq::new(
                    (col - c0) as nat,
                    |k: int| (row, (c0 + k) as usize),
                ),
            decreases c1 + 1 - col,
        {
            let ghost prev = out@;
            out.push((row, col));
            assert(rect_cells(r0 as int, row - 1, c0 as int, c1 as int) + Seq::new(
                (col + 1 - c0) as nat,
                |k: int| (row, (c0 + k) as usize),
            ) =~= prev.push((row, col)));
            col += 1;
        }
        assert(Seq::new((c1 + 1 - c0) as nat, |k: int| (row, (c0 + k) as usize)) =~= row_cells(
            row as int,
            c0 as int,
            c1 as int,
        ));
        row += 1;
    }
    out
}

/// The cells of the range `start:end`, or `None` when a corner is not an address.
pub fn range_cells(start: &str, end: &str) -> (r: Option<Vec<(usize, usize)>>)
    ensures
        match r {
            Some(v) => range_spec(start@, end@) == Some(v@),
            None => range_spec(start@, end@) is None,
        },
{
    match (parse_cell_ref(start), parse_cell_ref(end)) {
        (Some(a), Some(b)) => Some(span_cells(a, b)),
        _ => None,
    }
}

/// One operand of an aggregate function.
#[derive(Debug)]
pub enum Operand {
    /// A cell of a range: only its numeric value counts.
    Cell(usize, usize),
    /// A single argument: the cell it names, if any, and its text, which is
    /// read as a number when the cell gives none.
    Value(Option<(usize, usize)>, String),
}

/// An operand, with its text as characters.
pub enum OperandModel {
    Cell(usize, usize),
    Value(Option<(usize, usize)>, Seq<char>),
}

impl View for Operand {
    type V = OperandModel;

    open spec fn view(&self) -> OperandModel {
        match self {
            Operand::Cell(r, c) => OperandModel::Cell(*r, *c),
            Operand::Value(p, t) => OperandModel::Value(*p, t@),
        }
    }
}

pub open spec fn operands_view(v: Seq<Operand>) -> Seq<OperandModel> {
    v.map_values(|o: Operand| o@)
}

pub open spec fn cells_as_operands(cells: Seq<(usize, usize)>) -> Seq<OperandModel> {
    cells.map_values(|p: (usize, usize)| OperandModel::Cell(p.0, p.1))
}

/// The operands of one trimmed argument: the cells of a range, or the
/// argument itself; `None` when a range has a corner that is no address.
pub open spec fn arg_operands(t: Seq<char>) -> Option<Seq<OperandModel>> {
    match find_seq(t, seq![':']) {
        Some(k) => match range_spec(t.subrange(0, k), t.subrange(k + 1, t.len() as int)) {
            Some(c) => Some(cells_as_operands(c)),
            None => None,
        },
        None => Some(seq![OperandModel::Value(ref_spec(t), t)]),
    }
}

/// The operands of a list of arguments, each trimmed first.
pub open spec fn operands_of(parts: Seq<Seq<char>>) -> Option<Seq<OperandModel>>
    decreases parts.len(),
{
    if parts.len() == 0 {
        Some(Seq::empty())
    } else {
        match (operands_of(parts.drop_last()), arg_operands(trim_seq(parts.last()))) {
            (Some(a), Some(b)) => Some(a + b),
            _ => None,
        }
    }
}

/// The operands of an aggregate call's argument text, whose arguments are
/// split at every comma.
pub open spec fn aggregate_spec(args: Seq<char>) -> Option<Seq<OperandModel>> {
    operands_of(split_spec(args, ','))
}

fn colon() -> (r: Vec<char>)
    ensures
        r@ == seq![':'],
{
    vec![':']
}

fn arg_operands_exec(t: &String, out: &mut Vec<Operand>) -> (ok: bool)
    ensures
        match arg_operands(t@) {
            Some(s) => ok && operands_view(final(out)@) == operands_view(old(out)@) + s,
            None => !ok,
        },
{
    let v = chars_of(t.as_str());
    match find_span(&v, &colon()) {
        Some((k, k1)) => {
            let start = string_of(&v, 0, k);
            let end = string_of(&v, k1, v.len());
            match range_cells(start.as_str(), end.as_str()) {
                Some(cells) => {
                    let ghost base = operands_view(out@);
                    let mut i: usize = 0;
                    while i < cells.len()
                        invariant
                            i <= cells@.len(),
                            operands_view(out@) == base + cells_as_operands(
                                cells@.subrange(0, i as int),
                            ),
                        decreases cells.len() - i,
                    {
                        let (r, c) = cells[i];
                        let ghost before = out@;
                        out.push(Operand::Cell(r, c));
                        assert(operands_view(out@) =~= operands_view(before).push(
                            OperandModel::Cell(r, c),
                        ));
                        assert(cells_as_operands(cells@.subrange(0, i + 1)) =~= cells_as_operands(
                            cells@.subrange(0, i as int),
                        ).push(OperandModel::Cell(r, c)));
                        i += 1;
                    }
                    assert(cells@.subrange(0, cells@.len() as int) =~= cells@);
                    true
                },
                None => false,
            }
        },
        None => {
            let ghost before = out@;
            out.push(Operand::Value(parse_cell_ref(t.as_str()), t.clone()));
            assert(operands_view(out@) =~= operands_view(before) + seq![
                OperandModel::Value(ref_spec(t@), t@),
            ]);
            true
        },
    }
}

/// The operands of an aggregate function (`SUM`, `AVG`, `MIN`, `MAX`,
/// `COUNT`, `COUNTA`, `PRODUCT`, `MEDIAN`): the arguments are split at every
/// comma and trimmed; a range gives its cells, any other argument itself.
/// `None` when a range has a corner that is no cell address.
pub fn aggregate_operands(args: &str) -> (r: Option<Vec<Operand>>)
    ensures
        match r {
            Some(v) => aggregate_spec(args@) == Some(operands_view(v@)),
            None => aggregate_spec(args@) is None,
        },
{
    let parts = split_on(args, ',');
    let ghost ps = views(parts@);
    let mut out: Vec<Operand> = Vec::new();
    let mut i: usize = 0;
    while i < parts.len()
        invariant
            i <= parts@.len(),
            ps == views(parts@),
            ps == split_spec(args@, ','),
            operands_of(ps.subrange(0, i as int)) == Some(operands_view(out@)),
        decreases parts.len() - i,
    {
        let t = trim(parts[i].as_str());
        assert(ps.subrange(0, i + 1).drop_last() =~= ps.subrange(0, i as int));
        assert(ps[i as int] == parts@[i as int]@);
        if !arg_operands_exec(&t, &mut out) {
            proof {
                lemma_operands_none_extends(ps, i as int + 1);
            }
            return None;
        }
        i += 1;
    }
    assert(ps.subrange(0, parts@.len() as int) =~= ps);
    Some(out)
}

/// Once a prefix of the arguments has no operands, neither has the whole list.
proof fn lemma_operands_none_extends(ps: Seq<Seq<char>>, i: int)
    requires
        0 <= i <= ps.len(),
        operands_of(ps.subrange(0, i)) is None,
    ensures
        operands_of(ps) is None,
    decreases ps.len() - i,
{
    if i < ps.len() {
        assert(ps.subrange(0, i + 1).drop_last() =~= ps.subrange(0, i));
        lemma_operands_none_extends(ps, i + 1);
    } else {
        assert(ps.subrange(0, i) =~= ps);
    }
}

/// The cells that a range argument of `COUNTIF`, `SUMIF`, `AVERAGEIF` or
/// `VLOOKUP` covers: a trimmed range, or a single address; empty otherwise.
pub open spec fn collect_spec(range: Seq<char>) -> Seq<(usize, usize)> {
    let t = trim_seq(range);
    match find_seq(t, seq![':']) {
        Some(k) => match range_spec(
            trim_seq(t.subrange(0, k)),
            trim_seq(t.subrange(k + 1, t.len() as int)),
        ) {
            Some(c) => c,
            None => Seq::empty(),
        },
        None => match ref_spec(t) {
            Some(p) => seq![p],
            None => Seq::empty(),
        },
    }
}

/// The cells that a range argument covers, row by row; empty when it is
/// neither a range nor an address.
pub fn collect_range_cells(range: &str) -> (r: Vec<(usize, usize)>)
    ensures
        r@ == collect_spec(range@),
{
    let t = trim(range);
    let v = chars_of(t.as_str());
    match find_span(&v, &colon()) {
        Some((k, k1)) => {
            let start = trim(string_of(&v, 0, k).as_str());
            let end = trim(string_of(&v, k1, v.len()).as_str());
            match range_cells(start.as_str(), end.as_str()) {
                Some(cells) => cells,
                None => Vec::new(),
            }
        },
        None => match parse_cell_ref(t.as_str()) {
            Some(p) => vec![p],
            None => Vec::new(),
        },
    }
}

/// Swapping the corners of a rectangle gives the same cells in the same order.
pub proof fn lemma_span_symmetric(a: (usize, usize), b: (usize, usize))
    ensures
        span_spec(a, b) == span_spec(b, a),
{
}

proof fn lemma_find_single(s: Seq<char>, c: char, k: int, i: int)
    requires
        0 <= i <= k < s.len(),
        s[k] == c,
        forall|j: int| 0 <= j < k ==> s[j] != c,
    ensures
        find_from(s, seq![c], i) == Some(k),
    decreases k - i,
{
    if i < k {
        assert(s.subrange(i, i + 1)[0] == s[i]);
        assert(s.subrange(i, i + 1) != seq![c]);
        lemma_find_single(s, c, k, i + 1);
    } else {
        assert(s.subrange(k, k + 1) =~= seq![c]);
    }
}

proof fn lemma_split_none(s: Seq<char>, sep: char)
    requires
        !s.contains(sep),
    ensures
        sep_state(s, sep) == (Seq::<Seq<char>>::empty(), s),
    decreases s.len(),
{
    if s.len() > 0 {
        assert(!s.drop_last().contains(sep)) by {
            if s.drop_last().contains(sep) {
                let j = choose|j: int| 0 <= j < s.drop_last().len() && s.drop_last()[j] == sep;
                assert(s[j] == sep);
            }
        }
        lemma_split_none(s.drop_last(), sep);
        assert(s.last() != sep) by {
            assert(s[s.len() - 1] == s.last());
        }
        assert(s.drop_last().push(s.last()) =~= s);
    }
}

proof fn lemma_trim_plain(s: Seq<char>)
    requires
        forall|k: int| 0 <= k < s.len() ==> !is_ws(#[trigger] s[k]),
    ensures
        trim_seq(s) == s,
{
    crate::text::lemma_lead_ws_bounds(s);
    if s.len() > 0 {
        assert(crate::text::lead_ws(s) == 0);
    }
    let t = s.subrange(crate::text::lead_ws(s), s.len() as int);
    assert(t =~= s);
    crate::text::lemma_trail_end_bounds(t);
    assert(t.subrange(0, t.len() as int) =~= t);
}

/// Corner texts with no white space, `:` or `,`.
pub open spec fn plain_corner(a: Seq<char>) -> bool {
    forall|k: int| 0 <= k < a.len() ==> !is_ws(#[trigger] a[k]) && a[k] != ':' && a[k] != ','
}

proof fn lemma_joined_range(a: Seq<char>, b: Seq<char>)
    requires
        plain_corner(a),
        plain_corner(b),
    ensures
        aggregate_spec(a + seq![':'] + b) == match range_spec(a, b) {
            Some(c) => Some(cells_as_operands(c)),
            None => None::<Seq<OperandModel>>,
        },
        collect_spec(a + seq![':'] + b) == match range_spec(a, b) {
            Some(c) => c,
            None => Seq::<(usize, usize)>::empty(),
        },
{
    let s = a + seq![':'] + b;
    let k = a.len() as int;
    assert(s[k] == ':');
    assert forall|j: int| 0 <= j < k implies s[j] != ':' by {
        assert(s[j] == a[j]);
    }
    assert forall|j: int| 0 <= j < s.len() implies !is_ws(#[trigger] s[j]) && s[j] != ',' by {
        if j < k {
            assert(s[j] == a[j]);
        } else if j > k {
            assert(s[j] == b[j - k - 1]);
        }
    }
    assert(!s.contains(',')) by {
        if s.contains(',') {
            let j = choose|j: int| 0 <= j < s.len() && s[j] == ',';
            assert(false);
        }
    }
    lemma_split_none(s, ',');
    assert(split_spec(s, ',') =~= seq![s]);
    lemma_trim_plain(s);
    lemma_find_single(s, ':', k, 0);
    assert(s.subrange(0, k) =~= a);
    assert(s.subrange(k + 1, s.len() as int) =~= b);
    lemma_trim_plain(a);
    lemma_trim_plain(b);
    let ps = seq![s];
    assert(ps.drop_last() =~= Seq::<Seq<char>>::empty());
    assert(ps.last() == s);
    assert(operands_of(Seq::<Seq<char>>::empty()) == Some(Seq::<OperandModel>::empty()));
    assert(operands_of(ps) == match arg_operands(s) {
        Some(x) => Some(Seq::<OperandModel>::empty() + x),
        None => None::<Seq<OperandModel>>,
    });
    match arg_operands(s) {
        Some(x) => {
            assert(Seq::<OperandModel>::empty() + x =~= x);
        },
        None => {},
    }
}

/// Swapping the corners of a range argument (`A3:A1` against `A1:A3`)
/// changes neither the operands of an aggregate function nor the cells that
/// a range argument covers, so every function over them gives the same result.
pub proof fn lemma_swapped_corners(a: Seq<char>, b: Seq<char>)
    requires
        plain_corner(a),
        plain_corner(b),
    ensures
        aggregate_spec(a + seq![':'] + b) == aggregate_spec(b + seq![':'] + a),
        collect_spec(a + seq![':'] + b) == collect_spec(b + seq![':'] + a),
{
    lemma_joined_range(a, b);
    lemma_joined_range(b, a);
    match (ref_spec(a), ref_spec(b)) {
        (Some(p), Some(q)) => lemma_span_symmetric(p, q),
        _ => {},
    }
}


/// The address text of `(r, c)`, such as `B7` for `(6, 1)`.
pub open spec fn address(r: nat, c: nat) -> Seq<char> {
    col_label(c) + dec_label(r + 1)
}

proof fn lemma_address_plain(r: nat, c: nat)
    requires
        r < usize::MAX,
        c < usize::MAX,
    ensures
        plain_corner(address(r, c)),
        ref_spec(address(r, c)) == Some((r as usize, c as usize)),
{
    crate::cellref::lemma_address_round_trip(r, c);
    assert forall|k: int| 0 <= k < address(r, c).len() implies !is_ws(#[trigger] address(r, c)[k])
        && address(r, c)[k] != ':' && address(r, c)[k] != ',' by {
        crate::cellref::lemma_label_chars(c, r + 1, k);
    }
}

/// Any two opposite corners name the same range: `a:b`, `b:a` and the
/// other diagonal's corners (`A3:B1` against `B1:A3` and `A1:B3`) give an
/// aggregate function the same operands, and a range argument the same
/// cells, since the rectangle takes its bounds per axis.
pub proof fn lemma_any_corners(r1: nat, c1: nat, r2: nat, c2: nat)
    requires
        r1 < usize::MAX,
        c1 < usize::MAX,
        r2 < usize::MAX,
        c2 < usize::MAX,
    ensures
        aggregate_spec(address(r1, c1) + seq![':'] + address(r2, c2)) == aggregate_spec(
            address(r2, c2) + seq![':'] + address(r1, c1),
        ),
        aggregate_spec(address(r1, c1) + seq![':'] + address(r2, c2)) == aggregate_spec(
            address(r1, c2) + seq![':'] + address(r2, c1),
        ),
        collect_spec(address(r1, c1) + seq![':'] + address(r2, c2)) == collect_spec(
            address(r2, c2) + seq![':'] + address(r1, c1),
        ),
        collect_spec(address(r1, c1) + seq![':'] + address(r2, c2)) == collect_spec(
            address(r1, c2) + seq![':'] + address(r2, c1),
        ),
{
    lemma_address_plain(r1, c1);
    lemma_address_plain(r2, c2);
    lemma_address_plain(r1, c2);
    lemma_address_plain(r2, c1);
    lemma_swapped_corners(address(r1, c1), address(r2, c2));
    lemma_joined_range(address(r1, c1), address(r2, c2));
    lemma_joined_range(address(r1, c2), address(r2, c1));
    assert(span_spec((r1 as usize, c1 as usize), (r2 as usize, c2 as usize)) == span_spec(
        (r1 as usize, c2 as usize),
        (r2 as usize, c1 as usize),
    ));
}

} // verus!
