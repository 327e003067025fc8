//! Recognising which built-in function a formula calls. Names match
//! without regard to ASCII case, and the call must close with `)`.
use crate::cellref::upper_ascii;
use crate::text::{chars_of, string_of, trim_bounds, trim_seq};
use vstd::prelude::*;

verus! {

/// The built-in functions, in the order in which a formula is tested against them.
#[derive(Clone, Copy, Debug, PartialEq, Eq, Structural)]
pub enum FunctionKind {
    Shell,
    Sum,
    Avg,
    Min,
    Max,
    Correl,
    If,
    Count,
    Counta,
    Countif,
    Sumif,
    Averageif,
    Round,
    Concatenate,
    Concat,
    Left,
    Right,
    Mid,
    Len,
    Vlookup,
    And,
    Or,
    Abs,
    Trim,
    Upper,
    Not,
    Lower,
    Mod,
    Sqrt,
    Power,
    Iferror,
    Int,
    Proper,
    Product,
    Median,
}

/// The name of each function, in upper case.
pub open spec fn kind_name(k: FunctionKind) -> Seq<char> {
    match k {
        FunctionKind::Shell => seq!['S', 'H', 'E', 'L', 'L'],
        FunctionKind::Sum => seq!['S', 'U', 'M'],
        FunctionKind::Avg => seq!['A', 'V', 'G'],
        FunctionKind::Min => seq!['M', 'I', 'N'],
        FunctionKind::Max => seq!['M', 'A', 'X'],
        FunctionKind::Correl => seq!['C', 'O', 'R', 'R', 'E', 'L'],
        FunctionKind::If => seq!['I', 'F'],
        FunctionKind::Count => seq!['C', 'O', 'U', 'N', 'T'],
        FunctionKind::Counta => seq!['C', 'O', 'U', 'N', 'T', 'A'],
        FunctionKind::Countif => seq!['C', 'O', 'U', 'N', 'T', 'I', 'F'],
        FunctionKind::Sumif => seq!['S', 'U', 'M', 'I', 'F'],
        FunctionKind::Averageif => seq!['A', 'V', 'E', 'R', 'A', 'G', 'E', 'I', 'F'],
        FunctionKind::Round => seq!['R', 'O', 'U', 'N', 'D'],
        FunctionKind::Concatenate => seq!['C', 'O', 'N', 'C', 'A', 'T', 'E', 'N', 'A', 'T', 'E'],
        FunctionKind::Concat => seq!['C', 'O', 'N', 'C', 'A', 'T'],
        FunctionKind::Left => seq!['L', 'E', 'F', 'T'],
        FunctionKind::Right => seq!['R', 'I', 'G', 'H', 'T'],
        FunctionKind::Mid => seq!['M', 'I', 'D'],
        FunctionKind::Len => seq!['L', 'E', 'N'],
        FunctionKind::Vlookup => seq!['V', 'L', 'O', 'O', 'K', 'U', 'P'],
        FunctionKind::And => seq!['A', 'N', 'D'],
        FunctionKind::Or => seq!['O', 'R'],
        FunctionKind::Abs => seq!['A', 'B', 'S'],
        FunctionKind::Trim => seq!['T', 'R', 'I', 'M'],
        FunctionKind::Upper => seq!['U', 'P', 'P', 'E', 'R'],
        FunctionKind::Not => seq!['N', 'O', 'T'],
        FunctionKind::Lower => seq!['L', 'O', 'W', 'E', 'R'],
        FunctionKind::Mod => seq!['M', 'O', 'D'],
        FunctionKind::Sqrt => seq!['S', 'Q', 'R', 'T'],
        FunctionKind::Power => seq!['P', 'O', 'W', 'E', 'R'],
        FunctionKind::Iferror => seq!['I', 'F', 'E', 'R', 'R', 'O', 'R'],
        FunctionKind::Int => seq!['I', 'N', 'T'],
        FunctionKind::Proper => seq!['P', 'R', 'O', 'P', 'E', 'R'],
        FunctionKind::Product => seq!['P', 'R', 'O', 'D', 'U', 'C', 'T'],
        FunctionKind::Median => seq!['M', 'E', 'D', 'I', 'A', 'N'],
    }
}

fn kind_name_chars(k: FunctionKind) -> (r: Vec<char>)
    ensures
        r@ == kind_name(k),
{
    match k {
        FunctionKind::Shell => vec!['S', 'H', 'E', 'L', 'L'],
        FunctionKind::Sum => vec!['S', 'U', 'M'],
        FunctionKind::Avg => vec!['A', 'V', 'G'],
        FunctionKind::Min => vec!['M', 'I', 'N'],
        FunctionKind::Max => vec!['M', 'A', 'X'],
        FunctionKind::Correl => vec!['C', 'O', 'R', 'R', 'E', 'L'],
        FunctionKind::If => vec!['I', 'F'],
        FunctionKind::Count => vec!['C', 'O', 'U', 'N', 'T'],
        FunctionKind::Counta => vec!['C', 'O', 'U', 'N', 'T', 'A'],
        FunctionKind::Countif => vec!['C', 'O', 'U', 'N', 'T', 'I', 'F'],
        FunctionKind::Sumif => vec!['S', 'U', 'M', 'I', 'F'],
        FunctionKind::Averageif => vec!['A', 'V', 'E', 'R', 'A', 'G', 'E', 'I', 'F'],
        FunctionKind::Round => vec!['R', 'O', 'U', 'N', 'D'],
        FunctionKind::Concatenate => vec!['C', 'O', 'N', 'C', 'A', 'T', 'E', 'N', 'A', 'T', 'E'],
        FunctionKind::Concat => vec!['C', 'O', 'N', 'C', 'A', 'T'],
        FunctionKind::Left => vec!['L', 'E', 'F', 'T'],
        FunctionKind::Right => vec!['R', 'I', 'G', 'H', 'T'],
        FunctionKind::Mid => vec!['M', 'I', 'D'],
        FunctionKind::Len => vec!['L', 'E', 'N'],
        FunctionKind::Vlookup => vec!['V', 'L', 'O', 'O', 'K', 'U', 'P'],
        FunctionKind::And => vec!['A', 'N', 'D'],
        FunctionKind::Or => vec!['O', 'R'],
        FunctionKind::Abs => vec!['A', 'B', 'S'],
        FunctionKind::Trim => vec!['T', 'R', 'I', 'M'],
        FunctionKind::Upper => vec!['U', 'P', 'P', 'E', 'R'],
        FunctionKind::Not => vec!['N', 'O', 'T'],
        FunctionKind::Lower => vec!['L', 'O', 'W', 'E', 'R'],
        FunctionKind::Mod => vec!['M', 'O', 'D'],
        FunctionKind::Sqrt => vec!['S', 'Q', 'R', 'T'],
        FunctionKind::Power => vec!['P', 'O', 'W', 'E', 'R'],
        FunctionKind::Iferror => vec!['I', 'F', 'E', 'R', 'R', 'O', 'R'],
        FunctionKind::Int => vec!['I', 'N', 'T'],
        FunctionKind::Proper => vec!['P', 'R', 'O', 'P', 'E', 'R'],
        FunctionKind::Product => vec!['P', 'R', 'O', 'D', 'U', 'C', 'T'],
        FunctionKind::Median => vec!['M', 'E', 'D', 'I', 'A', 'N'],
    }
}

/// The order in which a formula is tested against the function names.
pub open spec fn dispatch_order() -> Seq<FunctionKind> {
    seq![
        FunctionKind::Shell,
        FunctionKind::Sum,
        FunctionKind::Avg,
        FunctionKind::Min,
        FunctionKind::Max,
        FunctionKind::Correl,
        FunctionKind::If,
        FunctionKind::Count,
        FunctionKind::Counta,
        FunctionKind::Countif,
        FunctionKind::Sumif,
        FunctionKind::Averageif,
        FunctionKind::Round,
        FunctionKind::Concatenate,
        FunctionKind::Concat,
        FunctionKind::Left,
        FunctionKind::Right,
        FunctionKind::Mid,
        FunctionKind::Len,
        FunctionKind::Vlookup,
        FunctionKind::And,
        FunctionKind::Or,
        FunctionKind::Abs,
        FunctionKind::Trim,
        FunctionKind::Upper,
        FunctionKind::Not,
        FunctionKind::Lower,
        FunctionKind::Mod,
        FunctionKind::Sqrt,
        FunctionKind::Power,
        FunctionKind::Iferror,
        FunctionKind::Int,
        FunctionKind::Proper,
        FunctionKind::Product,
        FunctionKind::Median,
    ]
}

fn dispatch_list() -> (r: Vec<FunctionKind>)
    ensures
        r@ == dispatch_order(),
{
    vec![
        FunctionKind::Shell,
        FunctionKind::Sum,
        FunctionKind::Avg,
        FunctionKind::Min,
        FunctionKind::Max,
        FunctionKind::Correl,
        FunctionKind::If,
        FunctionKind::Count,
        FunctionKind::Counta,
        FunctionKind::Countif,
        FunctionKind::Sumif,
        FunctionKind::Averageif,
        FunctionKind::Round,
        FunctionKind::Concatenate,
        FunctionKind::Concat,
        FunctionKind::Left,
        FunctionKind::Right,
        FunctionKind::Mid,
        FunctionKind::Len,
        FunctionKind::Vlookup,
        FunctionKind::And,
        FunctionKind::Or,
        FunctionKind::Abs,
        FunctionKind::Trim,
        FunctionKind::Upper,
        FunctionKind::Not,
        FunctionKind::Lower,
        FunctionKind::Mod,
        FunctionKind::Sqrt,
        FunctionKind::Power,
        FunctionKind::Iferror,
        FunctionKind::Int,
        FunctionKind::Proper,
        FunctionKind::Product,
        FunctionKind::Median,
    ]
}

/// The expression of a formula: without one leading `=`, then trimmed.
pub open spec fn formula_expr(f: Seq<char>) -> Seq<char> {
    trim_seq(
        if f.len() > 0 && f[0] == '=' {
            f.drop_first()
        } else {
            f
        },
    )
}

/// `e` reads `NAME(...)` for the function `k`, the name in any ASCII case.
pub open spec fn call_matches(e: Seq<char>, k: FunctionKind) -> bool {
    let nm = kind_name(k);
    nm.len() + 1 < e.len() && (forall|i: int| 0 <= i < nm.len() ==> upper_ascii(#[trigger] e[i]) == nm[i])
        && e[nm.len() as int] == '(' && e.last() == ')'
}

/// The first function, from position `i` of the dispatch order on, whose call `e` reads.
pub open spec fn first_call(e: Seq<char>, i: int) -> Option<FunctionKind>
    decreases dispatch_order().len() - i,
{
    if i < 0 || i >= dispatch_order().len() {
        None
    } else if call_matches(e, dispatch_order()[i]) {
        Some(dispatch_order()[i])
    } else {
        first_call(e, i + 1)
    }
}

/// The function that formula `f` calls and the text between its parentheses.
pub open spec fn classify_spec(f: Seq<char>) -> Option<(FunctionKind, Seq<char>)> {
    let e = formula_expr(f);
    match first_call(e, 0) {
        Some(k) => Some((k, e.subrange(kind_name(k).len() as int + 1, e.len() - 1))),
        None => None,
    }
}

/// ASCII upper case of one character.
pub fn ascii_upper(c: char) -> (r: char)
    ensures
        r == upper_ascii(c),
{
    if 'a' <= c && c <= 'z' {
        let b: u8 = (c as u8) - 32;
        b as char
    } else {
        c
    }
}

fn expr_bounds(v: &Vec<char>) -> (r: (usize, usize))
    ensures
        r.0 <= r.1 <= v@.len(),
        v@.subrange(r.0 as int, r.1 as int) == formula_expr(v@),
{
    let start: usize = if v.len() > 0 && v[0] == '=' {
        1
    } else {
        0
    };
    let mut rest: Vec<char> = Vec::new();
    let mut i = start;
    while i < v.len()
        invariant
            start <= i <= v@.len(),
            rest@ == v@.subrange(start as int, i as int),
        decreases v.len() - i,
    {
        rest.push(v[i]);
        assert(v@.subrange(start as int, i + 1) =~= v@.subrange(start as int, i as int).push(v@[i as int]));
        i += 1;
    }
    proof {
        if start == 1 {
            assert(v@.drop_first() =~= rest@);
        } else {
            assert(v@ =~= rest@);
        }
    }
    let (lo, hi) = trim_bounds(&rest);
    proof {
        assert(rest@.subrange(lo as int, hi as int) =~= v@.subrange(start + lo, start + hi));
    }
    (start + lo, start + hi)
}

/// The expression of a formula: one leading `=` removed, then trimmed.
pub fn formula_expression(formula: &str) -> (r: String)
    ensures
        r@ == formula_expr(formula@),
{
    let v = chars_of(formula);
    assert(v@ == formula@);
    let (lo, hi) = expr_bounds(&v);
    string_of(&v, lo, hi)
}

fn matches_call(e: &Vec<char>, lo: usize, hi: usize, k: FunctionKind) -> (r: bool)
    requires
        lo <= hi <= e@.len(),
    ensures
        r == call_matches(e@.subrange(lo as int, hi as int), k),
{
    let ghost s = e@.subrange(lo as int, hi as int);
    let name = kind_name_chars(k);
    let m = name.len();
    if m + 1 >= hi - lo {
        return false;
    }
    let mut i: usize = 0;
    while i < m
        invariant
            lo <= hi <= e@.len(),
            m == name@.len(),
            name@ == kind_name(k),
            m + 1 < hi - lo,
            s == e@.subrange(lo as int, hi as int),
            i <= m,
            forall|j: int| 0 <= j < i ==> upper_ascii(#[trigger] s[j]) == name@[j],
        decreases m - i,
    {
        if ascii_upper(e[lo + i]) != name[i] {
            assert(s[i as int] == e@[lo + i]);
            return false;
        }
        assert(s[i as int] == e@[lo + i]);
        i += 1;
    }
    assert(s[m as int] == e@[lo + m]);
    assert(s.last() == e@[hi - 1]);
    e[lo + m] == '(' && e[hi - 1] == ')'
}

/// Finds the function that `formula` calls, and the text between the
/// parentheses of that call. `None` when the formula is no such call.
pub fn classify_formula(formula: &str) -> (r: Option<(FunctionKind, String)>)
    ensures
        match r {
            Some((k, inner)) => classify_spec(formula@) == Some((k, inner@)),
            None => classify_spec(formula@) is None,
        },
{
    let v = chars_of(formula);
    let (lo, hi) = expr_bounds(&v);
    let ghost e = v@.subrange(lo as int, hi as int);
    let order = dispatch_list();
    let mut i: usize = 0;
    while i < order.len()
        invariant
            order@ == dispatch_order(),
            i <= order@.len(),
            lo <= hi <= v@.len(),
            e == v@.subrange(lo as int, hi as int),
            e == formula_expr(formula@),
            first_call(e, 0) == first_call(e, i as int),
        decreases order.len() - i,
    {
        let k = order[i];
        if matches_call(&v, lo, hi, k) {
            let n = kind_name_chars(k).len();
            let inner = string_of(&v, lo + n + 1, hi - 1);
            assert(e.subrange(n + 1, e.len() - 1) =~= v@.subrange(lo + n + 1, hi - 1));
            return Some((k, inner));
        }
        i += 1;
    }
    None
}

} // verus!
