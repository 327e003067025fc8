//! Relational operators: splitting a condition such as `A1>=5` around its
//! operator, and reading the criteria of `COUNTIF`, `SUMIF` and `AVERAGEIF`.
use crate::text::{
    chars_of, chars_eq, find_chars, find_seq, find_span, string_of, strip_quotes, strip_wild,
    strip_wildcards, trim, trim_bounds, trim_seq, unquote_seq,
};
use vstd::prelude::*;

verus! {

/// A relational operator.
#[derive(Clone, Copy, Debug, PartialEq, Eq, Structural)]
pub enum CompareOp {
    Ge,
    Le,
    Ne,
    Gt,
    Lt,
    Eq,
}

/// The text of each operator.
pub open spec fn op_text(op: CompareOp) -> Seq<char> {
    match op {
        CompareOp::Ge => seq!['>', '='],
        CompareOp::Le => seq!['<', '='],
        CompareOp::Ne => seq!['<', '>'],
        CompareOp::Gt => seq!['>'],
        CompareOp::Lt => seq!['<'],
        CompareOp::Eq => seq!['='],
    }
}

/// The order in which operators are looked for: the first one found wins.
pub open spec fn op_order() -> Seq<CompareOp> {
    seq![CompareOp::Ge, CompareOp::Le, CompareOp::Ne, CompareOp::Gt, CompareOp::Lt, CompareOp::Eq]
}

fn op_chars(op: CompareOp) -> (r: Vec<char>)
    ensures
        r@ == op_text(op),
{
    match op {
        CompareOp::Ge => vec!['>', '='],
        CompareOp::Le => vec!['<', '='],
        CompareOp::Ne => vec!['<', '>'],
        CompareOp::Gt => vec!['>'],
        CompareOp::Lt => vec!['<'],
        CompareOp::Eq => vec!['='],
    }
}

fn op_list() -> (r: Vec<CompareOp>)
    ensures
        r@ == op_order(),
{
    vec![CompareOp::Ge, CompareOp::Le, CompareOp::Ne, CompareOp::Gt, CompareOp::Lt, CompareOp::Eq]
}

/// The first operator, from position `i` of the order on, that occurs in
/// `s`, with the place of its first occurrence.
pub open spec fn first_op(s: Seq<char>, i: int) -> Option<(CompareOp, int)>
    decreases op_order().len() - i,
{
    if i < 0 || i >= op_order().len() {
        None
    } else {
        match find_seq(s, op_text(op_order()[i])) {
            Some(p) => Some((op_order()[i], p)),
            None => first_op(s, i + 1),
        }
    }
}

/// A condition split at its operator, both sides trimmed.
pub open spec fn condition_spec(s: Seq<char>) -> Option<(Seq<char>, CompareOp, Seq<char>)> {
    match first_op(s, 0) {
        Some((op, p)) => Some(
            (
                trim_seq(s.subrange(0, p)),
                op,
                trim_seq(s.subrange(p + op_text(op).len(), s.len() as int)),
            ),
        ),
        None => None,
    }
}

/// Splits a condition at the first operator found, testing `>=`, `<=`, `<>`,
/// `>`, `<`, `=` in that order. `None` when the condition has no operator.
pub fn split_condition(cond: &str) -> (r: Option<(String, CompareOp, String)>)
    ensures
        match r {
            Some((l, op, rt)) => condition_spec(cond@) == Some((l@, op, rt@)),
            None => condition_spec(cond@) is None,
        },
{
    let v = chars_of(cond);
    let ops = op_list();
    let mut i: usize = 0;
    while i < ops.len()
        invariant
            ops@ == op_order(),
            i <= ops@.len(),
            v@ == cond@,
            first_op(v@, 0) == first_op(v@, i as int),
        decreases ops.len() - i,
    {
        let op = ops[i];
        let pat = op_chars(op);
        match find_span(&v, &pat) {
            Some((p, q)) => {
                let left = piece_trimmed(&v, 0, p);
                let right = piece_trimmed(&v, q, v.len());
                return Some((left, op, right));
            },
            None => {},
        }
        i += 1;
    }
    None
}

/// `v[lo..hi]`, trimmed.
fn piece_trimmed(v: &Vec<char>, lo: usize, hi: usize) -> (r: String)
    requires
        lo <= hi <= v@.len(),
    ensures
        r@ == trim_seq(v@.subrange(lo as int, hi as int)),
{
    let mut w: Vec<char> = Vec::new();
    let mut i = lo;
    while i < hi
        invariant
            lo <= i <= hi <= v@.len(),
            w@ == v@.subrange(lo as int, i as int),
        decreases hi - i,
    {
        w.push(v[i]);
        assert(v@.subrange(lo as int, i + 1) =~= v@.subrange(lo as int, i as int).push(v@[i as int]));
        i += 1;
    }
    let (a, b) = trim_bounds(&w);
    string_of(&w, a, b)
}

/// The criteria text as matched: trimmed, then one layer of quotes removed.
pub open spec fn criteria_body_spec(c: Seq<char>) -> Seq<char> {
    unquote_seq(trim_seq(c))
}

/// Trims a criteria argument and removes one layer of quotes.
pub fn criteria_body(criteria: &str) -> (r: String)
    ensures
        r@ == criteria_body_spec(criteria@),
{
    let t = trim(criteria);
    strip_quotes(t.as_str())
}

/// The numeric comparisons that criteria `c` offers, from position `i` of the
/// operator order on: each operator found, with the trimmed text after it.
pub open spec fn comparisons_from(c: Seq<char>, i: int) -> Seq<(CompareOp, Seq<char>)>
    decreases op_order().len() - i,
{
    if i < 0 || i >= op_order().len() {
        Seq::empty()
    } else {
        let op = op_order()[i];
        match find_seq(c, op_text(op)) {
            Some(p) => seq![(op, trim_seq(c.subrange(p + op_text(op).len(), c.len() as int)))]
                + comparisons_from(c, i + 1),
            None => comparisons_from(c, i + 1),
        }
    }
}

pub open spec fn comparisons_view(v: Seq<(CompareOp, String)>) -> Seq<(CompareOp, Seq<char>)> {
    v.map_values(|x: (CompareOp, String)| (x.0, x.1@))
}

/// The numeric comparisons of criteria `c` (already passed through
/// `criteria_body`), in the order they are tried: a cell whose value and
/// operand both read as numbers is decided by the first one whose operand
/// reads as a number.
pub fn criteria_comparisons(c: &str) -> (r: Vec<(CompareOp, String)>)
    ensures
        comparisons_view(r@) == comparisons_from(c@, 0),
{
    let v = chars_of(c);
    let ops = op_list();
    let mut out: Vec<(CompareOp, String)> = Vec::new();
    let mut i: usize = 0;
    while i < ops.len()
        invariant
            ops@ == op_order(),
            i <= ops@.len(),
            v@ == c@,
            comparisons_view(out@) + comparisons_from(v@, i as int) == comparisons_from(v@, 0),
        decreases ops.len() - i,
    {
        let op = ops[i];
        let pat = op_chars(op);
        match find_span(&v, &pat) {
            Some((_p, q)) => {
                let right = piece_trimmed(&v, q, v.len());
                let ghost before = comparisons_view(out@);
                out.push((op, right));
                assert(comparisons_view(out@) =~= before.push((op, right@)));
                assert(before.push((op, right@)) + comparisons_from(v@, i + 1) =~= before + (seq![
                    (op, right@),
                ] + comparisons_from(v@, i + 1)));
            },
            None => {},
        }
        i += 1;
    }
    assert(comparisons_view(out@) + Seq::<(CompareOp, Seq<char>)>::empty() =~= comparisons_view(
        out@,
    ));
    out
}

/// Whether criteria `c` holds a wildcard character.
pub open spec fn has_wildcard(c: Seq<char>) -> bool {
    c.contains('*') || c.contains('?')
}

/// The text reading of criteria `c` on a cell: with a wildcard, the cell
/// must contain `c` with its wildcards removed; without, it must equal `c`.
pub open spec fn text_criteria_spec(cell: Seq<char>, c: Seq<char>) -> bool {
    if has_wildcard(c) {
        find_seq(cell, strip_wild(c)) is Some
    } else {
        cell == c
    }
}

/// Matches a cell's text against criteria `c` (already passed through
/// `criteria_body`) when no numeric comparison decided.
pub fn criteria_text_matches(cell: &str, c: &str) -> (r: bool)
    ensures
        r == text_criteria_spec(cell@, c@),
{
    let cv = chars_of(cell);
    let pv = chars_of(c);
    let mut wild = false;
    let mut i: usize = 0;
    while i < pv.len()
        invariant
            i <= pv@.len(),
            wild == (exists|k: int| 0 <= k < i && (pv@[k] == '*' || pv@[k] == '?')),
        decreases pv.len() - i,
    {
        if pv[i] == '*' || pv[i] == '?' {
            wild = true;
        }
        i += 1;
    }
    proof {
        if wild {
            let k = choose|k: int| 0 <= k < pv@.len() && (pv@[k] == '*' || pv@[k] == '?');
            if pv@[k] == '*' {
                assert(pv@.contains('*'));
            } else {
                assert(pv@.contains('?'));
            }
        } else {
            if pv@.contains('*') {
                let k = choose|k: int| 0 <= k < pv@.len() && pv@[k] == '*';
                assert(false);
            }
            if pv@.contains('?') {
                let k = choose|k: int| 0 <= k < pv@.len() && pv@[k] == '?';
                assert(false);
            }
        }
    }
    if wild {
        let needle = strip_wildcards(&pv);
        find_chars(&cv, &needle).is_some()
    } else {
        chars_eq(&cv, &pv)
    }
}

} // verus!
