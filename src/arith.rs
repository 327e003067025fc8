//! The shape of an arithmetic expression. The rightmost `+` or `-` (not at
//! the first position) splits the expression; failing that, the rightmost
//! `*` or `/`; what is left is an operand (a number or a cell address).
//! Chains are therefore grouped to the left, and `*` `/` bind tighter than
//! `+` `-` only because they are looked for second.
use crate::text::{chars_of, lemma_trim_len, string_of, trim, trim_seq};
use vstd::prelude::*;

verus! {

/// An arithmetic operator.
#[derive(Clone, Copy, Debug, PartialEq, Eq, Structural)]
pub enum ArithOp {
    Add,
    Sub,
    Mul,
    Div,
}

/// An arithmetic expression: an operand's trimmed text, or an operator
/// applied to two sub-expressions.
#[derive(Debug)]
pub enum Arith {
    Operand(String),
    Apply(ArithOp, Box<Arith>, Box<Arith>),
}

/// The mathematical form of an `Arith`.
pub enum ArithModel {
    Operand(Seq<char>),
    Apply(ArithOp, Box<ArithModel>, Box<ArithModel>),
}

impl Arith {
    pub open spec fn model(&self) -> ArithModel
        decreases self,
    {
        match self {
            Arith::Operand(s) => ArithModel::Operand(s@),
            Arith::Apply(op, l, r) => ArithModel::Apply(*op, Box::new(l.model()), Box::new(r.model())),
        }
    }
}

pub open spec fn op_of(c: char) -> ArithOp {
    if c == '+' {
        ArithOp::Add
    } else if c == '-' {
        ArithOp::Sub
    } else if c == '*' {
        ArithOp::Mul
    } else {
        ArithOp::Div
    }
}

/// The rightmost position below `i`, and above 0, holding `+` or `-`; 0 when none.
pub open spec fn last_add_sub(t: Seq<char>, i: int) -> int
    decreases i,
{
    if i <= 1 {
        0
    } else if t[i - 1] == '+' || t[i - 1] == '-' {
        i - 1
    } else {
        last_add_sub(t, i - 1)
    }
}

/// The rightmost position below `i` holding `*` or `/`; -1 when none.
pub open spec fn last_mul_div(t: Seq<char>, i: int) -> int
    decreases i,
{
    if i <= 0 {
        -1
    } else if t[i - 1] == '*' || t[i - 1] == '/' {
        i - 1
    } else {
        last_mul_div(t, i - 1)
    }
}

pub proof fn lemma_last_bounds(t: Seq<char>, i: int)
    requires
        0 <= i <= t.len(),
    ensures
        0 <= last_add_sub(t, i) < if i > 0 {
            i
        } else {
            1
        },
        -1 <= last_mul_div(t, i) < i,
        last_add_sub(t, i) >= 1 ==> (t[last_add_sub(t, i)] == '+' || t[last_add_sub(t, i)]
            == '-'),
        last_mul_div(t, i) >= 0 ==> (t[last_mul_div(t, i)] == '*' || t[last_mul_div(t, i)]
            == '/'),
    decreases i,
{
    if i > 0 {
        lemma_last_bounds(t, i - 1);
    }
}

/// The expression that the text `s` denotes.
pub open spec fn parse_spec(s: Seq<char>) -> ArithModel
    decreases s.len(),
{
    let t = trim_seq(s);
    proof {
        lemma_trim_len(s);
        lemma_last_bounds(t, t.len() as int);
    }
    let k = last_add_sub(t, t.len() as int);
    if k >= 1 {
        ArithModel::Apply(
            op_of(t[k]),
            Box::new(parse_spec(t.subrange(0, k))),
            Box::new(parse_spec(t.subrange(k + 1, t.len() as int))),
        )
    } else {
        let m = last_mul_div(t, t.len() as int);
        if m >= 0 {
            ArithModel::Apply(
                op_of(t[m]),
                Box::new(parse_spec(t.subrange(0, m))),
                Box::new(parse_spec(t.subrange(m + 1, t.len() as int))),
            )
        } else {
            ArithModel::Operand(t)
        }
    }
}

fn char_op(c: char) -> (r: ArithOp)
    ensures
        r == op_of(c),
{
    if c == '+' {
        ArithOp::Add
    } else if c == '-' {
        ArithOp::Sub
    } else if c == '*' {
        ArithOp::Mul
    } else {
        ArithOp::Div
    }
}

/// Splits an arithmetic expression into its tree of operators and operands.
pub fn parse_arithmetic(expr: &str) -> (r: Arith)
    ensures
        r.model() == parse_spec(expr@),
    decreases expr@.len(),
{
    let t = trim(expr);
    let v = chars_of(t.as_str());
    let n = v.len();
    proof {
        lemma_trim_len(expr@);
        lemma_last_bounds(v@, n as int);
    }
    let mut i: usize = n;
    while i > 1 && v[i - 1] != '+' && v[i - 1] != '-'
        invariant
            i <= n == v@.len(),
            last_add_sub(v@, n as int) == last_add_sub(v@, i as int),
        decreases i,
    {
        i -= 1;
    }
    let split: Option<usize> = if i > 1 {
        Some(i - 1)
    } else {
        let mut j: usize = n;
        while j > 0 && v[j - 1] != '*' && v[j - 1] != '/'
            invariant
                j <= n == v@.len(),
                last_mul_div(v@, n as int) == last_mul_div(v@, j as int),
            decreases j,
        {
            j -= 1;
        }
        if j > 0 {
            Some(j - 1)
        } else {
            None
        }
    };
    match split {
        Some(k) => {
            let left = string_of(&v, 0, k);
            let right = string_of(&v, k + 1, n);
            let l = parse_arithmetic(left.as_str());
            let r = parse_arithmetic(right.as_str());
            Arith::Apply(char_op(v[k]), Box::new(l), Box::new(r))
        },
        None => Arith::Operand(t),
    }
}

} // verus!
