//! Cell addresses: `"A1"`-style text to zero-based (row, column) pairs and back.
//! Columns use base 26 with digits `A`..`Z` standing for 1..26 (no zero digit).
use crate::text::{chars_of, is_ws, string_of, trim_bounds, trim_seq};
use vstd::prelude::*;

verus! {

pub open spec fn is_upper(c: char) -> bool {
    'A' <= c && c <= 'Z'
}

pub open spec fn is_lower(c: char) -> bool {
    'a' <= c && c <= 'z'
}

pub open spec fn is_alpha(c: char) -> bool {
    is_upper(c) || is_lower(c)
}

pub open spec fn is_digit(c: char) -> bool {
    '0' <= c && c <= '9'
}

/// ASCII upper case of `c`; other characters are left alone.
pub open spec fn upper_ascii(c: char) -> char {
    if is_lower(c) {
        ((c as u32) - 32) as char
    } else {
        c
    }
}

/// The letter for column digit `k` (0 for `A`, 25 for `Z`).
pub open spec fn letter(k: int) -> char {
    (65 + k) as char
}

/// The decimal digit character for `k` < 10.
pub open spec fn digit(k: int) -> char {
    (48 + k) as char
}

/// The column label of zero-based column `n`: `A`, ..., `Z`, `AA`, ...
pub open spec fn col_label(n: nat) -> Seq<char>
    decreases n,
{
    if n < 26 {
        seq![letter(n as int)]
    } else {
        col_label((n / 26 - 1) as nat).push(letter((n % 26) as int))
    }
}

/// The decimal rendering of `n`, without leading zeros.
pub open spec fn dec_label(n: nat) -> Seq<char>
    decreases n,
{
    if n < 10 {
        seq![digit(n as int)]
    } else {
        dec_label(n / 10).push(digit((n % 10) as int))
    }
}

/// The ASCII letters of `s`, in order and upper-cased.
pub open spec fn letters_of(s: Seq<char>) -> Seq<char>
    decreases s.len(),
{
    if s.len() == 0 {
        Seq::empty()
    } else if is_alpha(s.last()) {
        letters_of(s.drop_last()).push(upper_ascii(s.last()))
    } else {
        letters_of(s.drop_last())
    }
}

/// The ASCII digits of `s`, in order.
pub open spec fn digits_of(s: Seq<char>) -> Seq<char>
    decreases s.len(),
{
    if s.len() == 0 {
        Seq::empty()
    } else if is_digit(s.last()) {
        digits_of(s.drop_last()).push(s.last())
    } else {
        digits_of(s.drop_last())
    }
}

/// The bijective base-26 value of upper-case letters (`A` = 1, `AA` = 27).
pub open spec fn col_value(l: Seq<char>) -> int
    decreases l.len(),
{
    if l.len() == 0 {
        0
    } else {
        col_value(l.drop_last()) * 26 + (l.last() as int - 64)
    }
}

/// The value of a run of decimal digits.
pub open spec fn dec_value(d: Seq<char>) -> int
    decreases d.len(),
{
    if d.len() == 0 {
        0
    } else {
        dec_value(d.drop_last()) * 10 + (d.last() as int - 48)
    }
}

/// An ASCII letter or digit.
pub open spec fn is_alnum(c: char) -> bool {
    is_alpha(c) || is_digit(c)
}

/// Every character of `s` is an ASCII letter or digit.
pub open spec fn all_alnum(s: Seq<char>) -> bool {
    forall|k: int| 0 <= k < s.len() ==> is_alnum(#[trigger] s[k])
}

/// The cell that a run of ASCII letters and digits names: its letters read
/// as the column, its digits as the one-based row, whatever their order.
pub open spec fn read_ref(s: Seq<char>) -> Option<(usize, usize)> {
    let l = letters_of(s);
    let d = digits_of(s);
    let c = col_value(l);
    let r = dec_value(d);
    if l.len() > 0 && d.len() > 0 && 1 <= c <= usize::MAX && 1 <= r <= usize::MAX {
        Some(((r - 1) as usize, (c - 1) as usize))
    } else {
        None
    }
}

/// The cell that `s` names, read the lenient way formulas read it: after
/// trimming, only ASCII letters and digits may remain, with at least one
/// of each; letters after digits are accepted (`1A` reads as `A1`).
pub open spec fn ref_spec(s: Seq<char>) -> Option<(usize, usize)> {
    let t = trim_seq(s);
    if all_alnum(t) {
        read_ref(t)
    } else {
        None
    }
}

/// Number of leading ASCII letters of `s`.
pub open spec fn alpha_run(s: Seq<char>) -> int
    decreases s.len(),
{
    if s.len() > 0 && is_alpha(s[0]) {
        1 + alpha_run(s.drop_first())
    } else {
        0
    }
}

/// `s` is letters followed by digits, with at least one of each.
pub open spec fn is_plain_ref(s: Seq<char>) -> bool {
    let a = alpha_run(s);
    0 < a < s.len() && forall|k: int| a <= k < s.len() ==> is_digit(#[trigger] s[k])
}

/// The strict reading used for typed addresses: after trimming, letters then
/// digits and nothing else.
pub open spec fn strict_ref_spec(s: Seq<char>) -> Option<(usize, usize)> {
    let t = trim_seq(s);
    if is_plain_ref(t) {
        read_ref(t)
    } else {
        None
    }
}

fn letter_char(k: usize) -> (c: char)
    requires
        k < 26,
    ensures
        c == letter(k as int),
{
    let b: u8 = 65u8 + k as u8;
    b as char
}

fn digit_char(k: usize) -> (c: char)
    requires
        k < 10,
    ensures
        c == digit(k as int),
{
    let b: u8 = 48u8 + k as u8;
    b as char
}

fn col_label_chars(n: usize) -> (r: Vec<char>)
    ensures
        r@ == col_label(n as nat),
    decreases n,
{
    if n < 26 {
        vec![letter_char(n)]
    } else {
        let mut r = col_label_chars(n / 26 - 1);
        r.push(letter_char(n % 26));
        r
    }
}

fn dec_label_chars(n: usize) -> (r: Vec<char>)
    ensures
        r@ == dec_label(n as nat),
    decreases n,
{
    if n < 10 {
        vec![digit_char(n)]
    } else {
        let mut r = dec_label_chars(n / 10);
        r.push(digit_char(n % 10));
        r
    }
}

/// The label of zero-based column `col` (`0` gives `"A"`, `26` gives `"AA"`).
pub fn col_name(col: usize) -> (r: String)
    ensures
        r@ == col_label(col as nat),
{
    let v = col_label_chars(col);
    string_of(&v, 0, v.len())
}

/// The decimal text of `n`.
pub fn decimal_text(n: usize) -> (r: String)
    ensures
        r@ == dec_label(n as nat),
{
    let v = dec_label_chars(n);
    string_of(&v, 0, v.len())
}

/// The address of the cell at zero-based `(row, col)`, such as `"B7"`.
pub fn cell_name(row: usize, col: usize) -> (r: String)
    requires
        row < usize::MAX,
    ensures
        r@ == col_label(col as nat) + dec_label(row as nat + 1),
{
    let mut v = col_label_chars(col);
    let d = dec_label_chars(row + 1);
    let ghost v0 = v@;
    let mut i: usize = 0;
    while i < d.len()
        invariant
            i <= d@.len(),
            v@ == v0 + d@.subrange(0, i as int),
        decreases d.len() - i,
    {
        v.push(d[i]);
        assert(d@.subrange(0, i + 1) =~= d@.subrange(0, i as int).push(d@[i as int]));
        i += 1;
    }
    assert(d@.subrange(0, d@.len() as int) =~= d@);
    string_of(&v, 0, v.len())
}

/// Reads a run of letters and digits: the letters (any case) give the
/// column, the digits the one-based row.
fn read_letters_digits(s: &str) -> (r: Option<(usize, usize)>)
    ensures
        r == read_ref(s@),
{
    let v = chars_of(s);
    let n = v.len();
    let mut nl: usize = 0;
    let mut nd: usize = 0;
    let mut col: u128 = 0;
    let mut row: u128 = 0;
    let mut col_over = false;
    let mut row_over = false;
    let mut i: usize = 0;
    while i < n
        invariant
            i <= n == v@.len(),
            nl == letters_of(v@.subrange(0, i as int)).len(),
            nd == digits_of(v@.subrange(0, i as int)).len(),
            nl <= i,
            nd <= i,
            col_over ==> col_value(letters_of(v@.subrange(0, i as int))) > usize::MAX,
            !col_over ==> col == col_value(letters_of(v@.subrange(0, i as int))),
            !col_over ==> col <= usize::MAX,
            row_over ==> dec_value(digits_of(v@.subrange(0, i as int))) > usize::MAX,
            !row_over ==> row == dec_value(digits_of(v@.subrange(0, i as int))),
            !row_over ==> row <= usize::MAX,
        decreases n - i,
    {
        let c = v[i];
        let ghost p = v@.subrange(0, i as int);
        assert(v@.subrange(0, i + 1).drop_last() =~= p);
        assert(v@.subrange(0, i + 1).last() == c);
        if ('A' <= c && c <= 'Z') || ('a' <= c && c <= 'z') {
            let k: u128 = if 'a' <= c && c <= 'z' {
                (c as u32 - 96) as u128
            } else {
                (c as u32 - 64) as u128
            };
            assert(k == upper_ascii(c) as int - 64);
            let ghost l = letters_of(p);
            assert(letters_of(v@.subrange(0, i + 1)) == l.push(upper_ascii(c)));
            assert(l.push(upper_ascii(c)).drop_last() =~= l);
            assert(col_value(l.push(upper_ascii(c))) == col_value(l) * 26 + k);
            assert(digits_of(v@.subrange(0, i + 1)) == digits_of(p));
            if !col_over {
                let next = col * 26 + k;
                if next > usize::MAX as u128 {
                    col_over = true;
                } else {
                    col = next;
                }
            }
            nl += 1;
        } else if '0' <= c && c <= '9' {
            let k: u128 = (c as u32 - 48) as u128;
            let ghost d = digits_of(p);
            assert(digits_of(v@.subrange(0, i + 1)) == d.push(c));
            assert(d.push(c).drop_last() =~= d);
            assert(dec_value(d.push(c)) == dec_value(d) * 10 + k);
            assert(letters_of(v@.subrange(0, i + 1)) == letters_of(p));
            if !row_over {
                let next = row * 10 + k;
                if next > usize::MAX as u128 {
                    row_over = true;
                } else {
                    row = next;
                }
            }
            nd += 1;
        } else {
            assert(letters_of(v@.subrange(0, i + 1)) == letters_of(p));
            assert(digits_of(v@.subrange(0, i + 1)) == digits_of(p));
        }
        i += 1;
    }
    assert(v@.subrange(0, n as int) =~= s@);
    if nl == 0 || nd == 0 || col_over || row_over || col == 0 || row == 0 {
        None
    } else {
        Some(((row - 1) as usize, (col - 1) as usize))
    }
}

/// Reads an address typed by a user: surrounding white space is ignored,
/// then letters (any case) must be followed by digits and nothing else.
pub fn parse_cell_reference(input: &str) -> (r: Option<(usize, usize)>)
    ensures
        r == strict_ref_spec(input@),
{
    let v = chars_of(input);
    let (lo, hi) = trim_bounds(&v);
    let ghost t = v@.subrange(lo as int, hi as int);
    let mut a: usize = lo;
    assert(t.subrange(0, t.len() as int) =~= t);
    while a < hi && (('A' <= v[a] && v[a] <= 'Z') || ('a' <= v[a] && v[a] <= 'z'))
        invariant
            lo <= a <= hi <= v@.len(),
            t == v@.subrange(lo as int, hi as int),
            alpha_run(t) == (a - lo) + alpha_run(t.subrange(a - lo, t.len() as int)),
        decreases hi - a,
    {
        let ghost u = t.subrange(a - lo, t.len() as int);
        assert(u.drop_first() =~= t.subrange(a - lo + 1, t.len() as int));
        a += 1;
    }
    proof {
        let u = t.subrange(a - lo, t.len() as int);
        assert(alpha_run(u) == 0);
    }
    let mut d: usize = a;
    while d < hi && '0' <= v[d] && v[d] <= '9'
        invariant
            a <= d <= hi <= v@.len(),
            forall|k: int| a <= k < d ==> is_digit(#[trigger] v@[k]),
        decreases hi - d,
    {
        d += 1;
    }
    if a == lo || a == hi || d < hi {
        proof {
            if d < hi && a > lo && a < hi {
                assert(!is_digit(t[d - lo]));
            }
        }
        return None;
    }
    proof {
        assert forall|k: int| a - lo <= k < t.len() implies is_digit(#[trigger] t[k]) by {
            assert(t[k] == v@[k + lo]);
        }
    }
    let s = string_of(&v, lo, hi);
    read_letters_digits(s.as_str())
}

/// Reads a cell address the lenient way the formula engine does: after
/// trimming, the text must hold only ASCII letters and digits; the letters
/// (any case) give the column and the digits the one-based row, whatever
/// their order. `None` when another character is present, letters or digits
/// are missing, the row is 0, or a value does not fit in `usize`.
pub fn parse_cell_ref(s: &str) -> (r: Option<(usize, usize)>)
    ensures
        r == ref_spec(s@),
{
    let v = chars_of(s);
    let (lo, hi) = trim_bounds(&v);
    let ghost t = v@.subrange(lo as int, hi as int);
    let mut i: usize = lo;
    while i < hi
        invariant
            lo <= i <= hi <= v@.len(),
            v@ == s@,
            t == v@.subrange(lo as int, hi as int),
            t == trim_seq(s@),
            forall|k: int| 0 <= k < i - lo ==> is_alnum(#[trigger] t[k]),
        decreases hi - i,
    {
        let c = v[i];
        assert(t[i - lo] == c);
        if !(('A' <= c && c <= 'Z') || ('a' <= c && c <= 'z') || ('0' <= c && c <= '9')) {
            return None;
        }
        i += 1;
    }
    let t_str = string_of(&v, lo, hi);
    read_letters_digits(t_str.as_str())
}

proof fn lemma_letters_concat(a: Seq<char>, b: Seq<char>)
    ensures
        letters_of(a + b) == letters_of(a) + letters_of(b),
        digits_of(a + b) == digits_of(a) + digits_of(b),
    decreases b.len(),
{
    if b.len() == 0 {
        assert(a + b =~= a);
        assert(letters_of(a) + letters_of(b) =~= letters_of(a));
        assert(digits_of(a) + digits_of(b) =~= digits_of(a));
    } else {
        lemma_letters_concat(a, b.drop_last());
        assert((a + b).drop_last() =~= a + b.drop_last());
        assert((a + b).last() == b.last());
        assert(letters_of(a) + letters_of(b.drop_last()).push(upper_ascii(b.last())) =~= (
        letters_of(a) + letters_of(b.drop_last())).push(upper_ascii(b.last())));
        assert(digits_of(a) + digits_of(b.drop_last()).push(b.last()) =~= (digits_of(a)
            + digits_of(b.drop_last())).push(b.last()));
    }
}

proof fn lemma_col_label(n: nat)
    ensures
        letters_of(col_label(n)) == col_label(n),
        digits_of(col_label(n)) == Seq::<char>::empty(),
        col_value(col_label(n)) == n + 1,
        col_label(n).len() > 0,
    decreases n,
{
    let s = col_label(n);
    if n < 26 {
        assert(s.drop_last() =~= Seq::<char>::empty());
        assert(letters_of(Seq::<char>::empty()) == Seq::<char>::empty());
        assert(digits_of(Seq::<char>::empty()) == Seq::<char>::empty());
        assert(col_value(Seq::<char>::empty()) == 0);
        assert(s.last() == letter(n as int));
        assert(letters_of(s) =~= s);
    } else {
        let m = (n / 26 - 1) as nat;
        lemma_col_label(m);
        let x = letter((n % 26) as int);
        assert(s == col_label(m).push(x));
        assert(s.drop_last() =~= col_label(m));
        assert(s.last() == x);
        assert(is_upper(x));
        assert(letters_of(s) == letters_of(col_label(m)).push(x));
        assert(digits_of(s) == digits_of(col_label(m)));
        assert(col_value(s) == col_value(col_label(m)) * 26 + (x as int - 64));
        assert(n == 26 * (n / 26) + n % 26);
    }
}

proof fn lemma_dec_label(n: nat)
    ensures
        letters_of(dec_label(n)) == Seq::<char>::empty(),
        digits_of(dec_label(n)) == dec_label(n),
        dec_value(dec_label(n)) == n,
        dec_label(n).len() > 0,
    decreases n,
{
    let s = dec_label(n);
    if n < 10 {
        assert(s.drop_last() =~= Seq::<char>::empty());
        assert(letters_of(Seq::<char>::empty()) == Seq::<char>::empty());
        assert(digits_of(Seq::<char>::empty()) == Seq::<char>::empty());
        assert(dec_value(Seq::<char>::empty()) == 0);
        assert(s.last() == digit(n as int));
        assert(digits_of(s) =~= s);
    } else {
        let m = n / 10;
        lemma_dec_label(m);
        let x = digit((n % 10) as int);
        assert(s == dec_label(m).push(x));
        assert(s.drop_last() =~= dec_label(m));
        assert(s.last() == x);
        assert(is_digit(x));
        assert(letters_of(s) == letters_of(dec_label(m)));
        assert(digits_of(s) == digits_of(dec_label(m)).push(x));
        assert(dec_value(s) == dec_value(dec_label(m)) * 10 + (x as int - 48));
        assert(n == 10 * (n / 10) + n % 10);
    }
}

/// Writing a cell's address and reading it back gives the same cell: the
/// column label followed by the one-based row number parses to `(row, col)`.
pub proof fn lemma_address_round_trip(row: nat, col: nat)
    requires
        row < usize::MAX,
        col < usize::MAX,
    ensures
        read_ref(col_label(col) + dec_label(row + 1)) == Some((row as usize, col as usize)),
        ref_spec(col_label(col) + dec_label(row + 1)) == Some((row as usize, col as usize)),
        strict_ref_spec(col_label(col) + dec_label(row + 1)) == Some(
            (row as usize, col as usize),
        ),
{
    let a = col_label(col);
    let b = dec_label(row + 1);
    lemma_col_label(col);
    lemma_dec_label(row + 1);
    lemma_letters_concat(a, b);
    assert(letters_of(a) + letters_of(b) =~= a);
    assert(digits_of(a) + digits_of(b) =~= b);
    let s = a + b;
    assert forall|k: int| 0 <= k < s.len() implies !is_ws(#[trigger] s[k]) by {
        lemma_label_chars(col, row + 1, k);
    }
    lemma_no_ws_trim(s);
    lemma_alpha_run_concat(a, b, col, row + 1);
    assert forall|k: int| 0 <= k < s.len() implies is_alnum(#[trigger] s[k]) by {
        lemma_label_chars(col, row + 1, k);
    }
}

pub proof fn lemma_label_chars(col: nat, n: nat, k: int)
    requires
        0 <= k < (col_label(col) + dec_label(n)).len(),
    ensures
        is_upper((col_label(col) + dec_label(n))[k]) || is_digit(
            (col_label(col) + dec_label(n))[k],
        ),
{
    let a = col_label(col);
    if k < a.len() {
        lemma_col_label_upper(col, k);
    } else {
        lemma_dec_label_digit(n, k - a.len());
    }
}

proof fn lemma_col_label_upper(n: nat, k: int)
    requires
        0 <= k < col_label(n).len(),
    ensures
        is_upper(col_label(n)[k]),
    decreases n,
{
    if n >= 26 {
        let m = (n / 26 - 1) as nat;
        if k < col_label(m).len() {
            lemma_col_label_upper(m, k);
        }
    }
}

proof fn lemma_dec_label_digit(n: nat, k: int)
    requires
        0 <= k < dec_label(n).len(),
    ensures
        is_digit(dec_label(n)[k]),
    decreases n,
{
    if n >= 10 {
        if k < dec_label(n / 10).len() {
            lemma_dec_label_digit(n / 10, k);
        }
    }
}

proof fn lemma_no_ws_trim(s: Seq<char>)
    requires
        forall|k: int| 0 <= k < s.len() ==> !is_ws(#[trigger] s[k]),
    ensures
        trim_seq(s) == s,
{
    crate::text::lemma_lead_ws_bounds(s);
    if s.len() > 0 {
        assert(crate::text::lead_ws(s) == 0);
    }
    let t = s.subrange(crate::text::lead_ws(s), s.len() as int);
    assert(t =~= s);
    crate::text::lemma_trail_end_bounds(t);
    assert(t.subrange(0, t.len() as int) =~= t);
}

proof fn lemma_alpha_run_upper(s: Seq<char>, i: int)
    requires
        0 <= i <= s.len(),
        forall|k: int| 0 <= k < i ==> is_upper(#[trigger] s[k]),
        i < s.len() ==> !is_alpha(s[i]),
    ensures
        alpha_run(s) == i,
    decreases s.len(),
{
    if i > 0 {
        assert forall|k: int| 0 <= k < i - 1 implies is_upper(#[trigger] s.drop_first()[k]) by {
            assert(s.drop_first()[k] == s[k + 1]);
        }
        assert(is_upper(s[0]));
        lemma_alpha_run_upper(s.drop_first(), i - 1);
    }
}

proof fn lemma_alpha_run_concat(a: Seq<char>, b: Seq<char>, col: nat, n: nat)
    requires
        a == col_label(col),
        b == dec_label(n),
    ensures
        is_plain_ref(a + b),
{
    lemma_col_label(col);
    lemma_dec_label(n);
    let s = a + b;
    assert forall|k: int| 0 <= k < a.len() implies is_upper(#[trigger] s[k]) by {
        lemma_col_label_upper(col, k);
    }
    assert forall|k: int| a.len() <= k < s.len() implies is_digit(#[trigger] s[k]) by {
        lemma_dec_label_digit(n, k - a.len());
    }
    lemma_alpha_run_upper(s, a.len() as int);
}

} // verus!
