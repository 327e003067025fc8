//! The text functions (`LEFT`, `RIGHT`, `MID`, `LEN`, `TRIM`, `UPPER`,
//! `LOWER`, `PROPER`) and the text tests of `IFERROR`, `AND`, `OR`, `NOT`.
//! Each takes the already evaluated argument text, strips one layer of
//! matching quotes from it, and works on characters, not bytes.
use crate::args::{split_words, views, words_spec};
use crate::text::{chars_eq, chars_of, is_whitespace, is_ws, push_char, string_of, unquote_seq};
use vstd::prelude::*;

verus! {

/// What `str::to_uppercase` gives for a text.
pub uninterp spec fn upper_of(s: Seq<char>) -> Seq<char>;

/// What `str::to_lowercase` gives for a text.
pub uninterp spec fn lower_of(s: Seq<char>) -> Seq<char>;

/// The first character that `char::to_uppercase` gives for a character.
pub uninterp spec fn upper_first_of(c: char) -> char;

/// The first character that `char::to_lowercase` gives for a character.
pub uninterp spec fn lower_first_of(c: char) -> char;

/// Relies on `str::to_uppercase`: Unicode upper case, a function of the text.
#[verifier::external_body]
pub(crate) fn to_upper(s: &str) -> (r: String)
    ensures
        r@ == upper_of(s@),
{
    s.to_uppercase()
}

/// Relies on `str::to_lowercase`: Unicode lower case, a function of the text.
#[verifier::external_body]
pub(crate) fn to_lower(s: &str) -> (r: String)
    ensures
        r@ == lower_of(s@),
{
    s.to_lowercase()
}

/// Relies on `char::to_uppercase`, which yields at least one character: its first.
#[verifier::external_body]
fn first_upper(c: char) -> (r: char)
    ensures
        r == upper_first_of(c),
{
    c.to_uppercase().next().unwrap_or(c)
}

/// Relies on `char::to_lowercase`, which yields at least one character: its first.
#[verifier::external_body]
fn first_lower(c: char) -> (r: char)
    ensures
        r == lower_first_of(c),
{
    c.to_lowercase().next().unwrap_or(c)
}

pub open spec fn min_n(a: int, b: int) -> int {
    if a < b {
        a
    } else {
        b
    }
}

/// `LEFT`: the first `n` characters.
pub open spec fn left_spec(text: Seq<char>, n: int) -> Seq<char> {
    let t = unquote_seq(text);
    t.subrange(0, min_n(n, t.len() as int))
}

/// `RIGHT`: the last `n` characters.
pub open spec fn right_spec(text: Seq<char>, n: int) -> Seq<char> {
    let t = unquote_seq(text);
    t.subrange(t.len() - min_n(n, t.len() as int), t.len() as int)
}

/// `MID`: `n` characters from the one-based position `start`; empty when
/// `start` is 0 or past the end.
pub open spec fn mid_spec(text: Seq<char>, start: int, n: int) -> Seq<char> {
    let t = unquote_seq(text);
    if start == 0 || start > t.len() {
        Seq::empty()
    } else {
        t.subrange(start - 1, min_n(start - 1 + n, t.len() as int))
    }
}

fn unquoted_chars(text: &str) -> (r: Vec<char>)
    ensures
        r@ == unquote_seq(text@),
{
    let v = chars_of(text);
    let n = v.len();
    if n >= 2 && ((v[0] == '"' && v[n - 1] == '"') || (v[0] == '\'' && v[n - 1] == '\'')) {
        let mut r: Vec<char> = Vec::new();
        let mut i: usize = 1;
        while i < n - 1
            invariant
                1 <= i <= n - 1,
                n == v@.len(),
                r@ == v@.subrange(1, i as int),
            decreases n - 1 - i,
        {
            r.push(v[i]);
            assert(v@.subrange(1, i + 1) =~= v@.subrange(1, i as int).push(v@[i as int]));
            i += 1;
        }
        r
    } else {
        v
    }
}

/// `LEFT(text, n)` on the evaluated text.
pub fn left_text(text: &str, n: usize) -> (r: String)
    ensures
        r@ == left_spec(text@, n as int),
{
    let t = unquoted_chars(text);
    let end = if n < t.len() {
        n
    } else {
        t.len()
    };
    string_of(&t, 0, end)
}

/// `RIGHT(text, n)` on the evaluated text.
pub fn right_text(text: &str, n: usize) -> (r: String)
    ensures
        r@ == right_spec(text@, n as int),
{
    let t = unquoted_chars(text);
    let start = if n > t.len() {
        0
    } else {
        t.len() - n
    };
    string_of(&t, start, t.len())
}

/// `MID(text, start, n)` on the evaluated text; `start` is one-based.
pub fn mid_text(text: &str, start: usize, n: usize) -> (r: String)
    ensures
        r@ == mid_spec(text@, start as int, n as int),
{
    let t = unquoted_chars(text);
    let len = t.len();
    if start == 0 || start > len {
        return String::new();
    }
    let from = start - 1;
    let end = if n >= len - from {
        len
    } else {
        from + n
    };
    string_of(&t, from, end)
}

/// `LEN`: the number of characters of the evaluated text.
pub fn len_text(text: &str) -> (r: usize)
    ensures
        r == unquote_seq(text@).len(),
{
    unquoted_chars(text).len()
}

/// Words joined with single spaces.
pub open spec fn join_words(ws: Seq<Seq<char>>) -> Seq<char>
    decreases ws.len(),
{
    if ws.len() == 0 {
        Seq::empty()
    } else if ws.len() == 1 {
        ws[0]
    } else {
        join_words(ws.drop_last()) + seq![' '] + ws.last()
    }
}

/// `TRIM`: the words of the text joined by single spaces.
pub fn trim_text(text: &str) -> (r: String)
    ensures
        r@ == join_words(words_spec(unquote_seq(text@))),
{
    let t = unquoted_chars(text);
    let s = string_of(&t, 0, t.len());
    assert(t@.subrange(0, t@.len() as int) =~= t@);
    let words = split_words(s.as_str());
    let ghost ws = views(words@);
    let mut out = String::new();
    let mut i: usize = 0;
    while i < words.len()
        invariant
            i <= words@.len(),
            ws == views(words@),
            out@ == join_words(ws.subrange(0, i as int)),
        decreases words.len() - i,
    {
        let w = chars_of(words[i].as_str());
        assert(ws.subrange(0, i + 1).drop_last() =~= ws.subrange(0, i as int));
        assert(ws[i as int] == words@[i as int]@);
        if i > 0 {
            push_char(&mut out, ' ');
        } else {
            assert(ws.subrange(0, 1) =~= seq![ws[0]]);
        }
        let ghost before = out@;
        let mut j: usize = 0;
        while j < w.len()
            invariant
                j <= w@.len(),
                out@ == before + w@.subrange(0, j as int),
            decreases w.len() - j,
        {
            push_char(&mut out, w[j]);
            assert(w@.subrange(0, j + 1) =~= w@.subrange(0, j as int).push(w@[j as int]));
            j += 1;
        }
        assert(w@.subrange(0, w@.len() as int) =~= w@);
        if i == 0 {
            assert(out@ =~= ws[0]);
        }
        i += 1;
    }
    assert(ws.subrange(0, ws.len() as int) =~= ws);
    out
}

/// `PROPER`: the character at `i` of the result. A character that begins a
/// word (after white space, or first) is upper-cased, one inside a word is
/// lower-cased, white space is kept.
pub open spec fn proper_char(t: Seq<char>, i: int) -> char {
    if is_ws(t[i]) {
        t[i]
    } else if i == 0 || is_ws(t[i - 1]) {
        upper_first_of(t[i])
    } else {
        lower_first_of(t[i])
    }
}

/// `PROPER` on the evaluated text.
pub fn proper_text(text: &str) -> (r: String)
    ensures
        r@.len() == unquote_seq(text@).len(),
        forall|i: int|
            0 <= i < r@.len() ==> #[trigger] r@[i] == proper_char(unquote_seq(text@), i),
{
    let t = unquoted_chars(text);
    let mut out = String::new();
    let mut cap = true;
    let mut i: usize = 0;
    while i < t.len()
        invariant
            i <= t@.len(),
            out@.len() == i,
            cap == (i == 0 || is_ws(t@[i - 1])),
            forall|k: int| 0 <= k < i ==> #[trigger] out@[k] == proper_char(t@, k),
        decreases t.len() - i,
    {
        let c = t[i];
        let ghost before = out@;
        if is_whitespace(c) {
            push_char(&mut out, c);
            cap = true;
        } else if cap {
            push_char(&mut out, first_upper(c));
            cap = false;
        } else {
            push_char(&mut out, first_lower(c));
        }
        assert forall|k: int| 0 <= k < i + 1 implies #[trigger] out@[k] == proper_char(t@, k) by {
            if k < i {
                assert(out@[k] == before[k]);
            }
        }
        i += 1;
    }
    out
}

/// `UPPER` on the evaluated text.
pub fn upper_text(text: &str) -> (r: String)
    ensures
        r@ == upper_of(unquote_seq(text@)),
{
    let t = unquoted_chars(text);
    let s = string_of(&t, 0, t.len());
    assert(t@.subrange(0, t@.len() as int) =~= t@);
    to_upper(s.as_str())
}

/// `LOWER` on the evaluated text.
pub fn lower_text(text: &str) -> (r: String)
    ensures
        r@ == lower_of(unquote_seq(text@)),
{
    let t = unquoted_chars(text);
    let s = string_of(&t, 0, t.len());
    assert(t@.subrange(0, t@.len() as int) =~= t@);
    to_lower(s.as_str())
}

/// A result that `IFERROR` replaces: an error sentinel (starting with `#`)
/// or an infinite or undefined number.
pub open spec fn is_error_spec(r: Seq<char>) -> bool {
    (r.len() > 0 && r[0] == '#') || r == seq!['i', 'n', 'f'] || r == seq!['-', 'i', 'n', 'f'] || r
        == seq!['n', 'a', 'n'] || r == seq!['N', 'a', 'N']
}

/// Whether `IFERROR` replaces the result `r`.
pub fn is_error_text(r: &str) -> (b: bool)
    ensures
        b == is_error_spec(r@),
{
    let v = chars_of(r);
    let inf = vec!['i', 'n', 'f'];
    let neg_inf = vec!['-', 'i', 'n', 'f'];
    let nan = vec!['n', 'a', 'n'];
    let big_nan = vec!['N', 'a', 'N'];
    assert(inf@ =~= seq!['i', 'n', 'f']);
    assert(neg_inf@ =~= seq!['-', 'i', 'n', 'f']);
    assert(nan@ =~= seq!['n', 'a', 'n']);
    assert(big_nan@ =~= seq!['N', 'a', 'N']);
    (v.len() > 0 && v[0] == '#') || chars_eq(&v, &inf) || chars_eq(&v, &neg_inf) || chars_eq(
        &v,
        &nan,
    ) || chars_eq(&v, &big_nan)
}

/// The logical literal that an upper-cased text spells: `TRUE` or `FALSE`.
pub open spec fn bool_word_folded_spec(folded: Seq<char>) -> Option<bool> {
    if folded == seq!['T', 'R', 'U', 'E'] {
        Some(true)
    } else if folded == seq!['F', 'A', 'L', 'S', 'E'] {
        Some(false)
    } else {
        None
    }
}

/// The literal `TRUE` or `FALSE` (in any case) of a logical argument.
pub open spec fn bool_word_spec(part: Seq<char>) -> Option<bool> {
    bool_word_folded_spec(upper_of(part))
}

/// Reads an already upper-cased logical argument: `TRUE`, `FALSE`, or neither.
pub fn bool_word_folded(folded: &str) -> (r: Option<bool>)
    ensures
        r == bool_word_folded_spec(folded@),
{
    let u = chars_of(folded);
    let t = vec!['T', 'R', 'U', 'E'];
    let f = vec!['F', 'A', 'L', 'S', 'E'];
    assert(t@ =~= seq!['T', 'R', 'U', 'E']);
    assert(f@ =~= seq!['F', 'A', 'L', 'S', 'E']);
    if chars_eq(&u, &t) {
        Some(true)
    } else if chars_eq(&u, &f) {
        Some(false)
    } else {
        None
    }
}

/// Reads a logical argument written as `TRUE` or `FALSE`, in any case.
pub fn bool_word(part: &str) -> (r: Option<bool>)
    ensures
        r == bool_word_spec(part@),
{
    bool_word_folded(to_upper(part).as_str())
}

/// Whether an upper-cased text counts as true: `TRUE` or `1`.
pub open spec fn truthy_folded_spec(folded: Seq<char>) -> bool {
    folded == seq!['T', 'R', 'U', 'E'] || folded == seq!['1']
}

/// Whether an already upper-cased evaluated text counts as true.
pub fn truthy_folded(folded: &str) -> (r: bool)
    ensures
        r == truthy_folded_spec(folded@),
{
    let u = chars_of(folded);
    let t = vec!['T', 'R', 'U', 'E'];
    let one = vec!['1'];
    assert(t@ =~= seq!['T', 'R', 'U', 'E']);
    assert(one@ =~= seq!['1']);
    chars_eq(&u, &t) || chars_eq(&u, &one)
}

/// Whether an evaluated text counts as true: `TRUE` in any case, or `1`.
pub fn truthy_text(text: &str) -> (r: bool)
    ensures
        r == truthy_folded_spec(upper_of(text@)),
{
    truthy_folded(to_upper(text).as_str())
}

} // verus!
