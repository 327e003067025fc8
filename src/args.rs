//! Splitting text into pieces: function arguments (depth-aware), plain
//! separator splits, and white-space separated words.
use crate::text::{chars_of, is_whitespace, is_ws, string_of};
use vstd::prelude::*;

verus! {

/// The character sequences of a list of strings.
pub open spec fn views(v: Seq<String>) -> Seq<Seq<char>> {
    v.map_values(|x: String| x@)
}

pub proof fn lemma_views_push(v: Seq<String>, x: String)
    ensures
        views(v.push(x)) == views(v).push(x@),
{
    assert(views(v.push(x)) =~= views(v).push(x@));
}

/// Scanning state after reading `s` for argument splitting: the finished
/// arguments, the argument being read, and the parenthesis depth.
pub open spec fn args_state(s: Seq<char>) -> (Seq<Seq<char>>, Seq<char>, int)
    decreases s.len(),
{
    if s.len() == 0 {
        (Seq::empty(), Seq::empty(), 0)
    } else {
        let (parts, cur, depth) = args_state(s.drop_last());
        let c = s.last();
        if c == '(' {
            (parts, cur.push(c), depth + 1)
        } else if c == ')' {
            (parts, cur.push(c), depth - 1)
        } else if c == ',' && depth == 0 {
            (parts.push(cur), Seq::empty(), depth)
        } else {
            (parts, cur.push(c), depth)
        }
    }
}

/// The arguments of `s`: split at the commas outside any parentheses.
pub open spec fn split_args_spec(s: Seq<char>) -> Seq<Seq<char>> {
    let (parts, cur, _) = args_state(s);
    parts.push(cur)
}

/// Scanning state for a split at every `sep`.
pub open spec fn sep_state(s: Seq<char>, sep: char) -> (Seq<Seq<char>>, Seq<char>)
    decreases s.len(),
{
    if s.len() == 0 {
        (Seq::empty(), Seq::empty())
    } else {
        let (parts, cur) = sep_state(s.drop_last(), sep);
        if s.last() == sep {
            (parts.push(cur), Seq::empty())
        } else {
            (parts, cur.push(s.last()))
        }
    }
}

/// The pieces of `s` between occurrences of `sep`, as `str::split` gives them.
pub open spec fn split_spec(s: Seq<char>, sep: char) -> Seq<Seq<char>> {
    let (parts, cur) = sep_state(s, sep);
    parts.push(cur)
}

/// Scanning state for white-space separated words.
pub open spec fn words_state(s: Seq<char>) -> (Seq<Seq<char>>, Seq<char>)
    decreases s.len(),
{
    if s.len() == 0 {
        (Seq::empty(), Seq::empty())
    } else {
        let (ws, cur) = words_state(s.drop_last());
        if is_ws(s.last()) {
            if cur.len() > 0 {
                (ws.push(cur), Seq::empty())
            } else {
                (ws, cur)
            }
        } else {
            (ws, cur.push(s.last()))
        }
    }
}

/// The maximal runs of non-white-space characters of `s`, as
/// `str::split_whitespace` gives them.
pub open spec fn words_spec(s: Seq<char>) -> Seq<Seq<char>> {
    let (ws, cur) = words_state(s);
    if cur.len() > 0 {
        ws.push(cur)
    } else {
        ws
    }
}

/// Splits an argument list at the commas that stand outside parentheses, so
/// that a nested call's own commas stay inside its argument. Quotes are not
/// taken into account.
pub fn split_function_args(args: &str) -> (r: Vec<String>)
    ensures
        views(r@) == split_args_spec(args@),
{
    let v = chars_of(args);
    let n = v.len();
    let mut parts: Vec<String> = Vec::new();
    let mut start: usize = 0;
    let mut depth: i128 = 0;
    let mut i: usize = 0;
    while i < n
        invariant
            start <= i <= n == v@.len(),
            -(i as int) <= depth <= i as int,
            n <= usize::MAX,
            ({
                let (p, cur, d) = args_state(v@.subrange(0, i as int));
                views(parts@) == p && cur == v@.subrange(start as int, i as int) && d == depth
            }),
        decreases n - i,
    {
        let c = v[i];
        let ghost pre = v@.subrange(0, i as int);
        assert(v@.subrange(0, i + 1).drop_last() =~= pre);
        assert(v@.subrange(start as int, i + 1) =~= v@.subrange(start as int, i as int).push(c));
        if c == '(' {
            depth = depth + 1;
        } else if c == ')' {
            depth = depth - 1;
        } else if c == ',' && depth == 0 {
            let piece = string_of(&v, start, i);
            proof {
                lemma_views_push(parts@, piece);
            }
            parts.push(piece);
            start = i + 1;
        }
        i += 1;
    }
    let last = string_of(&v, start, n);
    proof {
        lemma_views_push(parts@, last);
        assert(v@.subrange(0, n as int) =~= args@);
    }
    parts.push(last);
    parts
}

/// Splits `s` at every occurrence of `sep`.
pub fn split_on(s: &str, sep: char) -> (r: Vec<String>)
    ensures
        views(r@) == split_spec(s@, sep),
{
    let v = chars_of(s);
    let n = v.len();
    let mut parts: Vec<String> = Vec::new();
    let mut start: usize = 0;
    let mut i: usize = 0;
    while i < n
        invariant
            start <= i <= n == v@.len(),
            ({
                let (p, cur) = sep_state(v@.subrange(0, i as int), sep);
                views(parts@) == p && cur == v@.subrange(start as int, i as int)
            }),
        decreases n - i,
    {
        let c = v[i];
        assert(v@.subrange(0, i + 1).drop_last() =~= v@.subrange(0, i as int));
        assert(v@.subrange(start as int, i + 1) =~= v@.subrange(start as int, i as int).push(c));
        if c == sep {
            let piece = string_of(&v, start, i);
            proof {
                lemma_views_push(parts@, piece);
            }
            parts.push(piece);
            start = i + 1;
        }
        i += 1;
    }
    let last = string_of(&v, start, n);
    proof {
        lemma_views_push(parts@, last);
        assert(v@.subrange(0, n as int) =~= s@);
    }
    parts.push(last);
    parts
}

/// The white-space separated words of `s`.
pub fn split_words(s: &str) -> (r: Vec<String>)
    ensures
        views(r@) == words_spec(s@),
{
    let v = chars_of(s);
    let n = v.len();
    let mut words: Vec<String> = Vec::new();
    let mut start: usize = 0;
    let mut i: usize = 0;
    while i < n
        invariant
            start <= i <= n == v@.len(),
            ({
                let (ws, cur) = words_state(v@.subrange(0, i as int));
                views(words@) == ws && cur == v@.subrange(start as int, i as int)
            }),
        decreases n - i,
    {
        let c = v[i];
        assert(v@.subrange(0, i + 1).drop_last() =~= v@.subrange(0, i as int));
        assert(v@.subrange(start as int, i + 1) =~= v@.subrange(start as int, i as int).push(c));
        if is_whitespace(c) {
            if start < i {
                let w = string_of(&v, start, i);
                proof {
                    lemma_views_push(words@, w);
                }
                words.push(w);
            }
            start = i + 1;
            assert(v@.subrange(start as int, i + 1) =~= Seq::<char>::empty());
        }
        i += 1;
    }
    if start < n {
        let w = string_of(&v, start, n);
        proof {
            lemma_views_push(words@, w);
        }
        words.push(w);
    }
    assert(v@.subrange(0, n as int) =~= s@);
    words
}

} // verus!
