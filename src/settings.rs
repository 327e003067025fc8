//! User settings and their configuration-file text: `key=value` lines,
//! blank lines and `#` comments skipped, unknown keys ignored.
use crate::args::{split_on, split_spec, views};
use crate::text::{
    chars_eq, chars_of, find_span, find_seq, string_from, trim_bounds, trim_seq,
    push_char,
};
use vstd::prelude::*;

verus! {

/// The user's settings.
#[derive(Debug, Clone, Copy, PartialEq, Eq, Structural)]
pub struct Settings {
    pub dark_mode: bool,
    /// When set, the "new version available" prompt is not shown.
    pub hide_update_prompt: bool,
}

impl Default for Settings {
    fn default() -> (r: Self)
        ensures
            !r.dark_mode,
            !r.hide_update_prompt,
    {
        Settings { dark_mode: false, hide_update_prompt: false }
    }
}

pub open spec fn dark_mode_key() -> Seq<char> {
    seq!['d', 'a', 'r', 'k', '_', 'm', 'o', 'd', 'e']
}

pub open spec fn hide_prompt_key() -> Seq<char> {
    seq![
        'h', 'i', 'd', 'e', '_', 'u', 'p', 'd', 'a', 't', 'e', '_', 'p', 'r', 'o', 'm', 'p', 't',
    ]
}

pub open spec fn bool_text(b: bool) -> Seq<char> {
    if b {
        seq!['t', 'r', 'u', 'e']
    } else {
        seq!['f', 'a', 'l', 's', 'e']
    }
}

/// A setting's value reads as on when it is `true` or `1`.
pub open spec fn flag_of(value: Seq<char>) -> bool {
    value == seq!['t', 'r', 'u', 'e'] || value == seq!['1']
}

/// The settings after reading one line of the configuration file.
pub open spec fn line_effect(s: Settings, line: Seq<char>) -> Settings {
    let t = trim_seq(line);
    if t.len() == 0 || t[0] == '#' {
        s
    } else {
        match find_seq(t, seq!['=']) {
            None => s,
            Some(k) => {
                let key = trim_seq(t.subrange(0, k));
                let value = trim_seq(t.subrange(k + 1, t.len() as int));
                if key == dark_mode_key() {
                    Settings { dark_mode: flag_of(value), ..s }
                } else if key == hide_prompt_key() {
                    Settings { hide_update_prompt: flag_of(value), ..s }
                } else {
                    s
                }
            },
        }
    }
}

/// The settings after reading the given lines in order.
pub open spec fn lines_effect(s: Settings, lines: Seq<Seq<char>>) -> Settings
    decreases lines.len(),
{
    if lines.len() == 0 {
        s
    } else {
        line_effect(lines_effect(s, lines.drop_last()), lines.last())
    }
}

/// The text a configuration file holds for `s`.
pub open spec fn config_text_spec(s: Settings) -> Seq<char> {
    seq![
        '#', ' ', 'x', 'l', ' ', 's', 'p', 'r', 'e', 'a', 'd', 's', 'h', 'e', 'e', 't', ' ', 's',
        'e', 't', 't', 'i', 'n', 'g', 's', '\n',
    ] + dark_mode_key() + seq!['='] + bool_text(s.dark_mode) + seq!['\n'] + hide_prompt_key()
        + seq!['='] + bool_text(s.hide_update_prompt) + seq!['\n']
}

fn slice_of(v: &Vec<char>, lo: usize, hi: usize) -> (r: Vec<char>)
    requires
        lo <= hi <= v@.len(),
    ensures
        r@ == v@.subrange(lo as int, hi as int),
{
    let mut w: Vec<char> = Vec::new();
    let mut i = lo;
    while i < hi
        invariant
            lo <= i <= hi <= v@.len(),
            w@ == v@.subrange(lo as int, i as int),
        decreases hi - i,
    {
        w.push(v[i]);
        assert(v@.subrange(lo as int, i + 1) =~= v@.subrange(lo as int, i as int).push(v@[i as int]));
        i += 1;
    }
    w
}

fn piece(v: &Vec<char>, lo: usize, hi: usize) -> (r: Vec<char>)
    requires
        lo <= hi <= v@.len(),
    ensures
        r@ == trim_seq(v@.subrange(lo as int, hi as int)),
{
    let w = slice_of(v, lo, hi);
    let (a, b) = trim_bounds(&w);
    slice_of(&w, a, b)
}

fn flag(value: &Vec<char>) -> (r: bool)
    ensures
        r == flag_of(value@),
{
    let t = vec!['t', 'r', 'u', 'e'];
    let one = vec!['1'];
    assert(t@ =~= seq!['t', 'r', 'u', 'e']);
    assert(one@ =~= seq!['1']);
    chars_eq(value, &t) || chars_eq(value, &one)
}

fn append_chars(s: &mut String, v: &Vec<char>)
    ensures
        final(s)@ == old(s)@ + v@,
{
    let mut i: usize = 0;
    let ghost s0 = s@;
    while i < v.len()
        invariant
            i <= v@.len(),
            s@ == s0 + v@.subrange(0, i as int),
        decreases v.len() - i,
    {
        push_char(s, v[i]);
        assert(v@.subrange(0, i + 1) =~= v@.subrange(0, i as int).push(v@[i as int]));
        i += 1;
    }
    assert(v@.subrange(0, v@.len() as int) =~= v@);
}

fn bool_chars(b: bool) -> (r: Vec<char>)
    ensures
        r@ == bool_text(b),
{
    if b {
        vec!['t', 'r', 'u', 'e']
    } else {
        vec!['f', 'a', 'l', 's', 'e']
    }
}

fn dark_mode_chars() -> (r: Vec<char>)
    ensures
        r@ == dark_mode_key(),
{
    vec!['d', 'a', 'r', 'k', '_', 'm', 'o', 'd', 'e']
}

fn hide_prompt_chars() -> (r: Vec<char>)
    ensures
        r@ == hide_prompt_key(),
{
    vec!['h', 'i', 'd', 'e', '_', 'u', 'p', 'd', 'a', 't', 'e', '_', 'p', 'r', 'o', 'm', 'p', 't']
}

impl Settings {
    /// Turns dark mode on or off. Saving is left to the caller.
    pub fn set_dark_mode(&mut self, dark_mode: bool)
        ensures
            final(self).dark_mode == dark_mode,
            final(self).hide_update_prompt == old(self).hide_update_prompt,
    {
        self.dark_mode = dark_mode;
    }

    /// Sets whether the update prompt stays hidden. Saving is left to the caller.
    pub fn set_hide_update_prompt(&mut self, hide: bool)
        ensures
            final(self).hide_update_prompt == hide,
            final(self).dark_mode == old(self).dark_mode,
    {
        self.hide_update_prompt = hide;
    }

    /// Applies one line of a configuration file.
    pub fn apply_config_line(&mut self, line: &str)
        ensures
            *final(self) == line_effect(*old(self), line@),
    {
        let v = chars_of(line);
        let (lo, hi) = trim_bounds(&v);
        if lo == hi || v[lo] == '#' {
            proof {
                if lo < hi {
                    assert(trim_seq(line@)[0] == v@[lo as int]);
                }
            }
            return;
        }
        let t = slice_of(&v, lo, hi);
        let eq = vec!['='];
        assert(eq@ =~= seq!['=']);
        match find_span(&t, &eq) {
            None => {},
            Some((k, k1)) => {
                let key = piece(&t, 0, k);
                let value = piece(&t, k1, t.len());
                if chars_eq(&key, &dark_mode_chars()) {
                    self.dark_mode = flag(&value);
                } else if chars_eq(&key, &hide_prompt_chars()) {
                    self.hide_update_prompt = flag(&value);
                }
            },
        }
    }

    /// Reads a configuration file's text over the defaults.
    pub fn parse_config(text: &str) -> (r: Settings)
        ensures
            r == lines_effect(
                Settings { dark_mode: false, hide_update_prompt: false },
                split_spec(text@, '\n'),
            ),
    {
        let lines = split_on(text, '\n');
        let ghost ls = views(lines@);
        let mut s = Settings { dark_mode: false, hide_update_prompt: false };
        let mut i: usize = 0;
        while i < lines.len()
            invariant
                i <= lines@.len(),
                ls == views(lines@),
                ls == split_spec(text@, '\n'),
                s == lines_effect(
                    Settings { dark_mode: false, hide_update_prompt: false },
                    ls.subrange(0, i as int),
                ),
            decreases lines.len() - i,
        {
            assert(ls.subrange(0, i + 1).drop_last() =~= ls.subrange(0, i as int));
            assert(ls[i as int] == lines@[i as int]@);
            s.apply_config_line(lines[i].as_str());
            i += 1;
        }
        assert(ls.subrange(0, lines@.len() as int) =~= ls);
        s
    }

    /// The configuration file's text for these settings.
    pub fn to_config_text(&self) -> (r: String)
        ensures
            r@ == config_text_spec(*self),
    {
        let mut out = string_from(
            vec![
                '#', ' ', 'x', 'l', ' ', 's', 'p', 'r', 'e', 'a', 'd', 's', 'h', 'e', 'e', 't', ' ',
                's', 'e', 't', 't', 'i', 'n', 'g', 's', '\n',
            ],
        );
        append_chars(&mut out, &dark_mode_chars());
        push_char(&mut out, '=');
        append_chars(&mut out, &bool_chars(self.dark_mode));
        push_char(&mut out, '\n');
        append_chars(&mut out, &hide_prompt_chars());
        push_char(&mut out, '=');
        append_chars(&mut out, &bool_chars(self.hide_update_prompt));
        push_char(&mut out, '\n');
        assert(out@ =~= config_text_spec(*self));
        out
    }
}

} // verus!
