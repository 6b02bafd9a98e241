//! Turning text into URL slugs: lower case ASCII letters and digits, with
//! accented Latin letters folded to their base letter and every other run
//! of characters collapsed into a single `-`.

use crate::text::string_of_chars;
use vstd::prelude::*;

verus! {

/// What `str::to_lowercase` makes of a string.
pub uninterp spec fn lower_of(s: Seq<char>) -> Seq<char>;

/// Relies on `str::to_lowercase`: the lower-case form of the string, which
/// depends on its characters alone; the empty string stays empty.
#[verifier::external_body]
fn lowercase(s: &str) -> (r: String)
    ensures
        r@ == lower_of(s@),
        s@.len() == 0 ==> r@.len() == 0,
{
    s.to_lowercase()
}

pub open spec fn is_ascii_alphanumeric(c: char) -> bool {
    ('0' <= c && c <= '9') || ('a' <= c && c <= 'z') || ('A' <= c && c <= 'Z')
}

/// The base letter of an accented Latin letter that the slug folds.
pub open spec fn accent_base(c: char) -> Option<char> {
    match c {
        '\u{e0}'
        | '\u{e1}'
        | '\u{e2}'
        | '\u{e4}'
        | '\u{e6}'
        | '\u{e3}'
        | '\u{e5}'
        | '\u{101}'
        | '\u{103}'
        | '\u{105}' => Some('a'),
        '\u{e7}' | '\u{107}' | '\u{10d}' => Some('c'),
        '\u{111}' | '\u{10f}' => Some('d'),
        '\u{e8}'
        | '\u{e9}'
        | '\u{ea}'
        | '\u{eb}'
        | '\u{113}'
        | '\u{117}'
        | '\u{119}'
        | '\u{11b}' => Some('e'),
        '\u{11f}' | '\u{1f5}' => Some('g'),
        '\u{1e27}' => Some('h'),
        '\u{ee}'
        | '\u{ef}'
        | '\u{ed}'
        | '\u{12b}'
        | '\u{12f}'
        | '\u{ec}'
        | '\u{131}'
        | '\u{130}' => Some('i'),
        '\u{142}' => Some('l'),
        '\u{1e3f}' => Some('m'),
        '\u{f1}' | '\u{144}' | '\u{1f9}' | '\u{148}' => Some('n'),
        '\u{f4}'
        | '\u{f6}'
        | '\u{f2}'
        | '\u{f3}'
        | '\u{153}'
        | '\u{f8}'
        | '\u{14d}'
        | '\u{f5}'
        | '\u{151}' => Some('o'),
        '\u{1e55}' => Some('p'),
        '\u{155}' | '\u{159}' => Some('r'),
        '\u{df}' | '\u{15b}' | '\u{161}' | '\u{15f}' | '\u{219}' => Some('s'),
        '\u{165}' | '\u{21b}' => Some('t'),
        '\u{fb}'
        | '\u{fc}'
        | '\u{f9}'
        | '\u{fa}'
        | '\u{16b}'
        | '\u{1d8}'
        | '\u{16f}'
        | '\u{171}'
        | '\u{173}' => Some('u'),
        '\u{1e83}' => Some('w'),
        '\u{1e8d}' => Some('x'),
        '\u{ff}' | '\u{fd}' => Some('y'),
        '\u{17e}' | '\u{17a}' | '\u{17c}' => Some('z'),
        _ => None,
    }
}

/// The slug character for one input character.
pub open spec fn conv_spec(c: char) -> char {
    if is_ascii_alphanumeric(c) {
        c
    } else {
        match accent_base(c) {
            Some(b) => b,
            None => '-',
        }
    }
}

/// The converted characters of `cs`, with a `-` dropped whenever the
/// previous kept character is a `-` too.
pub open spec fn collapse(cs: Seq<char>) -> Seq<char>
    decreases cs.len(),
{
    if cs.len() == 0 {
        Seq::empty()
    } else {
        let prev = collapse(cs.drop_last());
        let d = conv_spec(cs.last());
        if d == '-' && prev.len() > 0 && prev.last() == '-' {
            prev
        } else {
            prev.push(d)
        }
    }
}

/// The slug of text that is already in lower case: the collapsed
/// conversion, without a trailing `-` unless that is all there is.
pub open spec fn slug_of(cs: Seq<char>) -> Seq<char> {
    let c = collapse(cs);
    if c.len() > 1 && c.last() == '-' {
        c.drop_last()
    } else {
        c
    }
}

fn accent_base_of(c: char) -> (r: Option<char>)
    ensures
        r == accent_base(c),
{
    match c {
        '\u{e0}'
        | '\u{e1}'
        | '\u{e2}'
        | '\u{e4}'
        | '\u{e6}'
        | '\u{e3}'
        | '\u{e5}'
        | '\u{101}'
        | '\u{103}'
        | '\u{105}' => Some('a'),
        '\u{e7}' | '\u{107}' | '\u{10d}' => Some('c'),
        '\u{111}' | '\u{10f}' => Some('d'),
        '\u{e8}'
        | '\u{e9}'
        | '\u{ea}'
        | '\u{eb}'
        | '\u{113}'
        | '\u{117}'
        | '\u{119}'
        | '\u{11b}' => Some('e'),
        '\u{11f}' | '\u{1f5}' => Some('g'),
        '\u{1e27}' => Some('h'),
        '\u{ee}'
        | '\u{ef}'
        | '\u{ed}'
        | '\u{12b}'
        | '\u{12f}'
        | '\u{ec}'
        | '\u{131}'
        | '\u{130}' => Some('i'),
        '\u{142}' => Some('l'),
        '\u{1e3f}' => Some('m'),
        '\u{f1}' | '\u{144}' | '\u{1f9}' | '\u{148}' => Some('n'),
        '\u{f4}'
        | '\u{f6}'
        | '\u{f2}'
        | '\u{f3}'
        | '\u{153}'
        | '\u{f8}'
        | '\u{14d}'
        | '\u{f5}'
        | '\u{151}' => Some('o'),
        '\u{1e55}' => Some('p'),
        '\u{155}' | '\u{159}' => Some('r'),
        '\u{df}' | '\u{15b}' | '\u{161}' | '\u{15f}' | '\u{219}' => Some('s'),
        '\u{165}' | '\u{21b}' => Some('t'),
        '\u{fb}'
        | '\u{fc}'
        | '\u{f9}'
        | '\u{fa}'
        | '\u{16b}'
        | '\u{1d8}'
        | '\u{16f}'
        | '\u{171}'
        | '\u{173}' => Some('u'),
        '\u{1e83}' => Some('w'),
        '\u{1e8d}' => Some('x'),
        '\u{ff}' | '\u{fd}' => Some('y'),
        '\u{17e}' | '\u{17a}' | '\u{17c}' => Some('z'),
        _ => None,
    }
}

/// The slug character for `c`: itself for an ASCII letter or digit, the
/// base letter for a folded accented letter, `-` for anything else.
pub fn conv(c: char) -> (r: char)
    ensures
        r == conv_spec(c),
{
    if ('0' <= c && c <= '9') || ('a' <= c && c <= 'z') || ('A' <= c && c <= 'Z') {
        c
    } else {
        match accent_base_of(c) {
            Some(b) => b,
            None => '-',
        }
    }
}

/// The slug of `s`, which is taken to be in lower case already.
pub fn slugify_lowered(s: &str) -> (r: String)
    ensures
        r@ == slug_of(s@),
{
    let mut out: Vec<char> = Vec::new();
    let ghost cs = s@;
    let n = s.unicode_len();
    let mut i: usize = 0;
    while i < n
        invariant
            n == cs.len(),
            cs == s@,
            i <= n,
            out@ == collapse(cs.take(i as int)),
        decreases n - i,
    {
        let c = s.get_char(i);
        let d = conv(c);
        proof {
            assert(cs.take(i + 1).drop_last() =~= cs.take(i as int));
        }
        if d != '-' || out.len() == 0 || out[out.len() - 1] != '-' {
            out.push(d);
        }
        i = i + 1;
    }
    assert(cs.take(n as int) =~= cs);
    if out.len() > 1 && out[out.len() - 1] == '-' {
        out.pop();
    }
    string_of_chars(&out)
}

/// The slug of `s`: its lower-case form, converted character by character,
/// with runs of `-` collapsed and a trailing `-` removed unless the slug is
/// just `-`.
pub fn slugify(s: &str) -> (r: String)
    ensures
        r@ == slug_of(lower_of(s@)),
{
    let lower = lowercase(s);
    slugify_lowered(lower.as_str())
}

/// Slug operations on text.
pub trait MySlug {
    /// Whether the text is its own slug.
    fn is_slug(&self) -> bool;

    /// The slug of the text.
    fn to_slug(&self) -> String;
}

impl MySlug for str {
    fn is_slug(&self) -> (r: bool)
        ensures
            r == (slug_of(lower_of(self@)) == self@),
    {
        let slug = slugify(self);
        let own = self.to_owned();
        slug == own
    }

    fn to_slug(&self) -> (r: String)
        ensures
            r@ == slug_of(lower_of(self@)),
    {
        slugify(self)
    }
}

impl MySlug for String {
    fn is_slug(&self) -> (r: bool)
        ensures
            r == (slug_of(lower_of(self@)) == self@),
    {
        self.as_str().is_slug()
    }

    fn to_slug(&self) -> (r: String)
        ensures
            r@ == slug_of(lower_of(self@)),
    {
        self.as_str().to_slug()
    }
}

} // verus!
