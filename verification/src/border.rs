//! Box-drawing for the text components: top, bottom and content rows of
//! a frame, with a centered title and display-width-aware truncation.
//!
//! Display widths come from the unicode-width crate behind one trusted
//! wrapper; everything built on top is verified against the named width.

use vstd::prelude::*;
use vstd::string::*;
use crate::strutil::{chars_vec, chars_to_string, push_char, append_chars, append_str};
use crate::colors::PastelColor;

verus! {

/// The display width, in terminal columns, of a text: what
/// `unicode_width::UnicodeWidthStr::width` computes from the characters
/// alone.
pub uninterp spec fn width_of(s: Seq<char>) -> nat;

/// Relies on `unicode_width::UnicodeWidthStr::width`: the text's display
/// width in columns, a function of its characters.
#[verifier::external_body]
pub(crate) fn text_width(s: &str) -> (r: usize)
    ensures
        r == width_of(s@),
{
    unicode_width::UnicodeWidthStr::width(s)
}

/// The display width of one character, read as a one-character text.
pub open spec fn char_w(c: char) -> nat {
    width_of(seq![c])
}

/// The display width of one character.
pub fn char_width(c: char) -> (r: usize)
    ensures
        r == char_w(c),
{
    let mut s = String::new();
    push_char(&mut s, c);
    proof {
        assert(s@ =~= seq![c]);
    }
    text_width(s.as_str())
}

/// `n` copies of a character.
pub open spec fn rep(c: char, n: int) -> Seq<char>
    decreases n,
{
    if n <= 0 {
        Seq::empty()
    } else {
        rep(c, n - 1).push(c)
    }
}

/// Pushes `n` copies of a character.
pub fn push_rep(out: &mut Vec<char>, c: char, n: usize)
    ensures
        final(out)@ == old(out)@ + rep(c, n as int),
{
    let ghost g = out@;
    let mut i: usize = 0;
    proof {
        assert(g + rep(c, 0) =~= g);
    }
    while i < n
        invariant
            i <= n,
            out@ == g + rep(c, i as int),
        decreases n - i,
    {
        out.push(c);
        proof {
            assert(out@ =~= g + rep(c, i + 1 as int));
        }
        i = i + 1;
    }
}

/// The prefix of `s` whose characters fit a width budget, greedy from
/// the left, with the display width it uses.
pub open spec fn take_fit(s: Seq<char>, budget: int) -> (Seq<char>, int)
    decreases s.len(),
{
    if s.len() == 0 {
        (Seq::empty(), 0)
    } else if char_w(s[0]) <= budget {
        let (rest, u) = take_fit(s.drop_first(), budget - char_w(s[0]));
        (seq![s[0]] + rest, u + char_w(s[0]))
    } else {
        (Seq::empty(), 0)
    }
}

/// The fitting prefix as a fresh buffer, with the width it uses.
pub fn fit_prefix(s: &Vec<char>, budget: usize) -> (r: (Vec<char>, usize))
    ensures
        r.0@ == take_fit(s@, budget as int).0,
        r.1 == take_fit(s@, budget as int).1,
{
    let mut out: Vec<char> = Vec::new();
    let mut used: usize = 0;
    let mut i: usize = 0;
    proof {
        assert(s@.skip(0) =~= s@);
        assert(Seq::<char>::empty() + take_fit(s@, budget as int).0 =~= take_fit(
            s@,
            budget as int,
        ).0);
    }
    while i < s.len()
        invariant
            i <= s.len(),
            used <= budget,
            ({
                let (taken, u) = take_fit(s@.skip(i as int), budget - used);
                take_fit(s@, budget as int) == (out@ + taken, used + u)
            }),
        decreases s.len() - i,
    {
        let ghost pre = s@.skip(i as int);
        proof {
            assert(pre.drop_first() =~= s@.skip(i + 1 as int));
            assert(pre[0] == s@[i as int]);
        }
        let c = s[i];
        let w = char_width(c);
        if w <= budget - used {
            let ghost om = out@;
            out.push(c);
            used = used + w;
            proof {
                let (t2, u2) = take_fit(s@.skip(i + 1 as int), budget - used);
                assert(om.push(c) + t2 =~= om + (seq![c] + t2));
            }
            i = i + 1;
        } else {
            proof {
                assert(take_fit(pre, budget - used) == (Seq::<char>::empty(), 0int));
                assert(out@ + Seq::<char>::empty() =~= out@);
            }
            return (out, used);
        }
    }
    proof {
        assert(s@.skip(s@.len() as int) =~= Seq::<char>::empty());
        assert(out@ + Seq::<char>::empty() =~= out@);
    }
    (out, used)
}

/// Frame styles.
pub enum BorderStyle {
    /// Single line.
    Single,
    /// Double line.
    Double,
    /// Rounded corners.
    Rounded,
    /// No visible frame.
    Plain,
}

/// The (left corner, horizontal, right corner) of a style's top edge.
pub open spec fn top_glyphs(style: BorderStyle) -> (char, char, char) {
    match style {
        BorderStyle::Single => ('\u{250c}', '\u{2500}', '\u{2510}'),
        BorderStyle::Double => ('\u{2554}', '\u{2550}', '\u{2557}'),
        BorderStyle::Rounded => ('\u{256d}', '\u{2500}', '\u{256e}'),
        BorderStyle::Plain => (' ', ' ', ' '),
    }
}

/// The (left corner, horizontal, right corner) of a style's bottom edge.
pub open spec fn bottom_glyphs(style: BorderStyle) -> (char, char, char) {
    match style {
        BorderStyle::Single => ('\u{2514}', '\u{2500}', '\u{2518}'),
        BorderStyle::Double => ('\u{255a}', '\u{2550}', '\u{255d}'),
        BorderStyle::Rounded => ('\u{2570}', '\u{2500}', '\u{256f}'),
        BorderStyle::Plain => (' ', ' ', ' '),
    }
}

/// The vertical edge of a style.
pub open spec fn side_glyph(style: BorderStyle) -> char {
    match style {
        BorderStyle::Single => '\u{2502}',
        BorderStyle::Double => '\u{2551}',
        BorderStyle::Rounded => '\u{2502}',
        BorderStyle::Plain => ' ',
    }
}

fn top_glyphs_x(style: &BorderStyle) -> (r: (char, char, char))
    ensures
        r == top_glyphs(*style),
{
    match style {
        BorderStyle::Single => ('\u{250c}', '\u{2500}', '\u{2510}'),
        BorderStyle::Double => ('\u{2554}', '\u{2550}', '\u{2557}'),
        BorderStyle::Rounded => ('\u{256d}', '\u{2500}', '\u{256e}'),
        BorderStyle::Plain => (' ', ' ', ' '),
    }
}

fn bottom_glyphs_x(style: &BorderStyle) -> (r: (char, char, char))
    ensures
        r == bottom_glyphs(*style),
{
    match style {
        BorderStyle::Single => ('\u{2514}', '\u{2500}', '\u{2518}'),
        BorderStyle::Double => ('\u{255a}', '\u{2550}', '\u{255d}'),
        BorderStyle::Rounded => ('\u{2570}', '\u{2500}', '\u{256f}'),
        BorderStyle::Plain => (' ', ' ', ' '),
    }
}

/// The inner width of a frame: the columns between the two edge glyphs.
pub open spec fn inner_w(width: int) -> int {
    if width >= 2 {
        width - 2
    } else {
        0
    }
}

/// The top row: corners around a horizontal run, with any title centered
/// in it. A title too wide for the frame gets no padding.
pub open spec fn spec_top_row(style: BorderStyle, title: Option<Seq<char>>, width: int) -> Seq<
    char,
> {
    let (l, h, r) = top_glyphs(style);
    let inner = inner_w(width);
    match title {
        None => seq![l] + rep(h, inner) + seq![r],
        Some(t) => {
            let tw = width_of(t) as int;
            let pad = if tw < inner {
                (inner - tw) / 2
            } else {
                0
            };
            let remaining = if pad + tw <= inner {
                inner - pad - tw
            } else {
                0
            };
            seq![l] + rep(h, pad) + t + rep(h, remaining) + seq![r]
        },
    }
}

/// The bottom row: corners around a horizontal run.
pub open spec fn spec_bottom_row(style: BorderStyle, width: int) -> Seq<char> {
    let (l, h, r) = bottom_glyphs(style);
    seq![l] + rep(h, inner_w(width)) + seq![r]
}

/// One content row: the text between the vertical edges, padded to the
/// inner width, or truncated to an ellipsis when too wide.
pub open spec fn spec_content_row(style: BorderStyle, content: Seq<char>, width: int) -> Seq<
    char,
> {
    let v = side_glyph(style);
    let inner = inner_w(width);
    let cw = width_of(content) as int;
    if cw <= inner {
        seq![v] + content + rep(' ', inner - cw) + seq![v]
    } else {
        let budget = if width >= 5 {
            width - 5
        } else {
            0
        };
        let (taken, used) = take_fit(content, budget);
        let pad = if used + 3 <= inner {
            inner - used - 3
        } else {
            0
        };
        seq![v] + taken + "..."@ + rep(' ', pad) + seq![v]
    }
}

/// A frame drawn around content rows, with an optional title.
pub struct Border {
    pub style: BorderStyle,
    pub color: PastelColor,
    pub title: Option<String>,
}

impl Border {
    /// A frame in the given style and color, untitled.
    pub fn new(style: BorderStyle, color: PastelColor) -> (r: Border)
        ensures
            r.style == style,
            r.color == color,
            r.title is None,
    {
        Border { style, color, title: None }
    }

    /// The frame with a title.
    pub fn with_title(self, title: &str) -> (r: Border)
        ensures
            r.style == self.style,
            r.color == self.color,
            r.title matches Some(t) && t@ == title@,
    {
        Border { style: self.style, color: self.color, title: Some(String::from_str(title)) }
    }

    /// Draws the top edge, its title centered.
    pub fn draw_top(&self, width: usize) -> (r: String)
        ensures
            r@ == spec_top_row(self.style, match self.title {
                Some(t) => Some(t@),
                None => None,
            }, width as int),
    {
        let (l, h, rt) = top_glyphs_x(&self.style);
        let inner: usize = if width >= 2 {
            width - 2
        } else {
            0
        };
        let mut out: Vec<char> = Vec::new();
        out.push(l);
        proof {
            assert(out@ =~= seq![l]);
        }
        match &self.title {
            None => {
                push_rep(&mut out, h, inner);
            },
            Some(t) => {
                let tw = text_width(t.as_str());
                let pad: usize = if tw < inner {
                    (inner - tw) / 2
                } else {
                    0
                };
                let remaining: usize = if pad <= inner && tw <= inner - pad {
                    inner - pad - tw
                } else {
                    0
                };
                push_rep(&mut out, h, pad);
                append_str(&mut out, t.as_str());
                push_rep(&mut out, h, remaining);
            },
        }
        out.push(rt);
        proof {
            assert(out@ =~= spec_top_row(self.style, match self.title {
                Some(t) => Some(t@),
                None => None,
            }, width as int));
        }
        chars_to_string(&out)
    }

    /// Draws the bottom edge.
    pub fn draw_bottom(&self, width: usize) -> (r: String)
        ensures
            r@ == spec_bottom_row(self.style, width as int),
    {
        let (l, h, rt) = bottom_glyphs_x(&self.style);
        let inner: usize = if width >= 2 {
            width - 2
        } else {
            0
        };
        let mut out: Vec<char> = Vec::new();
        out.push(l);
        proof {
            assert(out@ =~= seq![l]);
        }
        push_rep(&mut out, h, inner);
        out.push(rt);
        proof {
            assert(out@ =~= spec_bottom_row(self.style, width as int));
        }
        chars_to_string(&out)
    }

    /// Draws one content row between the vertical edges, padding or
    /// truncating to the frame's width.
    pub fn draw_content_line(&self, content: &str, width: usize) -> (r: String)
        ensures
            r@ == spec_content_row(self.style, content@, width as int),
    {
        let v = match &self.style {
            BorderStyle::Single => '\u{2502}',
            BorderStyle::Double => '\u{2551}',
            BorderStyle::Rounded => '\u{2502}',
            BorderStyle::Plain => ' ',
        };
        proof {
            assert(v == side_glyph(self.style));
        }
        let inner: usize = if width >= 2 {
            width - 2
        } else {
            0
        };
        let cw = text_width(content);
        let mut out: Vec<char> = Vec::new();
        out.push(v);
        proof {
            assert(out@ =~= seq![v]);
        }
        if cw <= inner {
            append_str(&mut out, content);
            push_rep(&mut out, ' ', inner - cw);
        } else {
            let budget: usize = if width >= 5 {
                width - 5
            } else {
                0
            };
            let cs = chars_vec(content);
            let (taken, used) = fit_prefix(&cs, budget);
            append_chars(&mut out, &taken);
            append_str(&mut out, "...");
            let pad: usize = if used <= inner && 3 <= inner - used {
                inner - used - 3
            } else {
                0
            };
            push_rep(&mut out, ' ', pad);
        }
        out.push(v);
        proof {
            assert(out@ =~= spec_content_row(self.style, content@, width as int));
        }
        chars_to_string(&out)
    }
}

} // verus!
