//! A framed panel of text rows: content capped to the panel's height,
//! centered lines, separators, and a plain-text rendering.

use vstd::prelude::*;
use vstd::string::*;
use crate::strutil::{chars_vec, chars_to_string, append_str, join_with};
use crate::colors::{PastelColor, Theme};
use crate::border::{Border, BorderStyle, width_of, text_width, rep, push_rep, inner_w,
    spec_top_row, spec_bottom_row, spec_content_row};

verus! {

/// A framed panel holding at most `height - 2` content rows.
pub struct Panel {
    pub border: Border,
    pub content: Vec<String>,
    pub width: usize,
    pub height: usize,
    pub theme: Theme,
}

/// How many content rows fit inside the frame.
pub open spec fn content_rows(height: int) -> int {
    if height >= 2 {
        height - 2
    } else {
        0
    }
}

impl Panel {
    /// An empty panel with the stock theme, framed in rounded corners.
    pub fn new(width: usize, height: usize) -> (r: Panel)
        ensures
            r.content@.len() == 0,
            r.width == width,
            r.height == height,
            r.border.style is Rounded,
            r.border.title is None,
    {
        Panel::with_theme(width, height, Theme::default())
    }

    /// An empty panel with the given theme.
    pub fn with_theme(width: usize, height: usize, theme: Theme) -> (r: Panel)
        ensures
            r.content@.len() == 0,
            r.width == width,
            r.height == height,
            r.theme == theme,
            r.border.style is Rounded,
            r.border.title is None,
    {
        Panel {
            border: Border::new(BorderStyle::Rounded, theme.primary),
            content: Vec::new(),
            width,
            height,
            theme,
        }
    }

    /// The panel reframed in another style.
    pub fn with_border_style(self, style: BorderStyle) -> (r: Panel)
        ensures
            r.border.style == style,
            r.border.title is None,
            r.content == self.content,
            r.width == self.width,
            r.height == self.height,
    {
        Panel {
            border: Border::new(style, self.theme.primary),
            content: self.content,
            width: self.width,
            height: self.height,
            theme: self.theme,
        }
    }

    /// The panel reframed in another color.
    pub fn with_border_color(self, color: PastelColor) -> (r: Panel)
        ensures
            r.border.style is Rounded,
            r.border.color == color,
            r.border.title is None,
            r.content == self.content,
            r.width == self.width,
            r.height == self.height,
    {
        Panel {
            border: Border::new(BorderStyle::Rounded, color),
            content: self.content,
            width: self.width,
            height: self.height,
            theme: self.theme,
        }
    }

    /// The panel with a frame title.
    pub fn with_title(self, title: &str) -> (r: Panel)
        ensures
            r.border.style == self.border.style,
            r.border.title matches Some(t) && t@ == title@,
            r.content == self.content,
            r.width == self.width,
            r.height == self.height,
    {
        Panel {
            border: self.border.with_title(title),
            content: self.content,
            width: self.width,
            height: self.height,
            theme: self.theme,
        }
    }

    /// Appends a row; when the frame is full the oldest row scrolls off.
    pub fn add_line(&mut self, line: &str)
        ensures
            ({
                let pushed = old(self).content@.map_values(|s: String| s@).push(line@);
                let kept = final(self).content@.map_values(|s: String| s@);
                kept == if pushed.len() > content_rows(old(self).height as int) {
                    pushed.drop_first()
                } else {
                    pushed
                }
            }),
            final(self).width == old(self).width,
            final(self).height == old(self).height,
            final(self).border == old(self).border,
    {
        let ghost pushed = self.content@.map_values(|s: String| s@).push(line@);
        self.content.push(String::from_str(line));
        proof {
            assert(self.content@.map_values(|s: String| s@) =~= pushed);
        }
        let max_content: usize = if self.height > 2 {
            self.height - 2
        } else {
            0
        };
        if self.content.len() > max_content {
            let ghost cm = self.content@.map_values(|s: String| s@);
            let _ = self.content.remove(0);
            proof {
                assert(self.content@.map_values(|s: String| s@) =~= cm.drop_first());
            }
        }
    }

    /// A centered row: the text between even padding; one too wide goes
    /// in as it is.
    pub fn add_centered_line(&mut self, line: &str)
        ensures
            ({
                let inner = inner_w(old(self).width as int);
                let lw = width_of(line@) as int;
                let padded = if lw >= inner {
                    line@
                } else {
                    rep(' ', (inner - lw) / 2) + line@ + rep(
                        ' ',
                        inner - lw - ((inner - lw) / 2),
                    )
                };
                let pushed = old(self).content@.map_values(|s: String| s@).push(padded);
                final(self).content@.map_values(|s: String| s@) == if pushed.len() > content_rows(
                    old(self).height as int,
                ) {
                    pushed.drop_first()
                } else {
                    pushed
                }
            }),
            final(self).width == old(self).width,
            final(self).height == old(self).height,
            final(self).border == old(self).border,
    {
        let inner: usize = if self.width >= 2 {
            self.width - 2
        } else {
            0
        };
        let lw = text_width(line);
        if lw >= inner {
            self.add_line(line);
            return;
        }
        let pad = (inner - lw) / 2;
        let mut padded: Vec<char> = Vec::new();
        push_rep(&mut padded, ' ', pad);
        append_str(&mut padded, line);
        push_rep(&mut padded, ' ', inner - lw - pad);
        let ps = chars_to_string(&padded);
        self.add_line(ps.as_str());
    }

    /// A horizontal separator row spanning the inner width.
    pub fn add_separator(&mut self)
        ensures
            ({
                let pushed = old(self).content@.map_values(|s: String| s@).push(
                    rep('\u{2500}', inner_w(old(self).width as int)),
                );
                final(self).content@.map_values(|s: String| s@) == if pushed.len() > content_rows(
                    old(self).height as int,
                ) {
                    pushed.drop_first()
                } else {
                    pushed
                }
            }),
            final(self).width == old(self).width,
            final(self).height == old(self).height,
            final(self).border == old(self).border,
    {
        let inner: usize = if self.width >= 2 {
            self.width - 2
        } else {
            0
        };
        let mut sep: Vec<char> = Vec::new();
        push_rep(&mut sep, '\u{2500}', inner);
        let ss = chars_to_string(&sep);
        self.add_line(ss.as_str());
    }

    /// Drops every content row.
    pub fn clear(&mut self)
        ensures
            final(self).content@.len() == 0,
            final(self).width == old(self).width,
            final(self).height == old(self).height,
            final(self).border == old(self).border,
    {
        self.content.clear();
    }

    /// The panel's width.
    pub fn width(&self) -> (r: usize)
        ensures
            r == self.width,
    {
        self.width
    }

    /// The panel's height.
    pub fn height(&self) -> (r: usize)
        ensures
            r == self.height,
    {
        self.height
    }
}

/// The row texts inside the frame: each content row, then empty rows up
/// to the frame's inner height.
pub open spec fn spec_panel_rows(
    style: BorderStyle,
    content: Seq<Seq<char>>,
    k: int,
    n: int,
    width: int,
) -> Seq<char>
    decreases n - k,
{
    if k < n {
        let row = if k < content.len() {
            content[k]
        } else {
            Seq::<char>::empty()
        };
        spec_content_row(style, row, width) + seq!['\n'] + spec_panel_rows(
            style,
            content,
            k + 1,
            n,
            width,
        )
    } else {
        Seq::empty()
    }
}

/// The whole rendered panel: top edge, content rows, bottom edge.
pub open spec fn spec_panel(
    style: BorderStyle,
    title: Option<Seq<char>>,
    content: Seq<Seq<char>>,
    width: int,
    height: int,
) -> Seq<char> {
    spec_top_row(style, title, width) + seq!['\n'] + spec_panel_rows(
        style,
        content,
        0,
        content_rows(height),
        width,
    ) + spec_bottom_row(style, width)
}

impl Panel {
    /// Renders the panel as plain rows: the top edge, exactly the inner
    /// height of content rows (short content padded with empty rows),
    /// and the bottom edge.
    pub fn render(&self) -> (r: String)
        ensures
            r@ == spec_panel(
                self.border.style,
                match self.border.title {
                    Some(t) => Some(t@),
                    None => None,
                },
                self.content@.map_values(|s: String| s@),
                self.width as int,
                self.height as int,
            ),
    {
        let ghost cm = self.content@.map_values(|s: String| s@);
        let mut out: Vec<char> = Vec::new();
        let top = self.border.draw_top(self.width);
        append_str(&mut out, top.as_str());
        out.push('\n');
        let ghost g0 = out@;
        let rows: usize = if self.height > 2 {
            self.height - 2
        } else {
            0
        };
        let mut i: usize = 0;
        proof {
            assert(g0 + Seq::<char>::empty() =~= g0);
        }
        while i < rows
            invariant
                i <= rows,
                cm == self.content@.map_values(|s: String| s@),
                rows as int == content_rows(self.height as int),
                out@ + spec_panel_rows(
                    self.border.style,
                    cm,
                    i as int,
                    rows as int,
                    self.width as int,
                ) =~= g0 + spec_panel_rows(
                    self.border.style,
                    cm,
                    0,
                    rows as int,
                    self.width as int,
                ),
            decreases rows - i,
        {
            let ghost gb = out@;
            let row = if i < self.content.len() {
                self.border.draw_content_line(self.content[i].as_str(), self.width)
            } else {
                self.border.draw_content_line("", self.width)
            };
            proof {
                if i < self.content@.len() {
                    assert(cm[i as int] == self.content@[i as int]@);
                } else {
                    assert(""@ =~= Seq::<char>::empty()) by {
                        reveal_strlit("");
                    }
                }
            }
            append_str(&mut out, row.as_str());
            out.push('\n');
            proof {
                let crow = if i < cm.len() {
                    cm[i as int]
                } else {
                    Seq::<char>::empty()
                };
                assert(out@ =~= gb + (spec_content_row(self.border.style, crow, self.width as int)
                    + seq!['\n']));
                assert(gb + (spec_content_row(self.border.style, crow, self.width as int)
                    + seq!['\n']) + spec_panel_rows(
                    self.border.style,
                    cm,
                    i + 1,
                    rows as int,
                    self.width as int,
                ) =~= gb + spec_panel_rows(
                    self.border.style,
                    cm,
                    i as int,
                    rows as int,
                    self.width as int,
                ));
            }
            i = i + 1;
        }
        let bottom = self.border.draw_bottom(self.width);
        append_str(&mut out, bottom.as_str());
        proof {
            assert(spec_panel_rows(
                self.border.style,
                cm,
                rows as int,
                rows as int,
                self.width as int,
            ) =~= Seq::<char>::empty());
            assert(out@ =~= spec_panel(
                self.border.style,
                match self.border.title {
                    Some(t) => Some(t@),
                    None => None,
                },
                cm,
                self.width as int,
                self.height as int,
            ));
        }
        chars_to_string(&out)
    }
}

} // verus!
