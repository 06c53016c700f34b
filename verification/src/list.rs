//! A selectable list: wrap-around selection over items, and a plain-text
//! rendering for string items.

use vstd::prelude::*;
use vstd::string::*;
use crate::strutil::{chars_vec, chars_to_string, append_chars, append_str, join_with};
use crate::colors::Theme;
use crate::border::{width_of, take_fit, rep, text_width, fit_prefix, push_rep};

verus! {

/// A selectable list of items, one of which is the selection whenever
/// the list is not empty.
pub struct List<T> {
    pub items: Vec<T>,
    pub selected_index: usize,
    pub theme: Theme,
    pub width: usize,
}

impl<T> List<T> {
    /// An empty list with the stock theme.
    pub fn new(width: usize) -> (r: List<T>)
        ensures
            r.items@.len() == 0,
            r.selected_index == 0,
            r.width == width,
    {
        List { items: Vec::new(), selected_index: 0, theme: Theme::default(), width }
    }

    /// An empty list with the given theme.
    pub fn with_theme(width: usize, theme: Theme) -> (r: List<T>)
        ensures
            r.items@.len() == 0,
            r.selected_index == 0,
            r.width == width,
            r.theme == theme,
    {
        List { items: Vec::new(), selected_index: 0, theme, width }
    }

    /// Appends one item; the selection stays.
    pub fn add_item(&mut self, item: T)
        ensures
            final(self).items@ == old(self).items@.push(item),
            final(self).selected_index == old(self).selected_index,
            final(self).width == old(self).width,
    {
        self.items.push(item);
    }

    /// Replaces the items; the selection is clamped to the new bounds.
    pub fn set_items(&mut self, items: Vec<T>)
        ensures
            final(self).items == items,
            final(self).selected_index == if old(self).selected_index + 1 <= items@.len() {
                old(self).selected_index as int
            } else if items@.len() == 0 {
                0
            } else {
                items@.len() - 1
            },
            final(self).width == old(self).width,
    {
        let n = items.len();
        self.items = items;
        if n == 0 {
            self.selected_index = 0;
        } else if self.selected_index > n - 1 {
            self.selected_index = n - 1;
        }
    }

    /// The selected item, when any.
    pub fn selected_item(&self) -> (r: Option<&T>)
        ensures
            self.items@.len() == 0 ==> r is None,
            self.items@.len() > 0 && self.selected_index < self.items@.len() ==> (r matches Some(x)
                && x == self.items@[self.selected_index as int]),
    {
        if self.items.len() == 0 {
            None
        } else if self.selected_index < self.items.len() {
            Some(&self.items[self.selected_index])
        } else {
            None
        }
    }

    /// Moves the selection up, wrapping to the end.
    pub fn select_previous(&mut self)
        ensures
            final(self).items == old(self).items,
            final(self).width == old(self).width,
            old(self).items@.len() == 0 ==> final(self).selected_index == old(
                self,
            ).selected_index,
            old(self).items@.len() > 0 ==> final(self).selected_index as int == if old(
                self,
            ).selected_index == 0 {
                old(self).items@.len() - 1
            } else {
                old(self).selected_index - 1
            },
    {
        if self.items.len() > 0 {
            if self.selected_index == 0 {
                self.selected_index = self.items.len() - 1;
            } else {
                self.selected_index = self.selected_index - 1;
            }
        }
    }

    /// Moves the selection down, wrapping to the start.
    pub fn select_next(&mut self)
        ensures
            final(self).items == old(self).items,
            final(self).width == old(self).width,
            old(self).items@.len() == 0 ==> final(self).selected_index == old(
                self,
            ).selected_index,
            old(self).items@.len() > 0 ==> final(self).selected_index as int == if old(
                self,
            ).selected_index + 1 >= old(self).items@.len() {
                0int
            } else {
                old(self).selected_index + 1
            },
    {
        if self.items.len() > 0 {
            if self.selected_index >= self.items.len() - 1 {
                self.selected_index = 0;
            } else {
                self.selected_index = self.selected_index + 1;
            }
        }
    }

    /// The selection's index.
    pub fn selected_index(&self) -> (r: usize)
        ensures
            r == self.selected_index,
    {
        self.selected_index
    }

    /// Sets the selection, wrapped into the items' bounds.
    pub fn set_selected_index(&mut self, index: usize)
        ensures
            final(self).items == old(self).items,
            final(self).width == old(self).width,
            old(self).items@.len() == 0 ==> final(self).selected_index == old(
                self,
            ).selected_index,
            old(self).items@.len() > 0 ==> final(self).selected_index as int == index as int % (
            old(self).items@.len() as int),
    {
        if self.items.len() > 0 {
            self.selected_index = index % self.items.len();
        }
    }

    /// The items.
    pub fn items(&self) -> (r: &Vec<T>)
        ensures
            r == self.items,
    {
        &self.items
    }

    /// How many items the list holds.
    pub fn len(&self) -> (r: usize)
        ensures
            r == self.items@.len(),
    {
        self.items.len()
    }

    /// Whether the list holds nothing.
    pub fn is_empty(&self) -> (r: bool)
        ensures
            r == (self.items@.len() == 0),
    {
        self.items.len() == 0
    }
}

/// One rendered row: the selection marker or an indent, then the item,
/// truncated to an ellipsis when it overflows the list's width, or
/// padded to it otherwise.
pub open spec fn spec_list_row(item: Seq<char>, selected: bool, width: int) -> Seq<char> {
    let prefix = if selected {
        " \u{2726} "@
    } else {
        "   "@
    };
    let avail = if width >= 4 {
        width - 4
    } else {
        0
    };
    let iw = width_of(item) as int;
    if iw > avail {
        let budget = if width >= 7 {
            width - 7
        } else {
            0
        };
        prefix + take_fit(item, budget).0 + "..."@
    } else {
        prefix + item + rep(' ', avail - iw)
    }
}

/// The rendered rows, newline-separated.
pub open spec fn spec_list_rows(items: Seq<Seq<char>>, selected: int, width: int) -> Seq<
    Seq<char>,
>
    decreases items.len(),
{
    if items.len() == 0 {
        Seq::empty()
    } else {
        spec_list_rows(items.drop_last(), selected, width).push(
            spec_list_row(items.last(), selected == items.len() - 1, width),
        )
    }
}

impl List<String> {
    /// Renders the list as plain rows, the selected one marked.
    pub fn render(&self) -> (r: String)
        ensures
            r@ == join_with(
                spec_list_rows(
                    self.items@.map_values(|s: String| s@),
                    self.selected_index as int,
                    self.width as int,
                ),
                '\n',
            ),
    {
        let ghost m = self.items@.map_values(|s: String| s@);
        let mut rows: Vec<Vec<char>> = Vec::new();
        let mut i: usize = 0;
        proof {
            assert(m.take(0) =~= Seq::<Seq<char>>::empty());
            assert(rows@.map_values(|t: Vec<char>| t@) =~= spec_list_rows(
                m.take(0),
                self.selected_index as int,
                self.width as int,
            ));
        }
        while i < self.items.len()
            invariant
                i <= self.items@.len(),
                m == self.items@.map_values(|s: String| s@),
                rows@.map_values(|t: Vec<char>| t@) == spec_list_rows(
                    m.take(i as int),
                    self.selected_index as int,
                    self.width as int,
                ),
            decreases self.items@.len() - i,
        {
            proof {
                assert(m.take(i + 1 as int).drop_last() =~= m.take(i as int));
                assert(m.take(i + 1 as int).last() == m[i as int]);
                assert(m[i as int] == self.items@[i as int]@);
            }
            let selected = i == self.selected_index;
            let mut row: Vec<char> = Vec::new();
            if selected {
                append_str(&mut row, " \u{2726} ");
            } else {
                append_str(&mut row, "   ");
            }
            let avail: usize = if self.width >= 4 {
                self.width - 4
            } else {
                0
            };
            let iw = text_width(self.items[i].as_str());
            if iw > avail {
                let budget: usize = if self.width >= 7 {
                    self.width - 7
                } else {
                    0
                };
                let cs = chars_vec(self.items[i].as_str());
                let (taken, _used) = fit_prefix(&cs, budget);
                append_chars(&mut row, &taken);
                append_str(&mut row, "...");
            } else {
                append_str(&mut row, self.items[i].as_str());
                push_rep(&mut row, ' ', avail - iw);
            }
            proof {
                assert(row@ =~= spec_list_row(
                    m[i as int],
                    selected,
                    self.width as int,
                ));
            }
            let ghost rm = rows@.map_values(|t: Vec<char>| t@);
            rows.push(row);
            proof {
                assert(rows@.map_values(|t: Vec<char>| t@) =~= rm.push(spec_list_row(
                    m[i as int],
                    i == self.selected_index,
                    self.width as int,
                )));
            }
            i = i + 1;
        }
        proof {
            assert(m.take(m.len() as int) =~= m);
        }
        let joined = crate::strutil::join_chars(&rows, '\n');
        chars_to_string(&joined)
    }
}

} // verus!
