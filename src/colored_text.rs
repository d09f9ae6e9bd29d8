//! Value types for one styled character and for a run of styled text.
use vstd::prelude::*;

use crate::colors::{reset_seq, reset_string};

verus! {

/// What a cell holds: a character, and the style written before it.
pub ghost struct StyledCell {
    pub ch: char,
    pub style: Seq<char>,
}

/// The cell holding `ch` drawn in `style`.
pub open spec fn styled(ch: char, style: Seq<char>) -> StyledCell {
    StyledCell { ch: ch, style: style }
}

/// A character with the style (an escape sequence) it is drawn in.
#[derive(Clone, Eq)]
pub struct ColoredChar {
    ch: char,
    prefix: String,
}

/// A run of characters that share one style.
#[derive(Clone, PartialEq, Eq)]
pub struct ColoredText {
    text: String,
    prefix: String,
}

impl View for ColoredChar {
    type V = StyledCell;

    closed spec fn view(&self) -> StyledCell {
        styled(self.ch, self.prefix@)
    }
}

impl PartialEq for ColoredChar {
    fn eq(&self, o: &ColoredChar) -> (r: bool)
        ensures
            r == (self@ == o@),
    {
        proof {
            if self.ch == o.ch && self.prefix@ == o.prefix@ {
                assert(self@ == o@);
            }
        }
        self.ch == o.ch && self.prefix == o.prefix
    }
}

impl vstd::std_specs::cmp::PartialEqSpecImpl for ColoredChar {
    open spec fn obeys_eq_spec() -> bool {
        true
    }

    open spec fn eq_spec(&self, o: &ColoredChar) -> bool {
        self@ == o@
    }
}

impl ColoredChar {
    /// A cell holding `c` drawn in style `p`.
    pub fn new(c: char, p: String) -> (r: Self)
        ensures
            r@ == styled(c, p@),
    {
        ColoredChar { ch: c, prefix: p }
    }

    /// The character.
    pub fn contents(&self) -> (r: &char)
        ensures
            *r == self@.ch,
    {
        &self.ch
    }

    /// The style.
    pub fn prefix(&self) -> (r: &String)
        ensures
            r@ == self@.style,
    {
        &self.prefix
    }

    /// An equal cell with storage of its own.
    pub fn duplicate(&self) -> (r: Self)
        ensures
            r@ == self@,
    {
        ColoredChar { ch: self.ch, prefix: self.prefix.clone() }
    }
}

impl ColoredText {
    /// The text as a sequence of characters.
    pub closed spec fn text_view(&self) -> Seq<char> {
        self.text@
    }

    /// The style that every character of the text is drawn in.
    pub closed spec fn style_view(&self) -> Seq<char> {
        self.prefix@
    }

    /// Text `c` drawn in the terminal's default style.
    pub fn new_plain(c: String) -> (r: Self)
        ensures
            r.text_view() == c@,
            r.style_view() == reset_seq(),
    {
        ColoredText { text: c, prefix: reset_string() }
    }

    /// Text `c` drawn in style `p`.
    pub fn new(c: String, p: String) -> (r: Self)
        ensures
            r.text_view() == c@,
            r.style_view() == p@,
    {
        ColoredText { text: c, prefix: p }
    }

    /// The text.
    pub fn contents(&self) -> (r: &String)
        ensures
            r@ == self.text_view(),
    {
        &self.text
    }

    /// The style.
    pub fn prefix(&self) -> (r: &String)
        ensures
            r@ == self.style_view(),
    {
        &self.prefix
    }
}

} // verus!
