//! Border styles for panes and the box-drawing characters they use.

use vstd::prelude::*;
use crate::geom::Rect;

verus! {

/// The six box-drawing characters of one border style.
#[derive(Debug, Clone, Copy, PartialEq, Eq, Structural)]
pub struct BorderChars {
    pub top_left: char,
    pub top_right: char,
    pub bottom_left: char,
    pub bottom_right: char,
    pub horizontal: char,
    pub vertical: char,
}

/// Border style presets.
#[derive(Debug, Clone, Copy, PartialEq, Eq, Structural)]
pub enum BorderStyle {
    Bare,
    Single,
    Double,
    Rounded,
    Thick,
}

impl BorderStyle {
    /// The box-drawing characters of this style, as a mathematical value.
    pub open spec fn spec_chars(self) -> BorderChars {
        match self {
            BorderStyle::Bare => BorderChars {
                top_left: ' ',
                top_right: ' ',
                bottom_left: ' ',
                bottom_right: ' ',
                horizontal: ' ',
                vertical: ' ',
            },
            BorderStyle::Single => BorderChars {
                top_left: '\u{250c}',
                top_right: '\u{2510}',
                bottom_left: '\u{2514}',
                bottom_right: '\u{2518}',
                horizontal: '\u{2500}',
                vertical: '\u{2502}',
            },
            BorderStyle::Double => BorderChars {
                top_left: '\u{2554}',
                top_right: '\u{2557}',
                bottom_left: '\u{255a}',
                bottom_right: '\u{255d}',
                horizontal: '\u{2550}',
                vertical: '\u{2551}',
            },
            BorderStyle::Rounded => BorderChars {
                top_left: '\u{256d}',
                top_right: '\u{256e}',
                bottom_left: '\u{2570}',
                bottom_right: '\u{256f}',
                horizontal: '\u{2500}',
                vertical: '\u{2502}',
            },
            BorderStyle::Thick => BorderChars {
                top_left: '\u{250f}',
                top_right: '\u{2513}',
                bottom_left: '\u{2517}',
                bottom_right: '\u{251b}',
                horizontal: '\u{2501}',
                vertical: '\u{2503}',
            },
        }
    }

    /// The box-drawing characters of this style.
    pub fn chars(&self) -> (r: BorderChars)
        ensures
            r == self.spec_chars(),
    {
        match self {
            BorderStyle::Bare => BorderChars {
                top_left: ' ',
                top_right: ' ',
                bottom_left: ' ',
                bottom_right: ' ',
                horizontal: ' ',
                vertical: ' ',
            },
            BorderStyle::Single => BorderChars {
                top_left: '\u{250c}',
                top_right: '\u{2510}',
                bottom_left: '\u{2514}',
                bottom_right: '\u{2518}',
                horizontal: '\u{2500}',
                vertical: '\u{2502}',
            },
            BorderStyle::Double => BorderChars {
                top_left: '\u{2554}',
                top_right: '\u{2557}',
                bottom_left: '\u{255a}',
                bottom_right: '\u{255d}',
                horizontal: '\u{2550}',
                vertical: '\u{2551}',
            },
            BorderStyle::Rounded => BorderChars {
                top_left: '\u{256d}',
                top_right: '\u{256e}',
                bottom_left: '\u{2570}',
                bottom_right: '\u{256f}',
                horizontal: '\u{2500}',
                vertical: '\u{2502}',
            },
            BorderStyle::Thick => BorderChars {
                top_left: '\u{250f}',
                top_right: '\u{2513}',
                bottom_left: '\u{2517}',
                bottom_right: '\u{251b}',
                horizontal: '\u{2501}',
                vertical: '\u{2503}',
            },
        }
    }

    /// The content area left inside a rectangle once this border is
    /// drawn: unchanged for `Bare`, otherwise shrunk by one cell on
    /// every side (width and height saturate at zero).
    pub fn content_rect(&self, outer: Rect) -> (r: Rect)
        ensures
            r == self.spec_content_rect(outer),
    {
        match self {
            BorderStyle::Bare => outer,
            _ => Rect {
                x: outer.x.saturating_add(1),
                y: outer.y.saturating_add(1),
                w: outer.w.saturating_sub(2),
                h: outer.h.saturating_sub(2),
            },
        }
    }

    /// The content area inside a border, as a mathematical value.
    pub open spec fn spec_content_rect(self, outer: Rect) -> Rect {
        match self {
            BorderStyle::Bare => outer,
            _ => Rect {
                x: if outer.x + 1 <= u32::MAX { (outer.x + 1) as u32 } else { u32::MAX },
                y: if outer.y + 1 <= u32::MAX { (outer.y + 1) as u32 } else { u32::MAX },
                w: if outer.w >= 2 { (outer.w - 2) as u32 } else { 0 },
                h: if outer.h >= 2 { (outer.h - 2) as u32 } else { 0 },
            },
        }
    }

    /// The name of this style, spelled out.
    pub fn label(&self) -> (r: &'static str)
        ensures
            self is Bare ==> r@ == "None"@,
            self is Single ==> r@ == "Single"@,
            self is Double ==> r@ == "Double"@,
            self is Rounded ==> r@ == "Rounded"@,
            self is Thick ==> r@ == "Thick"@,
    {
        match self {
            BorderStyle::Bare => "None",
            BorderStyle::Single => "Single",
            BorderStyle::Double => "Double",
            BorderStyle::Rounded => "Rounded",
            BorderStyle::Thick => "Thick",
        }
    }
}

/// The content area lies within the outer rectangle.
pub proof fn lemma_content_rect_within(b: BorderStyle, outer: Rect, cx: int, cy: int)
    requires
        crate::geom::rect_covers(b.spec_content_rect(outer), cx, cy),
    ensures
        crate::geom::rect_covers(outer, cx, cy),
{
}

} // verus!
