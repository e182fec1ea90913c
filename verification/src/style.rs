//! Styling for terminal rendering: colors, text modifiers, and the
//! combined cell style.

use vstd::prelude::*;

verus! {

/// Color of a cell's foreground or background.
#[derive(Debug, Clone, Copy, PartialEq, Eq, Structural)]
pub enum Color {
    Reset,
    Black,
    Red,
    Green,
    Yellow,
    Blue,
    Magenta,
    Cyan,
    White,
    BrightBlack,
    BrightRed,
    BrightGreen,
    BrightYellow,
    BrightBlue,
    BrightMagenta,
    BrightCyan,
    BrightWhite,
    Rgb(u8, u8, u8),
    Indexed(u8),
}

/// Text modifiers (bold, italic, underline, and the rest), kept as a
/// bit set.
#[derive(Debug, Clone, Copy, PartialEq, Eq, Structural, Default)]
pub struct Modifiers {
    pub bits: u16,
}

impl Modifiers {
    pub const BOLD: u16 = 1;

    pub const DIM: u16 = 2;

    pub const ITALIC: u16 = 4;

    pub const UNDERLINE: u16 = 8;

    pub const SLOW_BLINK: u16 = 16;

    pub const RAPID_BLINK: u16 = 32;

    pub const REVERSED: u16 = 64;

    pub const HIDDEN: u16 = 128;

    pub const CROSSED_OUT: u16 = 256;

    /// The empty modifier set.
    pub fn new() -> (r: Modifiers)
        ensures
            r.bits == 0,
    {
        Modifiers { bits: 0 }
    }

    /// This set with bold added.
    pub fn bold(self) -> (r: Modifiers)
        ensures
            r.bits == self.bits | Modifiers::BOLD,
    {
        Modifiers { bits: self.bits | Modifiers::BOLD }
    }

    /// This set with italic added.
    pub fn italic(self) -> (r: Modifiers)
        ensures
            r.bits == self.bits | Modifiers::ITALIC,
    {
        Modifiers { bits: self.bits | Modifiers::ITALIC }
    }

    /// This set with underline added.
    pub fn underline(self) -> (r: Modifiers)
        ensures
            r.bits == self.bits | Modifiers::UNDERLINE,
    {
        Modifiers { bits: self.bits | Modifiers::UNDERLINE }
    }

    /// This set with reverse video added.
    pub fn reversed(self) -> (r: Modifiers)
        ensures
            r.bits == self.bits | Modifiers::REVERSED,
    {
        Modifiers { bits: self.bits | Modifiers::REVERSED }
    }
}

/// Style of one cell: optional foreground and background colors plus a
/// set of modifiers.
#[derive(Debug, Clone, Copy, PartialEq, Eq)]
pub struct Style {
    pub fg: Option<Color>,
    pub bg: Option<Color>,
    pub modifiers: Modifiers,
}

impl Default for Style {
    /// The plain style: no colors, no modifiers.
    fn default() -> (r: Style)
        ensures
            r == Style::plain(),
    {
        Style { fg: None, bg: None, modifiers: Modifiers { bits: 0 } }
    }
}

impl Style {
    /// The plain style: no colors, no modifiers.
    pub open spec fn plain() -> Style {
        Style { fg: None, bg: None, modifiers: Modifiers { bits: 0 } }
    }

    /// The plain style: no colors, no modifiers.
    pub fn new() -> (r: Style)
        ensures
            r == Style::plain(),
    {
        Style { fg: None, bg: None, modifiers: Modifiers { bits: 0 } }
    }

    /// This style with the given foreground color.
    pub fn fg(self, color: Color) -> (r: Style)
        ensures
            r == (Style { fg: Some(color), ..self }),
    {
        Style { fg: Some(color), ..self }
    }

    /// This style with the given background color.
    pub fn bg(self, color: Color) -> (r: Style)
        ensures
            r == (Style { bg: Some(color), ..self }),
    {
        Style { bg: Some(color), ..self }
    }

    /// This style with bold added.
    pub fn bold(self) -> (r: Style)
        ensures
            r == (Style { modifiers: Modifiers { bits: self.modifiers.bits | Modifiers::BOLD }, ..self }),
    {
        Style { modifiers: self.modifiers.bold(), ..self }
    }

    /// This style with italic added.
    pub fn italic(self) -> (r: Style)
        ensures
            r == (Style { modifiers: Modifiers { bits: self.modifiers.bits | Modifiers::ITALIC }, ..self }),
    {
        Style { modifiers: self.modifiers.italic(), ..self }
    }

    /// This style with underline added.
    pub fn underline(self) -> (r: Style)
        ensures
            r == (Style { modifiers: Modifiers { bits: self.modifiers.bits | Modifiers::UNDERLINE }, ..self }),
    {
        Style { modifiers: self.modifiers.underline(), ..self }
    }

    /// This style with reverse video added.
    pub fn reversed(self) -> (r: Style)
        ensures
            r == (Style { modifiers: Modifiers { bits: self.modifiers.bits | Modifiers::REVERSED }, ..self }),
    {
        Style { modifiers: self.modifiers.reversed(), ..self }
    }
}

/// Whether two colors are equal, decided in executable code.
pub fn color_eq(a: &Color, b: &Color) -> (r: bool)
    ensures
        r == (a == b),
{
    match (a, b) {
        (Color::Reset, Color::Reset) => true,
        (Color::Black, Color::Black) => true,
        (Color::Red, Color::Red) => true,
        (Color::Green, Color::Green) => true,
        (Color::Yellow, Color::Yellow) => true,
        (Color::Blue, Color::Blue) => true,
        (Color::Magenta, Color::Magenta) => true,
        (Color::Cyan, Color::Cyan) => true,
        (Color::White, Color::White) => true,
        (Color::BrightBlack, Color::BrightBlack) => true,
        (Color::BrightRed, Color::BrightRed) => true,
        (Color::BrightGreen, Color::BrightGreen) => true,
        (Color::BrightYellow, Color::BrightYellow) => true,
        (Color::BrightBlue, Color::BrightBlue) => true,
        (Color::BrightMagenta, Color::BrightMagenta) => true,
        (Color::BrightCyan, Color::BrightCyan) => true,
        (Color::BrightWhite, Color::BrightWhite) => true,
        (Color::Rgb(r1, g1, b1), Color::Rgb(r2, g2, b2)) => r1 == r2 && g1 == g2 && b1 == b2,
        (Color::Indexed(i1), Color::Indexed(i2)) => i1 == i2,
        _ => false,
    }
}

/// Whether two styles are equal, decided in executable code.
pub fn style_eq(a: &Style, b: &Style) -> (r: bool)
    ensures
        r == (a == b),
{
    let fg_same = match (&a.fg, &b.fg) {
        (Option::None, Option::None) => true,
        (Option::Some(ca), Option::Some(cb)) => color_eq(ca, cb),
        _ => false,
    };
    let bg_same = match (&a.bg, &b.bg) {
        (Option::None, Option::None) => true,
        (Option::Some(ca), Option::Some(cb)) => color_eq(ca, cb),
        _ => false,
    };
    fg_same && bg_same && a.modifiers.bits == b.modifiers.bits
}

} // verus!
