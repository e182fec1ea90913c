//! ANSI escape sequence construction: cursor positioning, colors and
//! text modifiers, every sequence pinned down character by character.

use vstd::prelude::*;
use vstd::string::StringExecFns;
use vstd::seq_lib::lemma_concat_associative;
use crate::chars::push_char;
use crate::style::{Color, Modifiers};

verus! {

/// The decimal digit characters.
pub open spec fn digit_char(d: int) -> char {
    if d == 0 {
        '0'
    } else if d == 1 {
        '1'
    } else if d == 2 {
        '2'
    } else if d == 3 {
        '3'
    } else if d == 4 {
        '4'
    } else if d == 5 {
        '5'
    } else if d == 6 {
        '6'
    } else if d == 7 {
        '7'
    } else if d == 8 {
        '8'
    } else {
        '9'
    }
}

/// The decimal representation of a non-negative number, most
/// significant digit first, without leading zeros.
pub open spec fn dec_rep(n: int) -> Seq<char>
    decreases n,
    when n >= 0
{
    if n < 10 {
        seq![digit_char(n)]
    } else {
        dec_rep(n / 10).push(digit_char(n % 10))
    }
}

/// The control sequence introducer.
pub open spec fn csi() -> Seq<char> {
    "\x1b["@
}

/// One select-graphic-rendition sequence with a single numeric code.
pub open spec fn sgr(n: int) -> Seq<char> {
    csi() + dec_rep(n) + seq!['m']
}

/// A cursor positioning sequence (row then column, one-indexed).
pub open spec fn cursor_seq(x: int, y: int) -> Seq<char> {
    csi() + dec_rep(y) + seq![';'] + dec_rep(x) + seq!['H']
}

/// The digit character of a value below ten.
fn digit(d: u64) -> (c: char)
    requires
        d < 10,
    ensures
        c == digit_char(d as int),
{
    if d == 0 {
        '0'
    } else if d == 1 {
        '1'
    } else if d == 2 {
        '2'
    } else if d == 3 {
        '3'
    } else if d == 4 {
        '4'
    } else if d == 5 {
        '5'
    } else if d == 6 {
        '6'
    } else if d == 7 {
        '7'
    } else if d == 8 {
        '8'
    } else {
        '9'
    }
}

/// Append the decimal representation of a number to a string.
pub fn push_dec(out: &mut String, n: u64)
    ensures
        final(out)@ == old(out)@ + dec_rep(n as int),
    decreases n,
{
    if n < 10 {
        push_char(out, digit(n));
        proof {
            assert(out@ =~= old(out)@ + dec_rep(n as int));
        }
    } else {
        push_dec(out, n / 10);
        push_char(out, digit(n % 10));
        proof {
            assert(out@ =~= old(out)@ + dec_rep(n as int));
        }
    }
}

/// The numeric code of one color's select-graphic-rendition sequence,
/// for the simple palette (`None` for reset and the extended forms).
pub open spec fn palette_code(color: Color, foreground: bool) -> Option<int> {
    let base: int = if foreground {
        30
    } else {
        40
    };
    let bright: int = if foreground {
        90
    } else {
        100
    };
    match color {
        Color::Black => Some(base),
        Color::Red => Some(base + 1),
        Color::Green => Some(base + 2),
        Color::Yellow => Some(base + 3),
        Color::Blue => Some(base + 4),
        Color::Magenta => Some(base + 5),
        Color::Cyan => Some(base + 6),
        Color::White => Some(base + 7),
        Color::BrightBlack => Some(bright),
        Color::BrightRed => Some(bright + 1),
        Color::BrightGreen => Some(bright + 2),
        Color::BrightYellow => Some(bright + 3),
        Color::BrightBlue => Some(bright + 4),
        Color::BrightMagenta => Some(bright + 5),
        Color::BrightCyan => Some(bright + 6),
        Color::BrightWhite => Some(bright + 7),
        _ => None,
    }
}

/// The escape sequence that selects a color: reset codes for `Reset`,
/// palette codes for the named colors, and the extended truecolor and
/// indexed forms.
pub open spec fn color_code(color: Color, foreground: bool) -> Seq<char> {
    match color {
        Color::Reset => if foreground {
            "\x1b[39m"@
        } else {
            "\x1b[49m"@
        },
        Color::Rgb(r, g, b) => csi() + dec_rep(
            if foreground {
                38
            } else {
                48
            },
        ) + seq![';'] + dec_rep(2) + seq![';'] + dec_rep(r as int) + seq![';'] + dec_rep(g as int)
            + seq![';'] + dec_rep(b as int) + seq!['m'],
        Color::Indexed(i) => csi() + dec_rep(
            if foreground {
                38
            } else {
                48
            },
        ) + seq![';'] + dec_rep(5) + seq![';'] + dec_rep(i as int) + seq!['m'],
        _ => sgr(palette_code(color, foreground).unwrap()),
    }
}

/// The bit mask of the `k`-th modifier.
pub open spec fn modifier_mask(k: int) -> u16 {
    if k == 0 {
        1
    } else if k == 1 {
        2
    } else if k == 2 {
        4
    } else if k == 3 {
        8
    } else if k == 4 {
        16
    } else if k == 5 {
        32
    } else if k == 6 {
        64
    } else if k == 7 {
        128
    } else {
        256
    }
}

/// The sequences the first `k` modifiers of a set emit, one per set
/// bit, in code order: the `k`-th modifier bit emits the
/// select-graphic-rendition code `k + 1`.
pub open spec fn modifier_code_upto(bits: u16, k: int) -> Seq<char>
    decreases k,
{
    if k <= 0 {
        Seq::empty()
    } else {
        modifier_code_upto(bits, k - 1) + (if bits & modifier_mask(k - 1) != 0 {
            sgr(k)
        } else {
            Seq::empty()
        })
    }
}

/// The modifier sequences a modifier set emits, one per set bit, in
/// code order.
pub open spec fn modifier_code(mods: Modifiers) -> Seq<char> {
    modifier_code_upto(mods.bits, 9)
}

/// Write the color selection sequence for a color onto a string.
pub fn write_color(output: &mut String, color: Color, foreground: bool)
    ensures
        final(output)@ == old(output)@ + color_code(color, foreground),
{
    match color {
        Color::Reset => {
            if foreground {
                output.append("\x1b[39m");
            } else {
                output.append("\x1b[49m");
            }
        },
        Color::Rgb(r, g, b) => {
            output.append("\x1b[");
            push_dec(output, if foreground { 38 } else { 48 });
            push_char(output, ';');
            push_dec(output, 2);
            push_char(output, ';');
            push_dec(output, r as u64);
            push_char(output, ';');
            push_dec(output, g as u64);
            push_char(output, ';');
            push_dec(output, b as u64);
            push_char(output, 'm');
            proof {
                assert(output@ =~= old(output)@ + color_code(color, foreground));
            }
        },
        Color::Indexed(i) => {
            output.append("\x1b[");
            push_dec(output, if foreground { 38 } else { 48 });
            push_char(output, ';');
            push_dec(output, 5);
            push_char(output, ';');
            push_dec(output, i as u64);
            push_char(output, 'm');
            proof {
                assert(output@ =~= old(output)@ + color_code(color, foreground));
            }
        },
        _ => {
            let code: u64 = match color {
                Color::Black => if foreground { 30 } else { 40 },
                Color::Red => if foreground { 31 } else { 41 },
                Color::Green => if foreground { 32 } else { 42 },
                Color::Yellow => if foreground { 33 } else { 43 },
                Color::Blue => if foreground { 34 } else { 44 },
                Color::Magenta => if foreground { 35 } else { 45 },
                Color::Cyan => if foreground { 36 } else { 46 },
                Color::White => if foreground { 37 } else { 47 },
                Color::BrightBlack => if foreground { 90 } else { 100 },
                Color::BrightRed => if foreground { 91 } else { 101 },
                Color::BrightGreen => if foreground { 92 } else { 102 },
                Color::BrightYellow => if foreground { 93 } else { 103 },
                Color::BrightBlue => if foreground { 94 } else { 104 },
                Color::BrightMagenta => if foreground { 95 } else { 105 },
                Color::BrightCyan => if foreground { 96 } else { 106 },
                _ => if foreground { 97 } else { 107 },
            };
            output.append("\x1b[");
            push_dec(output, code);
            push_char(output, 'm');
            proof {
                assert(output@ =~= old(output)@ + color_code(color, foreground));
            }
        },
    }
}

/// Write one select-graphic-rendition sequence with a single code.
fn write_sgr(output: &mut String, code: u64)
    ensures
        final(output)@ == old(output)@ + sgr(code as int),
{
    output.append("\x1b[");
    push_dec(output, code);
    push_char(output, 'm');
    proof {
        assert(output@ =~= old(output)@ + sgr(code as int));
    }
}

/// The bit mask of the `k`-th modifier.
fn modifier_mask_exec(k: usize) -> (r: u16)
    requires
        k < 9,
    ensures
        r == modifier_mask(k as int),
{
    if k == 0 {
        1
    } else if k == 1 {
        2
    } else if k == 2 {
        4
    } else if k == 3 {
        8
    } else if k == 4 {
        16
    } else if k == 5 {
        32
    } else if k == 6 {
        64
    } else if k == 7 {
        128
    } else {
        256
    }
}

/// Write the modifier sequences of a modifier set onto a string, one
/// per set bit, in code order.
#[verifier::loop_isolation(false)]
pub fn write_modifiers(output: &mut String, mods: Modifiers)
    ensures
        final(output)@ == old(output)@ + modifier_code(mods),
{
    let ghost o0 = output@;
    proof {
        assert(o0 + modifier_code_upto(mods.bits, 0) =~= o0);
    }
    for k in 0..9usize
        invariant
            output@ == o0 + modifier_code_upto(mods.bits, k as int),
    {
        let mask = modifier_mask_exec(k);
        if mods.bits & mask != 0 {
            write_sgr(output, (k as u64) + 1);
            proof {
                lemma_concat_associative(
                    o0,
                    modifier_code_upto(mods.bits, k as int),
                    sgr(k as int + 1),
                );
            }
        } else {
            proof {
                assert(modifier_code_upto(mods.bits, k as int) + Seq::<char>::empty()
                    =~= modifier_code_upto(mods.bits, k as int));
            }
        }
    }
}

/// Fixed ANSI escape sequences and the simple sequence constructors.
pub struct Ansi;

impl Ansi {
    /// The control sequence introducer.
    pub fn csi() -> (r: &'static str)
        ensures
            r@ == csi(),
    {
        "\x1b["
    }

    /// Reset all attributes.
    pub fn reset() -> (r: &'static str)
        ensures
            r@ == "\x1b[0m"@,
    {
        "\x1b[0m"
    }

    /// Clear the screen.
    pub fn clear() -> (r: &'static str)
        ensures
            r@ == "\x1b[2J"@,
    {
        "\x1b[2J"
    }

    /// Hide the cursor.
    pub fn hide_cursor() -> (r: &'static str)
        ensures
            r@ == "\x1b[?25l"@,
    {
        "\x1b[?25l"
    }

    /// Show the cursor.
    pub fn show_cursor() -> (r: &'static str)
        ensures
            r@ == "\x1b[?25h"@,
    {
        "\x1b[?25h"
    }

    /// Move the cursor to a one-indexed position.
    pub fn cursor_to(x: u16, y: u16) -> (r: String)
        ensures
            r@ == cursor_seq(x as int, y as int),
    {
        let mut s = String::new();
        s.append("\x1b[");
        push_dec(&mut s, y as u64);
        push_char(&mut s, ';');
        push_dec(&mut s, x as u64);
        push_char(&mut s, 'H');
        proof {
            assert(s@ =~= cursor_seq(x as int, y as int));
        }
        s
    }

    /// Move the cursor to the top-left corner.
    pub fn cursor_home() -> (r: &'static str)
        ensures
            r@ == "\x1b[H"@,
    {
        "\x1b[H"
    }

    /// The sequence that selects a foreground color.
    pub fn fg_color(color: Color) -> (r: String)
        ensures
            r@ == color_code(color, true),
    {
        let mut s = String::new();
        write_color(&mut s, color, true);
        proof {
            assert(s@ =~= color_code(color, true));
        }
        s
    }

    /// The sequence that selects a background color.
    pub fn bg_color(color: Color) -> (r: String)
        ensures
            r@ == color_code(color, false),
    {
        let mut s = String::new();
        write_color(&mut s, color, false);
        proof {
            assert(s@ =~= color_code(color, false));
        }
        s
    }

    /// The sequences that apply a modifier set.
    pub fn modifiers(mods: Modifiers) -> (r: String)
        ensures
            r@ == modifier_code(mods),
    {
        let mut s = String::new();
        write_modifiers(&mut s, mods);
        proof {
            assert(s@ =~= modifier_code(mods));
        }
        s
    }

    /// Enter the alternate screen.
    pub fn enter_alt_screen() -> (r: &'static str)
        ensures
            r@ == "\x1b[?1049h"@,
    {
        "\x1b[?1049h"
    }

    /// Leave the alternate screen.
    pub fn leave_alt_screen() -> (r: &'static str)
        ensures
            r@ == "\x1b[?1049l"@,
    {
        "\x1b[?1049l"
    }
}

/// Accumulates a complete styled frame as one escape-sequence string;
/// its view is the characters written so far.
pub struct AnsiBuilder {
    output: String,
}

impl View for AnsiBuilder {
    type V = Seq<char>;

    closed spec fn view(&self) -> Seq<char> {
        self.output@
    }
}

impl AnsiBuilder {
    /// Relies on String::with_capacity: an empty string, the capacity
    /// being a performance hint only.
    #[verifier::external_body]
    pub fn new(capacity: usize) -> (r: AnsiBuilder)
        ensures
            r@ == Seq::<char>::empty(),
    {
        AnsiBuilder { output: String::with_capacity(capacity) }
    }

    /// Append a cursor positioning sequence.
    pub fn cursor_to(&mut self, x: u16, y: u16)
        ensures
            final(self)@ == old(self)@ + cursor_seq(x as int, y as int),
    {
        self.output.append("\x1b[");
        push_dec(&mut self.output, y as u64);
        push_char(&mut self.output, ';');
        push_dec(&mut self.output, x as u64);
        push_char(&mut self.output, 'H');
        proof {
            assert(self@ =~= old(self)@ + cursor_seq(x as int, y as int));
        }
    }

    /// Append the reset-all-attributes sequence.
    pub fn reset(&mut self)
        ensures
            final(self)@ == old(self)@ + "\x1b[0m"@,
    {
        self.output.append("\x1b[0m");
    }

    /// Append a foreground color sequence.
    pub fn fg_color(&mut self, color: Color)
        ensures
            final(self)@ == old(self)@ + color_code(color, true),
    {
        write_color(&mut self.output, color, true);
    }

    /// Append a background color sequence.
    pub fn bg_color(&mut self, color: Color)
        ensures
            final(self)@ == old(self)@ + color_code(color, false),
    {
        write_color(&mut self.output, color, false);
    }

    /// Append the sequences of a modifier set.
    pub fn modifiers(&mut self, mods: Modifiers)
        ensures
            final(self)@ == old(self)@ + modifier_code(mods),
    {
        write_modifiers(&mut self.output, mods);
    }

    /// Append plain text.
    pub fn text(&mut self, text: &str)
        ensures
            final(self)@ == old(self)@ + text@,
    {
        self.output.append(text);
    }

    /// Append one character.
    pub fn push(&mut self, ch: char)
        ensures
            final(self)@ == old(self)@.push(ch),
    {
        push_char(&mut self.output, ch);
    }

    /// The accumulated string.
    pub fn build(self) -> (r: String)
        ensures
            r@ == self@,
    {
        self.output
    }

    /// The accumulated characters, borrowed.
    pub fn as_str(&self) -> (r: &str)
        ensures
            r@ == self@,
    {
        self.output.as_str()
    }
}

} // verus!
