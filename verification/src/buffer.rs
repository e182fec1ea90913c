//! The cell grid that panes render into: a flat row-major vector of
//! styled characters with bounds-checked accessors.

use vstd::prelude::*;
use crate::geom::Rect;
use crate::style::Style;
use crate::border::{BorderChars, BorderStyle};
use crate::chars::str_to_chars;

verus! {

/// One cell of the terminal grid: a character and its style.
#[derive(Debug, Clone, Copy, PartialEq)]
pub struct Cell {
    pub ch: char,
    pub style: Style,
}

impl Cell {
    /// The blank cell: a space in the plain style.
    pub open spec fn blank() -> Cell {
        Cell { ch: ' ', style: Style::plain() }
    }
}

impl Default for Cell {
    /// The blank cell: a space in the plain style.
    fn default() -> (r: Cell)
        ensures
            r == Cell::blank(),
    {
        Cell { ch: ' ', style: Style::new() }
    }
}

/// A rectangular grid of cells for rendering one frame, stored row by
/// row.  Cells are read with `get` and written with `set_char` and
/// `poke`; no mutable cell borrows are handed out, so every write goes
/// through a contract that accounts for the whole grid.
#[derive(Debug, Clone)]
pub struct Buffer {
    pub cells: Vec<Cell>,
    pub width: u16,
    pub height: u16,
}

/// Index in `x < w`, `y < h` implies `y * w + x < w * h`.
proof fn lemma_grid_index(x: int, y: int, w: int, h: int)
    by (nonlinear_arith)
    requires
        0 <= x < w,
        0 <= y < h,
    ensures
        0 <= y * w + x < w * h,
        y * w + x == x + y * w,
{
}

/// Distinct in-bounds positions map to distinct row-major indices.
proof fn lemma_grid_index_inj(x1: int, y1: int, x2: int, y2: int, w: int)
    by (nonlinear_arith)
    requires
        0 <= x1 < w,
        0 <= x2 < w,
        0 <= y1,
        0 <= y2,
        !(x1 == x2 && y1 == y2),
    ensures
        y1 * w + x1 != y2 * w + x2,
{
}

/// The product of two dimensions that fit in sixteen bits fits in
/// thirty-two.
proof fn lemma_grid_total(w: int, h: int)
    by (nonlinear_arith)
    requires
        0 <= w <= 0xffff,
        0 <= h <= 0xffff,
    ensures
        0 <= w * h <= 0xffff * 0xffff,
{
}

/// The mathematical model of a `Buffer`: the cell sequence and the
/// grid dimensions.
pub ghost struct Grid {
    pub cells: Seq<Cell>,
    pub width: int,
    pub height: int,
}

impl Grid {
    /// The grid holds exactly one cell per position.
    pub open spec fn wf(self) -> bool {
        self.cells.len() == self.width * self.height
    }

    /// The cell at a position.
    pub open spec fn at(self, x: int, y: int) -> Cell {
        self.cells[y * self.width + x]
    }

    /// This grid with the cell at an in-bounds position replaced; out of
    /// bounds, the grid unchanged.
    pub open spec fn with_cell(self, x: int, y: int, cell: Cell) -> Grid {
        if 0 <= x < self.width && 0 <= y < self.height {
            Grid { cells: self.cells.update(y * self.width + x, cell), ..self }
        } else {
            self
        }
    }

    /// The grid after a string is written left to right from a position,
    /// clipped at the right edge.
    pub open spec fn with_string(self, x: int, y: int, text: Seq<char>, style: Style) -> Grid
        decreases text.len(),
    {
        if text.len() == 0 {
            self
        } else {
            self.with_cell(x, y, Cell { ch: text[0], style }).with_string(
                x + 1,
                y,
                text.drop_first(),
                style,
            )
        }
    }
}

impl View for Buffer {
    type V = Grid;

    open spec fn view(&self) -> Grid {
        Grid { cells: self.cells@, width: self.width as int, height: self.height as int }
    }
}

impl Buffer {

    /// A fresh buffer of the given dimensions, all cells blank.
    pub fn new(width: u16, height: u16) -> (r: Buffer)
        ensures
            r.width == width,
            r.height == height,
            r@.wf(),
            forall|i: int| 0 <= i < r.cells.len() ==> r.cells[i] == Cell::blank(),
    {
        proof {
            lemma_grid_total(width as int, height as int);
        }
        let total: usize = (width as usize) * (height as usize);
        let mut cells: Vec<Cell> = Vec::new();
        for i in 0..total
            invariant
                cells.len() == i,
                forall|j: int| 0 <= j < i ==> cells[j] == Cell::blank(),
        {
            cells.push(Cell::default());
        }
        Buffer { cells, width, height }
    }

    /// The whole grid as a rectangle anchored at the origin.
    pub fn area(&self) -> (r: Rect)
        ensures
            r == (Rect { x: 0u32, y: 0u32, w: self.width as u32, h: self.height as u32 }),
    {
        Rect { x: 0, y: 0, w: self.width as u32, h: self.height as u32 }
    }

    /// The cell at a position, or `None` out of bounds.
    pub fn get(&self, x: u16, y: u16) -> (r: Option<&Cell>)
        requires
            self@.wf(),
        ensures
            x < self.width && y < self.height ==> r == Some(&self@.at(x as int, y as int)),
            !(x < self.width && y < self.height) ==> r is None,
    {
        if x >= self.width || y >= self.height {
            return None;
        }
        proof {
            lemma_grid_index(x as int, y as int, self.width as int, self.height as int);
            lemma_grid_total(self.width as int, self.height as int);
        }
        let index: usize = (y as usize) * (self.width as usize) + (x as usize);
        Some(&self.cells[index])
    }

    /// Write one cell; positions outside the grid are ignored.
    pub fn set_char(&mut self, x: u16, y: u16, ch: char, style: Style)
        requires
            old(self)@.wf(),
        ensures
            final(self)@ == old(self)@.with_cell(x as int, y as int, Cell { ch, style }),
            final(self)@.wf(),
    {
        if x >= self.width || y >= self.height {
            return ;
        }
        proof {
            lemma_grid_index(x as int, y as int, self.width as int, self.height as int);
            lemma_grid_total(self.width as int, self.height as int);
        }
        let index: usize = (y as usize) * (self.width as usize) + (x as usize);
        self.cells[index] = Cell { ch, style };
    }

    /// Write one cell addressed with wide coordinates; positions outside
    /// the grid are ignored.
    pub fn poke(&mut self, x: u64, y: u64, ch: char, style: Style)
        requires
            old(self)@.wf(),
        ensures
            final(self)@.wf(),
            final(self).width == old(self).width,
            final(self).height == old(self).height,
            forall|cx: int, cy: int|
                0 <= cx < old(self).width && 0 <= cy < old(self).height ==> final(self)@.at(cx, cy)
                    == (if cx == x && cy == y {
                    Cell { ch, style }
                } else {
                    old(self)@.at(cx, cy)
                }),
    {
        if x >= self.width as u64 || y >= self.height as u64 {
            return ;
        }
        let ghost prev = self@;
        self.set_char(x as u16, y as u16, ch, style);
        proof {
            lemma_grid_index(x as int, y as int, prev.width, prev.height);
            assert forall|cx: int, cy: int|
                0 <= cx < prev.width && 0 <= cy < prev.height implies self@.at(cx, cy) == (if cx
                == x && cy == y {
                Cell { ch, style }
            } else {
                prev.at(cx, cy)
            }) by {
                lemma_grid_index(cx, cy, prev.width, prev.height);
                if !(cx == x && cy == y) {
                    lemma_grid_index_inj(cx, cy, x as int, y as int, prev.width);
                }
            }
        }
    }

    /// Write a string left to right from a position; what passes the
    /// right edge is clipped.
    #[verifier::loop_isolation(false)]
    pub fn set_string(&mut self, x: u16, y: u16, text: &str, style: Style)
        requires
            old(self)@.wf(),
        ensures
            final(self)@ == old(self)@.with_string(x as int, y as int, text@, style),
            final(self)@.wf(),
    {
        let chars = str_to_chars(text);
        let mut current_x = x;
        let n = chars.len();
        let ghost orig = self@;
        proof {
            assert(text@.skip(0) =~= text@);
        }
        for i in 0..n
            invariant
                self@.wf(),
                chars@ == text@,
                self.width == orig.width,
                self.height == orig.height,
                current_x as int == x as int + i as int,
                orig.with_string(x as int, y as int, text@, style) == self@.with_string(
                    x as int + i as int,
                    y as int,
                    text@.skip(i as int),
                    style,
                ),
        {
            if current_x >= self.width {
                proof {
                    lemma_with_string_off_right(
                        self@,
                        x as int + i as int,
                        y as int,
                        text@.skip(i as int),
                        style,
                    );
                }
                return ;
            }
            proof {
                assert(text@.skip(i as int).drop_first() =~= text@.skip(i as int + 1));
                assert(x as int + i as int == current_x as int);
            }
            self.set_char(current_x, y, chars[i], style);
            current_x = current_x + 1;
        }
        proof {
            assert(text@.skip(n as int) =~= Seq::<char>::empty());
        }
    }

    /// Fill a rectangle with one styled character; what lies outside the
    /// grid is clipped.
    #[verifier::loop_isolation(false)]
    pub fn fill_rect(&mut self, rect: Rect, ch: char, style: Style)
        requires
            old(self)@.wf(),
        ensures
            final(self)@.wf(),
            final(self).width == old(self).width,
            final(self).height == old(self).height,
            forall|cx: int, cy: int|
                0 <= cx < old(self).width && 0 <= cy < old(self).height ==> final(self)@.at(cx, cy)
                    == (if rect.x <= cx < rect.x + rect.w && rect.y <= cy < rect.y + rect.h {
                    Cell { ch, style }
                } else {
                    old(self)@.at(cx, cy)
                }),
    {
        let x_start: u64 = rect.x as u64;
        let y_start: u64 = rect.y as u64;
        let x_end: u64 = if rect.x as u64 + rect.w as u64 <= self.width as u64 {
            rect.x as u64 + rect.w as u64
        } else {
            self.width as u64
        };
        let y_end: u64 = if rect.y as u64 + rect.h as u64 <= self.height as u64 {
            rect.y as u64 + rect.h as u64
        } else {
            self.height as u64
        };
        let ghost orig = self@;
        let mut y: u64 = y_start;
        while y < y_end
            invariant
                self@.wf(),
                self.width == orig.width,
                self.height == orig.height,
                y_start <= y,
                y <= y_end || y == y_start,
                y_end <= self.height as u64,
                x_end <= rect.x + rect.w,
                x_end <= self.width as u64,
                x_end >= rect.x + rect.w || x_end >= self.width as u64,
                y_end <= rect.y + rect.h,
                y_end >= rect.y + rect.h || y_end >= self.height as u64,
                forall|cx: int, cy: int|
                    0 <= cx < orig.width && 0 <= cy < orig.height ==> self@.at(cx, cy) == (if rect.x
                        <= cx < rect.x + rect.w && rect.y <= cy < y {
                        Cell { ch, style }
                    } else {
                        orig.at(cx, cy)
                    }),
            decreases y_end - y,
        {
            let mut x: u64 = x_start;
            while x < x_end
                invariant
                    self@.wf(),
                    self.width == orig.width,
                    self.height == orig.height,
                    x_start <= x,
                    x <= x_end || x == x_start,
                    y < y_end,
                    y_end <= self.height as u64,
                    x_end <= rect.x + rect.w,
                    x_end <= self.width as u64,
                    x_end >= rect.x + rect.w || x_end >= self.width as u64,
                    forall|cx: int, cy: int|
                        0 <= cx < orig.width && 0 <= cy < orig.height ==> self@.at(cx, cy) == (
                        if (rect.x <= cx < rect.x + rect.w && rect.y <= cy < y) || (cy == y && rect.x
                            <= cx < x) {
                            Cell { ch, style }
                        } else {
                            orig.at(cx, cy)
                        }),
                decreases x_end - x,
            {
                self.poke(x, y, ch, style);
                x = x + 1;
            }
            proof {
                assert forall|cx: int, cy: int|
                    0 <= cx < orig.width && 0 <= cy < orig.height implies self@.at(cx, cy) == (
                if rect.x <= cx < rect.x + rect.w && rect.y <= cy < y + 1 {
                    Cell { ch, style }
                } else {
                    orig.at(cx, cy)
                }) by {
                    if cy == y && rect.x <= cx < rect.x + rect.w {
                        assert(cx < x_end);
                    }
                }
            }
            y = y + 1;
        }
        proof {
            assert forall|cx: int, cy: int|
                0 <= cx < orig.width && 0 <= cy < orig.height implies self@.at(cx, cy) == (
            if rect.x <= cx < rect.x + rect.w && rect.y <= cy < rect.y + rect.h {
                Cell { ch, style }
            } else {
                orig.at(cx, cy)
            }) by {
                if rect.y <= cy < rect.y + rect.h && 0 <= cy < orig.height {
                    assert(cy < y_end);
                }
            }
        }
    }

    /// The border character a box drawn over `rect` puts at a position,
    /// or `None` where the box leaves the cell alone.  Boxes thinner than
    /// two cells in either direction draw nothing.
    pub open spec fn spec_box_char(rect: Rect, bc: BorderChars, cx: int, cy: int) -> Option<char> {
        if rect.w < 2 || rect.h < 2 {
            None
        } else {
            let left = rect.x as int;
            let top = rect.y as int;
            let right = rect.x + rect.w - 1;
            let bottom = rect.y + rect.h - 1;
            if cx == left && cy == top {
                Some(bc.top_left)
            } else if cx == right && cy == top {
                Some(bc.top_right)
            } else if cx == left && cy == bottom {
                Some(bc.bottom_left)
            } else if cx == right && cy == bottom {
                Some(bc.bottom_right)
            } else if left < cx < right && (cy == top || cy == bottom) {
                Some(bc.horizontal)
            } else if top < cy < bottom && (cx == left || cx == right) {
                Some(bc.vertical)
            } else {
                None
            }
        }
    }

    /// Draw a box border along the edges of a rectangle, in the plain
    /// style; what lies outside the grid is clipped.  Rectangles thinner
    /// than two cells in either direction are left untouched.
    #[verifier::loop_isolation(false)]
    pub fn draw_box(&mut self, rect: Rect, border: BorderStyle)
        requires
            old(self)@.wf(),
        ensures
            final(self)@.wf(),
            final(self).width == old(self).width,
            final(self).height == old(self).height,
            forall|cx: int, cy: int|
                0 <= cx < old(self).width && 0 <= cy < old(self).height ==> final(self)@.at(cx, cy)
                    == (match Buffer::spec_box_char(rect, border.spec_chars(), cx, cy) {
                    Some(c) => Cell { ch: c, style: Style::plain() },
                    None => old(self)@.at(cx, cy),
                }),
    {
        if rect.w < 2 || rect.h < 2 {
            return ;
        }
        let bc = border.chars();
        let style = Style::new();
        let left: u64 = rect.x as u64;
        let top: u64 = rect.y as u64;
        let right: u64 = rect.x as u64 + rect.w as u64 - 1;
        let bottom: u64 = rect.y as u64 + rect.h as u64 - 1;
        let ghost orig = self@;
        let ghost gbc = border.spec_chars();

        self.poke(left, top, bc.top_left, style);
        self.poke(right, top, bc.top_right, style);
        self.poke(left, bottom, bc.bottom_left, style);
        self.poke(right, bottom, bc.bottom_right, style);

        let mut i: u64 = left + 1;
        while i < right
            invariant
                self@.wf(),
                self.width == orig.width,
                self.height == orig.height,
                rect.w >= 2,
                rect.h >= 2,
                left == rect.x,
                top == rect.y,
                right == rect.x + rect.w - 1,
                bottom == rect.y + rect.h - 1,
                gbc == border.spec_chars(),
                bc == gbc,
                left < i,
                forall|cx: int, cy: int|
                    0 <= cx < orig.width && 0 <= cy < orig.height ==> self@.at(cx, cy) == (
                    match Buffer::spec_box_char(rect, gbc, cx, cy) {
                        Some(c) => if (cy == top || cy == bottom) && left < cx < right && cx >= i {
                            orig.at(cx, cy)
                        } else if (cx == left || cx == right) && top < cy < bottom {
                            orig.at(cx, cy)
                        } else {
                            Cell { ch: c, style: Style::plain() }
                        },
                        None => orig.at(cx, cy),
                    }),
            decreases right - i,
        {
            self.poke(i, top, bc.horizontal, style);
            self.poke(i, bottom, bc.horizontal, style);
            i = i + 1;
        }

        let mut j: u64 = top + 1;
        while j < bottom
            invariant
                self@.wf(),
                self.width == orig.width,
                self.height == orig.height,
                rect.w >= 2,
                rect.h >= 2,
                left == rect.x,
                top == rect.y,
                right == rect.x + rect.w - 1,
                bottom == rect.y + rect.h - 1,
                gbc == border.spec_chars(),
                bc == gbc,
                top < j,
                forall|cx: int, cy: int|
                    0 <= cx < orig.width && 0 <= cy < orig.height ==> self@.at(cx, cy) == (
                    match Buffer::spec_box_char(rect, gbc, cx, cy) {
                        Some(c) => if (cx == left || cx == right) && top < cy < bottom && cy >= j {
                            orig.at(cx, cy)
                        } else {
                            Cell { ch: c, style: Style::plain() }
                        },
                        None => orig.at(cx, cy),
                    }),
            decreases bottom - j,
        {
            self.poke(left, j, bc.vertical, style);
            self.poke(right, j, bc.vertical, style);
            j = j + 1;
        }
    }

    /// Clear the whole grid to blank cells.
    pub fn clear(&mut self)
        requires
            old(self)@.wf(),
        ensures
            final(self)@.wf(),
            final(self).width == old(self).width,
            final(self).height == old(self).height,
            forall|i: int| 0 <= i < final(self).cells.len() ==> final(self).cells[i] == Cell::blank(),
            forall|cx: int, cy: int|
                #![trigger final(self)@.at(cx, cy)]
                0 <= cx < old(self).width && 0 <= cy < old(self).height ==> final(self)@.at(cx, cy)
                    == Cell::blank(),
    {
        let n = self.cells.len();
        for i in 0..n
            invariant
                self.cells.len() == n,
                self.width == old(self).width,
                self.height == old(self).height,
                old(self)@.wf(),
                forall|j: int| 0 <= j < i ==> self.cells[j] == Cell::blank(),
        {
            self.cells[i] = Cell::default();
        }
        proof {
            assert forall|cx: int, cy: int|
                0 <= cx < old(self).width && 0 <= cy < old(self).height implies self@.at(cx, cy)
                == Cell::blank() by {
                lemma_grid_index(cx, cy, self.width as int, self.height as int);
            }
        }
    }

    /// Clear a rectangular area to blank cells.
    pub fn clear_rect(&mut self, rect: Rect)
        requires
            old(self)@.wf(),
        ensures
            final(self)@.wf(),
            final(self).width == old(self).width,
            final(self).height == old(self).height,
            forall|cx: int, cy: int|
                0 <= cx < old(self).width && 0 <= cy < old(self).height ==> final(self)@.at(cx, cy)
                    == (if rect.x <= cx < rect.x + rect.w && rect.y <= cy < rect.y + rect.h {
                    Cell::blank()
                } else {
                    old(self)@.at(cx, cy)
                }),
    {
        self.fill_rect(rect, ' ', Style::new());
    }
}

/// Writing a string entirely to the right of the grid changes nothing.
proof fn lemma_with_string_off_right(b: Grid, x: int, y: int, text: Seq<char>, style: Style)
    requires
        x >= b.width,
    ensures
        b.with_string(x, y, text, style) == b,
    decreases text.len(),
{
    if text.len() > 0 {
        assert(b.with_cell(x, y, Cell { ch: text[0], style }) == b);
        lemma_with_string_off_right(b, x + 1, y, text.drop_first(), style);
    }
}

/// A box only touches cells its rectangle covers.
pub proof fn lemma_box_within(rect: Rect, bc: BorderChars, cx: int, cy: int)
    requires
        Buffer::spec_box_char(rect, bc, cx, cy) is Some,
    ensures
        crate::geom::rect_covers(rect, cx, cy),
{
}

} // verus!
