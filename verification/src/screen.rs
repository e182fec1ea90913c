//! The pure heart of the screen run-loop: it owns the layout, the
//! render context and the cell buffer, and composes each frame as one
//! escape-sequence string with run-length style coalescing.  Terminal
//! I/O — raw mode, the alternate screen, writing the frame — stays with
//! the caller.

use vstd::prelude::*;
use crate::ansi::{color_code, cursor_seq, modifier_code, AnsiBuilder};
use crate::buffer::{Buffer, Cell, Grid};
use crate::layout::LayoutNode;
use crate::render::{covered_by_any, render_walk, RenderContext};
use crate::style::{style_eq, Style};

verus! {

/// The escape sequences that switch the output to a style: reset, then
/// the foreground and background colors and the modifiers the style
/// carries.
pub open spec fn style_intro(st: Style) -> Seq<char> {
    "\x1b[0m"@ + (match st.fg {
        Some(c) => color_code(c, true),
        None => Seq::empty(),
    }) + (match st.bg {
        Some(c) => color_code(c, false),
        None => Seq::empty(),
    }) + (if st.modifiers.bits != 0 {
        modifier_code(st.modifiers)
    } else {
        Seq::empty()
    })
}

/// The serialized cells of one row from column `x` on, together with
/// the running style: a style introduction is emitted only where a
/// cell's style differs from the previous cell's.
pub open spec fn frame_cells(g: Grid, y: int, x: int, last: Option<Style>) -> (Seq<char>, Option<
    Style,
>)
    decreases g.width - x,
    when 0 <= x && g.width >= 0
{
    if x >= g.width {
        (Seq::empty(), last)
    } else {
        let cell = g.at(x, y);
        let intro: Seq<char> = if last != Some(cell.style) {
            style_intro(cell.style)
        } else {
            Seq::empty()
        };
        let rest = frame_cells(g, y, x + 1, Some(cell.style));
        (intro + seq![cell.ch] + rest.0, rest.1)
    }
}

/// The serialized rows of a grid from row `y` on: every row after the
/// first is opened by a cursor positioning sequence, and the running
/// style carries across rows.
pub open spec fn frame_rows(g: Grid, y: int, last: Option<Style>) -> (Seq<char>, Option<Style>)
    decreases g.height - y,
    when 0 <= y && g.height >= 0
{
    if y >= g.height {
        (Seq::empty(), last)
    } else {
        let prefix: Seq<char> = if y > 0 {
            cursor_seq(1, y + 1)
        } else {
            Seq::empty()
        };
        let row = frame_cells(g, y, 0, last);
        let rest = frame_rows(g, y + 1, row.1);
        (prefix + row.0 + rest.0, rest.1)
    }
}

/// The complete frame of a grid: home the cursor, serialize every
/// cell row by row, and reset the style at the end.
pub open spec fn spec_frame(g: Grid) -> Seq<char> {
    cursor_seq(1, 1) + frame_rows(g, 0, None).0 + "\x1b[0m"@
}

/// A grid of the given dimensions holding only blank default cells.
pub open spec fn blank_grid(width: u16, height: u16) -> Grid {
    Grid {
        cells: Seq::new((width as int * height as int) as nat, |i: int| Cell::blank()),
        width: width as int,
        height: height as int,
    }
}

/// The leaf rectangles of a layout over a grid of the given size.
pub open spec fn spec_compute_area(layout: LayoutNode, width: u16, height: u16) -> Seq<
    (usize, crate::geom::Rect),
> {
    crate::layout::spec_compute(
        layout,
        crate::geom::Rect { x: 0u32, y: 0u32, w: width as u32, h: height as u32 },
    )
}

/// A terminal screen: the layout to show, the render context, and the
/// cell buffer frames are composed in.  Whether the terminal's mouse
/// capture should be on is carried here for the caller.
pub struct Screen {
    /// The layout to render.
    pub layout: LayoutNode,
    /// The render context for focus and the rectangle cache.
    pub render_context: RenderContext,
    /// The cell buffer frames are composed in.
    pub buffer: Buffer,
    /// Whether the caller should capture mouse events.
    pub capture_mouse: bool,
}

impl Screen {
    /// The layout is well formed and the buffer holds one cell per
    /// position.
    pub open spec fn wf(self) -> bool {
        self.layout.wf() && self.buffer@.wf()
    }

    /// A screen over a layout with a buffer of the given dimensions,
    /// pane 0 focused, mouse capture on.
    pub fn new(layout: LayoutNode, width: u16, height: u16) -> (r: Screen)
        requires
            layout.wf(),
        ensures
            r.wf(),
            r.layout == layout,
            r.buffer.width == width,
            r.buffer.height == height,
            r.render_context.focused_pane == Some(0usize),
            r.capture_mouse,
    {
        let mut render_context = RenderContext::new();
        render_context.set_focused_pane(0);
        Screen { layout, render_context, buffer: Buffer::new(width, height), capture_mouse: true }
    }

    /// Set whether the caller should capture mouse events.
    pub fn set_capture_mouse(&mut self, capture: bool)
        ensures
            final(self).capture_mouse == capture,
            final(self).layout == old(self).layout,
            final(self).buffer == old(self).buffer,
            final(self).render_context == old(self).render_context,
    {
        self.capture_mouse = capture;
    }

    /// Replace the buffer with a fresh one of the given dimensions.
    pub fn resize(&mut self, width: u16, height: u16)
        ensures
            final(self).buffer.width == width,
            final(self).buffer.height == height,
            final(self).buffer@.wf(),
            final(self).layout == old(self).layout,
            final(self).render_context == old(self).render_context,
            final(self).capture_mouse == old(self).capture_mouse,
    {
        self.buffer = Buffer::new(width, height);
    }

    /// Compose one frame: clear the buffer to blank cells, render the
    /// layout into it — every pane paints per the render walk from the
    /// blank grid, and every cell no pane rectangle covers, the gutters
    /// and any slack included, stays a blank default cell — and
    /// serialize the cells as one escape-sequence string, exactly
    /// `spec_frame` of the rendered grid, with styles coalesced into
    /// runs.
    pub fn render(&mut self) -> (r: String)
        requires
            old(self).wf(),
        ensures
            final(self).wf(),
            final(self).layout == old(self).layout,
            final(self).buffer.width == old(self).buffer.width,
            final(self).buffer.height == old(self).buffer.height,
            r@ == spec_frame(final(self).buffer@),
            final(self).render_context.pane_rects@ == spec_compute_area(
                old(self).layout,
                old(self).buffer.width,
                old(self).buffer.height,
            ),
            forall|cx: int, cy: int|
                #![trigger final(self).buffer@.at(cx, cy)]
                0 <= cx < old(self).buffer.width && 0 <= cy < old(self).buffer.height
                    && !covered_by_any(
                    spec_compute_area(
                        old(self).layout,
                        old(self).buffer.width,
                        old(self).buffer.height,
                    ),
                    cx,
                    cy,
                ) ==> final(self).buffer@.at(cx, cy) == crate::buffer::Cell::blank(),
            render_walk(
                old(self).layout,
                spec_compute_area(
                    old(self).layout,
                    old(self).buffer.width,
                    old(self).buffer.height,
                ),
                final(self).render_context.focused_pane,
                blank_grid(old(self).buffer.width, old(self).buffer.height),
                final(self).buffer@,
            ),
    {
        self.buffer.clear();
        proof {
            assert(self.buffer@.cells =~= blank_grid(self.buffer.width, self.buffer.height).cells);
            assert(self.buffer@ == blank_grid(self.buffer.width, self.buffer.height));
        }
        let layout = &self.layout;
        self.render_context.render(layout, &mut self.buffer);
        compose_frame(&self.buffer)
    }
}

/// Append the escape sequences that switch the output to a style.
fn emit_style_intro(builder: &mut AnsiBuilder, st: Style)
    ensures
        final(builder)@ == old(builder)@ + style_intro(st),
{
    let ghost b0 = builder@;
    builder.reset();
    match st.fg {
        Some(fg) => {
            builder.fg_color(fg);
        },
        None => {},
    }
    let ghost b2 = builder@;
    proof {
        let fgc: Seq<char> = match st.fg {
            Some(c) => color_code(c, true),
            None => Seq::empty(),
        };
        assert(b2 =~= b0 + ("\x1b[0m"@ + fgc));
    }
    match st.bg {
        Some(bg) => {
            builder.bg_color(bg);
        },
        None => {},
    }
    let ghost b3 = builder@;
    proof {
        let fgc: Seq<char> = match st.fg {
            Some(c) => color_code(c, true),
            None => Seq::empty(),
        };
        let bgc: Seq<char> = match st.bg {
            Some(c) => color_code(c, false),
            None => Seq::empty(),
        };
        assert(b3 =~= b0 + ("\x1b[0m"@ + fgc + bgc));
    }
    if st.modifiers.bits != 0 {
        builder.modifiers(st.modifiers);
    }
    proof {
        assert(builder@ =~= b0 + style_intro(st));
    }
}

/// Append one row of cells, and hand back the running style.
#[verifier::loop_isolation(false)]
fn emit_row(builder: &mut AnsiBuilder, buffer: &Buffer, y: u16, last: Option<Style>) -> (r: Option<
    Style,
>)
    requires
        buffer@.wf(),
        y < buffer.height,
    ensures
        final(builder)@ == old(builder)@ + frame_cells(buffer@, y as int, 0, last).0,
        r == frame_cells(buffer@, y as int, 0, last).1,
{
    let ghost g = buffer@;
    let ghost b0 = builder@;
    let width = buffer.width;
    let mut cur: Option<Style> = last;
    let mut x: u16 = 0;
    proof {
        assert(b0 + Seq::<char>::empty() =~= b0);
    }
    while x < width
        invariant
            x <= width,
            b0 + frame_cells(g, y as int, 0, last).0 == builder@ + frame_cells(
                g,
                y as int,
                x as int,
                cur,
            ).0,
            frame_cells(g, y as int, 0, last).1 == frame_cells(g, y as int, x as int, cur).1,
        decreases width - x,
    {
        let cell = match buffer.get(x, y) {
            Some(c) => *c,
            None => Cell { ch: ' ', style: Style::new() },
        };
        let changed = match &cur {
            Some(st) => !style_eq(st, &cell.style),
            None => true,
        };
        let ghost b_pre = builder@;
        if changed {
            proof {
                assert(cur != Some(cell.style));
            }
            emit_style_intro(builder, cell.style);
        } else {
            proof {
                assert(cur == Some(cell.style));
                assert(b_pre + Seq::<char>::empty() =~= b_pre);
            }
        }
        builder.push(cell.ch);
        proof {
            let intro: Seq<char> = if cur != Some(cell.style) {
                style_intro(cell.style)
            } else {
                Seq::empty()
            };
            let rest = frame_cells(g, y as int, x as int + 1, Some(cell.style));
            assert(frame_cells(g, y as int, x as int, cur).0 == intro + seq![cell.ch] + rest.0);
            assert(builder@ =~= b_pre + intro + seq![cell.ch]);
            assert(builder@ + rest.0 =~= b_pre + (intro + seq![cell.ch] + rest.0));
        }
        cur = Some(cell.style);
        x = x + 1;
    }
    proof {
        assert(builder@ + Seq::<char>::empty() =~= builder@);
    }
    cur
}

/// Serialize a buffer as one escape-sequence string: cursor home, the
/// cells row by row with one cursor positioning sequence per row and
/// style sequences only where the style changes, and a final reset.
#[verifier::loop_isolation(false)]
pub fn compose_frame(buffer: &Buffer) -> (r: String)
    requires
        buffer@.wf(),
    ensures
        r@ == spec_frame(buffer@),
{
    let ghost g = buffer@;
    let capacity: usize = 64;
    let mut builder = AnsiBuilder::new(capacity);
    builder.cursor_to(1, 1);
    let ghost target = cursor_seq(1, 1) + frame_rows(g, 0, None).0;
    let mut last_style: Option<Style> = None;
    let height = buffer.height;
    let mut y: u16 = 0;
    proof {
        assert(builder@ + frame_rows(g, 0, None).0 =~= target);
    }
    while y < height
        invariant
            y <= height,
            builder@ + frame_rows(g, y as int, last_style).0 == target,
        decreases height - y,
    {
        let ghost b0 = builder@;
        if y > 0 {
            builder.cursor_to(1, y + 1);
        }
        proof {
            let prefix: Seq<char> = if y > 0 {
                cursor_seq(1, y as int + 1)
            } else {
                Seq::empty()
            };
            assert(builder@ =~= b0 + prefix);
        }
        let ghost b1 = builder@;
        let row_last = emit_row(&mut builder, buffer, y, last_style);
        proof {
            let prefix: Seq<char> = if y > 0 {
                cursor_seq(1, y as int + 1)
            } else {
                Seq::empty()
            };
            let row = frame_cells(g, y as int, 0, last_style);
            let rest = frame_rows(g, y as int + 1, row.1);
            assert(frame_rows(g, y as int, last_style).0 == prefix + row.0 + rest.0);
            assert(builder@ =~= b0 + (prefix + row.0));
            assert(builder@ + rest.0 =~= b0 + (prefix + row.0 + rest.0));
        }
        last_style = row_last;
        y = y + 1;
    }
    proof {
        assert(builder@ =~= target);
    }
    builder.reset();
    builder.build()
}

} // verus!
