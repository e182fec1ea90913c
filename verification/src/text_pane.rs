//! A selectable read-only text pane: mouse-driven character, word and
//! line selection over a text buffer, with copy to the clipboard.

use vstd::prelude::*;
use crate::border::BorderStyle;
use crate::buffer::{Buffer, Cell, Grid};
use crate::chars::{char_is_alphanumeric, is_alphanumeric_char, str_to_chars};
use crate::clipboard::clipboard_set_text;
use crate::geom::{rect_covers, Point, Rect};
use crate::render::{
    Event, EventResult, KeyCode, MouseButton, MouseEventKind, PaneContext, PaneRenderer,
};
use crate::style::{Color, Style};
use crate::text_buffer::TextBuffer;
use crate::lines::{count_nl, line_end, line_start, spec_line_col_to_char};
use crate::text_view::{
    dl_models, spec_visible_from, DisplayLineModel, TextBufferView, ViewportState, WrapMode,
};

verus! {

/// Whether a character belongs to a word: alphanumeric or underscore.
pub open spec fn spec_is_word_char(c: char) -> bool {
    is_alphanumeric_char(c) || c == '_'
}

/// The start of the word around position `p`: the first index at or
/// before `p` not preceded by a word character.
pub open spec fn word_start(s: Seq<char>, p: int) -> int
    decreases p,
    when 0 <= p <= s.len()
{
    if p > 0 && spec_is_word_char(s[p - 1]) {
        word_start(s, p - 1)
    } else {
        p
    }
}

/// The end of the word from position `p` on: the first index at or
/// after `p` that does not hold a word character.
pub open spec fn word_end(s: Seq<char>, p: int) -> int
    decreases s.len() - p,
    when 0 <= p <= s.len()
{
    if p < s.len() && spec_is_word_char(s[p]) {
        word_end(s, p + 1)
    } else {
        p
    }
}

/// The paint guarantee both text panes give for their border: when the
/// pane draws a border (its style for the focus state is not `Bare`)
/// and the assigned rectangle's edges stay within the cell range, every
/// in-grid cell of the border ring holds its box-drawing character in
/// the plain style afterwards.
pub open spec fn border_painted(bs: BorderStyle, rect: Rect, pre: Grid, post: Grid) -> bool {
    !(bs is Bare) && rect.x + rect.w <= u32::MAX && rect.y + rect.h <= u32::MAX ==> forall|
        cx: int,
        cy: int,
    |
        #![trigger post.at(cx, cy)]
        0 <= cx < pre.width && 0 <= cy < pre.height && Buffer::spec_box_char(
            rect,
            bs.spec_chars(),
            cx,
            cy,
        ) is Some ==> post.at(cx, cy) == (Cell {
            ch: Buffer::spec_box_char(rect, bs.spec_chars(), cx, cy).unwrap(),
            style: Style::plain(),
        })
}

/// Whether the character at a buffer position lies in the normalized
/// selection of a selection option.
pub open spec fn spec_char_selected(selection: Option<(usize, usize)>, pos: int) -> bool {
    match selection {
        Some(sel) => {
            let lo = if sel.0 <= sel.1 {
                sel.0 as int
            } else {
                sel.1 as int
            };
            let hi = if sel.0 <= sel.1 {
                sel.1 as int
            } else {
                sel.0 as int
            };
            lo <= pos < hi
        },
        None => false,
    }
}

/// The reverse-video style a pane highlights selected cells with: its
/// background over its foreground, defaulting to black on white.
pub open spec fn reversed_style(base: Style) -> Style {
    Style {
        fg: Some(
            match base.bg {
                Some(c) => c,
                None => crate::style::Color::Black,
            },
        ),
        bg: Some(
            match base.fg {
                Some(c) => c,
                None => crate::style::Color::White,
            },
        ),
        modifiers: crate::style::Modifiers { bits: 0 },
    }
}

/// The style one text cell of a pane is painted with: reversed when the
/// pane is focused and the cell's buffer position is selected, the
/// pane's base style otherwise.
pub open spec fn text_cell_style(
    base: Style,
    selection: Option<(usize, usize)>,
    focused: bool,
    pos: int,
) -> Style {
    if focused && spec_char_selected(selection, pos) {
        reversed_style(base)
    } else {
        base
    }
}

/// The wrapped display lines a pane paints over its content rectangle.
pub open spec fn pane_paint_lines(buffer: Seq<char>, tr: Rect) -> Seq<DisplayLineModel> {
    spec_visible_from(buffer, tr.w as int, 0, WrapMode::Wrap, 0, 0, tr.h as int)
}

/// Every text cell of the given display lines — except at most the one
/// exempted cell — is painted at its place in the content rectangle:
/// display line `k`, column `j` lands at `(tr.x + j, tr.y + k)` with
/// that character, in the cell's style.
pub open spec fn cells_painted(
    lines: Seq<DisplayLineModel>,
    buffer: Seq<char>,
    base: Style,
    selection: Option<(usize, usize)>,
    focused: bool,
    except: Option<(int, int)>,
    tr: Rect,
    pre: Grid,
    post: Grid,
) -> bool {
    forall|k: int, j: int|
        #![trigger lines[k].content[j]]
        0 <= k < lines.len() && 0 <= j < lines[k].content.len() && tr.x + j < pre.width && tr.y + k
            < pre.height && except != Some((k, j)) ==> post.at(tr.x + j, tr.y + k) == (Cell {
            ch: lines[k].content[j],
            style: text_cell_style(
                base,
                selection,
                focused,
                spec_line_col_to_char(
                    buffer,
                    lines[k].logical_line_index,
                    lines[k].logical_col_start + j,
                ),
            ),
        })
}

/// The display lines the pane's event handling resolves mouse
/// positions against: a wrap-mode walk of its text over the content
/// rectangle, from the origin.
pub open spec fn pane_view_lines(p: TextPane, ctx: PaneContext) -> Seq<DisplayLineModel> {
    let tr = p.border.spec_content_rect(ctx.rect);
    spec_visible_from(p.buffer@, tr.w as int, 0, WrapMode::Wrap, 0, 0, tr.h as int)
}

/// The buffer position a mouse position inside the content rectangle
/// resolves to: the display cell under the mouse, its column clamped to
/// that display line, mapped through the line/column conversion — or
/// nothing when the mouse row is below the visible lines.
pub open spec fn pane_resolve(p: TextPane, ctx: PaneContext, mx: u16, my: u16) -> Option<int> {
    let tr = p.border.spec_content_rect(ctx.rect);
    let row = my - tr.y;
    let colx = mx - tr.x;
    let lines = pane_view_lines(p, ctx);
    if row < lines.len() {
        let dl = lines[row];
        let cil = if colx <= dl.content.len() {
            colx
        } else {
            dl.content.len() as int
        };
        Some(spec_line_col_to_char(p.buffer@, dl.logical_line_index, dl.logical_col_start + cil))
    } else {
        None
    }
}

/// What one event call does to a text pane: the text and the cosmetic
/// fields never change; keys answer quietly; mouse events outside the
/// content rectangle change nothing; a left press answers `Render` and
/// a left drag or release answers `Render` exactly while a selection is
/// in progress; losing focus clears the selection; resize and
/// animation change nothing.
pub open spec fn text_event_post(
    pre: TextPane,
    post: TextPane,
    ctx: PaneContext,
    event: Event,
    r: EventResult,
) -> bool {
    &&& post.buffer == pre.buffer
    &&& post.style == pre.style
    &&& post.border == pre.border
    &&& post.focused_border == pre.focused_border
    &&& match event {
        Event::Key(_) => r == EventResult::Quiet && post == pre,
        Event::Mouse(m) => {
            let text_rect = pre.border.spec_content_rect(ctx.rect);
            if !text_rect.spec_contains(crate::geom::Point(m.x, m.y)) {
                r == EventResult::Quiet && post == pre
            } else {
                let resolved = pane_resolve(pre, ctx, m.x, m.y);
                match m.kind {
                    MouseEventKind::Down(MouseButton::Left) => {
                        &&& r == EventResult::Render
                        &&& post == match resolved {
                            Some(pos) => TextPane {
                                selection: Some((pos as usize, pos as usize)),
                                is_selecting: true,
                                ..pre
                            },
                            None => pre,
                        }
                    },
                    MouseEventKind::Drag(MouseButton::Left) => {
                        if pre.is_selecting {
                            &&& r == EventResult::Render
                            &&& post == match resolved {
                                Some(pos) => if pre.selection is Some {
                                    TextPane {
                                        selection: Some(
                                            (pre.selection.unwrap().0, pos as usize),
                                        ),
                                        ..pre
                                    }
                                } else {
                                    pre
                                },
                                None => pre,
                            }
                        } else {
                            r == EventResult::Quiet && post == pre
                        }
                    },
                    MouseEventKind::Up(MouseButton::Left) => {
                        if pre.is_selecting {
                            r == EventResult::Render && post == (TextPane {
                                is_selecting: false,
                                ..pre
                            })
                        } else {
                            r == EventResult::Quiet && post == pre
                        }
                    },
                    MouseEventKind::DoubleClick(MouseButton::Left) => {
                        match resolved {
                            Some(pos) => {
                                if pos < pre.buffer@.len() && spec_is_word_char(
                                    pre.buffer@[pos],
                                ) {
                                    r == EventResult::Render && post == (TextPane {
                                        selection: Some(
                                            (
                                                word_start(pre.buffer@, pos) as usize,
                                                word_end(pre.buffer@, pos + 1) as usize,
                                            ),
                                        ),
                                        is_selecting: false,
                                        ..pre
                                    })
                                } else {
                                    r == EventResult::Quiet && post == pre
                                }
                            },
                            None => r == EventResult::Quiet && post == pre,
                        }
                    },
                    MouseEventKind::TripleClick(MouseButton::Left) => {
                        match resolved {
                            Some(pos) => {
                                let s = pre.buffer@;
                                let clamped = if pos <= s.len() {
                                    pos
                                } else {
                                    s.len() as int
                                };
                                let l = count_nl(s.take(clamped));
                                r == EventResult::Render && post == (TextPane {
                                    selection: Some(
                                        (line_start(s, l) as usize, line_end(s, l) as usize),
                                    ),
                                    is_selecting: false,
                                    ..pre
                                })
                            },
                            None => r == EventResult::Quiet && post == pre,
                        }
                    },
                    _ => r == EventResult::Quiet && post == pre,
                }
            }
        },
        Event::Focus { focused } => {
            &&& r == EventResult::Render
            &&& (focused == false ==> post.selection is None && !post.is_selecting)
        },
        _ => r == EventResult::Quiet && post == pre,
    }
}

/// A text pane that supports mouse-based text selection, backed by a
/// text buffer.
pub struct TextPane {
    /// The underlying text buffer.
    pub buffer: TextBuffer,
    /// Base text style.
    pub style: Style,
    /// Border style when not focused.
    pub border: BorderStyle,
    /// Border style when focused.
    pub focused_border: BorderStyle,
    /// Selection range (start, end) in buffer character indices,
    /// unordered: the start may exceed the end and is normalized on
    /// read.
    pub selection: Option<(usize, usize)>,
    /// Whether selection is currently in progress.
    pub is_selecting: bool,
}

impl TextPane {
    /// What one event call does to a text pane; see `text_event_post`.
    pub open spec fn event_post(
        pre: TextPane,
        post: TextPane,
        ctx: PaneContext,
        event: Event,
        r: EventResult,
    ) -> bool {
        text_event_post(pre, post, ctx, event, r)
    }

    /// A pane showing the given text, with a single border that turns
    /// thick when focused, no selection.
    pub fn new(text: &str) -> (r: TextPane)
        ensures
            r.buffer@ == text@,
            r.style == Style::plain(),
            r.border == BorderStyle::Single,
            r.focused_border == BorderStyle::Thick,
            r.selection is None,
            !r.is_selecting,
    {
        TextPane {
            buffer: TextBuffer::from_str(text),
            style: Style::new(),
            border: BorderStyle::Single,
            focused_border: BorderStyle::Thick,
            selection: None,
            is_selecting: false,
        }
    }

    /// This pane with the given text style.
    pub fn with_style(self, style: Style) -> (r: TextPane)
        ensures
            r == (TextPane { style, ..self }),
    {
        TextPane { style, ..self }
    }

    /// This pane with the given border style.
    pub fn with_border(self, border: BorderStyle) -> (r: TextPane)
        ensures
            r == (TextPane { border, ..self }),
    {
        TextPane { border, ..self }
    }

    /// This pane with the given focused border style.
    pub fn with_focused_border(self, border: BorderStyle) -> (r: TextPane)
        ensures
            r == (TextPane { focused_border: border, ..self }),
    {
        TextPane { focused_border: border, ..self }
    }

    /// The current text content.
    pub fn text(&self) -> (r: String)
        ensures
            r@ == self.buffer@,
    {
        self.buffer.to_string()
    }

    /// Whether a non-empty selection exists.
    pub fn has_selection(&self) -> (r: bool)
        ensures
            r == match self.selection {
                Some((start, end)) => start != end,
                None => false,
            },
    {
        match self.selection {
            Some((start, end)) => start != end,
            None => false,
        }
    }

    /// The selection with its endpoints ordered.
    pub fn get_selection_range(&self) -> (r: Option<(usize, usize)>)
        ensures
            r == match self.selection {
                Some((start, end)) => if start <= end {
                    Some((start, end))
                } else {
                    Some((end, start))
                },
                None => None::<(usize, usize)>,
            },
    {
        match self.selection {
            Some((start, end)) => {
                if start <= end {
                    Some((start, end))
                } else {
                    Some((end, start))
                }
            },
            None => None,
        }
    }

    /// The selected text: the characters of the normalized selection,
    /// clamped to the buffer, or nothing without a selection.
    pub fn get_selected_text(&self) -> (r: String)
        ensures
            r@ == match self.selection {
                Some(sel) => {
                    let lo = if sel.0 <= sel.1 {
                        sel.0 as int
                    } else {
                        sel.1 as int
                    };
                    let hi = if sel.0 <= sel.1 {
                        sel.1 as int
                    } else {
                        sel.0 as int
                    };
                    let end = if hi <= self.buffer@.len() {
                        hi
                    } else {
                        self.buffer@.len() as int
                    };
                    let start = if lo <= end {
                        lo
                    } else {
                        end
                    };
                    self.buffer@.subrange(start, end)
                },
                None => Seq::<char>::empty(),
            },
    {
        match self.get_selection_range() {
            Some((start, end)) => self.buffer.substr(start..end),
            None => String::new(),
        }
    }

    /// Begin a selection at a buffer position.
    pub fn start_selection(&mut self, char_pos: usize)
        ensures
            *final(self) == (TextPane {
                selection: Some((char_pos, char_pos)),
                is_selecting: true,
                ..*old(self)
            }),
    {
        self.selection = Some((char_pos, char_pos));
        self.is_selecting = true;
    }

    /// Move the selection's end while a selection is in progress.
    pub fn update_selection(&mut self, char_pos: usize)
        ensures
            *final(self) == if old(self).is_selecting && old(self).selection is Some {
                TextPane {
                    selection: Some((old(self).selection.unwrap().0, char_pos)),
                    ..*old(self)
                }
            } else {
                *old(self)
            },
    {
        if self.is_selecting {
            match self.selection {
                Some((start, _)) => {
                    self.selection = Some((start, char_pos));
                },
                None => {},
            }
        }
    }

    /// End the in-progress selection, keeping its range.
    pub fn finalize_selection(&mut self)
        ensures
            *final(self) == (TextPane { is_selecting: false, ..*old(self) }),
    {
        self.is_selecting = false;
    }

    /// Drop the selection.
    pub fn clear_selection(&mut self)
        ensures
            *final(self) == (TextPane { selection: None, is_selecting: false, ..*old(self) }),
    {
        self.selection = None;
        self.is_selecting = false;
    }

    /// Whether the character at a buffer position lies in the
    /// normalized selection.
    pub fn is_char_selected(&self, char_pos: usize) -> (r: bool)
        ensures
            r == match self.selection {
                Some(sel) => {
                    let lo = if sel.0 <= sel.1 {
                        sel.0 as int
                    } else {
                        sel.1 as int
                    };
                    let hi = if sel.0 <= sel.1 {
                        sel.1 as int
                    } else {
                        sel.0 as int
                    };
                    lo <= char_pos < hi
                },
                None => false,
            },
    {
        match self.get_selection_range() {
            Some((start, end)) => char_pos >= start && char_pos < end,
            None => false,
        }
    }

    /// The word around a buffer position: its start and end indices
    /// when the position holds a word character, `None` otherwise.
    pub fn find_word_at_position(&self, char_pos: usize) -> (r: Option<(usize, usize)>)
        ensures
            r == if char_pos < self.buffer@.len() && spec_is_word_char(
                self.buffer@[char_pos as int],
            ) {
                Some(
                    (
                        word_start(self.buffer@, char_pos as int) as usize,
                        word_end(self.buffer@, char_pos as int + 1) as usize,
                    ),
                )
            } else {
                None::<(usize, usize)>
            },
    {
        let len = self.buffer.len_chars();
        if char_pos >= len {
            return None;
        }
        let text = self.buffer.to_string();
        let chars = str_to_chars(&text);
        let ghost s = self.buffer@;
        if !Self::is_word_char(chars[char_pos]) {
            return None;
        }
        let mut start = char_pos;
        while start > 0 && Self::is_word_char(chars[start - 1])
            invariant
                chars@ == s,
                start <= char_pos < s.len(),
                word_start(s, char_pos as int) == word_start(s, start as int),
            decreases start,
        {
            start = start - 1;
        }
        let mut end = char_pos + 1;
        while end < chars.len() && Self::is_word_char(chars[end])
            invariant
                chars@ == s,
                char_pos < end <= s.len(),
                word_end(s, char_pos as int + 1) == word_end(s, end as int),
            decreases s.len() - end,
        {
            end = end + 1;
        }
        Some((start, end))
    }

    /// Whether a character belongs to a word: alphanumeric or
    /// underscore.
    pub fn is_word_char(ch: char) -> (r: bool)
        ensures
            r == spec_is_word_char(ch),
    {
        char_is_alphanumeric(ch) || ch == '_'
    }

    /// Resolve a mouse position inside the content rectangle to a
    /// buffer position, exactly as `pane_resolve` says.
    fn resolve_position(&self, ctx: &PaneContext, mx: u16, my: u16) -> (r: Option<usize>)
        requires
            self.border.spec_content_rect(ctx.rect).spec_contains(crate::geom::Point(mx, my)),
        ensures
            match r {
                Some(p) => pane_resolve(*self, *ctx, mx, my) == Some(p as int),
                None => pane_resolve(*self, *ctx, mx, my) is None,
            },
    {
        let text_rect = self.border.content_rect(ctx.rect);
        let mouse_point = Point::new(mx, my);
        let local_point = mouse_point.minus(Point::new(
            if text_rect.x <= u16::MAX as u32 {
                text_rect.x as u16
            } else {
                u16::MAX
            },
            if text_rect.y <= u16::MAX as u32 {
                text_rect.y as u16
            } else {
                u16::MAX
            },
        ));
        proof {
            assert(local_point.0 == mx - text_rect.x);
            assert(local_point.1 == my - text_rect.y);
        }
        let width: usize = if text_rect.w as u64 <= usize::MAX as u64 {
            text_rect.w as usize
        } else {
            usize::MAX
        };
        let height: usize = if text_rect.h as u64 <= usize::MAX as u64 {
            text_rect.h as usize
        } else {
            usize::MAX
        };
        let viewport = ViewportState::new(width, height);
        let view = TextBufferView::new(&self.buffer, viewport);
        let r = view.display_to_char(local_point.y() as usize, local_point.x() as usize);
        proof {
            assert(view.spec_lines() == pane_view_lines(*self, *ctx));
        }
        r
    }

    /// Put the selected text on the clipboard; nothing is copied, and
    /// `false` answered, when the selection is empty, and a clipboard
    /// failure is swallowed the same way.
    pub fn copy_to_clipboard(&self) -> (r: bool)
        ensures
            self.selection is None ==> !r,
            (match self.selection {
                Some(sel) => {
                    let lo = if sel.0 <= sel.1 {
                        sel.0 as int
                    } else {
                        sel.1 as int
                    };
                    let hi = if sel.0 <= sel.1 {
                        sel.1 as int
                    } else {
                        sel.0 as int
                    };
                    let end = if hi <= self.buffer@.len() {
                        hi
                    } else {
                        self.buffer@.len() as int
                    };
                    lo >= end
                },
                None => true,
            }) ==> !r,
    {
        let selected_text = self.get_selected_text();
        if selected_text.unicode_len() > 0 {
            clipboard_set_text(selected_text.as_str())
        } else {
            false
        }
    }
}

impl PaneRenderer for TextPane {
    /// The pane paints its border ring per its style for the focus
    /// state, and every wrapped text cell at its place in the content
    /// rectangle, reversed where selected and focused.
    open spec fn render_post(&self, pre: Grid, post: Grid, ctx: PaneContext) -> bool {
        let bs = if ctx.focused {
            self.focused_border
        } else {
            self.border
        };
        let tr = bs.spec_content_rect(ctx.rect);
        &&& border_painted(bs, ctx.rect, pre, post)
        &&& (tr.w > 0 && tr.h > 0 ==> cells_painted(
            pane_paint_lines(self.buffer@, tr),
            self.buffer@,
            self.style,
            self.selection,
            ctx.focused,
            None,
            tr,
            pre,
            post,
        ))
    }

    /// Paint the border and the wrapped text, selected characters in
    /// reverse video when focused; only cells of the assigned
    /// rectangle are touched, and the border ring is painted.
    #[verifier::loop_isolation(false)]
    fn render(&self, ctx: &PaneContext, buffer: &mut Buffer) {
        let ghost g0 = buffer@;
        let border_style = if ctx.focused {
            self.focused_border
        } else {
            self.border
        };
        if !matches!(border_style, BorderStyle::Bare) {
            buffer.draw_box(ctx.rect, border_style);
            proof {
                assert(border_painted(border_style, ctx.rect, old(buffer)@, buffer@));
                assert forall|cx: int, cy: int|
                    0 <= cx < old(buffer).width && 0 <= cy < old(buffer).height && !rect_covers(
                        ctx.rect,
                        cx,
                        cy,
                    ) implies buffer@.at(cx, cy) == g0.at(cx, cy) by {
                    if Buffer::spec_box_char(ctx.rect, border_style.spec_chars(), cx, cy)
                        is Some {
                        crate::buffer::lemma_box_within(
                            ctx.rect,
                            border_style.spec_chars(),
                            cx,
                            cy,
                        );
                    }
                }
            }
        }
        let text_rect = border_style.content_rect(ctx.rect);
        if text_rect.w == 0 || text_rect.h == 0 {
            return ;
        }
        let width: usize = if text_rect.w as u64 <= usize::MAX as u64 {
            text_rect.w as usize
        } else {
            usize::MAX
        };
        let height: usize = if text_rect.h as u64 <= usize::MAX as u64 {
            text_rect.h as usize
        } else {
            usize::MAX
        };
        let total = self.buffer.len_chars();
        let viewport = ViewportState::new(width, height);
        let view = TextBufferView::new(&self.buffer, viewport);
        let lines = view.visible_lines();
        let ghost models = dl_models(lines@);
        proof {
            assert(models == pane_paint_lines(self.buffer@, text_rect));
        }
        let n = lines.len();
        let mut display_line_idx: usize = 0;
        while display_line_idx < n
            invariant
                n == lines@.len(),
                models == dl_models(lines@),
                buffer@.wf(),
                buffer.width == old(buffer).width,
                buffer.height == old(buffer).height,
                forall|cx: int, cy: int|
                    #![trigger buffer@.at(cx, cy)]
                    0 <= cx < old(buffer).width && 0 <= cy < old(buffer).height && !rect_covers(
                        ctx.rect,
                        cx,
                        cy,
                    ) ==> buffer@.at(cx, cy) == old(buffer)@.at(cx, cy),
                border_painted(border_style, ctx.rect, old(buffer)@, buffer@),
                forall|k: int, jj: int|
                    #![trigger models[k].content[jj]]
                    0 <= k < display_line_idx && 0 <= jj < models[k].content.len() && text_rect.x
                        + jj < old(buffer).width && text_rect.y + k < old(buffer).height
                        ==> buffer@.at(text_rect.x + jj, text_rect.y + k) == (Cell {
                        ch: models[k].content[jj],
                        style: text_cell_style(
                            self.style,
                            self.selection,
                            ctx.focused,
                            spec_line_col_to_char(
                                self.buffer@,
                                models[k].logical_line_index,
                                models[k].logical_col_start + jj,
                            ),
                        ),
                    }),
            decreases n - display_line_idx,
        {
            let dl = &lines[display_line_idx];
            let y128: u128 = text_rect.y as u128 + display_line_idx as u128;
            let y: u64 = if y128 <= u64::MAX as u128 {
                y128 as u64
            } else {
                u64::MAX
            };
            let content = str_to_chars(dl.content.as_str());
            let m = content.len();
            proof {
                assert(dl@.content.len() <= width);
            }
            proof {
                assert(content@ == models[display_line_idx as int].content);
            }
            let mut col: usize = 0;
            while col < m
                invariant
                    m == content@.len(),
                    m <= width,
                    display_line_idx < n,
                    n == lines@.len(),
                    models == dl_models(lines@),
                    content@ == models[display_line_idx as int].content,
                    buffer@.wf(),
                    buffer.width == old(buffer).width,
                    buffer.height == old(buffer).height,
                    y as int == text_rect.y + display_line_idx,
                    forall|cx: int, cy: int|
                        #![trigger buffer@.at(cx, cy)]
                        0 <= cx < old(buffer).width && 0 <= cy < old(buffer).height && !rect_covers(
                            ctx.rect,
                            cx,
                            cy,
                        ) ==> buffer@.at(cx, cy) == old(buffer)@.at(cx, cy),
                    border_painted(border_style, ctx.rect, old(buffer)@, buffer@),
                    forall|k: int, jj: int|
                        #![trigger models[k].content[jj]]
                        0 <= k < display_line_idx && 0 <= jj < models[k].content.len()
                            && text_rect.x + jj < old(buffer).width && text_rect.y + k < old(
                            buffer,
                        ).height ==> buffer@.at(text_rect.x + jj, text_rect.y + k) == (Cell {
                            ch: models[k].content[jj],
                            style: text_cell_style(
                                self.style,
                                self.selection,
                                ctx.focused,
                                spec_line_col_to_char(
                                    self.buffer@,
                                    models[k].logical_line_index,
                                    models[k].logical_col_start + jj,
                                ),
                            ),
                        }),
                    forall|jj: int|
                        #![trigger content@[jj]]
                        0 <= jj < col && text_rect.x + jj < old(buffer).width && text_rect.y
                            + display_line_idx < old(buffer).height ==> buffer@.at(
                            text_rect.x + jj,
                            text_rect.y + display_line_idx,
                        ) == (Cell {
                            ch: content@[jj],
                            style: text_cell_style(
                                self.style,
                                self.selection,
                                ctx.focused,
                                spec_line_col_to_char(
                                    self.buffer@,
                                    models[display_line_idx as int].logical_line_index,
                                    models[display_line_idx as int].logical_col_start + jj,
                                ),
                            ),
                        }),
                decreases m - col,
            {
                let x128: u128 = text_rect.x as u128 + col as u128;
                let x: u64 = if x128 <= u64::MAX as u128 {
                    x128 as u64
                } else {
                    u64::MAX
                };
                let char_pos = self.buffer.line_col_to_char(
                    dl.logical_line_index,
                    if dl.logical_col_start as u128 + col as u128 <= usize::MAX as u128 {
                        dl.logical_col_start + col
                    } else {
                        usize::MAX
                    },
                );
                let style = if ctx.focused && self.is_char_selected(char_pos) {
                    Style::new().fg(
                        match self.style.bg {
                            Some(c) => c,
                            None => Color::Black,
                        },
                    ).bg(
                        match self.style.fg {
                            Some(c) => c,
                            None => Color::White,
                        },
                    )
                } else {
                    self.style
                };
                proof {
                    assert(rect_covers(text_rect, x as int, y as int));
                    assert(x as int == text_rect.x + col);
                    crate::border::lemma_content_rect_within(
                        border_style,
                        ctx.rect,
                        x as int,
                        y as int,
                    );
                    if !(border_style is Bare) && ctx.rect.x + ctx.rect.w <= u32::MAX
                        && ctx.rect.y + ctx.rect.h <= u32::MAX {
                        assert(Buffer::spec_box_char(
                            ctx.rect,
                            border_style.spec_chars(),
                            x as int,
                            y as int,
                        ) is None);
                    }
                    assert(char_pos as int == spec_line_col_to_char(
                        self.buffer@,
                        models[display_line_idx as int].logical_line_index,
                        models[display_line_idx as int].logical_col_start + col,
                    ));
                    assert(style == text_cell_style(
                        self.style,
                        self.selection,
                        ctx.focused,
                        char_pos as int,
                    ));
                }
                buffer.poke(x, y, content[col], style);
                col = col + 1;
            }
            display_line_idx = display_line_idx + 1;
        }
    }

    /// Consume one event; the pane contract's entry point.
    fn handle_event(&mut self, ctx: &PaneContext, event: &Event) -> (r: EventResult) {
        self.apply_event(ctx, event)
    }
}

impl TextPane {
    /// Consume one event: left-button presses, drags and releases drive
    /// character selection, a double click selects the word and a
    /// triple click the line under the mouse, a copy key puts the
    /// selection on the clipboard, and losing focus clears the
    /// selection.  The pane is read-only: its text never changes, keys
    /// never request a re-render, and mouse events outside the content
    /// rectangle change nothing.
    pub fn apply_event(&mut self, ctx: &PaneContext, event: &Event) -> (r: EventResult)
        ensures
            TextPane::event_post(*old(self), *final(self), *ctx, *event, r),
    {
        match event {
            Event::Mouse(mouse) => {
                let text_rect = self.border.content_rect(ctx.rect);
                let mouse_point = Point::new(mouse.x, mouse.y);
                if !text_rect.contains(mouse_point) {
                    return EventResult::Quiet;
                }
                match mouse.kind {
                    MouseEventKind::Down(MouseButton::Left) => {
                        match self.resolve_position(ctx, mouse.x, mouse.y) {
                            Some(char_pos) => {
                                self.start_selection(char_pos);
                            },
                            None => {},
                        }
                        EventResult::Render
                    },
                    MouseEventKind::Drag(MouseButton::Left) => {
                        if self.is_selecting {
                            match self.resolve_position(ctx, mouse.x, mouse.y) {
                                Some(char_pos) => {
                                    self.update_selection(char_pos);
                                },
                                None => {},
                            }
                            EventResult::Render
                        } else {
                            EventResult::Quiet
                        }
                    },
                    MouseEventKind::Up(MouseButton::Left) => {
                        if self.is_selecting {
                            self.finalize_selection();
                            EventResult::Render
                        } else {
                            EventResult::Quiet
                        }
                    },
                    MouseEventKind::DoubleClick(MouseButton::Left) => {
                        match self.resolve_position(ctx, mouse.x, mouse.y) {
                            Some(char_pos) => {
                                match self.find_word_at_position(char_pos) {
                                    Some((start, end)) => {
                                        self.selection = Some((start, end));
                                        self.is_selecting = false;
                                        EventResult::Render
                                    },
                                    None => EventResult::Quiet,
                                }
                            },
                            None => EventResult::Quiet,
                        }
                    },
                    MouseEventKind::TripleClick(MouseButton::Left) => {
                        match self.resolve_position(ctx, mouse.x, mouse.y) {
                            Some(char_pos) => {
                                proof {
                                    crate::lines::lemma_count_nl_monotone(
                                        self.buffer@,
                                        if char_pos <= self.buffer@.len() {
                                            char_pos as int
                                        } else {
                                            self.buffer@.len() as int
                                        },
                                        self.buffer@.len() as int,
                                    );
                                    crate::lines::lemma_count_nl_take_all(self.buffer@);
                                }
                                let (line, _) = self.buffer.char_to_line_col(char_pos);
                                let sel_start = self.buffer.line_to_char(line);
                                let sel_end = self.buffer.line_end_char(line);
                                self.selection = Some((sel_start, sel_end));
                                self.is_selecting = false;
                                EventResult::Render
                            },
                            None => EventResult::Quiet,
                        }
                    },
                    _ => EventResult::Quiet,
                }
            },
            Event::Key(key) => {
                let is_copy_key = match key.code {
                    KeyCode::Char(c) => c == 'c',
                    _ => false,
                };
                if is_copy_key && (key.modifiers.ctrl || key.modifiers.alt) && self.has_selection()
                {
                    let _ = self.copy_to_clipboard();
                }
                EventResult::Quiet
            },
            Event::Focus { focused } => {
                if !focused {
                    self.clear_selection();
                }
                EventResult::Render
            },
            _ => EventResult::Quiet,
        }
    }
}

} // verus!
