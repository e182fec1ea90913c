//! An editable multi-line input pane: cursor movement, insertion and
//! deletion over a text buffer, selection, and clipboard copy, cut and
//! paste.

use vstd::prelude::*;
use crate::buffer::{Buffer, Cell, Grid};
use crate::border::BorderStyle;
use crate::chars::{char_is_whitespace, is_whitespace_char, push_char, str_to_chars};
use crate::clipboard::{clipboard_get_text, clipboard_set_text};
use crate::geom::{rect_covers, Point};
use crate::lines::{count_nl, line_count, line_start, spec_line_col_to_char};
use crate::render::{
    Event, EventResult, KeyCode, MouseButton, MouseEventKind, PaneContext, PaneRenderer,
};
use crate::style::{Color, Style};
use crate::text_buffer::TextBuffer;
use crate::text_pane::{border_painted, cells_painted, reversed_style, text_cell_style};
use crate::text_view::{dl_models, spec_visible_from, DisplayLineModel, WrapMode};
use crate::text_view::{TextBufferView, ViewportState};

verus! {

/// The first index at or before `p` such that everything between it
/// and `p` is white space (scanning backward over white space).
pub open spec fn back_over_ws(s: Seq<char>, p: int) -> int
    decreases p,
    when 0 <= p <= s.len()
{
    if p > 0 && is_whitespace_char(s[p - 1]) {
        back_over_ws(s, p - 1)
    } else {
        p
    }
}

/// The first index at or before `p` such that everything between it
/// and `p` is not white space (scanning backward over a word).
pub open spec fn back_over_word(s: Seq<char>, p: int) -> int
    decreases p,
    when 0 <= p <= s.len()
{
    if p > 0 && !is_whitespace_char(s[p - 1]) {
        back_over_word(s, p - 1)
    } else {
        p
    }
}

/// The text once the normalized selection, clamped to it, is removed.
pub open spec fn sel_deleted_text(s: Seq<char>, sel: (usize, usize)) -> Seq<char> {
    let lo = if sel.0 <= sel.1 {
        sel.0 as int
    } else {
        sel.1 as int
    };
    let hi = if sel.0 <= sel.1 {
        sel.1 as int
    } else {
        sel.0 as int
    };
    let end = if hi <= s.len() {
        hi
    } else {
        s.len() as int
    };
    let start = if lo <= end {
        lo
    } else {
        end
    };
    s.take(start) + s.skip(end)
}

/// Where the cursor lands once the selection is removed: its normalized
/// start, clamped into the remaining text.
pub open spec fn sel_deleted_cursor(s: Seq<char>, sel: (usize, usize)) -> int {
    let lo = if sel.0 <= sel.1 {
        sel.0 as int
    } else {
        sel.1 as int
    };
    let t = sel_deleted_text(s, sel);
    if lo <= t.len() {
        lo
    } else {
        t.len() as int
    }
}

/// The top visible line once the view has scrolled the cursor into
/// sight from the origin: zero while the cursor's line fits, else the
/// line pushed up so it is the last visible one.
pub open spec fn input_scroll_line(p: InputPane, h: int) -> int {
    let s = p.buffer@;
    let clamped = if p.cursor_position <= s.len() {
        p.cursor_position as int
    } else {
        s.len() as int
    };
    let line = count_nl(s.take(clamped));
    if line >= h {
        let back: int = if h >= 1 {
            h - 1
        } else {
            0
        };
        if line >= back {
            line - back
        } else {
            0
        }
    } else {
        0
    }
}

/// The display lines the input pane paints over its content rectangle,
/// after scrolling the cursor into sight.
pub open spec fn input_paint_lines(p: InputPane, tr: crate::geom::Rect) -> Seq<DisplayLineModel> {
    spec_visible_from(
        p.buffer@,
        tr.w as int,
        0,
        WrapMode::Wrap,
        input_scroll_line(p, tr.h as int),
        0,
        tr.h as int,
    )
}

/// The cursor's (line, column) coordinate, the position clamped to the
/// text.
pub open spec fn cursor_coord(p: InputPane) -> (int, int) {
    let s = p.buffer@;
    let clamped = if p.cursor_position <= s.len() {
        p.cursor_position as int
    } else {
        s.len() as int
    };
    let l = count_nl(s.take(clamped));
    (l, clamped - line_start(s, l))
}

/// The display cell showing the cursor: the first display line of the
/// cursor's logical line whose span covers the cursor column, the
/// end-of-segment position included, paired with the column offset.
pub open spec fn cursor_cell(lines: Seq<DisplayLineModel>, cline: int, ccol: int, i: int) -> Option<
    (int, int),
>
    decreases lines.len() - i,
    when 0 <= i
{
    if i >= lines.len() {
        None
    } else if lines[i].logical_line_index == cline && lines[i].logical_col_start <= ccol && ccol
        <= lines[i].logical_col_start + lines[i].content.len() {
        Some((i, ccol - lines[i].logical_col_start))
    } else {
        cursor_cell(lines, cline, ccol, i + 1)
    }
}

/// The style placeholder text is shown in: white foreground, nothing
/// else.
pub open spec fn placeholder_style() -> Style {
    Style {
        fg: Some(crate::style::Color::White),
        bg: None,
        modifiers: crate::style::Modifiers { bits: 0 },
    }
}

/// The placeholder's characters painted along the content rectangle's
/// first row, clipped at its width.
pub open spec fn placeholder_painted(
    ph: Seq<char>,
    tr: crate::geom::Rect,
    pre: Grid,
    post: Grid,
) -> bool {
    forall|i: int|
        #![trigger ph[i]]
        0 <= i < ph.len() && i < tr.w && tr.x + i < pre.width && tr.y < pre.height ==> post.at(
            tr.x + i,
            tr.y as int,
        ) == (Cell { ch: ph[i], style: placeholder_style() })
}

/// Whether a pane holds a non-empty selection.
pub open spec fn sel_nonempty(p: InputPane) -> bool {
    p.selection is Some && p.selection.unwrap().0 != p.selection.unwrap().1
}

/// The text and cursor of a pane once its selection is removed.
pub open spec fn sel_replaced(p: InputPane) -> (Seq<char>, int) {
    match p.selection {
        Some(sel) => (sel_deleted_text(p.buffer@, sel), sel_deleted_cursor(p.buffer@, sel)),
        None => (p.buffer@, p.cursor_position as int),
    }
}

/// What one event call does to an input pane: printable keys edit the
/// text (stated exactly for the no-selection case, over the cursor
/// clamped into the text), arrows and home/end move the cursor and
/// drop the selection, select-all answers `Render`, a left press
/// inside the content rectangle answers `Render`, losing focus clears
/// the selection, and everything else is quiet; the cursor always ends
/// inside the text.
pub open spec fn input_event_post(
    pre: InputPane,
    post: InputPane,
    ctx: PaneContext,
    event: Event,
    r: EventResult,
) -> bool {
    &&& post.wf()
    &&& match event {
                Event::Key(k) => {
                    if k.modifiers.ctrl || k.modifiers.alt {
                        match k.code {
                            KeyCode::Char(ch) => {
                                &&& (ch == 'a' ==> r == EventResult::Render)
                                &&& (ch != 'a' && ch != 'c' && ch != 'v' && ch != 'x' ==> r
                                    == EventResult::Quiet)
                                &&& (ch == 'c' ==> r == EventResult::Quiet)
                            },
                            KeyCode::Backspace => r == EventResult::Render && (sel_nonempty(
                                pre,
                            ) ==> post.buffer@ == sel_replaced(pre).0 && post.cursor_position
                                == sel_replaced(pre).1 && post.selection is None),
                            KeyCode::Enter => r == EventResult::Render,
                            KeyCode::Left => r == EventResult::Render,
                            KeyCode::Right => r == EventResult::Render,
                            KeyCode::Up => r == EventResult::Render,
                            KeyCode::Down => r == EventResult::Render,
                            KeyCode::Home => r == EventResult::Render,
                            KeyCode::End => r == EventResult::Render,
                            KeyCode::Delete => r == EventResult::Render,
                            _ => r == EventResult::Quiet,
                        }
                    } else {
                        let s = pre.buffer@;
                        let p = if pre.cursor_position <= s.len() {
                            pre.cursor_position as int
                        } else {
                            s.len() as int
                        };
                        let no_sel = pre.selection is None;
                        let replaced = sel_replaced(pre);
                        match k.code {
                            KeyCode::Char(ch) => {
                                &&& r == EventResult::Render
                                &&& (no_sel ==> post.buffer@ == s.take(p) + seq![ch]
                                    + s.skip(p) && post.cursor_position == p + 1)
                                &&& (pre.selection is Some ==> post.buffer@ == replaced.0.take(
                                    replaced.1,
                                ) + seq![ch] + replaced.0.skip(replaced.1)
                                    && post.cursor_position == replaced.1 + 1)
                            },
                            KeyCode::Enter => {
                                &&& r == EventResult::Render
                                &&& (no_sel ==> post.buffer@ == s.take(p) + seq!['\n']
                                    + s.skip(p) && post.cursor_position == p + 1)
                                &&& (pre.selection is Some ==> post.buffer@ == replaced.0.take(
                                    replaced.1,
                                ) + seq!['\n'] + replaced.0.skip(replaced.1)
                                    && post.cursor_position == replaced.1 + 1)
                            },
                            KeyCode::Backspace => {
                                &&& r == EventResult::Render
                                &&& (no_sel ==> post.buffer@ == (if p > 0 {
                                    s.take(p - 1) + s.skip(p)
                                } else {
                                    s
                                }) && post.cursor_position == (if p > 0 {
                                    p - 1
                                } else {
                                    0int
                                }))
                                &&& (sel_nonempty(pre) ==> post.buffer@ == replaced.0
                                    && post.cursor_position == replaced.1 && post.selection
                                    is None)
                            },
                            KeyCode::Delete => {
                                &&& r == EventResult::Render
                                &&& (no_sel ==> post.buffer@ == (if p < s.len() {
                                    s.take(p) + s.skip(p + 1)
                                } else {
                                    s
                                }) && post.cursor_position == p)
                                &&& (sel_nonempty(pre) ==> post.buffer@ == replaced.0
                                    && post.cursor_position == replaced.1 && post.selection
                                    is None)
                            },
                            KeyCode::Left => r == EventResult::Render && post.buffer == pre.buffer && post.selection is None,
                            KeyCode::Right => r == EventResult::Render && post.buffer
                                == pre.buffer && post.selection is None,
                            KeyCode::Up => r == EventResult::Render && post.buffer == pre.buffer && post.selection is None,
                            KeyCode::Down => r == EventResult::Render && post.buffer == pre.buffer && post.selection is None,
                            KeyCode::Home => r == EventResult::Render && post.buffer == pre.buffer && post.selection is None,
                            KeyCode::End => r == EventResult::Render && post.buffer == pre.buffer && post.selection is None,
                            _ => r == EventResult::Quiet,
                        }
                    }
                },
                Event::Mouse(m) => {
                    let text_rect = pre.border.spec_content_rect(ctx.rect);
                    if !text_rect.spec_contains(crate::geom::Point(m.x, m.y)) {
                        r == EventResult::Quiet && post.buffer == pre.buffer
                            && post.cursor_position <= pre.buffer@.len()
                    } else {
                        match m.kind {
                            MouseEventKind::Down(MouseButton::Left) => r == EventResult::Render
                                && post.buffer == pre.buffer,
                            _ => r == EventResult::Quiet && post.buffer == pre.buffer,
                        }
                    }
                },
                Event::Focus { focused } => {
                    &&& r == EventResult::Render
                    &&& post.buffer == pre.buffer
                    &&& (focused == false ==> post.selection is None)
                },
                _ => r == EventResult::Quiet && post.buffer == pre.buffer,
            }
}

/// A multi-line input pane: a text buffer, a cursor, and an optional
/// selection.  The cursor always lies within `[0, len]`.
pub struct InputPane {
    /// The underlying text buffer.
    pub buffer: TextBuffer,
    /// Current cursor position as a character index.
    pub cursor_position: usize,
    /// Base text style.
    pub style: Style,
    /// Border style when not focused.
    pub border: BorderStyle,
    /// Border style when focused.
    pub focused_border: BorderStyle,
    /// Placeholder text shown when empty and not focused.
    pub placeholder: Option<String>,
    /// Selection range (start, end) in buffer character indices.
    pub selection: Option<(usize, usize)>,
}

impl InputPane {
    /// What one event call does to an input pane; see
    /// `input_event_post`.
    pub open spec fn event_post(
        pre: InputPane,
        post: InputPane,
        ctx: PaneContext,
        event: Event,
        r: EventResult,
    ) -> bool {
        input_event_post(pre, post, ctx, event, r)
    }

    /// The cursor lies within the text.
    pub open spec fn wf(self) -> bool {
        self.cursor_position <= self.buffer@.len()
    }

    /// An empty input pane with the cursor at the start.
    pub fn new() -> (r: InputPane)
        ensures
            r.buffer@ == Seq::<char>::empty(),
            r.cursor_position == 0,
            r.selection is None,
            r.placeholder is None,
            r.wf(),
    {
        InputPane {
            buffer: TextBuffer::new(),
            cursor_position: 0,
            style: Style::new(),
            border: BorderStyle::Single,
            focused_border: BorderStyle::Thick,
            placeholder: None,
            selection: None,
        }
    }

    /// An input pane holding the given text, the cursor at its end.
    pub fn with_text(text: &str) -> (r: InputPane)
        ensures
            r.buffer@ == text@,
            r.cursor_position == text@.len(),
            r.selection is None,
            r.wf(),
    {
        let buffer = TextBuffer::from_str(text);
        let cursor_position = buffer.len_chars();
        InputPane {
            buffer,
            cursor_position,
            style: Style::new(),
            border: BorderStyle::Single,
            focused_border: BorderStyle::Thick,
            placeholder: None,
            selection: None,
        }
    }

    /// This pane with the given text style.
    pub fn with_style(self, style: Style) -> (r: InputPane)
        ensures
            r == (InputPane { style, ..self }),
    {
        InputPane { style, ..self }
    }

    /// This pane with the given border style.
    pub fn with_border(self, border: BorderStyle) -> (r: InputPane)
        ensures
            r == (InputPane { border, ..self }),
    {
        InputPane { border, ..self }
    }

    /// This pane with the given focused border style.
    pub fn with_focused_border(self, border: BorderStyle) -> (r: InputPane)
        ensures
            r == (InputPane { focused_border: border, ..self }),
    {
        InputPane { focused_border: border, ..self }
    }

    /// This pane with the given placeholder text.
    pub fn with_placeholder(self, placeholder: &str) -> (r: InputPane)
        ensures
            r.placeholder is Some && r.placeholder.unwrap()@ == placeholder@,
            r.buffer == self.buffer,
            r.cursor_position == self.cursor_position,
            r.selection == self.selection,
    {
        InputPane { placeholder: Some(placeholder.to_owned()), ..self }
    }

    /// The current text content.
    pub fn text(&self) -> (r: String)
        ensures
            r@ == self.buffer@,
    {
        self.buffer.to_string()
    }

    /// The cursor position as a character index.
    pub fn cursor_pos(&self) -> (r: usize)
        ensures
            r == self.cursor_position,
    {
        self.cursor_position
    }

    /// The cursor position as a (line, column) coordinate.
    pub fn cursor_line_col(&self) -> (r: (usize, usize))
        requires
            self.wf(),
        ensures
            ({
                let l = count_nl(self.buffer@.take(self.cursor_position as int));
                r.0 == l && r.1 == self.cursor_position - line_start(self.buffer@, l)
            }),
    {
        self.buffer.char_to_line_col(self.cursor_position)
    }

    /// Put the cursor at a position, clamped to the text, dropping the
    /// selection.
    pub fn move_cursor_to(&mut self, pos: usize)
        ensures
            final(self).buffer == old(self).buffer,
            final(self).cursor_position == if pos <= old(self).buffer@.len() {
                pos as int
            } else {
                old(self).buffer@.len() as int
            },
            final(self).selection is None,
            final(self).wf(),
    {
        let len = self.buffer.len_chars();
        self.cursor_position = if pos <= len {
            pos
        } else {
            len
        };
        self.clear_selection();
    }

    /// Put the cursor at a (line, column) coordinate, the column
    /// clamped to the line, dropping the selection.
    pub fn move_cursor_to_line_col(&mut self, line: usize, col: usize)
        ensures
            final(self).buffer == old(self).buffer,
            final(self).cursor_position == spec_line_col_to_char(
                old(self).buffer@,
                line as int,
                col as int,
            ),
            final(self).selection is None,
            final(self).wf(),
    {
        proof {
            lemma_line_col_within(self.buffer@, line as int, col as int);
        }
        self.cursor_position = self.buffer.line_col_to_char(line, col);
        self.clear_selection();
    }

    /// Move the cursor left or right by a character count, stopping at
    /// the ends of the text, dropping the selection.
    pub fn move_cursor_horizontal(&mut self, delta: i32, _extend_selection: bool)
        requires
            old(self).wf(),
        ensures
            final(self).buffer == old(self).buffer,
            final(self).selection is None,
            final(self).wf(),
            delta < 0 ==> final(self).cursor_position == if old(self).cursor_position + delta >= 0 {
                old(self).cursor_position + delta
            } else {
                0int
            },
            delta >= 0 ==> final(self).cursor_position == if old(self).cursor_position + delta
                <= old(self).buffer@.len() {
                old(self).cursor_position + delta
            } else {
                old(self).buffer@.len() as int
            },
    {
        let len = self.buffer.len_chars();
        if delta < 0 {
            let back = (-(delta as i64)) as usize;
            self.cursor_position = if self.cursor_position >= back {
                self.cursor_position - back
            } else {
                0
            };
        } else {
            let fwd = delta as usize;
            self.cursor_position = if self.cursor_position as u128 + fwd as u128 <= len as u128 {
                self.cursor_position + fwd
            } else {
                len
            };
        }
        self.clear_selection();
    }

    /// Move the cursor up or down by a line count, stopping at the
    /// first and last line, keeping the column clamped to the new
    /// line, dropping the selection.
    pub fn move_cursor_vertical(&mut self, delta: i32, _extend_selection: bool)
        requires
            old(self).wf(),
        ensures
            final(self).buffer == old(self).buffer,
            final(self).selection is None,
            final(self).wf(),
    {
        let (current_line, current_col) = self.buffer.char_to_line_col(self.cursor_position);
        let line_total = self.buffer.line_count();
        proof {
            crate::lines::lemma_count_nl_nonneg(self.buffer@);
        }
        let new_line: usize = if delta < 0 {
            let back = (-(delta as i64)) as usize;
            if current_line >= back {
                current_line - back
            } else {
                0
            }
        } else {
            let fwd = delta as usize;
            let cap = line_total - 1;
            if current_line as u128 + fwd as u128 <= cap as u128 {
                current_line + fwd
            } else {
                cap
            }
        };
        self.move_cursor_to_line_col(new_line, current_col);
    }

    /// Insert one character at the cursor, replacing the selection if
    /// one exists, and put the cursor after it.
    pub fn insert_char(&mut self, ch: char)
        requires
            old(self).wf(),
        ensures
            final(self).wf(),
            final(self).selection is None,
            old(self).selection is None ==> ({
                let s = old(self).buffer@;
                let p = old(self).cursor_position as int;
                &&& final(self).buffer@ == s.take(p) + seq![ch] + s.skip(p)
                &&& final(self).cursor_position == p + 1
            }),
            old(self).selection is Some ==> ({
                let t = sel_deleted_text(old(self).buffer@, old(self).selection.unwrap());
                let c = sel_deleted_cursor(old(self).buffer@, old(self).selection.unwrap());
                &&& final(self).buffer@ == t.take(c) + seq![ch] + t.skip(c)
                &&& final(self).cursor_position == c + 1
            }),
    {
        self.delete_selection();
        let mut text = String::new();
        push_char(&mut text, ch);
        proof {
            assert(text@ =~= seq![ch]);
        }
        self.buffer.insert(self.cursor_position, text.as_str());
        let new_len = self.buffer.len_chars();
        proof {
            assert(self.cursor_position + 1 <= new_len);
        }
        self.cursor_position = self.cursor_position + 1;
    }

    /// Insert a line break at the cursor, replacing the selection if
    /// one exists, and put the cursor after it.
    pub fn insert_newline(&mut self)
        requires
            old(self).wf(),
        ensures
            final(self).wf(),
            final(self).selection is None,
            old(self).selection is None ==> ({
                let s = old(self).buffer@;
                let p = old(self).cursor_position as int;
                &&& final(self).buffer@ == s.take(p) + seq!['\n'] + s.skip(p)
                &&& final(self).cursor_position == p + 1
            }),
            old(self).selection is Some ==> ({
                let t = sel_deleted_text(old(self).buffer@, old(self).selection.unwrap());
                let c = sel_deleted_cursor(old(self).buffer@, old(self).selection.unwrap());
                &&& final(self).buffer@ == t.take(c) + seq!['\n'] + t.skip(c)
                &&& final(self).cursor_position == c + 1
            }),
    {
        self.insert_char('\n');
    }

    /// Delete the character before the cursor, or the selection if one
    /// exists.
    pub fn backspace(&mut self)
        requires
            old(self).wf(),
        ensures
            final(self).wf(),
            (old(self).selection is Some && old(self).selection.unwrap().0 != old(
                self,
            ).selection.unwrap().1) ==> final(self).buffer@ == sel_deleted_text(
                old(self).buffer@,
                old(self).selection.unwrap(),
            ) && final(self).cursor_position == sel_deleted_cursor(
                old(self).buffer@,
                old(self).selection.unwrap(),
            ) && final(self).selection is None,
            old(self).selection is None ==> ({
                let s = old(self).buffer@;
                let p = old(self).cursor_position as int;
                if p > 0 {
                    final(self).buffer@ == s.take(p - 1) + s.skip(p) && final(self).cursor_position
                        == p - 1
                } else {
                    final(self).buffer@ == s && final(self).cursor_position == 0
                }
            }),
    {
        if self.has_selection() {
            self.delete_selection();
        } else if self.cursor_position > 0 {
            self.buffer.delete((self.cursor_position - 1)..self.cursor_position);
            self.cursor_position = self.cursor_position - 1;
        }
    }

    /// Delete backward over trailing white space and then one word.
    #[verifier::loop_isolation(false)]
    pub fn delete_word_backwards(&mut self)
        requires
            old(self).wf(),
        ensures
            final(self).wf(),
            (old(self).selection is Some && old(self).selection.unwrap().0 != old(
                self,
            ).selection.unwrap().1) ==> final(self).buffer@ == sel_deleted_text(
                old(self).buffer@,
                old(self).selection.unwrap(),
            ) && final(self).cursor_position == sel_deleted_cursor(
                old(self).buffer@,
                old(self).selection.unwrap(),
            ) && final(self).selection is None,
            old(self).selection is None ==> ({
                let s = old(self).buffer@;
                let p = old(self).cursor_position as int;
                let cut = back_over_word(s, back_over_ws(s, p));
                &&& final(self).buffer@ == s.take(cut) + s.skip(p)
                &&& final(self).cursor_position == cut
            }),
    {
        if self.has_selection() {
            self.delete_selection();
            return ;
        }
        if self.cursor_position == 0 {
            proof {
                assert(self.buffer@.take(0) + self.buffer@.skip(0) =~= self.buffer@);
            }
            return ;
        }
        let text = self.buffer.to_string();
        let chars = str_to_chars(&text);
        let ghost s = self.buffer@;
        let mut pos = self.cursor_position;
        while pos > 0 && char_is_whitespace(chars[pos - 1])
            invariant
                chars@ == s,
                pos <= self.cursor_position <= s.len(),
                back_over_ws(s, self.cursor_position as int) == back_over_ws(s, pos as int),
            decreases pos,
        {
            pos = pos - 1;
        }
        let ghost after_ws = pos as int;
        while pos > 0 && !char_is_whitespace(chars[pos - 1])
            invariant
                chars@ == s,
                pos as int <= after_ws,
                back_over_word(s, after_ws) == back_over_word(s, pos as int),
            decreases pos,
        {
            pos = pos - 1;
        }
        if pos < self.cursor_position {
            self.buffer.delete(pos..self.cursor_position);
            self.cursor_position = pos;
        } else {
            proof {
                assert(self.buffer@.take(pos as int) + self.buffer@.skip(pos as int)
                    =~= self.buffer@);
            }
        }
    }

    /// Delete the character after the cursor, or the selection if one
    /// exists.
    pub fn delete(&mut self)
        requires
            old(self).wf(),
        ensures
            final(self).wf(),
            (old(self).selection is Some && old(self).selection.unwrap().0 != old(
                self,
            ).selection.unwrap().1) ==> final(self).buffer@ == sel_deleted_text(
                old(self).buffer@,
                old(self).selection.unwrap(),
            ) && final(self).cursor_position == sel_deleted_cursor(
                old(self).buffer@,
                old(self).selection.unwrap(),
            ) && final(self).selection is None,
            old(self).selection is None ==> ({
                let s = old(self).buffer@;
                let p = old(self).cursor_position as int;
                if p < s.len() {
                    final(self).buffer@ == s.take(p) + s.skip(p + 1) && final(self).cursor_position
                        == p
                } else {
                    final(self).buffer@ == s && final(self).cursor_position == p
                }
            }),
    {
        if self.has_selection() {
            self.delete_selection();
        } else if self.cursor_position < self.buffer.len_chars() {
            self.buffer.delete(self.cursor_position..(self.cursor_position + 1));
        }
    }

    /// Whether a non-empty selection exists.
    pub fn has_selection(&self) -> (r: bool)
        ensures
            r == match self.selection {
                Some((start, end)) => start != end,
                None => false,
            },
    {
        match self.selection {
            Some((start, end)) => start != end,
            None => false,
        }
    }

    /// The selection with its endpoints ordered.
    pub fn get_selection_range(&self) -> (r: Option<(usize, usize)>)
        ensures
            r == match self.selection {
                Some((start, end)) => if start <= end {
                    Some((start, end))
                } else {
                    Some((end, start))
                },
                None => None::<(usize, usize)>,
            },
    {
        match self.selection {
            Some((start, end)) => {
                if start <= end {
                    Some((start, end))
                } else {
                    Some((end, start))
                }
            },
            None => None,
        }
    }

    /// The selected text: the characters of the normalized selection,
    /// clamped to the buffer, or nothing without a selection.
    pub fn get_selected_text(&self) -> (r: String)
        ensures
            r@ == match self.selection {
                Some(sel) => {
                    let lo = if sel.0 <= sel.1 {
                        sel.0 as int
                    } else {
                        sel.1 as int
                    };
                    let hi = if sel.0 <= sel.1 {
                        sel.1 as int
                    } else {
                        sel.0 as int
                    };
                    let end = if hi <= self.buffer@.len() {
                        hi
                    } else {
                        self.buffer@.len() as int
                    };
                    let start = if lo <= end {
                        lo
                    } else {
                        end
                    };
                    self.buffer@.subrange(start, end)
                },
                None => Seq::<char>::empty(),
            },
    {
        match self.get_selection_range() {
            Some((start, end)) => self.buffer.substr(start..end),
            None => String::new(),
        }
    }

    /// Delete the normalized selection, clamped to the buffer, and put
    /// the cursor at its start; without a selection only the cursor is
    /// clamped into the text.
    pub fn delete_selection(&mut self)
        ensures
            final(self).selection is None,
            final(self).wf(),
            old(self).selection is None ==> final(self).buffer@ == old(self).buffer@,
            old(self).selection is None ==> final(self).cursor_position == (if old(
                self,
            ).cursor_position <= old(self).buffer@.len() {
                old(self).cursor_position as int
            } else {
                old(self).buffer@.len() as int
            }),
            old(self).selection is Some ==> final(self).buffer@ == sel_deleted_text(
                old(self).buffer@,
                old(self).selection.unwrap(),
            ) && final(self).cursor_position == sel_deleted_cursor(
                old(self).buffer@,
                old(self).selection.unwrap(),
            ),
    {
        match self.get_selection_range() {
            Some((start, end)) => {
                self.buffer.delete(start..end);
                let len = self.buffer.len_chars();
                self.cursor_position = if start <= len {
                    start
                } else {
                    len
                };
                self.clear_selection();
            },
            None => {
                let len = self.buffer.len_chars();
                if self.cursor_position > len {
                    self.cursor_position = len;
                }
            },
        }
    }

    /// Drop the selection.
    pub fn clear_selection(&mut self)
        ensures
            *final(self) == (InputPane { selection: None, ..*old(self) }),
    {
        self.selection = None;
    }

    /// Select the whole text.
    pub fn select_all(&mut self)
        ensures
            final(self).buffer == old(self).buffer,
            final(self).cursor_position == old(self).cursor_position,
            old(self).buffer@.len() > 0 ==> final(self).selection == Some(
                (0usize, (old(self).buffer@.len() as usize)),
            ),
            old(self).buffer@.len() == 0 ==> final(self).selection == old(self).selection,
    {
        let len = self.buffer.len_chars();
        if len > 0 {
            self.selection = Some((0, len));
        }
    }

    /// Whether the character at a buffer position lies in the
    /// normalized selection.
    pub fn is_char_selected(&self, char_pos: usize) -> (r: bool)
        ensures
            r == match self.selection {
                Some(sel) => {
                    let lo = if sel.0 <= sel.1 {
                        sel.0 as int
                    } else {
                        sel.1 as int
                    };
                    let hi = if sel.0 <= sel.1 {
                        sel.1 as int
                    } else {
                        sel.0 as int
                    };
                    lo <= char_pos < hi
                },
                None => false,
            },
    {
        match self.get_selection_range() {
            Some((start, end)) => char_pos >= start && char_pos < end,
            None => false,
        }
    }

    /// Put the selected text on the clipboard; nothing is copied, and
    /// `false` answered, when the selection is empty, and a clipboard
    /// failure is swallowed the same way.
    pub fn copy_to_clipboard(&self) -> (r: bool)
        ensures
            self.selection is None ==> !r,
            (match self.selection {
                Some(sel) => {
                    let lo = if sel.0 <= sel.1 {
                        sel.0 as int
                    } else {
                        sel.1 as int
                    };
                    let hi = if sel.0 <= sel.1 {
                        sel.1 as int
                    } else {
                        sel.0 as int
                    };
                    let end = if hi <= self.buffer@.len() {
                        hi
                    } else {
                        self.buffer@.len() as int
                    };
                    lo >= end
                },
                None => true,
            }) ==> !r,
    {
        let selected_text = self.get_selected_text();
        if selected_text.unicode_len() > 0 {
            clipboard_set_text(selected_text.as_str())
        } else {
            false
        }
    }

    /// Paste the clipboard at the cursor, replacing the selection:
    /// whatever non-empty text the clipboard handed back goes in at
    /// the cursor, the cursor moves past it, and the answer says
    /// whether anything was inserted.
    pub fn paste_from_clipboard(&mut self) -> (r: bool)
        requires
            old(self).wf(),
        ensures
            final(self).wf(),
            !r ==> *final(self) == *old(self),
            r ==> final(self).selection is None,
            r && old(self).selection is None ==> ({
                let s0 = old(self).buffer@;
                let p0 = old(self).cursor_position as int;
                exists|t: Seq<char>|
                    #![trigger t.len()]
                    t.len() > 0 && final(self).buffer@ == s0.take(p0) + t + s0.skip(p0) && final(self).cursor_position as int == p0 + t.len()
            }),
    {
        match clipboard_get_text() {
            Some(text) => {
                let pasted = self.insert_clipboard_text(text.as_str());
                proof {
                    if pasted && old(self).selection is None {
                        let tt = text@;
                        assert(tt.len() > 0 && self.buffer@ == old(self).buffer@.take(
                            old(self).cursor_position as int,
                        ) + tt + old(self).buffer@.skip(old(self).cursor_position as int)
                            && self.cursor_position == old(self).cursor_position + tt.len());
                    }
                }
                pasted
            },
            None => false,
        }
    }

    /// Insert pasted text at the cursor, replacing the selection: a
    /// non-empty text goes in at the cursor, which moves past it, and
    /// an empty text changes nothing.
    pub fn insert_clipboard_text(&mut self, text: &str) -> (r: bool)
        requires
            old(self).wf(),
        ensures
            final(self).wf(),
            r == (text@.len() > 0),
            text@.len() == 0 ==> *final(self) == *old(self),
            text@.len() > 0 ==> ({
                &&& final(self).selection is None
                &&& final(self).cursor_position == final(self).cursor_position
                &&& (old(self).selection is None ==> final(self).buffer@ == old(
                    self,
                ).buffer@.take(old(self).cursor_position as int) + text@ + old(self).buffer@.skip(
                    old(self).cursor_position as int,
                ) && final(self).cursor_position == old(self).cursor_position + text@.len())
            }),
    {
        let n = text.unicode_len();
        if n > 0 {
            self.delete_selection();
            self.buffer.insert(self.cursor_position, text);
            let new_len = self.buffer.len_chars();
            proof {
                assert(self.cursor_position + n <= new_len);
            }
            self.cursor_position = self.cursor_position + n;
            true
        } else {
            false
        }
    }
}

/// A (line, column) coordinate maps into the text.
proof fn lemma_line_col_within(s: Seq<char>, line: int, col: int)
    requires
        col >= 0,
    ensures
        0 <= spec_line_col_to_char(s, line, col) <= s.len(),
{
    crate::lines::lemma_count_nl_nonneg(s);
    if 0 <= line < line_count(s) {
        crate::lines::lemma_line_bounds(s, line);
    }
}

impl PaneRenderer for InputPane {
    /// The pane paints its border ring per its style for the focus
    /// state; then either the placeholder (when empty and unfocused) or
    /// every text cell of the scrolled, wrapped view — reversed where
    /// selected — and, when focused, the cursor cell: reversed over
    /// text, a solid block past the end of a line.
    open spec fn render_post(&self, pre: Grid, post: Grid, ctx: PaneContext) -> bool {
        let bs = if ctx.focused {
            self.focused_border
        } else {
            self.border
        };
        let tr = bs.spec_content_rect(ctx.rect);
        &&& border_painted(bs, ctx.rect, pre, post)
        &&& (tr.w > 0 && tr.h > 0 ==> if self.buffer@.len() == 0 && !ctx.focused {
            match self.placeholder {
                Some(ph) => placeholder_painted(ph@, tr, pre, post),
                None => true,
            }
        } else {
            let lines = input_paint_lines(*self, tr);
            let coord = cursor_coord(*self);
            let cc = if ctx.focused {
                cursor_cell(lines, coord.0, coord.1, 0)
            } else {
                None
            };
            &&& cells_painted(
                lines,
                self.buffer@,
                self.style,
                self.selection,
                ctx.focused,
                cc,
                tr,
                pre,
                post,
            )
            &&& match cc {
                Some(c) => c.1 < tr.w && tr.x + c.1 < pre.width && tr.y + c.0 < pre.height
                    ==> post.at(tr.x + c.1, tr.y + c.0) == (if c.1 < lines[c.0].content.len() {
                    Cell { ch: lines[c.0].content[c.1], style: reversed_style(self.style) }
                } else {
                    Cell { ch: '\u{2588}', style: self.style }
                }),
                None => true,
            }
        })
    }

    /// Paint the border, the placeholder or the wrapped text, selected
    /// characters in reverse video, and the cursor when focused; only
    /// cells of the assigned rectangle are touched, and everything the
    /// pane's paint relation promises is painted.
    #[verifier::loop_isolation(false)]
    #[verifier::rlimit(60)]
    fn render(&self, ctx: &PaneContext, buffer: &mut Buffer) {
        let ghost g0 = buffer@;
        let border_style = if ctx.focused {
            self.focused_border
        } else {
            self.border
        };
        if !matches!(border_style, BorderStyle::Bare) {
            buffer.draw_box(ctx.rect, border_style);
            proof {
                assert(border_painted(border_style, ctx.rect, old(buffer)@, buffer@));
                assert forall|cx: int, cy: int|
                    0 <= cx < old(buffer).width && 0 <= cy < old(buffer).height && !rect_covers(
                        ctx.rect,
                        cx,
                        cy,
                    ) implies buffer@.at(cx, cy) == g0.at(cx, cy) by {
                    if Buffer::spec_box_char(ctx.rect, border_style.spec_chars(), cx, cy)
                        is Some {
                        crate::buffer::lemma_box_within(
                            ctx.rect,
                            border_style.spec_chars(),
                            cx,
                            cy,
                        );
                    }
                }
            }
        }
        let text_rect = border_style.content_rect(ctx.rect);
        if text_rect.w == 0 || text_rect.h == 0 {
            return ;
        }
        let width: usize = if text_rect.w as u64 <= usize::MAX as u64 {
            text_rect.w as usize
        } else {
            usize::MAX
        };
        let height: usize = if text_rect.h as u64 <= usize::MAX as u64 {
            text_rect.h as usize
        } else {
            usize::MAX
        };
        let display_placeholder = self.buffer.is_empty() && !ctx.focused;
        if display_placeholder {
            let ph_style = Style::new().fg(Color::White);
            proof {
                assert(ph_style == placeholder_style());
            }
            match &self.placeholder {
                Some(placeholder) => {
                    let chars = str_to_chars(placeholder.as_str());
                    let m = chars.len();
                    let mut i: usize = 0;
                    while i < m && i < width
                        invariant
                            m == chars@.len(),
                            buffer@.wf(),
                            buffer.width == old(buffer).width,
                            buffer.height == old(buffer).height,
                            forall|cx: int, cy: int|
                                #![trigger buffer@.at(cx, cy)]
                                0 <= cx < old(buffer).width && 0 <= cy < old(buffer).height
                                    && !rect_covers(ctx.rect, cx, cy) ==> buffer@.at(cx, cy)
                                    == old(buffer)@.at(cx, cy),
                            border_painted(border_style, ctx.rect, old(buffer)@, buffer@),
                            forall|ii: int|
                                #![trigger chars@[ii]]
                                0 <= ii < i && ii < text_rect.w && text_rect.x + ii < old(
                                    buffer,
                                ).width && text_rect.y < old(buffer).height ==> buffer@.at(
                                    text_rect.x + ii,
                                    text_rect.y as int,
                                ) == (Cell { ch: chars@[ii], style: placeholder_style() }),
                        decreases m - i,
                    {
                        let x128: u128 = text_rect.x as u128 + i as u128;
                        let x: u64 = if x128 <= u64::MAX as u128 {
                            x128 as u64
                        } else {
                            u64::MAX
                        };
                        proof {
                            assert(rect_covers(text_rect, x as int, text_rect.y as int));
                            assert(x as int == text_rect.x + i);
                            crate::border::lemma_content_rect_within(
                                border_style,
                                ctx.rect,
                                x as int,
                                text_rect.y as int,
                            );
                            if !(border_style is Bare) && ctx.rect.x + ctx.rect.w <= u32::MAX
                                && ctx.rect.y + ctx.rect.h <= u32::MAX {
                                assert(Buffer::spec_box_char(
                                    ctx.rect,
                                    border_style.spec_chars(),
                                    x as int,
                                    text_rect.y as int,
                                ) is None);
                            }
                        }
                        buffer.poke(x, text_rect.y as u64, chars[i], ph_style);
                        i = i + 1;
                    }
                },
                None => {},
            }
            return ;
        }
        let total = self.buffer.len_chars();
        let mut viewport = ViewportState::new(width, height);
        let mut view = TextBufferView::new(&self.buffer, viewport);
        view.scroll_to_char(self.cursor_position);
        proof {
            assert(view.viewport.scroll_line as int == input_scroll_line(
                *self,
                text_rect.h as int,
            ));
        }
        let lines = view.visible_lines();
        let ghost models = dl_models(lines@);
        proof {
            assert(models == input_paint_lines(*self, text_rect));
        }
        let n = lines.len();
        let mut display_line_idx: usize = 0;
        while display_line_idx < n
            invariant
                n == lines@.len(),
                models == dl_models(lines@),
                buffer@.wf(),
                buffer.width == old(buffer).width,
                buffer.height == old(buffer).height,
                forall|cx: int, cy: int|
                    #![trigger buffer@.at(cx, cy)]
                    0 <= cx < old(buffer).width && 0 <= cy < old(buffer).height && !rect_covers(
                        ctx.rect,
                        cx,
                        cy,
                    ) ==> buffer@.at(cx, cy) == old(buffer)@.at(cx, cy),
                border_painted(border_style, ctx.rect, old(buffer)@, buffer@),
                forall|k: int, jj: int|
                    #![trigger models[k].content[jj]]
                    0 <= k < display_line_idx && 0 <= jj < models[k].content.len() && text_rect.x
                        + jj < old(buffer).width && text_rect.y + k < old(buffer).height
                        ==> buffer@.at(text_rect.x + jj, text_rect.y + k) == (Cell {
                        ch: models[k].content[jj],
                        style: text_cell_style(
                            self.style,
                            self.selection,
                            ctx.focused,
                            spec_line_col_to_char(
                                self.buffer@,
                                models[k].logical_line_index,
                                models[k].logical_col_start + jj,
                            ),
                        ),
                    }),
            decreases n - display_line_idx,
        {
            let dl = &lines[display_line_idx];
            let y128: u128 = text_rect.y as u128 + display_line_idx as u128;
            let y: u64 = if y128 <= u64::MAX as u128 {
                y128 as u64
            } else {
                u64::MAX
            };
            let content = str_to_chars(dl.content.as_str());
            let m = content.len();
            proof {
                assert(dl@.content.len() <= width);
                assert(content@ == models[display_line_idx as int].content);
            }
            let mut col: usize = 0;
            while col < m
                invariant
                    m == content@.len(),
                    m <= width,
                    display_line_idx < n,
                    n == lines@.len(),
                    models == dl_models(lines@),
                    content@ == models[display_line_idx as int].content,
                    buffer@.wf(),
                    buffer.width == old(buffer).width,
                    buffer.height == old(buffer).height,
                    y as int == text_rect.y + display_line_idx,
                    forall|cx: int, cy: int|
                        #![trigger buffer@.at(cx, cy)]
                        0 <= cx < old(buffer).width && 0 <= cy < old(buffer).height && !rect_covers(
                            ctx.rect,
                            cx,
                            cy,
                        ) ==> buffer@.at(cx, cy) == old(buffer)@.at(cx, cy),
                    border_painted(border_style, ctx.rect, old(buffer)@, buffer@),
                    forall|k: int, jj: int|
                        #![trigger models[k].content[jj]]
                        0 <= k < display_line_idx && 0 <= jj < models[k].content.len()
                            && text_rect.x + jj < old(buffer).width && text_rect.y + k < old(
                            buffer,
                        ).height ==> buffer@.at(text_rect.x + jj, text_rect.y + k) == (Cell {
                            ch: models[k].content[jj],
                            style: text_cell_style(
                                self.style,
                                self.selection,
                                ctx.focused,
                                spec_line_col_to_char(
                                    self.buffer@,
                                    models[k].logical_line_index,
                                    models[k].logical_col_start + jj,
                                ),
                            ),
                        }),
                    forall|jj: int|
                        #![trigger content@[jj]]
                        0 <= jj < col && text_rect.x + jj < old(buffer).width && text_rect.y
                            + display_line_idx < old(buffer).height ==> buffer@.at(
                            text_rect.x + jj,
                            text_rect.y + display_line_idx,
                        ) == (Cell {
                            ch: content@[jj],
                            style: text_cell_style(
                                self.style,
                                self.selection,
                                ctx.focused,
                                spec_line_col_to_char(
                                    self.buffer@,
                                    models[display_line_idx as int].logical_line_index,
                                    models[display_line_idx as int].logical_col_start + jj,
                                ),
                            ),
                        }),
                decreases m - col,
            {
                let x128: u128 = text_rect.x as u128 + col as u128;
                let x: u64 = if x128 <= u64::MAX as u128 {
                    x128 as u64
                } else {
                    u64::MAX
                };
                let char_pos = self.buffer.line_col_to_char(
                    dl.logical_line_index,
                    if dl.logical_col_start as u128 + col as u128 <= usize::MAX as u128 {
                        dl.logical_col_start + col
                    } else {
                        usize::MAX
                    },
                );
                let style = if ctx.focused && self.is_char_selected(char_pos) {
                    Style::new().fg(
                        match self.style.bg {
                            Some(c) => c,
                            None => Color::Black,
                        },
                    ).bg(
                        match self.style.fg {
                            Some(c) => c,
                            None => Color::White,
                        },
                    )
                } else {
                    self.style
                };
                proof {
                    assert(rect_covers(text_rect, x as int, y as int));
                    assert(x as int == text_rect.x + col);
                    crate::border::lemma_content_rect_within(
                        border_style,
                        ctx.rect,
                        x as int,
                        y as int,
                    );
                    if !(border_style is Bare) && ctx.rect.x + ctx.rect.w <= u32::MAX
                        && ctx.rect.y + ctx.rect.h <= u32::MAX {
                        assert(Buffer::spec_box_char(
                            ctx.rect,
                            border_style.spec_chars(),
                            x as int,
                            y as int,
                        ) is None);
                    }
                    assert(char_pos as int == spec_line_col_to_char(
                        self.buffer@,
                        models[display_line_idx as int].logical_line_index,
                        models[display_line_idx as int].logical_col_start + col,
                    ));
                    assert(style == text_cell_style(
                        self.style,
                        self.selection,
                        ctx.focused,
                        char_pos as int,
                    ));
                }
                buffer.poke(x, y, content[col], style);
                col = col + 1;
            }
            display_line_idx = display_line_idx + 1;
        }
        // Paint the cursor cell: reversed over text, a solid block past
        // the end of a line; a cursor that would fall on the border is
        // left unpainted.
        if ctx.focused {
            let (cursor_line, cursor_col) = self.buffer.char_to_line_col(self.cursor_position);
            proof {
                assert(cursor_line as int == cursor_coord(*self).0);
                assert(cursor_col as int == cursor_coord(*self).1);
            }
            let ghost cl = cursor_coord(*self).0;
            let ghost cc0 = cursor_coord(*self).1;
            let mut i: usize = 0;
            while i < n
                invariant
                    n == lines@.len(),
                    models == dl_models(lines@),
                    cursor_line as int == cl,
                    cursor_col as int == cc0,
                    buffer@.wf(),
                    buffer.width == old(buffer).width,
                    buffer.height == old(buffer).height,
                    cursor_cell(models, cl, cc0, 0) == cursor_cell(models, cl, cc0, i as int),
                    forall|cx: int, cy: int|
                        #![trigger buffer@.at(cx, cy)]
                        0 <= cx < old(buffer).width && 0 <= cy < old(buffer).height && !rect_covers(
                            ctx.rect,
                            cx,
                            cy,
                        ) ==> buffer@.at(cx, cy) == old(buffer)@.at(cx, cy),
                    border_painted(border_style, ctx.rect, old(buffer)@, buffer@),
                    forall|k: int, jj: int|
                        #![trigger models[k].content[jj]]
                        0 <= k < n && 0 <= jj < models[k].content.len() && text_rect.x + jj < old(
                            buffer,
                        ).width && text_rect.y + k < old(buffer).height ==> buffer@.at(
                            text_rect.x + jj,
                            text_rect.y + k,
                        ) == (Cell {
                            ch: models[k].content[jj],
                            style: text_cell_style(
                                self.style,
                                self.selection,
                                ctx.focused,
                                spec_line_col_to_char(
                                    self.buffer@,
                                    models[k].logical_line_index,
                                    models[k].logical_col_start + jj,
                                ),
                            ),
                        }),
                decreases n - i,
            {
                let dl = &lines[i];
                let clen = dl.content.unicode_len();
                proof {
                    assert(dl@.content.len() <= width);
                    assert(dl@ == models[i as int]);
                }
                if dl.logical_line_index == cursor_line && dl.logical_col_start <= cursor_col
                    && cursor_col as u128 <= dl.logical_col_start as u128 + clen as u128 {
                    let display_col = cursor_col - dl.logical_col_start;
                    proof {
                        assert(cursor_cell(models, cl, cc0, i as int) == Some(
                            (i as int, display_col as int),
                        ));
                    }
                    if display_col < width {
                        let cx128: u128 = text_rect.x as u128 + display_col as u128;
                        let cx: u64 = if cx128 <= u64::MAX as u128 {
                            cx128 as u64
                        } else {
                            u64::MAX
                        };
                        let cy128: u128 = text_rect.y as u128 + i as u128;
                        let cy: u64 = if cy128 <= u64::MAX as u128 {
                            cy128 as u64
                        } else {
                            u64::MAX
                        };
                        proof {
                            assert(rect_covers(text_rect, cx as int, cy as int));
                            assert(cx as int == text_rect.x + display_col);
                            assert(cy as int == text_rect.y + i);
                            crate::border::lemma_content_rect_within(
                                border_style,
                                ctx.rect,
                                cx as int,
                                cy as int,
                            );
                            if !(border_style is Bare) && ctx.rect.x + ctx.rect.w <= u32::MAX
                                && ctx.rect.y + ctx.rect.h <= u32::MAX {
                                assert(Buffer::spec_box_char(
                                    ctx.rect,
                                    border_style.spec_chars(),
                                    cx as int,
                                    cy as int,
                                ) is None);
                            }
                        }
                        if display_col < clen {
                            let chars = str_to_chars(dl.content.as_str());
                            let ch = chars[display_col];
                            let cursor_style = Style::new().fg(
                                match self.style.bg {
                                    Some(c) => c,
                                    None => Color::Black,
                                },
                            ).bg(
                                match self.style.fg {
                                    Some(c) => c,
                                    None => Color::White,
                                },
                            );
                            proof {
                                assert(cursor_style == reversed_style(self.style));
                                assert(ch == models[i as int].content[display_col as int]);
                            }
                            buffer.poke(cx, cy, ch, cursor_style);
                        } else {
                            buffer.poke(cx, cy, '\u{2588}', self.style);
                        }
                    }
                    return ;
                }
                i = i + 1;
            }
        }
    }

    /// Consume one event; the pane contract's entry point.
    fn handle_event(&mut self, ctx: &PaneContext, event: &Event) -> (r: EventResult) {
        self.apply_event(ctx, event)
    }
}

impl InputPane {
    /// Consume one event: printable keys edit the text, arrows and
    /// home/end move the cursor, the clipboard keys copy, cut and
    /// paste, a left press moves the cursor under the mouse, and
    /// losing focus clears the selection.  The answer is `Render`
    /// exactly for the events that may change what is shown: every
    /// recognized editing or movement key, a left press inside the
    /// pane, select-all, a paste that inserted text, a cut that
    /// removed text, and every focus change.
    pub fn apply_event(&mut self, ctx: &PaneContext, event: &Event) -> (r: EventResult)
        ensures
            InputPane::event_post(*old(self), *final(self), *ctx, *event, r),
    {
        proof {
            lemma_cursor_clamp(*self);
        }
        self.clamp_cursor();
        match event {
            Event::Mouse(mouse) => {
                let text_rect = self.border.content_rect(ctx.rect);
                let mouse_point = Point::new(mouse.x, mouse.y);
                if !text_rect.contains(mouse_point) {
                    return EventResult::Quiet;
                }
                let local_point = mouse_point.minus(Point::new(
                    if text_rect.x <= u16::MAX as u32 {
                        text_rect.x as u16
                    } else {
                        u16::MAX
                    },
                    if text_rect.y <= u16::MAX as u32 {
                        text_rect.y as u16
                    } else {
                        u16::MAX
                    },
                ));
                match mouse.kind {
                    MouseEventKind::Down(MouseButton::Left) => {
                        let width: usize = if text_rect.w as u64 <= usize::MAX as u64 {
                            text_rect.w as usize
                        } else {
                            usize::MAX
                        };
                        let height: usize = if text_rect.h as u64 <= usize::MAX as u64 {
                            text_rect.h as usize
                        } else {
                            usize::MAX
                        };
                        let viewport = ViewportState::new(width, height);
                        let mut view = TextBufferView::new(&self.buffer, viewport);
                        view.scroll_to_char(self.cursor_position);
                        match view.display_to_char(
                            local_point.y() as usize,
                            local_point.x() as usize,
                        ) {
                            Some(char_pos) => {
                                self.move_cursor_to(char_pos);
                            },
                            None => {},
                        }
                        EventResult::Render
                    },
                    _ => EventResult::Quiet,
                }
            },
            Event::Key(key) => {
                let shift_pressed = key.modifiers.shift;
                let ctrl_pressed = key.modifiers.ctrl;
                let alt_pressed = key.modifiers.alt;
                match key.code {
                    KeyCode::Char(ch) => {
                        if ctrl_pressed || alt_pressed {
                            if ch == 'c' {
                                let has_text = self.get_selected_text().unicode_len() > 0;
                                if has_text {
                                    let _ = self.copy_to_clipboard();
                                }
                                EventResult::Quiet
                            } else if ch == 'v' {
                                if self.paste_from_clipboard() {
                                    EventResult::Render
                                } else {
                                    EventResult::Quiet
                                }
                            } else if ch == 'a' {
                                self.select_all();
                                EventResult::Render
                            } else if ch == 'x' {
                                let has_text = self.get_selected_text().unicode_len() > 0;
                                if has_text && self.copy_to_clipboard() {
                                    self.delete_selection();
                                    EventResult::Render
                                } else {
                                    EventResult::Quiet
                                }
                            } else {
                                EventResult::Quiet
                            }
                        } else {
                            self.insert_char(ch);
                            EventResult::Render
                        }
                    },
                    KeyCode::Enter => {
                        self.insert_newline();
                        EventResult::Render
                    },
                    KeyCode::Left => {
                        self.move_cursor_horizontal(-1, shift_pressed);
                        EventResult::Render
                    },
                    KeyCode::Right => {
                        self.move_cursor_horizontal(1, shift_pressed);
                        EventResult::Render
                    },
                    KeyCode::Up => {
                        self.move_cursor_vertical(-1, shift_pressed);
                        EventResult::Render
                    },
                    KeyCode::Down => {
                        self.move_cursor_vertical(1, shift_pressed);
                        EventResult::Render
                    },
                    KeyCode::Home => {
                        let (line, _) = self.buffer.char_to_line_col(self.cursor_position);
                        self.move_cursor_to_line_col(line, 0);
                        EventResult::Render
                    },
                    KeyCode::End => {
                        let (line, _) = self.buffer.char_to_line_col(self.cursor_position);
                        let line_len = self.buffer.line_len(line);
                        self.move_cursor_to_line_col(line, line_len);
                        EventResult::Render
                    },
                    KeyCode::Backspace => {
                        if alt_pressed {
                            self.delete_word_backwards();
                        } else {
                            self.backspace();
                        }
                        EventResult::Render
                    },
                    KeyCode::Delete => {
                        self.delete();
                        EventResult::Render
                    },
                    _ => EventResult::Quiet,
                }
            },
            Event::Focus { focused } => {
                if !focused {
                    self.clear_selection();
                }
                EventResult::Render
            },
            _ => EventResult::Quiet,
        }
    }
}

impl InputPane {
    /// Clamp the cursor into the text; a no-op on a well-formed pane.
    fn clamp_cursor(&mut self)
        ensures
            final(self).wf(),
            old(self).wf() ==> *final(self) == *old(self),
            final(self).cursor_position == (if old(self).cursor_position <= old(
                self,
            ).buffer@.len() {
                old(self).cursor_position as int
            } else {
                old(self).buffer@.len() as int
            }),
            final(self).buffer == old(self).buffer,
            final(self).selection == old(self).selection,
            final(self).style == old(self).style,
            final(self).border == old(self).border,
            final(self).focused_border == old(self).focused_border,
            final(self).placeholder == old(self).placeholder,
    {
        let len = self.buffer.len_chars();
        if self.cursor_position > len {
            self.cursor_position = len;
        }
    }
}

/// A well-formed pane stays well-formed under clamping.
proof fn lemma_cursor_clamp(p: InputPane)
    ensures
        p.wf() ==> p.cursor_position <= p.buffer@.len(),
{
}

} // verus!
