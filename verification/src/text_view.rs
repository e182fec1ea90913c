//! The viewport view over a text buffer: a short-lived borrowing
//! projection that produces wrapped or sliced display lines and maps
//! display coordinates to buffer positions and back.

use vstd::prelude::*;
use crate::chars::{
    char_is_whitespace, chars_to_string, is_ascii_punct, is_whitespace_char, spec_is_ascii_punct,
    str_to_chars,
};
use crate::lines::{
    count_nl, line_body, line_count, line_end, line_start, spec_line_col_to_char,
    lemma_count_nl_nonneg, lemma_line_bounds, lemma_line_order, lemma_line_start_props,
    lemma_last_line, lemma_last_line_no_nl,
};
use crate::text_buffer::TextBuffer;

verus! {

/// The display window onto a buffer: scroll position and visible size.
/// Pure display state, never stored inside a buffer, so several
/// independent views can show one buffer.
#[derive(Debug, Clone)]
pub struct ViewportState {
    /// Top visible logical line.
    pub scroll_line: usize,
    /// Left visible column (for no-wrap mode).
    pub scroll_col: usize,
    /// Lines that can be displayed.
    pub visible_height: usize,
    /// Characters per line.
    pub visible_width: usize,
}

impl ViewportState {
    /// A viewport of the given size, scrolled to the origin.
    pub fn new(visible_width: usize, visible_height: usize) -> (r: ViewportState)
        ensures
            r.scroll_line == 0,
            r.scroll_col == 0,
            r.visible_width == visible_width,
            r.visible_height == visible_height,
    {
        ViewportState { scroll_line: 0, scroll_col: 0, visible_height, visible_width }
    }
}

/// Text wrapping mode for display.
#[derive(Debug, Clone, Copy, PartialEq, Eq, Structural)]
pub enum WrapMode {
    /// Soft wrap at viewport width.
    Wrap,
    /// Allow horizontal scrolling.
    NoWrap,
}

/// The mathematical value of a display line.
pub ghost struct DisplayLineModel {
    pub content: Seq<char>,
    pub logical_line_index: int,
    pub is_wrapped: bool,
    pub logical_col_start: int,
}

/// One rendered row of text, wrapped or sliced from a logical buffer
/// line; ephemeral, produced anew by each walk of the view.
#[derive(Debug, Clone)]
pub struct DisplayLine {
    /// The content of this display line.
    pub content: String,
    /// Index of the logical line this display line comes from.
    pub logical_line_index: usize,
    /// True if this is a wrapped continuation of a logical line.
    pub is_wrapped: bool,
    /// Column offset within the logical line where this display line
    /// starts.
    pub logical_col_start: usize,
}

impl View for DisplayLine {
    type V = DisplayLineModel;

    open spec fn view(&self) -> DisplayLineModel {
        DisplayLineModel {
            content: self.content@,
            logical_line_index: self.logical_line_index as int,
            is_wrapped: self.is_wrapped,
            logical_col_start: self.logical_col_start as int,
        }
    }
}

/// The models of a vector of display lines.
pub open spec fn dl_models(lines: Seq<DisplayLine>) -> Seq<DisplayLineModel> {
    lines.map_values(|d: DisplayLine| d@)
}

/// A sequence with its trailing white space removed.
pub open spec fn trim_end_ws(s: Seq<char>) -> Seq<char>
    decreases s.len(),
{
    if s.len() > 0 && is_whitespace_char(s.last()) {
        trim_end_ws(s.drop_last())
    } else {
        s
    }
}

/// The first index at or after `from` that does not hold white space,
/// or the length when the rest is all white space.
pub open spec fn skip_ws_from(s: Seq<char>, from: int) -> int
    decreases s.len() - from,
    when 0 <= from <= s.len()
{
    if from < s.len() && is_whitespace_char(s[from]) {
        skip_ws_from(s, from + 1)
    } else {
        from
    }
}

/// The largest index below `limit` that holds white space, or minus
/// one.
pub open spec fn last_ws_before(s: Seq<char>, limit: int) -> int
    decreases limit,
    when limit <= s.len()
{
    if limit <= 0 {
        -1
    } else if is_whitespace_char(s[limit - 1]) {
        limit - 1
    } else {
        last_ws_before(s, limit - 1)
    }
}

/// The largest index below `limit` that holds ASCII punctuation, or
/// minus one.
pub open spec fn last_punct_before(s: Seq<char>, limit: int) -> int
    decreases limit,
    when limit <= s.len()
{
    if limit <= 0 {
        -1
    } else if spec_is_ascii_punct(s[limit - 1]) {
        limit - 1
    } else {
        last_punct_before(s, limit - 1)
    }
}

/// How many characters of the remaining line one display line takes:
/// all of them when they fit; otherwise up to and including the last
/// white space within the width, falling back to the last punctuation,
/// and to a hard break at the width when neither exists.
pub open spec fn spec_take_len(rem: Seq<char>, width: int) -> int {
    if rem.len() <= width {
        rem.len() as int
    } else {
        let ws = last_ws_before(rem, width);
        if ws >= 0 {
            ws + 1
        } else {
            let pp = last_punct_before(rem, width);
            if pp >= 0 {
                pp + 1
            } else {
                width
            }
        }
    }
}

/// The display lines the view shows, walking from logical line `l` at
/// column offset `col` with `rows` rows left to fill: in no-wrap mode
/// one horizontally sliced display line per logical line; in wrap mode
/// each logical line is cut into width-bounded segments, trailing
/// white space trimmed, continuation segments flagged — empty lines
/// contribute nothing in wrap mode.
pub open spec fn spec_visible_from(
    s: Seq<char>,
    width: int,
    scroll_col: int,
    mode: WrapMode,
    l: int,
    col: int,
    rows: int,
) -> Seq<DisplayLineModel>
    decreases rows, line_count(s) - l,
    when 0 <= col && 0 <= width && 0 <= scroll_col
{
    if rows <= 0 || l >= line_count(s) {
        Seq::empty()
    } else {
        let body = line_body(s, l);
        match mode {
            WrapMode::NoWrap => {
                let start = if scroll_col <= body.len() {
                    scroll_col
                } else {
                    body.len() as int
                };
                let end = if scroll_col + width <= body.len() {
                    scroll_col + width
                } else {
                    body.len() as int
                };
                let dlm = DisplayLineModel {
                    content: body.subrange(start, end),
                    logical_line_index: l,
                    is_wrapped: false,
                    logical_col_start: scroll_col,
                };
                seq![dlm] + spec_visible_from(s, width, scroll_col, mode, l + 1, 0, rows - 1)
            },
            WrapMode::Wrap => {
                let rem = if col <= body.len() {
                    body.skip(col)
                } else {
                    Seq::empty()
                };
                if rem.len() == 0 {
                    spec_visible_from(s, width, scroll_col, mode, l + 1, 0, rows)
                } else {
                    let tl = spec_take_len(rem, width);
                    let dlm = DisplayLineModel {
                        content: trim_end_ws(rem.take(tl)),
                        logical_line_index: l,
                        is_wrapped: col > 0,
                        logical_col_start: col,
                    };
                    let col2 = skip_ws_from(body, col + tl);
                    if col2 >= body.len() {
                        seq![dlm] + spec_visible_from(s, width, scroll_col, mode, l + 1, 0, rows - 1)
                    } else {
                        seq![dlm] + spec_visible_from(s, width, scroll_col, mode, l, col2, rows - 1)
                    }
                }
            },
        }
    }
}

/// The characters of a slice of a vector.
#[verifier::loop_isolation(false)]
fn subvec(v: &Vec<char>, start: usize, end: usize) -> (r: Vec<char>)
    requires
        start <= end <= v@.len(),
    ensures
        r@ == v@.subrange(start as int, end as int),
{
    let mut r: Vec<char> = Vec::new();
    let mut i = start;
    while i < end
        invariant
            start <= i <= end <= v@.len(),
            r@ == v@.subrange(start as int, i as int),
        decreases end - i,
    {
        r.push(v[i]);
        proof {
            assert(r@ =~= v@.subrange(start as int, i as int + 1));
        }
        i = i + 1;
    }
    proof {
        assert(r@ =~= v@.subrange(start as int, end as int));
    }
    r
}

/// Trailing white space removed from a character vector.
#[verifier::loop_isolation(false)]
fn trim_end_chars(v: Vec<char>) -> (r: Vec<char>)
    ensures
        r@ == trim_end_ws(v@),
{
    let ghost v0 = v@;
    let mut w = v;
    loop
        invariant
            trim_end_ws(w@) == trim_end_ws(v0),
        decreases w@.len(),
    {
        let n = w.len();
        if n == 0 {
            return w;
        }
        if char_is_whitespace(w[n - 1]) {
            let ghost before = w@;
            w.pop();
            proof {
                assert(w@ =~= before.drop_last());
            }
        } else {
            return w;
        }
    }
}

/// The largest index below `limit` holding white space, if any.
#[verifier::loop_isolation(false)]
fn last_ws_exec(v: &Vec<char>, off: usize, limit: usize) -> (r: Option<usize>)
    requires
        off + limit <= v@.len(),
    ensures
        ({
            let w = last_ws_before(v@.skip(off as int), limit as int);
            match r {
                Some(i) => i as int == w,
                None => w == -1,
            }
        }),
{
    let ghost rem = v@.skip(off as int);
    let n = v.len();
    let mut k = limit;
    while k > 0
        invariant
            off + limit <= n,
            n == v@.len(),
            rem == v@.skip(off as int),
            k <= limit,
            last_ws_before(rem, limit as int) == last_ws_before(rem, k as int),
        decreases k,
    {
        if char_is_whitespace(v[off + k - 1]) {
            proof {
                assert(rem[k as int - 1] == v@[off as int + k as int - 1]);
            }
            return Some(k - 1);
        }
        proof {
            assert(rem[k as int - 1] == v@[off as int + k as int - 1]);
        }
        k = k - 1;
    }
    None
}

/// The largest index below `limit` holding ASCII punctuation, if any.
#[verifier::loop_isolation(false)]
fn last_punct_exec(v: &Vec<char>, off: usize, limit: usize) -> (r: Option<usize>)
    requires
        off + limit <= v@.len(),
    ensures
        ({
            let w = last_punct_before(v@.skip(off as int), limit as int);
            match r {
                Some(i) => i as int == w,
                None => w == -1,
            }
        }),
{
    let ghost rem = v@.skip(off as int);
    let n = v.len();
    let mut k = limit;
    while k > 0
        invariant
            off + limit <= n,
            n == v@.len(),
            rem == v@.skip(off as int),
            k <= limit,
            last_punct_before(rem, limit as int) == last_punct_before(rem, k as int),
        decreases k,
    {
        if is_ascii_punct(v[off + k - 1]) {
            proof {
                assert(rem[k as int - 1] == v@[off as int + k as int - 1]);
            }
            return Some(k - 1);
        }
        proof {
            assert(rem[k as int - 1] == v@[off as int + k as int - 1]);
        }
        k = k - 1;
    }
    None
}

/// How many characters of the line body from `col` on the next display
/// line takes.
#[verifier::loop_isolation(false)]
fn take_len_exec(body: &Vec<char>, col: usize, width: usize) -> (r: usize)
    requires
        col < body@.len(),
    ensures
        r as int == spec_take_len(body@.skip(col as int), width as int),
        1 <= col + r <= body@.len() || (width == 0 && r == 0),
        r <= body@.len() - col,
{
    let ghost rem = body@.skip(col as int);
    let rem_len = body.len() - col;
    if rem_len <= width {
        rem_len
    } else {
        proof {
            lemma_last_break_bound(rem, width as int);
        }
        match last_ws_exec(body, col, width) {
            Some(i) => i + 1,
            None => {
                match last_punct_exec(body, col, width) {
                    Some(i) => i + 1,
                    None => width,
                }
            },
        }
    }
}

/// A found break index lies below the scan limit.
proof fn lemma_last_break_bound(s: Seq<char>, limit: int)
    requires
        0 <= limit <= s.len(),
    ensures
        -1 <= last_ws_before(s, limit) < limit,
        -1 <= last_punct_before(s, limit) < limit,
    decreases limit,
{
    if limit > 0 {
        lemma_last_break_bound(s, limit - 1);
    }
}

/// The first non-white-space index at or after `from`.
#[verifier::loop_isolation(false)]
fn skip_ws_exec(body: &Vec<char>, from: usize) -> (r: usize)
    requires
        from <= body@.len(),
    ensures
        r as int == skip_ws_from(body@, from as int),
        from <= r <= body@.len(),
{
    let mut i = from;
    while i < body.len() && char_is_whitespace(body[i])
        invariant
            from <= i <= body@.len(),
            skip_ws_from(body@, from as int) == skip_ws_from(body@, i as int),
        decreases body@.len() - i,
    {
        i = i + 1;
    }
    i
}

/// View into a TextBuffer for display purposes: it borrows the buffer,
/// never outlives it, and holds no state beyond the viewport and the
/// wrap mode.
pub struct TextBufferView<'a> {
    pub buffer: &'a TextBuffer,
    pub viewport: ViewportState,
    pub wrap_mode: WrapMode,
}

impl<'a> TextBufferView<'a> {
    /// A view over a buffer, wrapping at the viewport width.
    pub fn new(buffer: &'a TextBuffer, viewport: ViewportState) -> (r: Self)
        ensures
            r.buffer == buffer,
            r.viewport == viewport,
            r.wrap_mode == WrapMode::Wrap,
    {
        TextBufferView { buffer, viewport, wrap_mode: WrapMode::Wrap }
    }

    /// A view over a buffer with the given wrap mode.
    pub fn with_wrap_mode(buffer: &'a TextBuffer, viewport: ViewportState, wrap_mode: WrapMode) -> (r:
        Self)
        ensures
            r.buffer == buffer,
            r.viewport == viewport,
            r.wrap_mode == wrap_mode,
    {
        TextBufferView { buffer, viewport, wrap_mode }
    }

    /// The current viewport state.
    pub fn viewport(&self) -> (r: &ViewportState)
        ensures
            r == &self.viewport,
    {
        &self.viewport
    }

    /// Replace the viewport state.
    pub fn set_viewport(&mut self, viewport: ViewportState)
        ensures
            final(self).viewport == viewport,
            final(self).buffer == old(self).buffer,
            final(self).wrap_mode == old(self).wrap_mode,
    {
        self.viewport = viewport;
    }

    /// The current wrap mode.
    pub fn wrap_mode(&self) -> (r: WrapMode)
        ensures
            r == self.wrap_mode,
    {
        self.wrap_mode
    }

    /// Replace the wrap mode.
    pub fn set_wrap_mode(&mut self, wrap_mode: WrapMode)
        ensures
            final(self).wrap_mode == wrap_mode,
            final(self).buffer == old(self).buffer,
            final(self).viewport == old(self).viewport,
    {
        self.wrap_mode = wrap_mode;
    }

    /// The display lines the viewport shows, from the scroll position:
    /// exactly the walk that `spec_visible_from` describes, and no
    /// display line is ever longer than the viewport width.
    #[verifier::loop_isolation(false)]
    pub fn visible_lines(&self) -> (out: Vec<DisplayLine>)
        ensures
            dl_models(out@) == spec_visible_from(
                self.buffer@,
                self.viewport.visible_width as int,
                self.viewport.scroll_col as int,
                self.wrap_mode,
                self.viewport.scroll_line as int,
                0,
                self.viewport.visible_height as int,
            ),
            out@.len() <= self.viewport.visible_height,
            forall|i: int|
                0 <= i < out@.len() ==> (#[trigger] out@[i])@.content.len()
                    <= self.viewport.visible_width,
            forall|i: int|
                0 <= i < out@.len() ==> 0 <= (#[trigger] out@[i])@.logical_line_index < line_count(
                    self.buffer@,
                ),
            forall|i: int|
                0 <= i < out@.len() ==> (#[trigger] out@[i])@.content.len() > 0
                    ==> out@[i]@.logical_col_start + out@[i]@.content.len() <= self.buffer@.len(),
    {
        let s = self.buffer;
        let ghost text = s@;
        let width = self.viewport.visible_width;
        let scroll_col = self.viewport.scroll_col;
        let mode = self.wrap_mode;
        let ghost target = spec_visible_from(
            text,
            width as int,
            scroll_col as int,
            mode,
            self.viewport.scroll_line as int,
            0,
            self.viewport.visible_height as int,
        );
        let mut out: Vec<DisplayLine> = Vec::new();
        let mut l: usize = self.viewport.scroll_line;
        let mut col: usize = 0;
        let mut rows_left: usize = self.viewport.visible_height;
        let line_total = s.line_count();
        proof {
            lemma_count_nl_nonneg(text);
        }
        while rows_left > 0 && l < line_total
            invariant
                text == s@,
                line_total == line_count(text),
                out@.len() + rows_left == self.viewport.visible_height,
                target == dl_models(out@) + spec_visible_from(
                    text,
                    width as int,
                    scroll_col as int,
                    mode,
                    l as int,
                    col as int,
                    rows_left as int,
                ),
                l < line_total ==> col <= line_body(text, l as int).len(),
                mode is NoWrap ==> col == 0,
                forall|i: int|
                    0 <= i < out@.len() ==> (#[trigger] out@[i])@.content.len() <= width,
                forall|i: int|
                    0 <= i < out@.len() ==> 0 <= (#[trigger] out@[i])@.logical_line_index
                        < line_count(text),
                forall|i: int|
                    0 <= i < out@.len() ==> (#[trigger] out@[i])@.content.len() > 0
                        ==> out@[i]@.logical_col_start + out@[i]@.content.len() <= text.len(),
            decreases rows_left, line_total - l,
        {
            proof {
                lemma_line_bounds(text, l as int);
            }
            let body = self.line_body_chars(l);
            let blen = body.len();
            match mode {
                WrapMode::NoWrap => {
                    let start = if scroll_col < blen {
                        scroll_col
                    } else {
                        blen
                    };
                    let end = start + (if width <= blen - start {
                        width
                    } else {
                        blen - start
                    });
                    let content_chars = subvec(&body, start, end);
                    let content = chars_to_string(&content_chars);
                    let dl = DisplayLine {
                        content,
                        logical_line_index: l,
                        is_wrapped: false,
                        logical_col_start: scroll_col,
                    };
                    proof {
                        lemma_dl_models_push(out@, dl);
                        assert(dl@.content =~= body@.subrange(
                            if scroll_col as int <= body@.len() {
                                scroll_col as int
                            } else {
                                body@.len() as int
                            },
                            if scroll_col + width <= body@.len() {
                                scroll_col + width
                            } else {
                                body@.len() as int
                            },
                        ));
                    }
                    out.push(dl);
                    l = l + 1;
                    rows_left = rows_left - 1;
                },
                WrapMode::Wrap => {
                    if col >= blen {
                        proof {
                            assert(line_body(text, l as int).skip(col as int) =~= Seq::<
                                char,
                            >::empty());
                        }
                        l = l + 1;
                        col = 0;
                    } else {
                        let ghost rem = body@.skip(col as int);
                        let tl = take_len_exec(&body, col, width);
                        let seg = subvec(&body, col, col + tl);
                        proof {
                            assert(seg@ =~= rem.take(tl as int));
                        }
                        let trimmed = trim_end_chars(seg);
                        let content = chars_to_string(&trimmed);
                        let dl = DisplayLine {
                            content,
                            logical_line_index: l,
                            is_wrapped: col > 0,
                            logical_col_start: col,
                        };
                        proof {
                            lemma_trim_end_len(rem.take(tl as int));
                            lemma_take_len_bound(rem, width as int);
                            lemma_dl_models_push(out@, dl);
                            lemma_line_body_within(text, l as int);
                        }
                        out.push(dl);
                        let after = col + tl;
                        let col2 = skip_ws_exec(&body, after);
                        rows_left = rows_left - 1;
                        if col2 >= blen {
                            l = l + 1;
                            col = 0;
                        } else {
                            col = col2;
                        }
                    }
                },
            }
        }
        out
    }

    /// The characters of one line's body: the line without its closing
    /// line feed.
    fn line_body_chars(&self, l: usize) -> (r: Vec<char>)
        requires
            (l as int) < line_count(self.buffer@),
        ensures
            r@ == line_body(self.buffer@, l as int),
    {
        let ghost text = self.buffer@;
        proof {
            lemma_count_nl_nonneg(text);
            lemma_line_bounds(text, l as int);
            lemma_line_start_props(text, l as int);
            if (l as int) < count_nl(text) {
                lemma_line_order(text, l as int);
                lemma_line_start_props(text, l as int + 1);
            } else {
                lemma_last_line(text);
                lemma_last_line_no_nl(text);
                crate::lines::lemma_one_past_last_line(text);
            }
        }
        let raw = match self.buffer.line(l) {
            Some(t) => t,
            None => String::new(),
        };
        let ghost st = line_start(text, l as int);
        let ghost en = line_end(text, l as int);
        let mut chars = str_to_chars(&raw);
        if chars.len() > 0 && chars[chars.len() - 1] == '\n' {
            proof {
                // The raw line ends with a line feed only when it is not
                // the last line; dropping that line feed leaves the body.
                if (l as int) >= count_nl(text) {
                    assert(chars@.last() == text[line_start(text, l as int + 1) - 1]);
                    assert(false);
                }
            }
            let ghost before = chars@;
            chars.pop();
            proof {
                assert(chars@ =~= before.drop_last());
                assert(chars@ =~= line_body(text, l as int));
            }
        } else {
            proof {
                // Without a closing line feed this is the last line, and
                // the raw line already is the body.
                if (l as int) < count_nl(text) {
                    assert(chars@.len() == line_start(text, l as int + 1) - st);
                    assert(chars@.last() == text[line_start(text, l as int + 1) - 1]);
                    assert(chars@.last() == '\n');
                    assert(false);
                }
                assert(chars@ =~= line_body(text, l as int));
            }
        }
        chars
    }
}


/// The display line and column showing a given (line, column) buffer
/// coordinate: the first display line of that logical line whose span
/// covers the column.
pub open spec fn find_display(lines: Seq<DisplayLineModel>, l: int, c: int, i: int) -> Option<
    (int, int),
>
    decreases lines.len() - i,
    when 0 <= i
{
    if i >= lines.len() {
        None
    } else if lines[i].logical_line_index == l && lines[i].logical_col_start <= c
        < lines[i].logical_col_start + lines[i].content.len() {
        Some((i, c - lines[i].logical_col_start))
    } else {
        find_display(lines, l, c, i + 1)
    }
}

impl<'a> TextBufferView<'a> {
    /// The display lines the view currently shows, as mathematical
    /// values.
    pub open spec fn spec_lines(self) -> Seq<DisplayLineModel> {
        spec_visible_from(
            self.buffer@,
            self.viewport.visible_width as int,
            self.viewport.scroll_col as int,
            self.wrap_mode,
            self.viewport.scroll_line as int,
            0,
            self.viewport.visible_height as int,
        )
    }

    /// The buffer position of a display coordinate: the display column
    /// is clamped to that display line's content, and coordinates past
    /// the visible lines give `None`.
    pub fn display_to_char(&self, display_line: usize, display_col: usize) -> (r: Option<usize>)
        ensures
            ({
                let lines = self.spec_lines();
                if (display_line as int) < lines.len() {
                    let dl = lines[display_line as int];
                    let cil = if display_col <= dl.content.len() {
                        display_col as int
                    } else {
                        dl.content.len() as int
                    };
                    r is Some && r.unwrap() as int == spec_line_col_to_char(
                        self.buffer@,
                        dl.logical_line_index,
                        dl.logical_col_start + cil,
                    )
                } else {
                    r is None
                }
            }),
    {
        let total = self.buffer.len_chars();
        let lines = self.visible_lines();
        if display_line < lines.len() {
            let dl = &lines[display_line];
            let clen = dl.content.unicode_len();
            let cil = if display_col <= clen {
                display_col
            } else {
                clen
            };
            proof {
                assert(dl@ == self.spec_lines()[display_line as int]);
                if clen > 0 {
                    assert(dl@.logical_col_start + dl@.content.len() <= total);
                }
            }
            Some(self.buffer.line_col_to_char(dl.logical_line_index, dl.logical_col_start + cil))
        } else {
            None
        }
    }

    /// The display coordinate showing a buffer position: the position's
    /// (line, column) coordinate located among the visible display
    /// lines, or `None` when it is not on screen.
    #[verifier::loop_isolation(false)]
    pub fn char_to_display(&self, char_pos: usize) -> (r: Option<(usize, usize)>)
        ensures
            ({
                let clamped = if char_pos <= self.buffer@.len() {
                    char_pos as int
                } else {
                    self.buffer@.len() as int
                };
                let l = count_nl(self.buffer@.take(clamped));
                let c = clamped - line_start(self.buffer@, l);
                match find_display(self.spec_lines(), l, c, 0) {
                    Some(p) => r is Some && r.unwrap().0 as int == p.0 && r.unwrap().1 as int
                        == p.1,
                    None => r is None,
                }
            }),
    {
        let (logical_line, logical_col) = self.buffer.char_to_line_col(char_pos);
        let lines = self.visible_lines();
        let ghost models = dl_models(lines@);
        let n = lines.len();
        let mut i: usize = 0;
        while i < n
            invariant
                n == lines@.len(),
                models == dl_models(lines@),
                i <= n,
                find_display(models, logical_line as int, logical_col as int, 0) == find_display(
                    models,
                    logical_line as int,
                    logical_col as int,
                    i as int,
                ),
            decreases n - i,
        {
            let dl = &lines[i];
            let clen = dl.content.unicode_len();
            if dl.logical_line_index == logical_line && dl.logical_col_start <= logical_col
                && logical_col - dl.logical_col_start < clen {
                proof {
                    assert(models[i as int] == lines@[i as int]@);
                    assert(find_display(models, logical_line as int, logical_col as int, i as int)
                        == Some((i as int, logical_col - dl@.logical_col_start)));
                }
                return Some((i, logical_col - dl.logical_col_start));
            }
            proof {
                assert(models[i as int] == lines@[i as int]@);
            }
            i = i + 1;
        }
        None
    }

    /// Scroll the viewport the least amount that brings the line of a
    /// buffer position into view: up to that line when it lies above,
    /// down until it is the last visible line when it lies below, and
    /// not at all otherwise.
    pub fn scroll_to_char(&mut self, char_pos: usize)
        ensures
            final(self).buffer == old(self).buffer,
            final(self).wrap_mode == old(self).wrap_mode,
            final(self).viewport.scroll_col == old(self).viewport.scroll_col,
            final(self).viewport.visible_width == old(self).viewport.visible_width,
            final(self).viewport.visible_height == old(self).viewport.visible_height,
            ({
                let text = old(self).buffer@;
                let clamped = if char_pos <= text.len() {
                    char_pos as int
                } else {
                    text.len() as int
                };
                let line = count_nl(text.take(clamped));
                let top = old(self).viewport.scroll_line as int;
                let h = old(self).viewport.visible_height as int;
                final(self).viewport.scroll_line as int == if line < top {
                    line
                } else if line >= top + h {
                    let back = if h >= 1 {
                        h - 1
                    } else {
                        0
                    };
                    if line >= back {
                        line - back
                    } else {
                        0
                    }
                } else {
                    top
                }
            }),
    {
        let (line, _col) = self.buffer.char_to_line_col(char_pos);
        if line < self.viewport.scroll_line {
            self.viewport.scroll_line = line;
        } else if line as u128 >= self.viewport.scroll_line as u128
            + self.viewport.visible_height as u128 {
            self.viewport.scroll_line = line.saturating_sub(
                self.viewport.visible_height.saturating_sub(1),
            );
        }
    }
}

/// Pushing a display line extends the model sequence by its model.
proof fn lemma_dl_models_push(lines: Seq<DisplayLine>, dl: DisplayLine)
    ensures
        dl_models(lines.push(dl)) =~= dl_models(lines).push(dl@),
{
}

/// Trimming never lengthens a sequence.
proof fn lemma_trim_end_len(s: Seq<char>)
    ensures
        trim_end_ws(s).len() <= s.len(),
    decreases s.len(),
{
    if s.len() > 0 && is_whitespace_char(s.last()) {
        lemma_trim_end_len(s.drop_last());
    }
}

/// The take length never exceeds the width when a cut is needed, nor
/// the remaining length.
proof fn lemma_take_len_bound(rem: Seq<char>, width: int)
    requires
        0 <= width,
        rem.len() > 0,
    ensures
        0 <= spec_take_len(rem, width) <= rem.len(),
        spec_take_len(rem, width) <= width || rem.len() <= width,
{
    if rem.len() > width {
        lemma_last_break_bound(rem, width);
    }
}

/// A line body lies within the text.
proof fn lemma_line_body_within(s: Seq<char>, l: int)
    requires
        0 <= l < line_count(s),
    ensures
        line_body(s, l).len() <= s.len(),
        line_start(s, l) + line_body(s, l).len() <= s.len(),
{
    lemma_count_nl_nonneg(s);
    lemma_line_bounds(s, l);
}

} // verus!
