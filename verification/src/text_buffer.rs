//! The text buffer: character storage backed by a rope with
//! logarithmic insert and delete, and line/character coordinate
//! conversions, all stated over the character sequence it holds.

use vstd::prelude::*;
use crate::lines::{
    count_nl, line_count, line_end, line_start, lemma_insert_delete_roundtrip,
    lemma_count_nl_monotone,
    lemma_count_nl_nonneg, lemma_count_nl_take_all, lemma_line_bounds, lemma_line_start_props,
    lemma_position_on_line,
};

verus! {

/// The rope type of the `ropey` crate, declared so that it can stand in
/// fields and signatures; values of it are read only through the
/// trusted wrappers below.
#[verifier::external_type_specification]
#[verifier::external_body]
pub struct ExRope(ropey::Rope);

/// The characters a rope holds, in order.
pub uninterp spec fn rope_text(r: ropey::Rope) -> Seq<char>;

/// Relies on ropey::Rope::new: the fresh rope is empty.
#[verifier::external_body]
fn rope_new() -> (r: ropey::Rope)
    ensures
        rope_text(r) == Seq::<char>::empty(),
{
    ropey::Rope::new()
}

/// Relies on ropey::Rope::from_str: the rope holds the characters of
/// the string.
#[verifier::external_body]
fn rope_from_str(text: &str) -> (r: ropey::Rope)
    ensures
        rope_text(r) == text@,
{
    ropey::Rope::from_str(text)
}

/// Relies on ropey::Rope::clone: the clone holds the same characters.
#[verifier::external_body]
fn rope_clone(r: &ropey::Rope) -> (r2: ropey::Rope)
    ensures
        rope_text(r2) == rope_text(*r),
{
    r.clone()
}

/// Relies on ropey::Rope::len_chars: the number of characters held.
#[verifier::external_body]
fn rope_len_chars(r: &ropey::Rope) -> (n: usize)
    ensures
        n == rope_text(*r).len(),
{
    r.len_chars()
}

/// Relies on ropey::Rope::insert: the text goes in at the character
/// index, which must not pass the end.
#[verifier::external_body]
fn rope_insert(r: &mut ropey::Rope, pos: usize, text: &str)
    requires
        pos <= rope_text(*old(r)).len(),
    ensures
        rope_text(*final(r)) == rope_text(*old(r)).take(pos as int) + text@ + rope_text(
            *old(r),
        ).skip(pos as int),
{
    r.insert(pos, text)
}

/// Relies on ropey::Rope::remove: the character range leaves the rope;
/// its bounds must be ordered and within the text.
#[verifier::external_body]
fn rope_remove(r: &mut ropey::Rope, start: usize, end: usize)
    requires
        start <= end <= rope_text(*old(r)).len(),
    ensures
        rope_text(*final(r)) == rope_text(*old(r)).take(start as int) + rope_text(*old(r)).skip(
            end as int,
        ),
{
    r.remove(start..end)
}

/// Relies on ropey::Rope::char: the character at an in-bounds index.
#[verifier::external_body]
fn rope_char(r: &ropey::Rope, i: usize) -> (c: char)
    requires
        i < rope_text(*r).len(),
    ensures
        c == rope_text(*r)[i as int],
{
    r.char(i)
}

/// Relies on the String conversion of ropey::Rope: the whole text.
#[verifier::external_body]
fn rope_to_string(r: &ropey::Rope) -> (s: String)
    ensures
        s@ == rope_text(*r),
{
    String::from(r)
}

/// Relies on ropey::Rope::slice: the characters of an ordered,
/// in-bounds character range.
#[verifier::external_body]
fn rope_substring(r: &ropey::Rope, start: usize, end: usize) -> (s: String)
    requires
        start <= end <= rope_text(*r).len(),
    ensures
        s@ == rope_text(*r).subrange(start as int, end as int),
{
    String::from(r.slice(start..end))
}

/// Relies on ropey::Rope::len_lines with line feeds as the only
/// recognized line break: one more line than there are line feeds.
#[verifier::external_body]
fn rope_len_lines(r: &ropey::Rope) -> (n: usize)
    ensures
        n == count_nl(rope_text(*r)) + 1,
{
    r.len_lines()
}

/// Relies on ropey::Rope::char_to_line: the number of line feeds
/// before the index, which must not pass the end.
#[verifier::external_body]
fn rope_char_to_line(r: &ropey::Rope, i: usize) -> (l: usize)
    requires
        i <= rope_text(*r).len(),
    ensures
        l == count_nl(rope_text(*r).take(i as int)),
{
    r.char_to_line(i)
}

/// Relies on ropey::Rope::line_to_char: the character index where the
/// line starts; the index one past the last line gives the text
/// length.
#[verifier::external_body]
fn rope_line_to_char(r: &ropey::Rope, l: usize) -> (c: usize)
    requires
        l <= count_nl(rope_text(*r)) + 1,
    ensures
        c == line_start(rope_text(*r), l as int),
{
    r.line_to_char(l)
}

/// Relies on ropey::Rope::line: the characters of an in-bounds line,
/// its closing line feed included.
#[verifier::external_body]
fn rope_line_string(r: &ropey::Rope, l: usize) -> (s: String)
    requires
        l <= count_nl(rope_text(*r)),
    ensures
        s@ == rope_text(*r).subrange(
            line_start(rope_text(*r), l as int),
            line_start(rope_text(*r), l as int + 1),
        ),
{
    String::from(r.line(l))
}

/// The character storage of one pane: a mutable character sequence
/// with efficient edits by character index and line bookkeeping.  Its
/// view is the character sequence it holds.
#[derive(Debug)]
pub struct TextBuffer {
    rope: ropey::Rope,
}

impl View for TextBuffer {
    type V = Seq<char>;

    closed spec fn view(&self) -> Seq<char> {
        rope_text(self.rope)
    }
}

impl Clone for TextBuffer {
    /// The clone holds the same characters.
    fn clone(&self) -> (r: Self)
        ensures
            r@ == self@,
    {
        TextBuffer { rope: rope_clone(&self.rope) }
    }
}

impl Default for TextBuffer {
    /// The empty buffer.
    fn default() -> (r: Self)
        ensures
            r@ == Seq::<char>::empty(),
    {
        TextBuffer { rope: rope_new() }
    }
}

impl TextBuffer {
    /// A new empty text buffer.
    pub fn new() -> (r: Self)
        ensures
            r@ == Seq::<char>::empty(),
    {
        TextBuffer { rope: rope_new() }
    }

    /// A buffer holding the characters of a string.
    pub fn from_str(text: &str) -> (r: Self)
        ensures
            r@ == text@,
    {
        TextBuffer { rope: rope_from_str(text) }
    }

    /// The number of characters held.
    pub fn len_chars(&self) -> (n: usize)
        ensures
            n == self@.len(),
    {
        rope_len_chars(&self.rope)
    }

    /// Whether the buffer holds no characters.
    pub fn is_empty(&self) -> (r: bool)
        ensures
            r == (self@.len() == 0),
    {
        self.len_chars() == 0
    }

    /// Insert text at a character position; a position past the end is
    /// clamped to it, so the text is appended.
    pub fn insert(&mut self, pos: usize, text: &str)
        ensures
            final(self)@ == ({
                let p = if pos <= old(self)@.len() {
                    pos as int
                } else {
                    old(self)@.len() as int
                };
                old(self)@.take(p) + text@ + old(self)@.skip(p)
            }),
    {
        let len = self.len_chars();
        let p = if pos <= len {
            pos
        } else {
            len
        };
        rope_insert(&mut self.rope, p, text);
    }

    /// Delete a character range; bounds are clamped to the text, and an
    /// empty or inverted range deletes nothing.
    pub fn delete(&mut self, range: core::ops::Range<usize>)
        ensures
            final(self)@ == ({
                let end = if range.end <= old(self)@.len() {
                    range.end as int
                } else {
                    old(self)@.len() as int
                };
                let start = if range.start as int <= end {
                    range.start as int
                } else {
                    end
                };
                old(self)@.take(start) + old(self)@.skip(end)
            }),
    {
        let len = self.len_chars();
        let end = if range.end <= len {
            range.end
        } else {
            len
        };
        let start = if range.start <= end {
            range.start
        } else {
            end
        };
        if start < end {
            rope_remove(&mut self.rope, start, end);
        } else {
            proof {
                assert(self@.take(start as int) + self@.skip(end as int) =~= self@);
            }
        }
    }

    /// Replace a character range with new text: the range is deleted
    /// with clamped bounds, then the text goes in at the range start,
    /// clamped to the remaining text.
    pub fn replace(&mut self, range: core::ops::Range<usize>, text: &str)
        ensures
            final(self)@ == ({
                let end = if range.end <= old(self)@.len() {
                    range.end as int
                } else {
                    old(self)@.len() as int
                };
                let start = if range.start as int <= end {
                    range.start as int
                } else {
                    end
                };
                let deleted = old(self)@.take(start) + old(self)@.skip(end);
                let p = if range.start <= deleted.len() {
                    range.start as int
                } else {
                    deleted.len() as int
                };
                deleted.take(p) + text@ + deleted.skip(p)
            }),
    {
        let start = range.start;
        self.delete(range);
        self.insert(start, text);
    }

    /// The characters of a range, clamped like `delete`.
    pub fn slice(&self, range: core::ops::Range<usize>) -> (s: String)
        ensures
            s@ == ({
                let end = if range.end <= self@.len() {
                    range.end as int
                } else {
                    self@.len() as int
                };
                let start = if range.start as int <= end {
                    range.start as int
                } else {
                    end
                };
                self@.subrange(start, end)
            }),
    {
        let len = self.len_chars();
        let end = if range.end <= len {
            range.end
        } else {
            len
        };
        let start = if range.start <= end {
            range.start
        } else {
            end
        };
        rope_substring(&self.rope, start, end)
    }

    /// The characters of a range as a string, clamped like `delete`.
    pub fn substr(&self, range: core::ops::Range<usize>) -> (s: String)
        ensures
            s@ == ({
                let end = if range.end <= self@.len() {
                    range.end as int
                } else {
                    self@.len() as int
                };
                let start = if range.start as int <= end {
                    range.start as int
                } else {
                    end
                };
                self@.subrange(start, end)
            }),
    {
        self.slice(range)
    }

    /// The whole text as a string.
    pub fn to_string(&self) -> (s: String)
        ensures
            s@ == self@,
    {
        rope_to_string(&self.rope)
    }

    /// The character at a position, or `None` past the end.
    pub fn char_at(&self, pos: usize) -> (r: Option<char>)
        ensures
            pos < self@.len() ==> r == Some(self@[pos as int]),
            pos >= self@.len() ==> r is None,
    {
        if pos < self.len_chars() {
            Some(rope_char(&self.rope, pos))
        } else {
            None
        }
    }

    /// The number of lines: one more than the line feeds held.
    pub fn line_count(&self) -> (n: usize)
        ensures
            n == line_count(self@),
    {
        if self.len_chars() == 0 {
            proof {
                assert(self@ =~= Seq::<char>::empty());
            }
            1
        } else {
            rope_len_lines(&self.rope)
        }
    }

    /// The content of a line, its closing line feed included, or `None`
    /// past the last line.
    pub fn line(&self, line_idx: usize) -> (r: Option<String>)
        ensures
            line_idx < line_count(self@) ==> r is Some && r.unwrap()@ == self@.subrange(
                line_start(self@, line_idx as int),
                line_start(self@, line_idx as int + 1),
            ),
            line_idx >= line_count(self@) ==> r is None,
    {
        proof {
            lemma_count_nl_nonneg(self@);
        }
        if line_idx < self.line_count() {
            Some(rope_line_string(&self.rope, line_idx))
        } else {
            None
        }
    }

    /// The character index where a line starts; lines past the end give
    /// the text length.
    pub fn line_to_char(&self, line: usize) -> (c: usize)
        ensures
            c == if line < line_count(self@) {
                line_start(self@, line as int)
            } else {
                self@.len() as int
            },
    {
        proof {
            lemma_count_nl_nonneg(self@);
        }
        if line == 0 {
            0
        } else if line >= self.line_count() {
            self.len_chars()
        } else {
            proof {
                lemma_line_start_props(self@, line as int);
            }
            rope_line_to_char(&self.rope, line)
        }
    }

    /// The line holding a character position: the count of line feeds
    /// before it, the position clamped to the text.
    pub fn char_to_line(&self, char_idx: usize) -> (l: usize)
        ensures
            l == count_nl(self@.take(if char_idx <= self@.len() {
                char_idx as int
            } else {
                self@.len() as int
            })),
    {
        let len = self.len_chars();
        let clamped = if char_idx <= len {
            char_idx
        } else {
            len
        };
        proof {
            lemma_count_nl_monotone(self@, clamped as int, self@.len() as int);
            lemma_count_nl_take_all(self@);
            lemma_count_nl_nonneg(self@.take(clamped as int));
        }
        rope_char_to_line(&self.rope, clamped)
    }

    /// The character index just past a line's body, its line feed
    /// excluded; lines past the end give the text length.
    pub fn line_end_char(&self, line: usize) -> (c: usize)
        ensures
            c == if line < line_count(self@) {
                line_end(self@, line as int)
            } else {
                self@.len() as int
            },
    {
        proof {
            lemma_count_nl_nonneg(self@);
        }
        if line >= self.line_count() {
            return self.len_chars();
        }
        proof {
            lemma_line_bounds(self@, line as int);
            if (line as int) < count_nl(self@) {
                crate::lines::lemma_line_order(self@, line as int);
                lemma_line_start_props(self@, line as int + 1);
            }
        }
        let line_start_c = rope_line_to_char(&self.rope, line);
        let next_start = rope_line_to_char(&self.rope, line + 1);
        if line + 1 < self.line_count() {
            next_start - 1
        } else {
            proof {
                crate::lines::lemma_last_line(self@);
            }
            self.len_chars()
        }
    }

    /// The length of a line's body, its line feed excluded; lines past
    /// the end have length zero.
    pub fn line_len(&self, line: usize) -> (n: usize)
        ensures
            n == if line < line_count(self@) {
                line_end(self@, line as int) - line_start(self@, line as int)
            } else {
                0int
            },
    {
        proof {
            lemma_count_nl_nonneg(self@);
            if (line as int) <= count_nl(self@) {
                lemma_line_bounds(self@, line as int);
            }
        }
        if line >= self.line_count() {
            return 0;
        }
        let start = self.line_to_char(line);
        let end = self.line_end_char(line);
        end - start
    }

    /// The character index of a (line, column) coordinate: the column
    /// is clamped to the line's body, and lines past the end give the
    /// text length.
    pub fn line_col_to_char(&self, line: usize, col: usize) -> (c: usize)
        ensures
            c == if line < line_count(self@) {
                let max_col = line_end(self@, line as int) - line_start(self@, line as int);
                line_start(self@, line as int) + (if col <= max_col {
                    col as int
                } else {
                    max_col
                })
            } else {
                self@.len() as int
            },
    {
        proof {
            lemma_count_nl_nonneg(self@);
            if (line as int) <= count_nl(self@) {
                lemma_line_bounds(self@, line as int);
            }
        }
        if line >= self.line_count() {
            return self.len_chars();
        }
        let start = self.line_to_char(line);
        let end = self.line_end_char(line);
        let max_col = end - start;
        start + (if col <= max_col {
            col
        } else {
            max_col
        })
    }

    /// The (line, column) coordinate of a character position, the
    /// position clamped to the text: the line counts the line feeds
    /// before it, the column is the offset from that line's start.
    pub fn char_to_line_col(&self, char_idx: usize) -> (r: (usize, usize))
        ensures
            ({
                let clamped = if char_idx <= self@.len() {
                    char_idx as int
                } else {
                    self@.len() as int
                };
                let l = count_nl(self@.take(clamped));
                r.0 == l && r.1 == clamped - line_start(self@, l)
            }),
    {
        let len = self.len_chars();
        let clamped = if char_idx <= len {
            char_idx
        } else {
            len
        };
        proof {
            lemma_position_on_line(self@, clamped as int);
        }
        let line = self.char_to_line(clamped);
        let line_start_c = self.line_to_char(line);
        proof {
            lemma_count_nl_take_all(self@);
        }
        (line, clamped - line_start_c)
    }
}

/// Inserting text at a valid position and then deleting exactly the
/// inserted range restores the buffer, content and length alike:
/// applying `delete`'s contract formula for `pos..pos + t.len()` to
/// `insert`'s contract formula for `pos` gives back the original
/// character sequence.
pub proof fn lemma_insert_delete_restores(s: Seq<char>, pos: int, t: Seq<char>)
    requires
        0 <= pos <= s.len(),
    ensures
        ({
            let inserted = s.take(pos) + t + s.skip(pos);
            let end = if pos + t.len() <= inserted.len() {
                pos + t.len()
            } else {
                inserted.len() as int
            };
            let start = if pos <= end {
                pos
            } else {
                end
            };
            &&& inserted.len() == s.len() + t.len()
            &&& inserted.take(start) + inserted.skip(end) == s
        }),
{
    lemma_insert_delete_roundtrip(s, pos, t);
}

} // verus!
