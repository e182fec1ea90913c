//! Tests for the viewport view: wrapping, slicing and coordinate
//! mapping.

use cmux::text_buffer::TextBuffer;
use cmux::text_view::{DisplayLine, TextBufferView, ViewportState};

#[test]
fn test_text_buffer_view_basic() {
    let buffer = TextBuffer::from_str("Hello\nWorld\nTest");
    let viewport = ViewportState::new(10, 3);
    let view = TextBufferView::new(&buffer, viewport);

    let lines: Vec<DisplayLine> = view.visible_lines();
    assert_eq!(lines.len(), 3);
    assert_eq!(lines[0].content, "Hello");
    assert_eq!(lines[1].content, "World");
    assert_eq!(lines[2].content, "Test");
    assert!(!lines[0].is_wrapped);
    assert!(!lines[1].is_wrapped);
    assert!(!lines[2].is_wrapped);
}

#[test]
fn test_text_buffer_view_wrapping() {
    let buffer = TextBuffer::from_str("This is a very long line that should wrap");
    let viewport = ViewportState::new(10, 5); // Width of 10, height of 5
    let view = TextBufferView::new(&buffer, viewport);

    let lines: Vec<DisplayLine> = view.visible_lines();
    assert!(lines.len() > 1); // Should wrap into multiple lines

    // Word-boundary wrapping should break at whitespace and trim trailing spaces
    assert_eq!(lines[0].content, "This is a"); // Trimmed trailing space
    assert_eq!(lines[1].content, "very long"); // Next segment
    assert!(!lines[0].is_wrapped);
    assert!(lines[1].is_wrapped);
    assert_eq!(lines[1].logical_line_index, 0); // Same logical line
}

#[test]
fn test_view_coordinate_conversion() {
    let buffer = TextBuffer::from_str("Hello\nWorld");
    let viewport = ViewportState::new(10, 2);
    let view = TextBufferView::new(&buffer, viewport);

    // Test char_to_display
    assert_eq!(view.char_to_display(0), Some((0, 0))); // 'H' in "Hello"
    assert_eq!(view.char_to_display(6), Some((1, 0))); // 'W' in "World"

    // Test display_to_char
    assert_eq!(view.display_to_char(0, 0), Some(0)); // First char
    assert_eq!(view.display_to_char(1, 0), Some(6)); // 'W' in "World"
}

#[test]
fn test_viewport_scrolling() {
    let buffer = TextBuffer::from_str("Line1\nLine2\nLine3\nLine4\nLine5");
    let mut viewport = ViewportState::new(10, 2); // Can show 2 lines
    viewport.scroll_line = 2; // Start from line 3

    let view = TextBufferView::new(&buffer, viewport);
    let lines: Vec<DisplayLine> = view.visible_lines();

    assert_eq!(lines.len(), 2);
    assert_eq!(lines[0].content, "Line3");
    assert_eq!(lines[1].content, "Line4");
}

#[test]
fn test_wrap_never_exceeds_width() {
    let buffer = TextBuffer::from_str(
        "alpha beta gamma delta epsilon zeta\nsupercalifragilistic expialidocious word",
    );
    for width in 1..=12usize {
        let viewport = ViewportState::new(width, 50);
        let view = TextBufferView::new(&buffer, viewport);
        for line in view.visible_lines() {
            assert!(line.content.chars().count() <= width);
        }
    }
}

#[test]
fn test_scroll_to_char_moves_minimally() {
    let buffer = TextBuffer::from_str("a\nb\nc\nd\ne\nf");
    let viewport = ViewportState::new(10, 2);
    let mut view = TextBufferView::new(&buffer, viewport);
    // Line 4 ('e') is below the window [0, 2): scroll so it is last.
    view.scroll_to_char(8);
    assert_eq!(view.viewport.scroll_line, 3);
    // Line 0 is above the window now: scroll up to it.
    view.scroll_to_char(0);
    assert_eq!(view.viewport.scroll_line, 0);
    // A visible line leaves the scroll untouched.
    view.scroll_to_char(2);
    assert_eq!(view.viewport.scroll_line, 0);
}

#[test]
fn test_wrap_punctuation_fallback_on_first_segment() {
    // No whitespace within the width: the break falls after the last
    // punctuation character, even on a logical line's first segment.
    let buffer = TextBuffer::from_str("ab.cdef");
    let viewport = ViewportState::new(5, 4);
    let view = TextBufferView::new(&buffer, viewport);
    let lines = view.visible_lines();
    assert_eq!(lines[0].content, "ab.");
    assert!(!lines[0].is_wrapped);
    assert_eq!(lines[1].content, "cdef");
    assert!(lines[1].is_wrapped);
}

#[test]
fn test_nowrap_slices_by_scroll_col() {
    let buffer = TextBuffer::from_str("0123456789abcdef");
    let mut viewport = ViewportState::new(5, 1);
    viewport.scroll_col = 3;
    let view = TextBufferView::with_wrap_mode(&buffer, viewport, cmux::text_view::WrapMode::NoWrap);
    let lines = view.visible_lines();
    assert_eq!(lines.len(), 1);
    assert_eq!(lines[0].content, "34567");
    assert_eq!(lines[0].logical_col_start, 3);
    assert!(!lines[0].is_wrapped);
}
