//! Tests for the text and input panes.

use cmux::geom::Rect;
use cmux::input_pane::InputPane;
use cmux::render::{Event, EventResult, KeyCode, KeyEvent, KeyModifiers, PaneContext};
use cmux::text_pane::TextPane;

#[test]
fn test_text_pane_creation() {
    let pane = TextPane::new("Hello World");
    assert_eq!(pane.text(), "Hello World");
    assert!(!pane.has_selection());
}

#[test]
fn test_word_finding() {
    let pane = TextPane::new("Hello world! This is a test.");

    // Test finding word "Hello" (position 2 is inside "Hello")
    let word = pane.find_word_at_position(2);
    assert_eq!(word, Some((0, 5)));

    // Test finding word "world" (position 8 is inside "world")
    let word = pane.find_word_at_position(8);
    assert_eq!(word, Some((6, 11)));

    // Test clicking on non-word character (space) - should return None
    let word = pane.find_word_at_position(5);
    assert_eq!(word, None);

    // Test clicking on punctuation
    let word = pane.find_word_at_position(11);
    assert_eq!(word, None);
}

#[test]
fn test_is_word_char() {
    assert!(TextPane::is_word_char('a'));
    assert!(TextPane::is_word_char('Z'));
    assert!(TextPane::is_word_char('5'));
    assert!(TextPane::is_word_char('_'));

    assert!(!TextPane::is_word_char(' '));
    assert!(!TextPane::is_word_char('!'));
    assert!(!TextPane::is_word_char('.'));
    assert!(!TextPane::is_word_char('-'));
}

#[test]
fn test_word_selection_with_underscores() {
    let pane = TextPane::new("my_variable_name = 42");

    // Test selecting the entire variable name with underscores
    let word = pane.find_word_at_position(8);
    assert_eq!(word, Some((0, 16)));
}

#[test]
fn test_selection_operations() {
    let mut pane = TextPane::new("Hello World");

    // Test selection
    pane.selection = Some((0, 5));
    assert!(pane.has_selection());
    assert_eq!(pane.get_selected_text(), "Hello");

    // Test char selection
    assert!(pane.is_char_selected(0));
    assert!(pane.is_char_selected(4));
    assert!(!pane.is_char_selected(5));
    assert!(!pane.is_char_selected(6));

    // Test clear selection
    pane.clear_selection();
    assert!(!pane.has_selection());
    assert_eq!(pane.get_selected_text(), "");
}

#[test]
fn test_multiline_text() {
    let pane = TextPane::new("Line 1\nLine 2\nLine 3");
    assert_eq!(pane.text(), "Line 1\nLine 2\nLine 3");

    // Test line-based operations work with buffer
    assert_eq!(pane.buffer.line_count(), 3);
    assert_eq!(pane.buffer.line_len(0), 6); // "Line 1"
    assert_eq!(pane.buffer.line_len(1), 6); // "Line 2"
    assert_eq!(pane.buffer.line_len(2), 6); // "Line 3"
}

#[test]
fn test_input_pane_creation() {
    let pane = InputPane::new();
    assert_eq!(pane.text(), "");
    assert_eq!(pane.cursor_pos(), 0);

    let pane = InputPane::with_text("Hello\nWorld");
    assert_eq!(pane.text(), "Hello\nWorld");
    assert_eq!(pane.cursor_pos(), 11); // End of text
}

#[test]
fn test_cursor_movement() {
    let mut pane = InputPane::with_text("Hello\nWorld");

    // Move to specific position
    pane.move_cursor_to(5);
    assert_eq!(pane.cursor_pos(), 5); // End of "Hello"

    // Move to line/col
    pane.move_cursor_to_line_col(1, 2);
    assert_eq!(pane.cursor_pos(), 8); // "r" in "World"
}

#[test]
fn test_text_insertion() {
    let mut pane = InputPane::with_text("Hello World");
    pane.move_cursor_to(5);

    pane.insert_char(',');
    assert_eq!(pane.text(), "Hello, World");
    assert_eq!(pane.cursor_pos(), 6);
}

#[test]
fn test_newline_insertion() {
    let mut pane = InputPane::with_text("Hello World");
    pane.move_cursor_to(5);

    pane.insert_newline();
    assert_eq!(pane.text(), "Hello\n World");
    assert_eq!(pane.cursor_pos(), 6); // Start of new line
}

#[test]
fn test_selection_and_deletion() {
    let mut pane = InputPane::with_text("Hello World");

    // Select "World"
    pane.selection = Some((6, 11));
    assert!(pane.has_selection());
    assert_eq!(pane.get_selected_text(), "World");

    // Delete selection
    pane.delete_selection();
    assert_eq!(pane.text(), "Hello ");
    assert_eq!(pane.cursor_pos(), 6);
    assert!(!pane.has_selection());
}

#[test]
fn test_char_key_replaces_selection() {
    let mut pane = InputPane::with_text("Hello World");
    pane.selection = Some((6, 11)); // "World"
    let ctx = PaneContext { id: 0, rect: Rect { x: 0, y: 0, w: 20, h: 5 }, focused: true };
    let key = Event::Key(KeyEvent { code: KeyCode::Char('!'), modifiers: KeyModifiers::default() });
    let r = pane.apply_event(&ctx, &key);
    assert_eq!(r, EventResult::Render);
    // The selection is deleted first, then the character goes in at its
    // start with the cursor one past it.
    assert_eq!(pane.text(), "Hello !");
    assert_eq!(pane.cursor_pos(), 7);
    assert!(pane.selection.is_none());
}

#[test]
fn test_backspace_replaces_selection() {
    let mut pane = InputPane::with_text("Hello World");
    pane.selection = Some((11, 6)); // reversed endpoints normalize
    pane.backspace();
    assert_eq!(pane.text(), "Hello ");
    assert_eq!(pane.cursor_pos(), 6);
    assert!(pane.selection.is_none());
}

#[test]
fn test_backspace_and_delete() {
    let mut pane = InputPane::with_text("abcd");
    pane.move_cursor_to(2);
    pane.backspace();
    assert_eq!(pane.text(), "acd");
    assert_eq!(pane.cursor_pos(), 1);
    pane.delete();
    assert_eq!(pane.text(), "ad");
    assert_eq!(pane.cursor_pos(), 1);
}

#[test]
fn test_delete_word_backwards() {
    let mut pane = InputPane::with_text("one two   ");
    pane.delete_word_backwards();
    assert_eq!(pane.text(), "one ");
    assert_eq!(pane.cursor_pos(), 4);
}
