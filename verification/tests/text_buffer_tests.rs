//! Tests for the text buffer and its coordinate conversions.

use cmux::text_buffer::TextBuffer;

#[test]
fn test_empty_buffer() {
    let buffer = TextBuffer::new();
    assert_eq!(buffer.len_chars(), 0);
    assert_eq!(buffer.line_count(), 1);
    assert!(buffer.is_empty());
    assert_eq!(buffer.to_string(), "");
}

#[test]
fn test_buffer_from_str() {
    let buffer = TextBuffer::from_str("Hello\nWorld\n");
    assert_eq!(buffer.len_chars(), 12);
    assert_eq!(buffer.line_count(), 3); // Two lines plus empty line at end
    assert_eq!(buffer.to_string(), "Hello\nWorld\n");
}

#[test]
fn test_insert_and_delete() {
    let mut buffer = TextBuffer::from_str("Hello World");

    buffer.insert(5, ", Beautiful");
    assert_eq!(buffer.to_string(), "Hello, Beautiful World");

    buffer.delete(5..16);
    assert_eq!(buffer.to_string(), "Hello World");
}

#[test]
fn test_line_operations() {
    let buffer = TextBuffer::from_str("Line 1\nLine 2\nLine 3");

    assert_eq!(buffer.line_count(), 3);
    assert_eq!(buffer.line(0).unwrap(), "Line 1\n");
    assert_eq!(buffer.line(1).unwrap(), "Line 2\n");
    assert_eq!(buffer.line(2).unwrap(), "Line 3");

    assert_eq!(buffer.line_len(0), 6); // "Line 1"
    assert_eq!(buffer.line_len(1), 6); // "Line 2"
    assert_eq!(buffer.line_len(2), 6); // "Line 3"
}

#[test]
fn test_coordinate_conversion() {
    let buffer = TextBuffer::from_str("Hello\nWorld\nTest");

    // Test line_to_char
    assert_eq!(buffer.line_to_char(0), 0); // Start of "Hello"
    assert_eq!(buffer.line_to_char(1), 6); // Start of "World"
    assert_eq!(buffer.line_to_char(2), 12); // Start of "Test"

    // Test char_to_line
    assert_eq!(buffer.char_to_line(0), 0); // "H" in "Hello"
    assert_eq!(buffer.char_to_line(5), 0); // "\n" after "Hello"
    assert_eq!(buffer.char_to_line(6), 1); // "W" in "World"
    assert_eq!(buffer.char_to_line(12), 2); // "T" in "Test"

    // Test line_col_to_char
    assert_eq!(buffer.line_col_to_char(0, 0), 0); // Start of "Hello"
    assert_eq!(buffer.line_col_to_char(0, 5), 5); // End of "Hello"
    assert_eq!(buffer.line_col_to_char(1, 0), 6); // Start of "World"
    assert_eq!(buffer.line_col_to_char(2, 4), 16); // End of "Test"

    // Test char_to_line_col
    assert_eq!(buffer.char_to_line_col(0), (0, 0)); // "H"
    assert_eq!(buffer.char_to_line_col(5), (0, 5)); // End of "Hello"
    assert_eq!(buffer.char_to_line_col(6), (1, 0)); // "W"
    assert_eq!(buffer.char_to_line_col(16), (2, 4)); // End of "Test"
}

#[test]
fn test_replace() {
    let mut buffer = TextBuffer::from_str("Hello World");
    buffer.replace(6..11, "Rust");
    assert_eq!(buffer.to_string(), "Hello Rust");
}

#[test]
fn test_slice_and_substr() {
    let buffer = TextBuffer::from_str("Hello World");

    let slice = buffer.slice(0..5);
    assert_eq!(slice, "Hello");

    let substr = buffer.substr(6..11);
    assert_eq!(substr, "World");
}

#[test]
fn test_char_at() {
    let buffer = TextBuffer::from_str("Hello");
    assert_eq!(buffer.char_at(0), Some('H'));
    assert_eq!(buffer.char_at(4), Some('o'));
    assert_eq!(buffer.char_at(5), None);
}

#[test]
fn test_edge_cases() {
    let mut buffer = TextBuffer::new();

    // Insert into empty buffer
    buffer.insert(0, "Hello");
    assert_eq!(buffer.to_string(), "Hello");

    // Insert at end
    buffer.insert(5, " World");
    assert_eq!(buffer.to_string(), "Hello World");

    // Delete beyond bounds (should be safe)
    buffer.delete(100..200);
    assert_eq!(buffer.to_string(), "Hello World");

    // Access line beyond bounds
    assert_eq!(buffer.line(100), None);
    assert_eq!(buffer.line_to_char(100), buffer.len_chars());
}

#[test]
fn test_insert_past_end_appends() {
    // An out-of-range insert position is clamped to the end.
    let mut buffer = TextBuffer::from_str("abc");
    buffer.insert(100, "xyz");
    assert_eq!(buffer.to_string(), "abcxyz");
    assert_eq!(buffer.len_chars(), 6);
}

#[test]
fn test_insert_delete_round_trip() {
    let original = "one two\nthree";
    let mut buffer = TextBuffer::from_str(original);
    let inserted = "XYZ";
    buffer.insert(4, inserted);
    assert_eq!(buffer.to_string(), "one XYZtwo\nthree");
    buffer.delete(4..4 + inserted.len());
    assert_eq!(buffer.to_string(), original);
    assert_eq!(buffer.len_chars(), original.chars().count());
}

#[test]
fn test_line_col_round_trip() {
    let buffer = TextBuffer::from_str("Hello\nWorld\nTest");
    for p in 0..=buffer.len_chars() {
        let (line, col) = buffer.char_to_line_col(p);
        assert_eq!(buffer.line_col_to_char(line, col), p);
    }
}

#[test]
fn test_buffer_clone_keeps_text() {
    let buffer = TextBuffer::from_str("abc\ndef");
    let copy = buffer.clone();
    assert_eq!(copy.to_string(), "abc\ndef");
    assert_eq!(copy.len_chars(), buffer.len_chars());
}
