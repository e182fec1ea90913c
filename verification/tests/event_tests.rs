//! Tests for the click-pattern processor.

use cmux::events::{EventProcessor, ProcessedEvent};
use cmux::render::{Event, KeyCode, KeyEvent, KeyModifiers, MouseButton, MouseEvent, MouseEventKind};

fn key(code: KeyCode) -> Event {
    Event::Key(KeyEvent { code, modifiers: KeyModifiers::default() })
}

fn down(button: MouseButton, column: u16, row: u16) -> Event {
    Event::Mouse(MouseEvent { x: column, y: row, kind: MouseEventKind::Down(button) })
}

#[test]
fn test_event_processor_quit_detection() {
    let mut processor = EventProcessor::new();

    // Test 'q' key
    let processed = processor.process_event(key(KeyCode::Char('q')), 0);
    assert_eq!(processed.len(), 1);
    assert!(matches!(processed[0], ProcessedEvent::Quit));

    // Test Esc key
    let processed = processor.process_event(key(KeyCode::Esc), 0);
    assert_eq!(processed.len(), 1);
    assert!(matches!(processed[0], ProcessedEvent::Quit));
}

#[test]
fn test_double_click_detection() {
    let mut processor = EventProcessor::new();

    // First click
    let processed1 = processor.process_event(down(MouseButton::Left, 10, 5), 0);
    assert_eq!(processed1.len(), 1);

    // Verify first click is a Down event
    if let ProcessedEvent::Render(Event::Mouse(mouse)) = &processed1[0] {
        assert_eq!(mouse.x, 10);
        assert_eq!(mouse.y, 5);
        assert!(matches!(mouse.kind, MouseEventKind::Down(MouseButton::Left)));
    } else {
        panic!("Expected render mouse event");
    }

    // Second click at same location within timeout should trigger double-click
    let processed2 = processor.process_event(down(MouseButton::Left, 10, 5), 100);
    assert_eq!(processed2.len(), 1);

    // Verify second click triggers double-click
    if let ProcessedEvent::Render(Event::Mouse(mouse)) = &processed2[0] {
        assert_eq!(mouse.x, 10);
        assert_eq!(mouse.y, 5);
        assert!(matches!(mouse.kind, MouseEventKind::DoubleClick(MouseButton::Left)));
    } else {
        panic!("Expected render mouse event");
    }
}

#[test]
fn test_double_click_distance_threshold() {
    let mut processor = EventProcessor::new();

    // First click
    processor.process_event(down(MouseButton::Left, 10, 5), 0);

    // Second click too far away (should not trigger double-click):
    // 10 cells away exceeds the three-cell distance threshold.
    let processed2 = processor.process_event(down(MouseButton::Left, 20, 5), 100);

    // Should be regular Down event, not double-click
    if let ProcessedEvent::Render(Event::Mouse(mouse)) = &processed2[0] {
        assert!(matches!(mouse.kind, MouseEventKind::Down(MouseButton::Left)));
    } else {
        panic!("Expected render mouse event");
    }
}

#[test]
fn test_different_mouse_buttons_independent() {
    let mut processor = EventProcessor::new();

    // Left click
    processor.process_event(down(MouseButton::Left, 10, 5), 0);

    // Right click at same location should not trigger double-click
    let processed = processor.process_event(down(MouseButton::Right, 10, 5), 50);

    // Should be regular Down event for right button
    if let ProcessedEvent::Render(Event::Mouse(mouse)) = &processed[0] {
        assert!(matches!(mouse.kind, MouseEventKind::Down(MouseButton::Right)));
    } else {
        panic!("Expected render mouse event");
    }
}

#[test]
fn test_triple_click_detection() {
    let mut processor = EventProcessor::new();

    // First click
    let processed1 = processor.process_event(down(MouseButton::Left, 10, 5), 0);
    assert_eq!(processed1.len(), 1);

    // Second click triggers double-click
    let processed2 = processor.process_event(down(MouseButton::Left, 10, 5), 100);
    assert_eq!(processed2.len(), 1);

    if let ProcessedEvent::Render(Event::Mouse(mouse)) = &processed2[0] {
        assert!(matches!(mouse.kind, MouseEventKind::DoubleClick(MouseButton::Left)));
    } else {
        panic!("Expected double-click event");
    }

    // Third click triggers triple-click
    let processed3 = processor.process_event(down(MouseButton::Left, 10, 5), 200);
    assert_eq!(processed3.len(), 1);

    if let ProcessedEvent::Render(Event::Mouse(mouse)) = &processed3[0] {
        assert!(matches!(mouse.kind, MouseEventKind::TripleClick(MouseButton::Left)));
    } else {
        panic!("Expected triple-click event");
    }
}

#[test]
fn test_click_after_timeout_is_plain_down() {
    let mut processor = EventProcessor::new();
    processor.process_event(down(MouseButton::Left, 4, 4), 0);
    // 301 milliseconds later: outside the 300 millisecond window.
    let processed = processor.process_event(down(MouseButton::Left, 4, 4), 301);
    if let ProcessedEvent::Render(Event::Mouse(mouse)) = &processed[0] {
        assert!(matches!(mouse.kind, MouseEventKind::Down(MouseButton::Left)));
    } else {
        panic!("Expected render mouse event");
    }
}

#[test]
fn test_fourth_click_starts_over() {
    let mut processor = EventProcessor::new();
    processor.process_event(down(MouseButton::Left, 1, 1), 0);
    processor.process_event(down(MouseButton::Left, 1, 1), 50);
    processor.process_event(down(MouseButton::Left, 1, 1), 100);
    // After a triple click the state is cleared: the next press is plain.
    let processed = processor.process_event(down(MouseButton::Left, 1, 1), 150);
    if let ProcessedEvent::Render(Event::Mouse(mouse)) = &processed[0] {
        assert!(matches!(mouse.kind, MouseEventKind::Down(MouseButton::Left)));
    } else {
        panic!("Expected render mouse event");
    }
}

#[test]
fn test_passthrough_events() {
    let mut processor = EventProcessor::new();
    let moved = Event::Mouse(MouseEvent { x: 3, y: 4, kind: MouseEventKind::Moved });
    let processed = processor.process_event(moved, 0);
    assert_eq!(processed.len(), 1);
    if let ProcessedEvent::Render(Event::Mouse(mouse)) = &processed[0] {
        assert!(matches!(mouse.kind, MouseEventKind::Moved));
    } else {
        panic!("Expected render mouse event");
    }
    let processed = processor.process_event(Event::Resize(80, 24), 0);
    assert!(matches!(processed[0], ProcessedEvent::Render(Event::Resize(80, 24))));
    let processed = processor.process_event(key(KeyCode::Char('x')), 0);
    assert!(matches!(
        processed[0],
        ProcessedEvent::Render(Event::Key(KeyEvent { code: KeyCode::Char('x'), .. }))
    ));
}
