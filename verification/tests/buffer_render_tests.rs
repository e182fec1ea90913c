//! Tests for the cell grid, geometry, rendering and frame
//! serialization.

use cmux::ansi::Ansi;
use cmux::border::BorderStyle;
use cmux::buffer::Buffer;
use cmux::geom::{Point, Rect};
use cmux::input_pane::InputPane;
use cmux::layout::{Child, LayoutNode, Size, SplitDir};
use cmux::render::{
    MouseButton, MouseEvent, MouseEventKind, NoopRenderer, PaneContext, PaneKind, PaneRenderer,
    RenderContext,
};
use cmux::render::{Event, KeyCode, KeyEvent, KeyModifiers};
use cmux::screen::{compose_frame, Screen};
use cmux::style::{Color, Style};
use cmux::text_pane::TextPane;

#[test]
fn test_buffer_creation() {
    let buffer = Buffer::new(10, 5);
    assert_eq!(buffer.width, 10);
    assert_eq!(buffer.height, 5);
    assert_eq!(buffer.cells.len(), 50);
}

#[test]
fn test_set_char() {
    let mut buffer = Buffer::new(10, 5);
    buffer.set_char(3, 2, 'X', Style::default());

    let cell = buffer.get(3, 2).unwrap();
    assert_eq!(cell.ch, 'X');
}

#[test]
fn test_set_string() {
    let mut buffer = Buffer::new(10, 5);
    buffer.set_string(1, 1, "Hello", Style::default());

    assert_eq!(buffer.get(1, 1).unwrap().ch, 'H');
    assert_eq!(buffer.get(2, 1).unwrap().ch, 'e');
    assert_eq!(buffer.get(3, 1).unwrap().ch, 'l');
    assert_eq!(buffer.get(4, 1).unwrap().ch, 'l');
    assert_eq!(buffer.get(5, 1).unwrap().ch, 'o');
}

#[test]
fn test_fill_rect() {
    let mut buffer = Buffer::new(10, 5);
    let rect = Rect { x: 2, y: 1, w: 3, h: 2 };
    buffer.fill_rect(rect, '#', Style::default());

    for y in 1..3 {
        for x in 2..5 {
            assert_eq!(buffer.get(x, y).unwrap().ch, '#');
        }
    }
}

#[test]
fn test_rect_contains() {
    let rect = Rect { x: 10, y: 5, w: 20, h: 15 };

    // Inside
    assert!(rect.contains(Point::new(15, 10)));
    assert!(rect.contains(Point::new(10, 5))); // Top-left corner
    assert!(rect.contains(Point::new(29, 19))); // Bottom-right - 1

    // Outside
    assert!(!rect.contains(Point::new(9, 10))); // Left of rect
    assert!(!rect.contains(Point::new(30, 10))); // Right of rect
    assert!(!rect.contains(Point::new(15, 4))); // Above rect
    assert!(!rect.contains(Point::new(15, 20))); // Below rect
}

#[test]
fn test_rect_to_point_conversion() {
    let rect = Rect { x: 42, y: 17, w: 100, h: 50 };
    let point = Point::from(rect);

    assert_eq!(point.x(), 42);
    assert_eq!(point.y(), 17);
}

#[test]
fn test_point_creation() {
    let p = Point::new(10, 20);
    assert_eq!(p.x(), 10);
    assert_eq!(p.y(), 20);
}

#[test]
fn test_point_arithmetic() {
    let p1 = Point::new(10, 20);
    let p2 = Point::new(5, 8);

    let sum = p1.plus(p2);
    assert_eq!(sum.x(), 15);
    assert_eq!(sum.y(), 28);

    let diff = p1.minus(p2);
    assert_eq!(diff.x(), 5);
    assert_eq!(diff.y(), 12);
}

#[test]
fn test_point_saturating_sub() {
    let p1 = Point::new(5, 8);
    let p2 = Point::new(10, 20);

    let diff = p1.minus(p2);
    assert_eq!(diff.x(), 0); // the difference saturates at zero
    assert_eq!(diff.y(), 0);
}

#[test]
fn test_render_context() {
    let layout = LayoutNode::Split {
        dir: SplitDir::Horizontal,
        gutter: 0,
        children: vec![
            Child {
                node: Box::new(LayoutNode::Pane {
                    id: 0,
                    renderer: PaneKind::Text(TextPane::new("Left")),
                }),
                size: Size { weight: 1, min_cells: None, max_cells: None },
            },
            Child {
                node: Box::new(LayoutNode::Pane {
                    id: 1,
                    renderer: PaneKind::Text(TextPane::new("Right")),
                }),
                size: Size { weight: 1, min_cells: None, max_cells: None },
            },
        ],
    };

    let mut buffer = Buffer::new(20, 10);
    let mut ctx = RenderContext::new();
    ctx.set_focused_pane(0);

    ctx.render(&layout, &mut buffer);

    // Check that both panes were rendered with borders
    // Pane 0 is focused, so it should have thick border
    assert_eq!(buffer.get(0, 0).unwrap().ch, '┏');
    // Pane 1 is not focused, so it should have single border
    assert_eq!(buffer.get(10, 0).unwrap().ch, '┌');
}

#[test]
fn test_mouse_event_to_point_conversion() {
    let mouse = MouseEvent { x: 42, y: 17, kind: MouseEventKind::Down(MouseButton::Left) };

    let point = Point::from(mouse);
    assert_eq!(point.x(), 42);
    assert_eq!(point.y(), 17);
}

#[test]
fn test_noop_renderer() {
    let renderer = NoopRenderer;
    let mut buffer = Buffer::new(10, 10);
    let ctx = PaneContext { id: 0, rect: Rect { x: 0, y: 0, w: 10, h: 10 }, focused: false };

    renderer.render(&ctx, &mut buffer);
    // The grid stays blank.
    assert_eq!(buffer.get(5, 5).unwrap().ch, ' ');
}

#[test]
fn test_draw_box() {
    let mut buffer = Buffer::new(6, 4);
    buffer.draw_box(Rect { x: 0, y: 0, w: 6, h: 4 }, BorderStyle::Single);
    assert_eq!(buffer.get(0, 0).unwrap().ch, '┌');
    assert_eq!(buffer.get(5, 0).unwrap().ch, '┐');
    assert_eq!(buffer.get(0, 3).unwrap().ch, '└');
    assert_eq!(buffer.get(5, 3).unwrap().ch, '┘');
    assert_eq!(buffer.get(2, 0).unwrap().ch, '─');
    assert_eq!(buffer.get(0, 2).unwrap().ch, '│');
    assert_eq!(buffer.get(2, 2).unwrap().ch, ' ');
}

#[test]
fn test_content_rect() {
    let outer = Rect { x: 2, y: 3, w: 10, h: 8 };
    let inner = BorderStyle::Single.content_rect(outer);
    assert_eq!((inner.x, inner.y, inner.w, inner.h), (3, 4, 8, 6));
    let bare = BorderStyle::Bare.content_rect(outer);
    assert_eq!((bare.x, bare.y, bare.w, bare.h), (2, 3, 10, 8));
}

#[test]
fn test_ansi_sequences() {
    assert_eq!(Ansi::cursor_to(3, 5), "\x1b[5;3H");
    assert_eq!(Ansi::cursor_to(12, 120), "\x1b[120;12H");
    assert_eq!(Ansi::fg_color(Color::Red), "\x1b[31m");
    assert_eq!(Ansi::bg_color(Color::Red), "\x1b[41m");
    assert_eq!(Ansi::fg_color(Color::BrightCyan), "\x1b[96m");
    assert_eq!(Ansi::fg_color(Color::Rgb(1, 22, 255)), "\x1b[38;2;1;22;255m");
    assert_eq!(Ansi::bg_color(Color::Indexed(7)), "\x1b[48;5;7m");
    assert_eq!(Ansi::fg_color(Color::Reset), "\x1b[39m");
    assert_eq!(Ansi::modifiers(cmux::style::Modifiers::new().bold().underline()), "\x1b[1m\x1b[4m");
}

#[test]
fn test_compose_frame_coalesces_styles() {
    let mut buffer = Buffer::new(2, 1);
    let red = Style::new().fg(Color::Red);
    buffer.set_char(0, 0, 'a', red);
    buffer.set_char(1, 0, 'b', red);
    let frame = compose_frame(&buffer);
    // One cursor home, one style introduction for the run of two cells,
    // and a final reset.
    assert_eq!(frame, "\x1b[1;1H\x1b[0m\x1b[31mab\x1b[0m");
}

#[test]
fn test_demo_layout_panes() {
    let layout = cmux::demo::create_test_layout(SplitDir::Horizontal, 2);
    let panes = layout.compute(Rect { x: 0, y: 0, w: 104, h: 50 });
    assert_eq!(panes.len(), 4);
    assert_eq!(panes[0].0, 0);
    assert_eq!(panes[1].0, 1);
    assert_eq!(panes[2].0, 2);
    assert_eq!(panes[3].0, 3);
}

#[test]
fn test_forward_event_reaches_panes_on_focus_change() {
    let layout = LayoutNode::Pane { id: 0, renderer: PaneKind::Text(TextPane::new("hello world")) };
    let mut layout = layout;
    let mut ctx = RenderContext::new();
    // Nothing is focused yet: a left press inside the pane switches
    // focus AND still reaches the pane, which starts a selection.
    let rect = Rect { x: 0, y: 0, w: 20, h: 5 };
    let press = Event::Mouse(MouseEvent { x: 2, y: 1, kind: MouseEventKind::Down(MouseButton::Left) });
    let needs = ctx.forward_event(&mut layout, &press, rect);
    assert!(needs);
    assert!(ctx.is_focused(0));
    match &layout {
        LayoutNode::Pane { renderer: PaneKind::Text(p), .. } => {
            assert!(p.selection.is_some());
        }
        _ => panic!("expected the same pane back"),
    }
    // An unrelated key passes through quietly.
    let key = Event::Key(KeyEvent { code: KeyCode::Char('z'), modifiers: KeyModifiers::default() });
    let needs = ctx.forward_event(&mut layout, &key, rect);
    assert!(!needs);
}

#[test]
fn test_text_pane_paints_text_cells() {
    let pane = TextPane::new("hi");
    let mut buffer = Buffer::new(10, 4);
    let ctx = PaneContext { id: 0, rect: Rect { x: 0, y: 0, w: 10, h: 4 }, focused: false };
    pane.render(&ctx, &mut buffer);
    // Border at the corners, the text inside the content rectangle.
    assert_eq!(buffer.get(0, 0).unwrap().ch, '┌');
    assert_eq!(buffer.get(1, 1).unwrap().ch, 'h');
    assert_eq!(buffer.get(2, 1).unwrap().ch, 'i');
    assert_eq!(buffer.get(3, 1).unwrap().ch, ' ');
}

#[test]
fn test_input_pane_placeholder_and_cursor() {
    // Unfocused and empty: the placeholder shows on the first content row.
    let pane = InputPane::new().with_placeholder("type here");
    let mut buffer = Buffer::new(12, 4);
    let ctx = PaneContext { id: 0, rect: Rect { x: 0, y: 0, w: 12, h: 4 }, focused: false };
    pane.render(&ctx, &mut buffer);
    assert_eq!(buffer.get(1, 1).unwrap().ch, 't');
    assert_eq!(buffer.get(2, 1).unwrap().ch, 'y');
    // Focused with text: the cursor cell past the end shows as a block.
    let pane = InputPane::with_text("ab");
    let mut buffer = Buffer::new(12, 4);
    let ctx = PaneContext { id: 0, rect: Rect { x: 0, y: 0, w: 12, h: 4 }, focused: true };
    pane.render(&ctx, &mut buffer);
    assert_eq!(buffer.get(1, 1).unwrap().ch, 'a');
    assert_eq!(buffer.get(2, 1).unwrap().ch, 'b');
    assert_eq!(buffer.get(3, 1).unwrap().ch, '█');
}

#[test]
fn test_screen_render_frame() {
    let layout = LayoutNode::Pane { id: 0, renderer: PaneKind::Noop(NoopRenderer) };
    let mut screen = Screen::new(layout, 2, 2);
    let frame = screen.render();
    // Blank cells share one plain-style run; the second row starts with
    // a cursor positioning sequence.
    assert_eq!(frame, "\x1b[1;1H\x1b[0m  \x1b[2;1H  \x1b[0m");
}
