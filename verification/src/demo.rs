//! A prebuilt demonstration split tree: three columns, the third one
//! split again vertically, every pane a selectable text pane.

use vstd::prelude::*;
use crate::layout::{Child, LayoutNode, Size, SplitDir};
use crate::render::PaneKind;
use crate::style::{Color, Style};
use crate::text_pane::TextPane;

verus! {

/// The shape of the demonstration tree: a split in the given direction
/// with the given gutter and three children of weights one, one and
/// two (minimums three, five and five cells, no maximums); the first
/// two children are panes zero and one, the third is a vertical split
/// with a one-cell gutter holding panes two and three, each of weight
/// one and minimum three cells.  Pane ids come out in tree order.
pub open spec fn demo_shape(r: LayoutNode, dir: SplitDir, gutter: u32) -> bool {
    match r {
        LayoutNode::Split { dir: d, gutter: g, children: cs } => {
            &&& d == dir
            &&& g == gutter
            &&& cs@.len() == 3
            &&& cs@[0].size == (Size { weight: 1u16, min_cells: Some(3u16), max_cells: None::<u16> })
            &&& cs@[1].size == (Size { weight: 1u16, min_cells: Some(5u16), max_cells: None::<u16> })
            &&& cs@[2].size == (Size { weight: 2u16, min_cells: Some(5u16), max_cells: None::<u16> })
            &&& (match *cs@[0].node {
                LayoutNode::Pane { id, .. } => id == 0,
                _ => false,
            })
            &&& (match *cs@[1].node {
                LayoutNode::Pane { id, .. } => id == 1,
                _ => false,
            })
            &&& (match *cs@[2].node {
                LayoutNode::Split { dir: d2, gutter: g2, children: cs2 } => {
                    &&& d2 == SplitDir::Vertical
                    &&& g2 == 1
                    &&& cs2@.len() == 2
                    &&& cs2@[0].size == (Size {
                        weight: 1u16,
                        min_cells: Some(3u16),
                        max_cells: None::<u16>,
                    })
                    &&& cs2@[1].size == (Size {
                        weight: 1u16,
                        min_cells: Some(3u16),
                        max_cells: None::<u16>,
                    })
                    &&& (match *cs2@[0].node {
                        LayoutNode::Pane { id, .. } => id == 2,
                        _ => false,
                    })
                    &&& (match *cs2@[1].node {
                        LayoutNode::Pane { id, .. } => id == 3,
                        _ => false,
                    })
                },
                _ => false,
            })
        },
        _ => false,
    }
}

/// A three-column demonstration layout (the third column split in two
/// rows), each pane a text pane explaining the mouse and key bindings,
/// with the given direction and gutter.
pub fn create_test_layout(dir: SplitDir, gutter: u32) -> (r: LayoutNode)
    ensures
        r.wf(),
        demo_shape(r, dir, gutter),
{
    let pane0 = TextPane::new(
        "Pane 0: Left/Top\n\nClick and drag to select text. Double-click to select words. Triple-click to select lines.\n\nPress Ctrl+C (or Cmd+C on macOS) to copy selected text to clipboard.\n\nPress 'q' or ESC to quit",
    ).with_style(Style::new().fg(Color::Red));
    let pane1 = TextPane::new(
        "Pane 1: Middle\n\nEach pane has independent text selection.\n\nTry different click types:\n\u{2022} Single: character selection\n\u{2022} Double: word selection  \n\u{2022} Triple: line selection",
    ).with_style(Style::new().fg(Color::Green));
    let pane2 = TextPane::new(
        "Pane 2: Top (Nested)\n\nEach pane tracks its own selection state independently.",
    ).with_style(Style::new().fg(Color::Blue));
    let pane3 = TextPane::new(
        "Pane 3: Bottom (Nested)\n\nSelection highlighting uses reversed colors for visibility.",
    ).with_style(Style::new().fg(Color::Magenta));

    let nested = LayoutNode::Split {
        dir: SplitDir::Vertical,
        gutter: 1,
        children: vec![
            Child {
                node: Box::new(LayoutNode::Pane { id: 2, renderer: PaneKind::Text(pane2) }),
                size: Size { weight: 1, min_cells: Some(3), max_cells: None },
            },
            Child {
                node: Box::new(LayoutNode::Pane { id: 3, renderer: PaneKind::Text(pane3) }),
                size: Size { weight: 1, min_cells: Some(3), max_cells: None },
            },
        ],
    };

    proof {
        let gn = nested;
        match gn {
            LayoutNode::Split { children, .. } => {
                assert forall|i: int|
                    0 <= i < children@.len() implies #[trigger] children@[i].size.wf()
                    && children@[i].node.wf() by {
                    assert(children@.len() == 2);
                    if i == 0 {
                        assert(children@[0].size.wf());
                    } else {
                        assert(children@[1].size.wf());
                    }
                }
            },
            _ => {},
        }
        assert(nested.wf());
    }
    let result = LayoutNode::Split {
        dir,
        gutter,
        children: vec![
            Child {
                node: Box::new(LayoutNode::Pane { id: 0, renderer: PaneKind::Text(pane0) }),
                size: Size { weight: 1, min_cells: Some(3), max_cells: None },
            },
            Child {
                node: Box::new(LayoutNode::Pane { id: 1, renderer: PaneKind::Text(pane1) }),
                size: Size { weight: 1, min_cells: Some(5), max_cells: None },
            },
            Child {
                node: Box::new(nested),
                size: Size { weight: 2, min_cells: Some(5), max_cells: None },
            },
        ],
    };
    proof {
        let gres = result;
        match gres {
            LayoutNode::Split { children, .. } => {
                assert forall|i: int|
                    0 <= i < children@.len() implies #[trigger] children@[i].size.wf()
                    && children@[i].node.wf() by {
                    assert(children@.len() == 3);
                    if i == 0 {
                        assert(children@[0].size.wf());
                    } else if i == 1 {
                        assert(children@[1].size.wf());
                    } else {
                        assert(children@[2].size.wf());
                    }
                }
            },
            _ => {},
        }
    }
    result
}

} // verus!
