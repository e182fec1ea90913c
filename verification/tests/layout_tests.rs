//! Tests for the layout engine.

use cmux::geom::Rect;
use cmux::layout::{Child, LayoutNode, Size, SplitDir};
use cmux::render::{NoopRenderer, PaneKind};

fn pane(id: usize) -> LayoutNode {
    LayoutNode::Pane { id, renderer: PaneKind::Noop(NoopRenderer) }
}

#[test]
fn test_single_pane() {
    let layout = pane(42);

    let rect = Rect { x: 0, y: 0, w: 100, h: 50 };

    let panes = layout.compute(rect);
    assert_eq!(panes.len(), 1);
    assert_eq!(panes[0].0, 42);
    assert_eq!(panes[0].1.x, 0);
    assert_eq!(panes[0].1.y, 0);
    assert_eq!(panes[0].1.w, 100);
    assert_eq!(panes[0].1.h, 50);
}

#[test]
fn test_horizontal_split_equal_weights() {
    let layout = LayoutNode::Split {
        dir: SplitDir::Horizontal,
        gutter: 0,
        children: vec![
            Child {
                node: Box::new(pane(1)),
                size: Size { weight: 1, min_cells: None, max_cells: None },
            },
            Child {
                node: Box::new(pane(2)),
                size: Size { weight: 1, min_cells: None, max_cells: None },
            },
        ],
    };

    let rect = Rect { x: 0, y: 0, w: 100, h: 50 };

    let panes = layout.compute(rect);
    assert_eq!(panes.len(), 2);

    assert_eq!(panes[0].0, 1);
    assert_eq!(panes[0].1.x, 0);
    assert_eq!(panes[0].1.w, 50);

    assert_eq!(panes[1].0, 2);
    assert_eq!(panes[1].1.x, 50);
    assert_eq!(panes[1].1.w, 50);
}

#[test]
fn test_vertical_split_with_weights() {
    let layout = LayoutNode::Split {
        dir: SplitDir::Vertical,
        gutter: 0,
        children: vec![
            Child {
                node: Box::new(pane(1)),
                size: Size { weight: 1, min_cells: None, max_cells: None },
            },
            Child {
                node: Box::new(pane(2)),
                size: Size { weight: 2, min_cells: None, max_cells: None },
            },
        ],
    };

    let rect = Rect { x: 10, y: 10, w: 90, h: 90 };

    let panes = layout.compute(rect);
    assert_eq!(panes.len(), 2);

    assert_eq!(panes[0].0, 1);
    assert_eq!(panes[0].1.y, 10);
    assert_eq!(panes[0].1.h, 30);

    assert_eq!(panes[1].0, 2);
    assert_eq!(panes[1].1.y, 40);
    assert_eq!(panes[1].1.h, 60);
}

#[test]
fn test_gutter() {
    let layout = LayoutNode::Split {
        dir: SplitDir::Horizontal,
        gutter: 10,
        children: vec![
            Child {
                node: Box::new(pane(1)),
                size: Size { weight: 1, min_cells: None, max_cells: None },
            },
            Child {
                node: Box::new(pane(2)),
                size: Size { weight: 1, min_cells: None, max_cells: None },
            },
        ],
    };

    let rect = Rect { x: 0, y: 0, w: 110, h: 50 };

    let panes = layout.compute(rect);
    assert_eq!(panes.len(), 2);

    assert_eq!(panes[0].1.x, 0);
    assert_eq!(panes[0].1.w, 50);

    assert_eq!(panes[1].1.x, 60);
    assert_eq!(panes[1].1.w, 50);
}

#[test]
fn test_min_max_constraints() {
    let layout = LayoutNode::Split {
        dir: SplitDir::Horizontal,
        gutter: 0,
        children: vec![
            Child {
                node: Box::new(pane(1)),
                size: Size { weight: 0, min_cells: Some(20), max_cells: Some(20) },
            },
            Child {
                node: Box::new(pane(2)),
                size: Size { weight: 1, min_cells: Some(10), max_cells: None },
            },
        ],
    };

    let rect = Rect { x: 0, y: 0, w: 100, h: 50 };

    let panes = layout.compute(rect);
    assert_eq!(panes.len(), 2);

    assert_eq!(panes[0].1.w, 20);
    assert_eq!(panes[1].1.w, 80);
}

#[test]
fn test_nested_splits() {
    let layout = LayoutNode::Split {
        dir: SplitDir::Horizontal,
        gutter: 0,
        children: vec![
            Child {
                node: Box::new(pane(1)),
                size: Size { weight: 1, min_cells: None, max_cells: None },
            },
            Child {
                node: Box::new(LayoutNode::Split {
                    dir: SplitDir::Vertical,
                    gutter: 0,
                    children: vec![
                        Child {
                            node: Box::new(pane(2)),
                            size: Size { weight: 1, min_cells: None, max_cells: None },
                        },
                        Child {
                            node: Box::new(pane(3)),
                            size: Size { weight: 1, min_cells: None, max_cells: None },
                        },
                    ],
                }),
                size: Size { weight: 1, min_cells: None, max_cells: None },
            },
        ],
    };

    let rect = Rect { x: 0, y: 0, w: 100, h: 100 };

    let panes = layout.compute(rect);
    assert_eq!(panes.len(), 3);

    assert_eq!(panes[0].0, 1);
    assert_eq!(panes[0].1.w, 50);
    assert_eq!(panes[0].1.h, 100);

    assert_eq!(panes[1].0, 2);
    assert_eq!(panes[1].1.x, 50);
    assert_eq!(panes[1].1.h, 50);

    assert_eq!(panes[2].0, 3);
    assert_eq!(panes[2].1.x, 50);
    assert_eq!(panes[2].1.y, 50);
    assert_eq!(panes[2].1.h, 50);
}

#[test]
fn test_three_way_split() {
    let layout = LayoutNode::Split {
        dir: SplitDir::Horizontal,
        gutter: 2,
        children: vec![
            Child {
                node: Box::new(pane(0)),
                size: Size { weight: 1, min_cells: None, max_cells: None },
            },
            Child {
                node: Box::new(pane(1)),
                size: Size { weight: 1, min_cells: None, max_cells: None },
            },
            Child {
                node: Box::new(pane(2)),
                size: Size { weight: 1, min_cells: None, max_cells: None },
            },
        ],
    };

    let rect = Rect { x: 0, y: 0, w: 104, h: 50 };

    let panes = layout.compute(rect);
    assert_eq!(panes.len(), 3);

    let total_width: u32 = panes.iter().map(|(_, r)| r.w).sum();
    let total_gutters = 2 * 2;
    assert_eq!(total_width + total_gutters, 104);
}

#[test]
fn test_compute_deterministic() {
    let mk = || LayoutNode::Split {
        dir: SplitDir::Horizontal,
        gutter: 1,
        children: vec![
            Child {
                node: Box::new(pane(7)),
                size: Size { weight: 3, min_cells: Some(2), max_cells: Some(40) },
            },
            Child {
                node: Box::new(pane(8)),
                size: Size { weight: 2, min_cells: None, max_cells: None },
            },
        ],
    };
    let rect = Rect { x: 5, y: 6, w: 77, h: 21 };
    let a = mk().compute(rect);
    let b = mk().compute(rect);
    assert_eq!(a.len(), b.len());
    for (pa, pb) in a.iter().zip(b.iter()) {
        assert_eq!(pa.0, pb.0);
        assert_eq!(pa.1.x, pb.1.x);
        assert_eq!(pa.1.y, pb.1.y);
        assert_eq!(pa.1.w, pb.1.w);
        assert_eq!(pa.1.h, pb.1.h);
    }
}

#[test]
fn test_fixed_children_keep_exact_size() {
    let layout = LayoutNode::Split {
        dir: SplitDir::Horizontal,
        gutter: 0,
        children: vec![
            Child {
                node: Box::new(pane(0)),
                size: Size { weight: 0, min_cells: Some(12), max_cells: Some(12) },
            },
            Child {
                node: Box::new(pane(1)),
                size: Size { weight: 0, min_cells: Some(7), max_cells: Some(7) },
            },
        ],
    };
    let rect = Rect { x: 0, y: 0, w: 100, h: 10 };
    let panes = layout.compute(rect);
    assert_eq!(panes[0].1.w, 12);
    assert_eq!(panes[1].1.w, 7);
}

#[test]
fn test_equal_weights_within_one_cell() {
    let layout = LayoutNode::Split {
        dir: SplitDir::Horizontal,
        gutter: 0,
        children: vec![
            Child {
                node: Box::new(pane(0)),
                size: Size { weight: 5, min_cells: None, max_cells: None },
            },
            Child {
                node: Box::new(pane(1)),
                size: Size { weight: 5, min_cells: None, max_cells: None },
            },
            Child {
                node: Box::new(pane(2)),
                size: Size { weight: 5, min_cells: None, max_cells: None },
            },
        ],
    };
    let rect = Rect { x: 0, y: 0, w: 101, h: 10 };
    let panes = layout.compute(rect);
    let widths: Vec<u32> = panes.iter().map(|(_, r)| r.w).collect();
    assert_eq!(widths.iter().sum::<u32>(), 101);
    for w in &widths {
        assert!(*w == 33 || *w == 34);
    }
    assert_eq!(widths, vec![34, 34, 33]);
}
