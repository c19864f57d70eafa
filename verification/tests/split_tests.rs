//! Split and close operations on the layout tree.

use alacritty_multiplexer::layout::{Direction, LayoutNode, PaneId};
use alacritty_multiplexer::split::{close_pane, split_pane};

fn leaf(id: u32) -> LayoutNode {
    LayoutNode::Leaf { pane_id: PaneId(id) }
}

#[test]
fn split_increases_count() {
    let tree = leaf(1);
    let (tree, new_id) = split_pane(tree, PaneId(1), Direction::Vertical, PaneId(2)).unwrap();
    assert_eq!(tree.pane_count(), 2);
    assert_eq!(new_id, PaneId(2));
}

#[test]
fn split_not_found() {
    let tree = leaf(1);
    let result = split_pane(tree, PaneId(99), Direction::Vertical, PaneId(2));
    assert!(result.is_err());
}

#[test]
fn close_removes_pane() {
    let tree = LayoutNode::Split {
        direction: Direction::Vertical,
        ratio: 500,
        first: Box::new(leaf(1)),
        second: Box::new(leaf(2)),
    };
    let remaining = close_pane(tree, PaneId(1)).unwrap().unwrap();
    assert_eq!(remaining.pane_count(), 1);
    assert!(remaining.find_pane(PaneId(2)));
}

#[test]
fn close_last_pane() {
    let tree = leaf(1);
    let remaining = close_pane(tree, PaneId(1)).unwrap();
    assert!(remaining.is_none());
}

#[test]
fn close_not_found() {
    let tree = leaf(1);
    let result = close_pane(tree, PaneId(99));
    assert!(result.is_err());
}

#[test]
fn split_then_close_roundtrip() {
    let tree = leaf(1);
    let (tree, _) = split_pane(tree, PaneId(1), Direction::Horizontal, PaneId(2)).unwrap();
    assert_eq!(tree.pane_count(), 2);

    let tree = close_pane(tree, PaneId(2)).unwrap().unwrap();
    assert_eq!(tree.pane_count(), 1);
    assert!(tree.find_pane(PaneId(1)));
}

#[test]
fn split_then_close_restores_structure() {
    // Closing the pane a split created restores the original tree
    // exactly, ratios included.
    let tree = LayoutNode::Split {
        direction: Direction::Vertical,
        ratio: 300,
        first: Box::new(leaf(1)),
        second: Box::new(leaf(2)),
    };
    let (tree, created) = split_pane(tree, PaneId(2), Direction::Horizontal, PaneId(7)).unwrap();
    assert_eq!(tree.pane_count(), 3);
    let tree = close_pane(tree, created).unwrap().unwrap();
    assert_eq!(tree.pane_count(), 2);
    match &tree {
        LayoutNode::Split { ratio, first, second, .. } => {
            assert_eq!(*ratio, 300);
            assert!(matches!(**first, LayoutNode::Leaf { pane_id: PaneId(1) }));
            assert!(matches!(**second, LayoutNode::Leaf { pane_id: PaneId(2) }));
        },
        _ => panic!("expected split"),
    }
}
