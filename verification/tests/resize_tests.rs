//! Resize operations on the layout tree.

use alacritty_multiplexer::layout::{Direction, LayoutNode, PaneId};
use alacritty_multiplexer::resize::resize_pane;
use alacritty_multiplexer::split::split_pane;
use alacritty_multiplexer::{MAX_RATIO, MIN_RATIO};

fn leaf(id: u32) -> LayoutNode {
    LayoutNode::Leaf { pane_id: PaneId(id) }
}

fn vsplit(a: LayoutNode, b: LayoutNode) -> LayoutNode {
    LayoutNode::Split {
        direction: Direction::Vertical,
        ratio: 500,
        first: Box::new(a),
        second: Box::new(b),
    }
}

fn get_ratio(node: &LayoutNode) -> u16 {
    match node {
        LayoutNode::Split { ratio, .. } => *ratio,
        _ => panic!("expected split"),
    }
}

#[test]
fn resize_grows_first_child() {
    let mut tree = vsplit(leaf(1), leaf(2));
    resize_pane(&mut tree, PaneId(1), 100).unwrap();
    assert_eq!(get_ratio(&tree), 600);
}

#[test]
fn resize_shrinks_for_second_child() {
    let mut tree = vsplit(leaf(1), leaf(2));
    resize_pane(&mut tree, PaneId(2), 100).unwrap();
    // Growing pane 2 means shrinking ratio (first child gets smaller).
    assert_eq!(get_ratio(&tree), 400);
}

#[test]
fn resize_clamps_min() {
    let mut tree = vsplit(leaf(1), leaf(2));
    resize_pane(&mut tree, PaneId(2), 1000).unwrap();
    assert!(get_ratio(&tree) >= MIN_RATIO);
}

#[test]
fn resize_clamps_max() {
    let mut tree = vsplit(leaf(1), leaf(2));
    resize_pane(&mut tree, PaneId(1), 1000).unwrap();
    assert!(get_ratio(&tree) <= MAX_RATIO);
}

#[test]
fn resize_not_found() {
    let mut tree = vsplit(leaf(1), leaf(2));
    let result = resize_pane(&mut tree, PaneId(99), 100);
    assert!(result.is_err());
}

#[test]
fn resize_deeply_nested() {
    let mut tree = leaf(0);
    let (t, _) = split_pane(tree, PaneId(0), Direction::Vertical, PaneId(1)).unwrap();
    tree = t;
    let (t, _) = split_pane(tree, PaneId(0), Direction::Horizontal, PaneId(2)).unwrap();
    tree = t;
    let (t, _) = split_pane(tree, PaneId(2), Direction::Vertical, PaneId(3)).unwrap();
    tree = t;

    // Resize a deeply nested pane.
    resize_pane(&mut tree, PaneId(3), 150).unwrap();

    // All ratios should still be in bounds.
    check_all_ratios(&tree);
}

#[test]
fn resize_exact_clamp_value() {
    // A delta far beyond the range lands exactly on the bound.
    let mut tree = vsplit(leaf(1), leaf(2));
    resize_pane(&mut tree, PaneId(1), 5000).unwrap();
    assert_eq!(get_ratio(&tree), MAX_RATIO);
    resize_pane(&mut tree, PaneId(1), -5000).unwrap();
    assert_eq!(get_ratio(&tree), MIN_RATIO);
}

/// Helper to check all ratios are within bounds.
fn check_all_ratios(node: &LayoutNode) {
    match node {
        LayoutNode::Leaf { .. } => {},
        LayoutNode::Split { ratio, first, second, .. } => {
            assert!(*ratio >= MIN_RATIO && *ratio <= MAX_RATIO, "ratio out of bounds: {ratio}");
            check_all_ratios(first);
            check_all_ratios(second);
        },
    }
}
