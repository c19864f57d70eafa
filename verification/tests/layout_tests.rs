//! Layout tree queries and rectangle computation.

use alacritty_multiplexer::layout::{Direction, LayoutNode, PaneId};
use alacritty_multiplexer::rect::Rect;

fn leaf(id: u32) -> LayoutNode {
    LayoutNode::Leaf { pane_id: PaneId(id) }
}

fn split(dir: Direction, a: LayoutNode, b: LayoutNode) -> LayoutNode {
    LayoutNode::Split { direction: dir, ratio: 500, first: Box::new(a), second: Box::new(b) }
}

#[test]
fn find_pane_in_leaf() {
    let tree = leaf(1);
    assert!(tree.find_pane(PaneId(1)));
    assert!(!tree.find_pane(PaneId(2)));
}

#[test]
fn find_pane_in_split() {
    let tree = split(Direction::Vertical, leaf(1), leaf(2));
    assert!(tree.find_pane(PaneId(1)));
    assert!(tree.find_pane(PaneId(2)));
    assert!(!tree.find_pane(PaneId(3)));
}

#[test]
fn pane_ids_order() {
    let tree =
        split(Direction::Vertical, leaf(1), split(Direction::Horizontal, leaf(2), leaf(3)));
    assert_eq!(tree.pane_ids(), vec![PaneId(1), PaneId(2), PaneId(3)]);
}

#[test]
fn pane_count_nested() {
    let tree =
        split(Direction::Horizontal, split(Direction::Vertical, leaf(1), leaf(2)), leaf(3));
    assert_eq!(tree.pane_count(), 3);
}

#[test]
fn calculate_rects_single_pane() {
    let tree = leaf(1);
    let area = Rect::new(0, 0, 80, 24);
    let rects = tree.calculate_rects(area);
    assert_eq!(rects.len(), 1);
    assert_eq!(rects.get(PaneId(1)), Some(area));
}

#[test]
fn calculate_rects_tiles_area() {
    let tree = split(Direction::Vertical, leaf(1), leaf(2));
    let area = Rect::new(0, 0, 80, 24);
    let rects = tree.calculate_rects(area);

    let r1 = rects.get(PaneId(1)).unwrap();
    let r2 = rects.get(PaneId(2)).unwrap();
    assert_eq!(r1.width + r2.width, area.width);
    assert_eq!(r1.height, area.height);
    assert_eq!(r2.height, area.height);
}

#[test]
fn calculate_rects_deep_nesting() {
    let tree = split(
        Direction::Horizontal,
        split(Direction::Vertical, leaf(1), leaf(2)),
        split(Direction::Vertical, leaf(3), leaf(4)),
    );
    let area = Rect::new(0, 0, 100, 50);
    let rects = tree.calculate_rects(area);
    assert_eq!(rects.len(), 4);

    // Sum of all pane areas should equal total area.
    let total: u32 =
        rects.entries.iter().map(|(_, r)| r.width as u32 * r.height as u32).sum();
    assert_eq!(total, area.width as u32 * area.height as u32);
}

#[test]
fn calculate_rects_width_1() {
    let tree = leaf(0);
    let area = Rect::new(0, 0, 1, 1);
    let rects = tree.calculate_rects(area);
    assert_eq!(rects.get(PaneId(0)), Some(area));
}

#[test]
fn layout_rects_varied_ratio() {
    let tree = LayoutNode::Split {
        direction: Direction::Vertical,
        ratio: 300,
        first: Box::new(leaf(0)),
        second: Box::new(leaf(1)),
    };
    let area = Rect::new(0, 0, 100, 50);
    let rects = tree.calculate_rects(area);
    let total: u32 =
        rects.entries.iter().map(|(_, r)| r.width as u32 * r.height as u32).sum();
    assert_eq!(total, 100 * 50);
}
