//! Window management: splitting, closing, focus cycling.

use alacritty_multiplexer::layout::Direction;
use alacritty_multiplexer::rect::Rect;
use alacritty_multiplexer::window::{MuxWindow, WindowId};

#[test]
fn new_window_has_one_pane() {
    let w = MuxWindow::new(WindowId(0), "test");
    assert_eq!(w.layout.pane_count(), 1);
    assert_eq!(w.panes.len(), 1);
}

#[test]
fn split_adds_pane() {
    let mut w = MuxWindow::new(WindowId(0), "test");
    let initial = w.active_pane;
    let new_id = w.split(initial, Direction::Vertical).unwrap();
    assert_eq!(w.layout.pane_count(), 2);
    assert_eq!(w.panes.len(), 2);
    assert!(w.panes.iter().any(|p| p.id == new_id));
}

#[test]
fn close_pane_removes() {
    let mut w = MuxWindow::new(WindowId(0), "test");
    let p0 = w.active_pane;
    let p1 = w.split(p0, Direction::Horizontal).unwrap();
    let empty = w.close_pane(p1).unwrap();
    assert!(!empty);
    assert_eq!(w.layout.pane_count(), 1);
}

#[test]
fn close_last_pane_returns_empty() {
    let mut w = MuxWindow::new(WindowId(0), "test");
    let empty = w.close_pane(w.active_pane).unwrap();
    assert!(empty);
}

#[test]
fn next_prev_pane_cycles() {
    let mut w = MuxWindow::new(WindowId(0), "test");
    let p0 = w.active_pane;
    let p1 = w.split(p0, Direction::Vertical).unwrap();
    let _p2 = w.split(p1, Direction::Vertical).unwrap();

    // Start at p0.
    w.active_pane = p0;
    w.next_pane();
    assert_ne!(w.active_pane, p0);

    // Cycle all the way around.
    let start = w.active_pane;
    for _ in 0..w.layout.pane_count() {
        w.next_pane();
    }
    assert_eq!(w.active_pane, start);
}

#[test]
fn prev_pane_wraps() {
    let mut w = MuxWindow::new(WindowId(0), "test");
    let p0 = w.active_pane;
    let _p1 = w.split(p0, Direction::Vertical).unwrap();

    w.active_pane = p0;
    w.prev_pane();
    // Should wrap to last pane.
    assert_ne!(w.active_pane, p0);
}

#[test]
fn window_pane_rects_zoomed() {
    let mut w = MuxWindow::new(WindowId(0), "test");
    let p0 = w.active_pane;
    w.split(p0, Direction::Vertical).unwrap();
    w.zoomed = true;

    let area = Rect::new(0, 0, 80, 24);
    let rects = w.pane_rects(area);
    // Zoomed mode is not handled by pane_rects: it reports all
    // panes; the render layer honors the zoom flag.
    assert_eq!(rects.len(), 2);
}

#[test]
fn split_multiple_and_verify_order() {
    let mut w = MuxWindow::new(WindowId(0), "test");
    let p0 = w.active_pane;
    let p1 = w.split(p0, Direction::Vertical).unwrap();
    let _p2 = w.split(p1, Direction::Horizontal).unwrap();

    let order = w.pane_order();
    assert_eq!(order.len(), 3);
    // Depth-first: p0 should come first.
    assert_eq!(order[0], p0);
}
