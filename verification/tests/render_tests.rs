//! Cell-level rendering support: range overlap and visible panes.

use alacritty_multiplexer::layout::Direction;
use alacritty_multiplexer::rect::Rect;
use alacritty_multiplexer::render::{compute_borders, overlap_len, ranges_overlap, visible_pane_rects};
use alacritty_multiplexer::session::{Session, SessionId};

#[test]
fn ranges_overlap_basic() {
    assert!(ranges_overlap(0, 10, 5, 10));
    assert!(ranges_overlap(5, 10, 0, 10));
    assert!(!ranges_overlap(0, 10, 10, 5));
    assert!(!ranges_overlap(10, 5, 0, 10));
    assert!(ranges_overlap(3, 1, 3, 1));
}

#[test]
fn overlap_len_values() {
    assert_eq!(overlap_len(0, 10, 5, 10), 5);
    assert_eq!(overlap_len(0, 10, 0, 10), 10);
    assert_eq!(overlap_len(0, 10, 10, 5), 0);
    assert_eq!(overlap_len(2, 4, 4, 4), 2);
}

#[test]
fn visible_rects_follow_zoom() {
    let mut session = Session::new(SessionId(0), "z");
    session.split_active(Direction::Vertical).unwrap();
    let area = Rect::new(0, 0, 80, 23);

    let all = visible_pane_rects(&session, area);
    assert_eq!(all.len(), 2);

    let idx = session.active_window;
    session.windows[idx].zoomed = true;
    let zoomed = visible_pane_rects(&session, area);
    assert_eq!(zoomed.len(), 1);
    let (id, r) = &zoomed[0];
    assert_eq!(*id, session.active_pane_id().unwrap());
    assert_eq!(*r, area);
}

#[test]
fn borders_between_adjacent_panes() {
    let mut session = Session::new(SessionId(0), "b");
    session.split_active(Direction::Vertical).unwrap();
    let area = Rect::new(0, 0, 80, 24);

    let borders = compute_borders(&session, area);
    // One vertical boundary between the two panes.
    assert_eq!(borders.len(), 1);
    let b = &borders[0];
    assert!(b.vertical);
    assert_eq!(b.x, 40);
    assert_eq!(b.y, 0);
    assert_eq!(b.length, 24);
    // Both panes touch the focused pane.
    assert!(b.is_active);

    let idx = session.active_window;
    session.windows[idx].zoomed = true;
    assert!(compute_borders(&session, area).is_empty());
}

#[test]
fn visible_rects_empty_session() {
    let mut session = Session::new(SessionId(0), "e");
    session.close_window(0).unwrap();
    let rects = visible_pane_rects(&session, Rect::new(0, 0, 10, 10));
    assert!(rects.is_empty());
}
