//! Session management: window lifecycle and navigation.

use alacritty_multiplexer::layout::Direction;
use alacritty_multiplexer::session::{Session, SessionId};

fn session() -> Session {
    Session::new(SessionId(0), "test")
}

#[test]
fn new_session_has_one_window() {
    let s = session();
    assert_eq!(s.windows.len(), 1);
    assert_eq!(s.active_window, 0);
}

#[test]
fn add_window_switches_active() {
    let mut s = session();
    s.add_window("second");
    assert_eq!(s.windows.len(), 2);
    assert_eq!(s.active_window, 1);
}

#[test]
fn close_window_adjusts_active() {
    let mut s = session();
    s.add_window("second");
    s.add_window("third");
    s.active_window = 2;
    s.close_window(2).unwrap();
    assert_eq!(s.active_window, 1);
}

#[test]
fn close_invalid_window() {
    let mut s = session();
    assert!(s.close_window(99).is_err());
}

#[test]
fn next_window_wraps() {
    let mut s = session();
    s.add_window("second");
    s.active_window = 1;
    s.next_window();
    assert_eq!(s.active_window, 0);
}

#[test]
fn prev_window_wraps() {
    let mut s = session();
    s.add_window("second");
    s.active_window = 0;
    s.prev_window();
    assert_eq!(s.active_window, 1);
}

#[test]
fn active_pane_id_returns_some() {
    let s = session();
    assert!(s.active_pane_id().is_some());
}

#[test]
fn split_active_works() {
    let mut s = session();
    let new_id = s.split_active(Direction::Vertical).unwrap();
    let win = s.active_win().unwrap();
    assert!(win.layout.find_pane(new_id));
}

#[test]
fn well_formed_checks() {
    let mut s = Session::new(SessionId(0), "ok");
    assert!(s.is_well_formed());
    s.split_active(Direction::Vertical).unwrap();
    s.add_window("w1");
    assert!(s.is_well_formed());

    // An out-of-range focus index is rejected.
    s.active_window = 7;
    assert!(!s.is_well_formed());
    s.active_window = 0;
    assert!(s.is_well_formed());

    // A focus on a pane the layout does not hold is rejected.
    s.windows[0].active_pane = alacritty_multiplexer::layout::PaneId(99);
    assert!(!s.is_well_formed());
}

#[test]
fn empty_session_returns_none() {
    let mut s = Session::new(SessionId(0), "s");
    s.close_window(0).unwrap();
    assert!(s.is_empty());
    assert!(s.active_win().is_none());
    assert!(s.active_win_mut().is_none());
    assert!(s.active_pane_id().is_none());
    assert!(s.active_layout().is_none());
}

#[test]
fn empty_session_navigate_noop() {
    let mut s = Session::new(SessionId(0), "s");
    s.close_window(0).unwrap();
    // Should not panic on empty session.
    s.next_window();
    s.prev_window();
    assert!(s.is_empty());
}

#[test]
fn split_active_on_empty_session_errors() {
    let mut s = Session::new(SessionId(0), "s");
    s.close_window(0).unwrap();
    assert!(s.split_active(Direction::Vertical).is_err());
}
