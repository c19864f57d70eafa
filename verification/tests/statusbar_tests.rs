//! Status bar content generation and rendering.

use alacritty_multiplexer::session::{Session, SessionId};
use alacritty_multiplexer::statusbar::{
    build_status, render_status_line, StatusBarContent, WindowEntry,
};

fn session() -> Session {
    Session::new(SessionId(0), "work")
}

#[test]
fn build_status_single_window() {
    let s = session();
    let status = build_status(&s);
    assert_eq!(status.session_name, "work");
    assert_eq!(status.windows.len(), 1);
    assert!(status.windows[0].is_active);
}

#[test]
fn build_status_multiple_windows() {
    let mut s = session();
    s.add_window("vim");
    s.add_window("logs");

    let status = build_status(&s);
    assert_eq!(status.windows.len(), 3);

    let active_count = status.windows.iter().filter(|w| w.is_active).count();
    assert_eq!(active_count, 1);
}

#[test]
fn pane_info_format() {
    let s = session();
    let status = build_status(&s);
    assert_eq!(status.pane_info, "pane 1/1");
}

#[test]
fn render_status_line_basic() {
    let content = StatusBarContent {
        session_name: "s".to_string(),
        windows: vec![WindowEntry { index: 0, name: "w".to_string(), is_active: true }],
        pane_info: "pane 1/1".to_string(),
    };
    let line = render_status_line(&content, 40);
    assert!(line.contains("[s]"));
    assert!(line.contains("0:w*"));
    assert!(line.contains("pane 1/1"));
}

#[test]
fn status_bar_zero_width() {
    let content = StatusBarContent {
        session_name: "s".to_string(),
        windows: vec![WindowEntry { index: 0, name: "w".to_string(), is_active: true }],
        pane_info: "p".to_string(),
    };
    let line = render_status_line(&content, 0);
    // Should still render without panicking.
    assert!(line.contains("[s]"));
}

#[test]
fn status_bar_narrow_width() {
    let content = StatusBarContent {
        session_name: "session".to_string(),
        windows: vec![
            WindowEntry { index: 0, name: "editor".to_string(), is_active: true },
            WindowEntry { index: 1, name: "shell".to_string(), is_active: false },
        ],
        pane_info: "pane 1/2".to_string(),
    };
    let line = render_status_line(&content, 5);
    // Width smaller than content: should not panic.
    assert!(!line.is_empty());
}

#[test]
fn build_status_empty_session() {
    let mut session = Session::new(SessionId(0), "empty");
    session.close_window(0).unwrap();
    let status = build_status(&session);
    assert!(status.windows.is_empty());
    assert!(status.pane_info.is_empty());
}

#[test]
fn render_status_line_pads_to_width() {
    let content = StatusBarContent {
        session_name: "s".to_string(),
        windows: vec![WindowEntry { index: 0, name: "w".to_string(), is_active: false }],
        pane_info: "p".to_string(),
    };
    // left "[s]" (3) + center " 0:w" (4) + right "p" (1) = 8 used.
    let line = render_status_line(&content, 20);
    assert_eq!(line.chars().count(), 20);
    assert_eq!(line, "[s] 0:w            p");
}
