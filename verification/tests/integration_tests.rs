//! End-to-end lifecycles across sessions, windows and the wire.

use alacritty_multiplexer::command::MuxCommand;
use alacritty_multiplexer::error::MuxError;
use alacritty_multiplexer::layout::{Direction, PaneId};
use alacritty_multiplexer::protocol::{
    encode_client_message, ClientMessage, ServerMessage,
};
use alacritty_multiplexer::rect::Rect;
use alacritty_multiplexer::server::{socket_path_for, ServerState};
use alacritty_multiplexer::session::{Session, SessionId};
use alacritty_multiplexer::socket::MessageReader;

/// Create a session, split panes, verify layout, navigate, verify
/// active pane.
#[test]
fn session_split_navigate_lifecycle() {
    let mut session = Session::new(SessionId(0), "test");

    // Initial: one window, one pane.
    assert_eq!(session.windows.len(), 1);
    assert_eq!(session.active_pane_id(), Some(PaneId(0)));

    // Split vertically.
    let p1 = session.split_active(Direction::Vertical).unwrap();
    let win = session.active_win().unwrap();
    assert_eq!(win.layout.pane_count(), 2);
    assert!(win.layout.find_pane(PaneId(0)));
    assert!(win.layout.find_pane(p1));

    // Split again horizontally.
    let p2 = session.split_active(Direction::Horizontal).unwrap();
    let win = session.active_win().unwrap();
    assert_eq!(win.layout.pane_count(), 3);
    assert!(win.layout.find_pane(p2));

    // Verify pane rects tile the area.
    let area = Rect::new(0, 0, 80, 24);
    let rects = win.pane_rects(area);
    assert_eq!(rects.len(), 3);
    let total_area: u32 =
        rects.entries.iter().map(|(_, r)| r.width as u32 * r.height as u32).sum();
    assert_eq!(total_area, 80 * 24);

    // Navigate panes.
    let start = session.active_pane_id().unwrap();
    let idx = session.active_window;
    session.windows[idx].next_pane();
    let after_next = session.active_pane_id().unwrap();
    assert_ne!(start, after_next);

    // Cycle back.
    for _ in 0..2 {
        session.windows[idx].next_pane();
    }
    assert_eq!(session.active_pane_id().unwrap(), start);
}

/// Window creation and switching.
#[test]
fn window_creation_and_switching() {
    let mut session = Session::new(SessionId(0), "multi");

    session.add_window("editor");
    session.add_window("logs");
    assert_eq!(session.windows.len(), 3);
    assert_eq!(session.active_window, 2); // Last added is active.

    // Switch to first window.
    session.active_window = 0;
    assert_eq!(session.active_win().unwrap().name, "0");

    // Next window wraps.
    session.active_window = 2;
    session.next_window();
    assert_eq!(session.active_window, 0);

    // Prev window wraps.
    session.prev_window();
    assert_eq!(session.active_window, 2);

    // Close middle window.
    session.active_window = 1;
    session.close_window(1).unwrap();
    assert_eq!(session.windows.len(), 2);
}

/// Multiple splits create correct tree structure.
#[test]
fn complex_split_layout() {
    let mut session = Session::new(SessionId(0), "complex");

    // Split pane 0 vertically: pane 0 | pane 1.
    session.split_active(Direction::Vertical).unwrap();

    // Focus pane 0, split horizontally: pane 0 / pane 2.
    let idx = session.active_window;
    session.windows[idx].active_pane = PaneId(0);
    session.split_active(Direction::Horizontal).unwrap();

    let win = session.active_win().unwrap();
    assert_eq!(win.layout.pane_count(), 3);

    // Verify rects don't overlap.
    let area = Rect::new(0, 0, 100, 50);
    let rects = win.pane_rects(area);
    let entries = &rects.entries;
    for i in 0..entries.len() {
        for j in (i + 1)..entries.len() {
            let (id1, r1) = &entries[i];
            let (id2, r2) = &entries[j];
            // No overlap: one must be entirely left/right/above/below
            // the other.
            let no_h_overlap = r1.x + r1.width <= r2.x || r2.x + r2.width <= r1.x;
            let no_v_overlap = r1.y + r1.height <= r2.y || r2.y + r2.height <= r1.y;
            assert!(
                no_h_overlap || no_v_overlap,
                "Panes {:?} and {:?} overlap: {:?} vs {:?}",
                id1,
                id2,
                r1,
                r2
            );
        }
    }
}

#[test]
fn error_display_messages() {
    let e1 = MuxError::LayoutError("too small".to_string());
    assert!(e1.message().contains("too small"));

    let e2 = MuxError::PaneNotFound(42);
    assert!(e2.message().contains("42"));

    let e3 = MuxError::WindowNotFound(5);
    assert!(e3.message().contains("5"));

    let e4 = MuxError::SessionError("gone".to_string());
    assert!(e4.message().contains("gone"));

    let e5 = MuxError::PersistenceError("corrupt".to_string());
    assert!(e5.message().contains("corrupt"));

    let e6 = MuxError::IoError("missing".to_string());
    assert!(e6.message().contains("missing"));
}

#[test]
fn message_reader_default() {
    let reader = MessageReader::default();
    assert!(reader.buf.is_empty());
}

#[test]
fn write_and_read_message() {
    let msg = ClientMessage::Attach;
    let buf = encode_client_message(&msg).unwrap();

    let mut reader = MessageReader::new();
    reader.feed(&buf);
    let decoded = reader.try_read_client().unwrap();
    assert!(matches!(decoded, Some(ClientMessage::Attach)));
}

#[test]
fn write_and_read_server_message() {
    let msg = ServerMessage::ServerShutdown;
    let buf = alacritty_multiplexer::protocol::encode_server_message(&msg).unwrap();

    let mut reader = MessageReader::new();
    reader.feed(&buf);
    let decoded = reader.try_read_server().unwrap();
    assert!(matches!(decoded, Some(ServerMessage::ServerShutdown)));
}

#[test]
fn partial_read_returns_none() {
    let msg = ClientMessage::Detach;
    let buf = encode_client_message(&msg).unwrap();

    // Only give the reader half the data.
    let half = buf.len() / 2;
    let mut reader = MessageReader::new();
    reader.feed(&buf[..half]);
    let decoded = reader.try_read_client().unwrap();
    assert!(decoded.is_none());

    // Now give the rest.
    reader.feed(&buf[half..]);
    let decoded = reader.try_read_client().unwrap();
    assert!(matches!(decoded, Some(ClientMessage::Detach)));
}

#[test]
fn multiple_messages_in_sequence() {
    let mut buf = encode_client_message(&ClientMessage::Attach).unwrap();
    buf.extend_from_slice(&encode_client_message(&ClientMessage::Detach).unwrap());

    let mut reader = MessageReader::new();
    reader.feed(&buf);

    let msg1 = reader.try_read_client().unwrap();
    assert!(matches!(msg1, Some(ClientMessage::Attach)));

    let msg2 = reader.try_read_client().unwrap();
    assert!(matches!(msg2, Some(ClientMessage::Detach)));
}

/// Create a session, split vertical, then split horizontal on the
/// new pane: three panes whose rectangles tile a 100 by 50 area.
#[test]
fn scenario_three_way_split_tiles() {
    let mut session = Session::new(SessionId(0), "work");
    session.split_active(Direction::Vertical).unwrap();
    let idx = session.active_window;
    session.windows[idx].next_pane();
    session.split_active(Direction::Horizontal).unwrap();

    let win = session.active_win().unwrap();
    assert_eq!(win.layout.pane_count(), 3);
    let rects = win.pane_rects(Rect::new(0, 0, 100, 50));
    assert_eq!(rects.len(), 3);
    let total: u32 = rects.entries.iter().map(|(_, r)| r.width as u32 * r.height as u32).sum();
    assert_eq!(total, 5000);
}

/// Split, refocus, split, close: the closed pane leaves a valid
/// focus and zoom stays off.
#[test]
fn scenario_split_refocus_close() {
    let mut session = Session::new(SessionId(0), "s2");
    let p1 = session.split_active(Direction::Vertical).unwrap();
    assert_eq!(p1, PaneId(1));
    let idx = session.active_window;
    session.windows[idx].active_pane = PaneId(0);
    let p2 = session.split_active(Direction::Horizontal).unwrap();
    assert_eq!(p2, PaneId(2));

    // Close the active pane (still pane 0; the focus does not move
    // on a split).
    let mut srv = ServerState::new(session, socket_path_for("/tmp/alacritty/sockets", "s2"));
    srv.handle_message(ClientMessage::Command(MuxCommand::ClosePane));
    let win = srv.session.active_win().unwrap();
    assert_eq!(win.layout.pane_count(), 2);
    let active = win.active_pane;
    assert!(active == PaneId(1) || active == PaneId(2));
    assert!(!win.zoomed);
}

/// A fresh server answers an attach with a snapshot of its one
/// window, one pane session.
#[test]
fn scenario_attach_state_sync() {
    let session = Session::new(SessionId(0), "demo");
    let path = socket_path_for("/tmp/alacritty/sockets", "demo");
    let mut srv = ServerState::new(session, path);
    let responses = srv.handle_message(ClientMessage::Attach);
    assert_eq!(responses.len(), 1);
    match &responses[0] {
        ServerMessage::StateSync(s) => {
            assert_eq!(s.name, "demo");
            assert_eq!(s.windows.len(), 1);
            assert_eq!(s.windows[0].layout.pane_count(), 1);
            assert!(s.windows[0].layout.find_pane(PaneId(0)));
        },
        _ => panic!("expected a state sync"),
    }
}

/// A split then a zoom toggle produce two snapshots, the second with
/// two panes and zoom on.
#[test]
fn scenario_split_then_zoom_snapshots() {
    let session = Session::new(SessionId(0), "s4");
    let path = socket_path_for("/tmp/alacritty/sockets", "s4");
    let mut srv = ServerState::new(session, path);
    let r1 = srv.handle_message(ClientMessage::Command(MuxCommand::SplitVertical));
    assert_eq!(r1.len(), 1);
    let r2 = srv.handle_message(ClientMessage::Command(MuxCommand::ToggleZoom));
    assert_eq!(r2.len(), 1);
    match &r2[0] {
        ServerMessage::StateSync(s) => {
            let win = s.active_win().unwrap();
            assert!(win.zoomed);
            assert_eq!(win.layout.pane_count(), 2);
        },
        _ => panic!("expected a state sync"),
    }
}
