//! Server-side message handling and command dispatch.

use alacritty_multiplexer::command::MuxCommand;
use alacritty_multiplexer::protocol::{ClientMessage, ServerMessage};
use alacritty_multiplexer::server::{socket_path_for, ServerState};
use alacritty_multiplexer::session::{Session, SessionId};

fn server() -> ServerState {
    let session = Session::new(SessionId(0), "test");
    let path = socket_path_for("/tmp/alacritty/sockets", "test");
    ServerState::new(session, path)
}

#[test]
fn attach_returns_state_sync() {
    let mut srv = server();
    let responses = srv.handle_message(ClientMessage::Attach);
    assert_eq!(responses.len(), 1);
    assert!(matches!(&responses[0], ServerMessage::StateSync(_)));
}

#[test]
fn detach_returns_empty() {
    let mut srv = server();
    let responses = srv.handle_message(ClientMessage::Detach);
    assert!(responses.is_empty());
}

#[test]
fn command_returns_state_sync() {
    let mut srv = server();
    let responses = srv.handle_message(ClientMessage::Command(MuxCommand::NewWindow));
    assert_eq!(responses.len(), 1);
    assert_eq!(srv.session.windows.len(), 2);
}

#[test]
fn split_command() {
    let mut srv = server();
    srv.handle_message(ClientMessage::Command(MuxCommand::SplitVertical));
    let win = srv.session.active_win().unwrap();
    assert_eq!(win.layout.pane_count(), 2);
}

#[test]
fn close_pane_command() {
    let mut srv = server();
    srv.handle_message(ClientMessage::Command(MuxCommand::SplitVertical));
    srv.handle_message(ClientMessage::Command(MuxCommand::ClosePane));
    let win = srv.session.active_win().unwrap();
    assert_eq!(win.layout.pane_count(), 1);
}

#[test]
fn navigate_panes() {
    let mut srv = server();
    srv.handle_message(ClientMessage::Command(MuxCommand::SplitVertical));
    let before = srv.session.active_pane_id().unwrap();
    srv.handle_message(ClientMessage::Command(MuxCommand::NextPane));
    let after = srv.session.active_pane_id().unwrap();
    assert_ne!(before, after);
}

#[test]
fn window_commands() {
    let mut srv = server();
    srv.handle_message(ClientMessage::Command(MuxCommand::NewWindow));
    assert_eq!(srv.session.windows.len(), 2);

    srv.handle_message(ClientMessage::Command(MuxCommand::PrevWindow));
    assert_eq!(srv.session.active_window, 0);

    srv.handle_message(ClientMessage::Command(MuxCommand::NextWindow));
    assert_eq!(srv.session.active_window, 1);

    srv.handle_message(ClientMessage::Command(MuxCommand::SwitchToWindow(0)));
    assert_eq!(srv.session.active_window, 0);
}

#[test]
fn toggle_zoom() {
    let mut srv = server();
    assert!(!srv.session.active_win().unwrap().zoomed);
    srv.handle_message(ClientMessage::Command(MuxCommand::ToggleZoom));
    assert!(srv.session.active_win().unwrap().zoomed);
    srv.handle_message(ClientMessage::Command(MuxCommand::ToggleZoom));
    assert!(!srv.session.active_win().unwrap().zoomed);
}

#[test]
fn rename_window() {
    let mut srv = server();
    srv.handle_message(ClientMessage::Command(MuxCommand::RenameWindow("editor".to_string())));
    assert_eq!(srv.session.active_win().unwrap().name, "editor");
}

#[test]
fn close_window() {
    let mut srv = server();
    srv.handle_message(ClientMessage::Command(MuxCommand::NewWindow));
    srv.handle_message(ClientMessage::Command(MuxCommand::CloseWindow));
    assert_eq!(srv.session.windows.len(), 1);
}

#[test]
fn shutdown() {
    let mut srv = server();
    assert!(srv.running);
    srv.shutdown();
    assert!(!srv.running);
}

#[test]
fn socket_path_format() {
    let path = socket_path_for("/tmp/alacritty/sockets", "work");
    assert!(path.ends_with("work.sock"));
}

#[test]
fn input_message_returns_empty() {
    let mut srv = server();
    let responses = srv.handle_message(ClientMessage::Input(vec![65]));
    assert!(responses.is_empty());
}

#[test]
fn resize_message_returns_empty() {
    let mut srv = server();
    let responses = srv.handle_message(ClientMessage::Resize { rows: 24, cols: 80 });
    assert!(responses.is_empty());
}

#[test]
fn new_window_named_by_index() {
    let mut srv = server();
    srv.handle_message(ClientMessage::Command(MuxCommand::NewWindow));
    assert_eq!(srv.session.windows[1].name, "1");
}

#[test]
fn resize_pane_command_adjusts_ratio() {
    let mut srv = server();
    srv.handle_message(ClientMessage::Command(MuxCommand::SplitVertical));
    // Focus stays on the first child after a split; a positive
    // delta grows it by one step of fifty thousandths.
    srv.handle_message(ClientMessage::Command(MuxCommand::ResizePane(
        alacritty_multiplexer::layout::Direction::Vertical,
        1,
    )));
    match &srv.session.active_win().unwrap().layout {
        alacritty_multiplexer::layout::LayoutNode::Split { ratio, .. } => {
            assert_eq!(*ratio, 550);
        },
        _ => panic!("expected split"),
    }
}
