//! Session serialization and the persistence directory layout.

use alacritty_multiplexer::layout::Direction;
use alacritty_multiplexer::persistence::{
    deserialize_session, dirs_or_default, serialize_session, session_dir, socket_dir,
};
use alacritty_multiplexer::session::{Session, SessionId};

#[test]
fn roundtrip_serialize() {
    let session = Session::new(SessionId(0), "test");
    let json = serialize_session(&session).unwrap();
    let restored = deserialize_session(&json).unwrap();
    assert_eq!(restored.name, "test");
    assert_eq!(restored.windows.len(), 1);
}

#[test]
fn deserialize_invalid_json_errors() {
    let result = deserialize_session("not valid json");
    assert!(result.is_err());
}

#[test]
fn persistence_roundtrip() {
    let mut session = Session::new(SessionId(0), "persist_test");
    session.split_active(Direction::Vertical).unwrap();
    session.add_window("second");

    let json = serialize_session(&session).unwrap();
    let restored = deserialize_session(&json).unwrap();

    assert_eq!(restored.name, "persist_test");
    assert_eq!(restored.windows.len(), 2);
    assert_eq!(restored.windows[0].layout.pane_count(), 2);
    assert_eq!(restored.windows[1].layout.pane_count(), 1);
}

#[test]
fn serialized_session_is_valid_json() {
    let session = Session::new(SessionId(5), "pretty");
    let json = serialize_session(&session).unwrap();
    let v: serde_json::Value = serde_json::from_str(&json).unwrap();
    assert_eq!(v["name"], "pretty");
    assert_eq!(v["id"]["0"], 5);
    assert_eq!(v["active_window"], 0);
    assert_eq!(v["next_window_id"], 1);
}

#[test]
fn roundtrip_preserves_focus_and_ratio() {
    let mut session = Session::new(SessionId(0), "state");
    session.split_active(Direction::Horizontal).unwrap();
    let idx = session.active_window;
    session.windows[idx].next_pane();
    let focused = session.active_pane_id().unwrap();

    let json = serialize_session(&session).unwrap();
    let restored = deserialize_session(&json).unwrap();
    assert_eq!(restored.active_pane_id().unwrap(), focused);
    assert_eq!(restored.windows[idx].next_pane_id, session.windows[idx].next_pane_id);
}

#[test]
fn blank_session_roundtrip() {
    // The degenerate session whose decoding the contracts owe.
    let mut s = Session::new(SessionId(0), "");
    s.close_window(0).unwrap();
    s.next_window_id = 0;
    let json = serialize_session(&s).unwrap();
    let restored = deserialize_session(&json).unwrap();
    assert!(restored.is_empty());
    assert_eq!(restored.name, "");
    assert_eq!(restored.next_window_id, 0);
}

#[test]
fn data_dir_resolution() {
    assert_eq!(dirs_or_default(Some("/data"), Some("/home/u")), "/data/alacritty");
    assert_eq!(dirs_or_default(None, Some("/home/u")), "/home/u/.local/share/alacritty");
    assert_eq!(dirs_or_default(None, None), "/tmp/alacritty");
}

#[test]
fn persistence_directories() {
    let base = dirs_or_default(None, None);
    assert_eq!(session_dir(&base), "/tmp/alacritty/sessions");
    assert_eq!(socket_dir(&base), "/tmp/alacritty/sockets");
}
