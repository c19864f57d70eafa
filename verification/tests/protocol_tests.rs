//! Framed message encoding and decoding.

use alacritty_multiplexer::command::MuxCommand;
use alacritty_multiplexer::layout::PaneId;
use alacritty_multiplexer::protocol::{
    decode_client_message, decode_server_message, encode_client_message,
    encode_server_message, ClientMessage, ServerMessage,
};
use alacritty_multiplexer::session::{Session, SessionId};

#[test]
fn roundtrip_client_message() {
    let msg = ClientMessage::Resize { rows: 24, cols: 80 };
    let encoded = encode_client_message(&msg).unwrap();
    let (decoded, consumed) = decode_client_message(&encoded).unwrap();
    assert_eq!(consumed, encoded.len());
    match decoded {
        ClientMessage::Resize { rows, cols } => {
            assert_eq!(rows, 24);
            assert_eq!(cols, 80);
        },
        _ => panic!("wrong variant"),
    }
}

#[test]
fn roundtrip_server_message() {
    let msg = ServerMessage::PaneExited(PaneId(42));
    let encoded = encode_server_message(&msg).unwrap();
    let (decoded, _) = decode_server_message(&encoded).unwrap();
    match decoded {
        ServerMessage::PaneExited(id) => assert_eq!(id, PaneId(42)),
        _ => panic!("wrong variant"),
    }
}

#[test]
fn decode_incomplete_returns_none() {
    let msg = ClientMessage::Attach;
    let encoded = encode_client_message(&msg).unwrap();
    // Partial buffer.
    let partial = &encoded[..encoded.len() - 1];
    assert!(decode_client_message(partial).is_none());
}

#[test]
fn decode_too_short_returns_none() {
    assert!(decode_client_message(&[0, 0]).is_none());
}

#[test]
fn encode_input_message() {
    let msg = ClientMessage::Input(vec![27, 91, 65]); // ESC [ A
    let encoded = encode_client_message(&msg).unwrap();
    let (decoded, _) = decode_client_message(&encoded).unwrap();
    match decoded {
        ClientMessage::Input(data) => assert_eq!(data, vec![27, 91, 65]),
        _ => panic!("wrong variant"),
    }
}

#[test]
fn encode_command_message() {
    let msg = ClientMessage::Command(MuxCommand::SplitVertical);
    let encoded = encode_client_message(&msg).unwrap();
    let (decoded, _) = decode_client_message(&encoded).unwrap();
    match decoded {
        ClientMessage::Command(cmd) => assert_eq!(cmd, MuxCommand::SplitVertical),
        _ => panic!("wrong variant"),
    }
}

#[test]
fn protocol_state_sync_roundtrip() {
    let session = Session::new(SessionId(0), "sync_test");
    let msg = ServerMessage::StateSync(session);
    let encoded = encode_server_message(&msg).unwrap();
    let (decoded, consumed) = decode_server_message(&encoded).unwrap();
    assert_eq!(consumed, encoded.len());
    match decoded {
        ServerMessage::StateSync(s) => assert_eq!(s.name, "sync_test"),
        _ => panic!("wrong variant"),
    }
}

#[test]
fn protocol_output_roundtrip() {
    let msg = ServerMessage::Output { pane_id: PaneId(3), data: vec![65, 66, 67] };
    let encoded = encode_server_message(&msg).unwrap();
    let (decoded, _) = decode_server_message(&encoded).unwrap();
    match decoded {
        ServerMessage::Output { pane_id, data } => {
            assert_eq!(pane_id, PaneId(3));
            assert_eq!(data, vec![65, 66, 67]);
        },
        _ => panic!("wrong variant"),
    }
}

#[test]
fn protocol_server_shutdown_roundtrip() {
    let msg = ServerMessage::ServerShutdown;
    let encoded = encode_server_message(&msg).unwrap();
    let (decoded, _) = decode_server_message(&encoded).unwrap();
    assert!(matches!(decoded, ServerMessage::ServerShutdown));
}

#[test]
fn protocol_detach_roundtrip() {
    let msg = ClientMessage::Detach;
    let encoded = encode_client_message(&msg).unwrap();
    let (decoded, _) = decode_client_message(&encoded).unwrap();
    assert!(matches!(decoded, ClientMessage::Detach));
}

#[test]
fn protocol_invalid_json_returns_none() {
    // Valid length header but garbage payload.
    let mut buf = vec![0, 0, 0, 5]; // length = 5
    buf.extend_from_slice(b"xxxxx");
    assert!(decode_client_message(&buf).is_none());
}

#[test]
fn roundtrip_every_command() {
    let commands = vec![
        MuxCommand::SplitHorizontal,
        MuxCommand::SplitVertical,
        MuxCommand::ClosePane,
        MuxCommand::NextPane,
        MuxCommand::PrevPane,
        MuxCommand::NavigatePane(alacritty_multiplexer::layout::Direction::Horizontal),
        MuxCommand::NavigatePane(alacritty_multiplexer::layout::Direction::Vertical),
        MuxCommand::NewWindow,
        MuxCommand::CloseWindow,
        MuxCommand::NextWindow,
        MuxCommand::PrevWindow,
        MuxCommand::SwitchToWindow(0),
        MuxCommand::SwitchToWindow(9),
        MuxCommand::RenameWindow("test".to_string()),
        MuxCommand::DetachSession,
        MuxCommand::ToggleZoom,
        MuxCommand::ResizePane(alacritty_multiplexer::layout::Direction::Horizontal, 5),
        MuxCommand::ResizePane(alacritty_multiplexer::layout::Direction::Vertical, -3),
        MuxCommand::ScrollbackMode,
    ];
    for cmd in commands {
        let expect = cmd.clone();
        let msg = ClientMessage::Command(cmd);
        let encoded = encode_client_message(&msg).unwrap();
        let (decoded, consumed) = decode_client_message(&encoded).unwrap();
        assert_eq!(consumed, encoded.len());
        match decoded {
            ClientMessage::Command(c) => assert_eq!(c, expect),
            _ => panic!("wrong variant"),
        }
    }
}

#[test]
fn roundtrip_unicode_rename() {
    // Names with escapes, accents and a character beyond the basic
    // plane survive the wire encoding.
    let name = "caf\u{e9} \"quoted\" back\\slash \u{1f600}".to_string();
    let msg = ClientMessage::Command(MuxCommand::RenameWindow(name.clone()));
    let encoded = encode_client_message(&msg).unwrap();
    let (decoded, _) = decode_client_message(&encoded).unwrap();
    match decoded {
        ClientMessage::Command(MuxCommand::RenameWindow(n)) => assert_eq!(n, name),
        _ => panic!("wrong variant"),
    }
}

#[test]
fn trailing_bytes_after_frame_are_kept() {
    // Only the first frame is consumed; the rest of the buffer is
    // reported via the consumed count.
    let msg = ClientMessage::Attach;
    let mut encoded = encode_client_message(&msg).unwrap();
    let tail = encode_client_message(&ClientMessage::Detach).unwrap();
    let first_len = encoded.len();
    encoded.extend_from_slice(&tail);
    let (decoded, consumed) = decode_client_message(&encoded).unwrap();
    assert!(matches!(decoded, ClientMessage::Attach));
    assert_eq!(consumed, first_len);
}

#[test]
fn payload_is_valid_json() {
    // The wire payload after the length prefix parses as JSON with
    // the expected structure.
    let msg = ClientMessage::Resize { rows: 24, cols: 80 };
    let encoded = encode_client_message(&msg).unwrap();
    let payload = &encoded[4..];
    let v: serde_json::Value = serde_json::from_slice(payload).unwrap();
    assert_eq!(v["Resize"]["rows"], 24);
    assert_eq!(v["Resize"]["cols"], 80);

    let msg = ClientMessage::Command(MuxCommand::SwitchToWindow(7));
    let encoded = encode_client_message(&msg).unwrap();
    let v: serde_json::Value = serde_json::from_slice(&encoded[4..]).unwrap();
    assert_eq!(v["Command"]["SwitchToWindow"], 7);

    let msg = ClientMessage::Attach;
    let encoded = encode_client_message(&msg).unwrap();
    let v: serde_json::Value = serde_json::from_slice(&encoded[4..]).unwrap();
    assert_eq!(v, serde_json::Value::String("Attach".to_string()));
}

#[test]
fn session_payload_is_valid_json() {
    let session = Session::new(SessionId(3), "demo");
    let msg = ServerMessage::StateSync(session);
    let encoded = encode_server_message(&msg).unwrap();
    let v: serde_json::Value = serde_json::from_slice(&encoded[4..]).unwrap();
    assert_eq!(v["StateSync"]["name"], "demo");
    assert_eq!(v["StateSync"]["id"]["0"], 3);
    assert_eq!(v["StateSync"]["windows"][0]["name"], "0");
    assert!(v["StateSync"]["windows"][0]["layout"]["Leaf"].is_object());
}
