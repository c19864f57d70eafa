//! Leader-key input interpreter.

use alacritty_multiplexer::command::{LeaderKeyConfig, MuxCommand};
use alacritty_multiplexer::mux_input::{
    default_bindings, parse_key_spec, process_mux_key, KeyInput, Modifiers, MuxInputState,
    MuxKeyResult,
};

fn no_mods() -> Modifiers {
    Modifiers { control: false, shift: false, alt: false, super_key: false }
}

fn ctrl() -> Modifiers {
    Modifiers { control: true, shift: false, alt: false, super_key: false }
}

#[test]
fn default_bindings_has_split() {
    let b = default_bindings();
    assert_eq!(b.get("\""), Some(MuxCommand::SplitHorizontal));
    assert_eq!(b.get("%"), Some(MuxCommand::SplitVertical));
    assert_eq!(b.get("c"), Some(MuxCommand::NewWindow));
    assert_eq!(b.get("d"), Some(MuxCommand::DetachSession));
}

#[test]
fn default_bindings_has_window_numbers() {
    let b = default_bindings();
    for i in 0..=9u8 {
        assert_eq!(b.get(&i.to_string()), Some(MuxCommand::SwitchToWindow(i)));
    }
}

#[test]
fn parse_key_spec_ctrl_space() {
    let parts = vec!["Control".to_string(), "Space".to_string()];
    let (mods, key) = parse_key_spec(&parts);
    assert!(mods.control);
    assert_eq!(key, "Space");
}

#[test]
fn parse_key_spec_ctrl_b() {
    let parts = vec!["Control".to_string(), "b".to_string()];
    let (mods, key) = parse_key_spec(&parts);
    assert!(mods.control);
    assert_eq!(key, "b");
}

#[test]
fn leader_enters_command_mode() {
    // Normal state, receive Control-Space: state becomes
    // WaitingForCommand, no command emitted.
    let mut state = MuxInputState::Normal;
    let config = LeaderKeyConfig::default();
    let bindings = default_bindings();
    let r = process_mux_key(&mut state, KeyInput::Space, ctrl(), 0, &config, &bindings);
    assert!(matches!(r, MuxKeyResult::Consumed(None)));
    assert!(matches!(state, MuxInputState::WaitingForCommand { .. }));
}

#[test]
fn leader_then_command_key_emits() {
    // Leader, then "%" within the timeout: SplitVertical, back to
    // Normal.
    let mut state = MuxInputState::Normal;
    let config = LeaderKeyConfig::default();
    let bindings = default_bindings();
    process_mux_key(&mut state, KeyInput::Space, ctrl(), 0, &config, &bindings);
    let r = process_mux_key(&mut state, KeyInput::Char('%'), no_mods(), 500, &config, &bindings);
    match r {
        MuxKeyResult::Consumed(Some(cmd)) => assert_eq!(cmd, MuxCommand::SplitVertical),
        _ => panic!("expected a command"),
    }
    assert!(matches!(state, MuxInputState::Normal));
}

#[test]
fn leader_timeout_forwards() {
    // Leader, wait past the timeout, then "x": forwarded, no
    // ClosePane, because the leader window expired.
    let mut state = MuxInputState::Normal;
    let config = LeaderKeyConfig::default();
    let bindings = default_bindings();
    process_mux_key(&mut state, KeyInput::Space, ctrl(), 0, &config, &bindings);
    let r = process_mux_key(&mut state, KeyInput::Char('x'), no_mods(), 1500, &config, &bindings);
    assert!(matches!(r, MuxKeyResult::Forward));
    assert!(matches!(state, MuxInputState::Normal));
}

#[test]
fn double_tap_leader_forwards() {
    let mut state = MuxInputState::Normal;
    let config = LeaderKeyConfig::default();
    let bindings = default_bindings();
    process_mux_key(&mut state, KeyInput::Space, ctrl(), 0, &config, &bindings);
    let r = process_mux_key(&mut state, KeyInput::Space, ctrl(), 100, &config, &bindings);
    assert!(matches!(r, MuxKeyResult::Forward));
    assert!(matches!(state, MuxInputState::Normal));
}

#[test]
fn unknown_key_after_leader_consumed() {
    let mut state = MuxInputState::Normal;
    let config = LeaderKeyConfig::default();
    let bindings = default_bindings();
    process_mux_key(&mut state, KeyInput::Char('b'), ctrl(), 0, &config, &bindings);
    let r = process_mux_key(&mut state, KeyInput::Char('Q'), no_mods(), 10, &config, &bindings);
    assert!(matches!(r, MuxKeyResult::Consumed(None)));
    assert!(matches!(state, MuxInputState::Normal));
}

#[test]
fn plain_key_forwards_in_normal_mode() {
    let mut state = MuxInputState::Normal;
    let config = LeaderKeyConfig::default();
    let bindings = default_bindings();
    let r = process_mux_key(&mut state, KeyInput::Char('a'), no_mods(), 0, &config, &bindings);
    assert!(matches!(r, MuxKeyResult::Forward));
    assert!(matches!(state, MuxInputState::Normal));
}

#[test]
fn ctrl_arrow_maps_to_resize() {
    let mut state = MuxInputState::Normal;
    let config = LeaderKeyConfig::default();
    let bindings = default_bindings();
    process_mux_key(&mut state, KeyInput::Space, ctrl(), 0, &config, &bindings);
    let r = process_mux_key(&mut state, KeyInput::Down, ctrl(), 100, &config, &bindings);
    match r {
        MuxKeyResult::Consumed(Some(cmd)) => assert_eq!(
            cmd,
            MuxCommand::ResizePane(alacritty_multiplexer::layout::Direction::Horizontal, 1)
        ),
        _ => panic!("expected a command"),
    }
}
