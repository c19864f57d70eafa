//! Configuration defaults and binding-table construction.

use alacritty_multiplexer::command::{LeaderKeyConfig, MuxCommand};
use alacritty_multiplexer::config::{
    rebuild_config, KeybindingsConfig, MultiplexerConfig, StatusBarConfig,
};

#[test]
fn default_config_is_valid() {
    let cfg = MultiplexerConfig::default();
    assert!(cfg.enabled);
    assert!(cfg.status_bar);
    assert_eq!(cfg.leader_keys.len(), 2);
    assert_eq!(cfg.leader_timeout_ms, 1000);
}

#[test]
fn keybindings_to_map() {
    let cfg = KeybindingsConfig::default();
    let map = cfg.to_bindings_map();
    assert!(map.contains_key("\""));
    assert!(map.contains_key("%"));
    assert!(map.contains_key("x"));
    assert!(map.contains_key("c"));
    assert!(map.contains_key("0"));
    assert!(map.contains_key("9"));
}

#[test]
fn config_partial_eq() {
    let a = MultiplexerConfig::default();
    let b = MultiplexerConfig::default();
    assert_eq!(a, b);
}

#[test]
fn keybindings_partial_eq() {
    let a = KeybindingsConfig::default();
    let b = KeybindingsConfig::default();
    assert_eq!(a, b);
}

#[test]
fn status_bar_config_partial_eq() {
    let a = StatusBarConfig::default();
    let b = StatusBarConfig::default();
    assert_eq!(a, b);
}

#[test]
fn keybindings_map_window_numbers() {
    let cfg = KeybindingsConfig::default();
    let map = cfg.to_bindings_map();
    for i in 0..=9u8 {
        let key = i.to_string();
        assert!(map.contains_key(&key));
        assert_eq!(map.get(&key), Some(MuxCommand::SwitchToWindow(i)));
    }
}

#[test]
fn leader_key_config_default() {
    let cfg = LeaderKeyConfig::default();
    assert_eq!(cfg.keys.len(), 2);
    assert!(cfg.keys.contains(&"Control-Space".to_string()));
    assert!(cfg.keys.contains(&"Control-b".to_string()));
    assert_eq!(cfg.timeout_ms, 1000);
}

#[test]
fn rebuild_config_matches_settings() {
    let mut cfg = MultiplexerConfig::default();
    cfg.leader_timeout_ms = 250;
    cfg.keybindings.close_pane = "q".to_string();
    let (leader, bindings) = rebuild_config(&cfg);
    assert_eq!(leader.timeout_ms, 250);
    assert_eq!(leader.keys, cfg.leader_keys);
    assert_eq!(bindings.get("q"), Some(MuxCommand::ClosePane));
}
