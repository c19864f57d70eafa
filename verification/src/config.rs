//! Multiplexer configuration schema.
//!
//! Corresponds to the multiplexer section of the terminal's
//! configuration file; the file parsing itself happens outside this
//! crate, which receives the plain values.

use vstd::prelude::*;

use crate::command::{LeaderKeyConfig, MuxCommand};
use crate::fmt::{dec_digits, u64_to_string};
use crate::mux_input::Bindings;

verus! {

/// Top-level multiplexer configuration.
#[derive(Debug, Clone, PartialEq)]
pub struct MultiplexerConfig {
    /// Whether the multiplexer is enabled.
    pub enabled: bool,
    /// Whether to show the status bar.
    pub status_bar: bool,
    /// Leader key(s) that activate command mode.
    pub leader_keys: Vec<String>,
    /// Timeout in ms before leader mode expires.
    pub leader_timeout_ms: u64,
    /// Key to action bindings for leader mode.
    pub keybindings: KeybindingsConfig,
    /// Status bar appearance.
    pub status_bar_config: StatusBarConfig,
}

impl Default for MultiplexerConfig {
    /// Enabled with a status bar, the default leaders, a one second
    /// timeout, and default bindings and appearance.
    fn default() -> (r: Self)
        ensures
            r.enabled,
            r.status_bar,
            r.leader_keys@.len() == 2,
            r.leader_keys@[0]@ == "Control-Space"@,
            r.leader_keys@[1]@ == "Control-b"@,
            r.leader_timeout_ms == 1000,
    {
        let mut leader_keys: Vec<String> = Vec::new();
        leader_keys.push("Control-Space".to_owned());
        leader_keys.push("Control-b".to_owned());
        MultiplexerConfig {
            enabled: true,
            status_bar: true,
            leader_keys,
            leader_timeout_ms: 1000,
            keybindings: KeybindingsConfig::default(),
            status_bar_config: StatusBarConfig::default(),
        }
    }
}

/// Keybindings for leader mode (key pressed after leader).
#[derive(Debug, Clone, PartialEq)]
pub struct KeybindingsConfig {
    /// Key for horizontal split.
    pub split_horizontal: String,
    /// Alternate key for horizontal split.
    pub split_horizontal_alt: String,
    /// Key for vertical split.
    pub split_vertical: String,
    /// Alternate key for vertical split.
    pub split_vertical_alt: String,
    /// Key to close pane.
    pub close_pane: String,
    /// Key for next pane.
    pub next_pane: String,
    /// Key for previous pane.
    pub prev_pane: String,
    /// Key to create new window.
    pub new_window: String,
    /// Key for next window.
    pub next_window: String,
    /// Key for previous window.
    pub prev_window: String,
    /// Key to detach.
    pub detach: String,
    /// Key to rename window.
    pub rename_window: String,
    /// Key to toggle zoom.
    pub toggle_zoom: String,
    /// Key to enter scrollback mode.
    pub scrollback_mode: String,
}

impl Default for KeybindingsConfig {
    /// The fixed default binding keys.
    fn default() -> (r: Self)
        ensures
            r.split_horizontal@ == "\""@,
            r.split_horizontal_alt@ == "-"@,
            r.split_vertical@ == "%"@,
            r.split_vertical_alt@ == "|"@,
            r.close_pane@ == "x"@,
            r.next_pane@ == "o"@,
            r.prev_pane@ == ";"@,
            r.new_window@ == "c"@,
            r.next_window@ == "n"@,
            r.prev_window@ == "p"@,
            r.detach@ == "d"@,
            r.rename_window@ == ","@,
            r.toggle_zoom@ == "z"@,
            r.scrollback_mode@ == "["@,
    {
        KeybindingsConfig {
            split_horizontal: "\"".to_owned(),
            split_horizontal_alt: "-".to_owned(),
            split_vertical: "%".to_owned(),
            split_vertical_alt: "|".to_owned(),
            close_pane: "x".to_owned(),
            next_pane: "o".to_owned(),
            prev_pane: ";".to_owned(),
            new_window: "c".to_owned(),
            next_window: "n".to_owned(),
            prev_window: "p".to_owned(),
            detach: "d".to_owned(),
            rename_window: ",".to_owned(),
            toggle_zoom: "z".to_owned(),
            scrollback_mode: "[".to_owned(),
        }
    }
}

/// The binding table built from a keybindings configuration: the
/// thirteen configured action keys, then the ten window numbers.
pub open spec fn bindings_match_config(entries: Seq<(String, MuxCommand)>, c: KeybindingsConfig)
    -> bool {
    &&& entries.len() == 23
    &&& entries[0].0@ == c.split_horizontal@ && entries[0].1 == MuxCommand::SplitHorizontal
    &&& entries[1].0@ == c.split_horizontal_alt@ && entries[1].1 == MuxCommand::SplitHorizontal
    &&& entries[2].0@ == c.split_vertical@ && entries[2].1 == MuxCommand::SplitVertical
    &&& entries[3].0@ == c.split_vertical_alt@ && entries[3].1 == MuxCommand::SplitVertical
    &&& entries[4].0@ == c.close_pane@ && entries[4].1 == MuxCommand::ClosePane
    &&& entries[5].0@ == c.next_pane@ && entries[5].1 == MuxCommand::NextPane
    &&& entries[6].0@ == c.prev_pane@ && entries[6].1 == MuxCommand::PrevPane
    &&& entries[7].0@ == c.new_window@ && entries[7].1 == MuxCommand::NewWindow
    &&& entries[8].0@ == c.next_window@ && entries[8].1 == MuxCommand::NextWindow
    &&& entries[9].0@ == c.prev_window@ && entries[9].1 == MuxCommand::PrevWindow
    &&& entries[10].0@ == c.detach@ && entries[10].1 == MuxCommand::DetachSession
    &&& entries[11].0@ == c.toggle_zoom@ && entries[11].1 == MuxCommand::ToggleZoom
    &&& entries[12].0@ == c.scrollback_mode@ && entries[12].1 == MuxCommand::ScrollbackMode
    &&& forall|i: int|
        13 <= i < 23 ==> (#[trigger] entries[i]).0@ == dec_digits((i - 13) as nat)
            && entries[i].1 == MuxCommand::SwitchToWindow((i - 13) as u8)
}

impl KeybindingsConfig {
    /// Convert the keybindings config into a binding table.
    pub fn to_bindings_map(&self) -> (r: Bindings)
        ensures
            bindings_match_config(r.entries@, *self),
    {
        let mut m = Bindings::new();
        m.insert(self.split_horizontal.clone(), MuxCommand::SplitHorizontal);
        m.insert(self.split_horizontal_alt.clone(), MuxCommand::SplitHorizontal);
        m.insert(self.split_vertical.clone(), MuxCommand::SplitVertical);
        m.insert(self.split_vertical_alt.clone(), MuxCommand::SplitVertical);
        m.insert(self.close_pane.clone(), MuxCommand::ClosePane);
        m.insert(self.next_pane.clone(), MuxCommand::NextPane);
        m.insert(self.prev_pane.clone(), MuxCommand::PrevPane);
        m.insert(self.new_window.clone(), MuxCommand::NewWindow);
        m.insert(self.next_window.clone(), MuxCommand::NextWindow);
        m.insert(self.prev_window.clone(), MuxCommand::PrevWindow);
        m.insert(self.detach.clone(), MuxCommand::DetachSession);
        m.insert(self.toggle_zoom.clone(), MuxCommand::ToggleZoom);
        m.insert(self.scrollback_mode.clone(), MuxCommand::ScrollbackMode);

        // Window switching by number.
        let mut i: u64 = 0;
        while i <= 9
            invariant
                0 <= i <= 10,
                m.entries@.len() == 13 + i,
                forall|k: int|
                    0 <= k < 13 ==> (#[trigger] m.entries@[k]).0@ == old_entry_key(*self, k)
                        && m.entries@[k].1 == old_entry_cmd(k),
                forall|k: int|
                    13 <= k < 13 + i ==> (#[trigger] m.entries@[k]).0@ == dec_digits(
                        (k - 13) as nat,
                    ) && m.entries@[k].1 == MuxCommand::SwitchToWindow((k - 13) as u8),
            decreases 10 - i,
    {
            m.insert(u64_to_string(i), MuxCommand::SwitchToWindow(i as u8));
            i = i + 1;
        }
        m
    }
}

/// The configured key text at position `k` of the binding table.
pub open spec fn old_entry_key(c: KeybindingsConfig, k: int) -> Seq<char> {
    if k == 0 {
        c.split_horizontal@
    } else if k == 1 {
        c.split_horizontal_alt@
    } else if k == 2 {
        c.split_vertical@
    } else if k == 3 {
        c.split_vertical_alt@
    } else if k == 4 {
        c.close_pane@
    } else if k == 5 {
        c.next_pane@
    } else if k == 6 {
        c.prev_pane@
    } else if k == 7 {
        c.new_window@
    } else if k == 8 {
        c.next_window@
    } else if k == 9 {
        c.prev_window@
    } else if k == 10 {
        c.detach@
    } else if k == 11 {
        c.toggle_zoom@
    } else {
        c.scrollback_mode@
    }
}

/// The command at position `k` of the binding table.
pub open spec fn old_entry_cmd(k: int) -> MuxCommand {
    if k == 0 || k == 1 {
        MuxCommand::SplitHorizontal
    } else if k == 2 || k == 3 {
        MuxCommand::SplitVertical
    } else if k == 4 {
        MuxCommand::ClosePane
    } else if k == 5 {
        MuxCommand::NextPane
    } else if k == 6 {
        MuxCommand::PrevPane
    } else if k == 7 {
        MuxCommand::NewWindow
    } else if k == 8 {
        MuxCommand::NextWindow
    } else if k == 9 {
        MuxCommand::PrevWindow
    } else if k == 10 {
        MuxCommand::DetachSession
    } else if k == 11 {
        MuxCommand::ToggleZoom
    } else {
        MuxCommand::ScrollbackMode
    }
}

/// Status bar appearance configuration.
#[derive(Debug, Clone, PartialEq)]
pub struct StatusBarConfig {
    /// Format string for left section.
    pub format_left: String,
    /// Format string for center section.
    pub format_center: String,
    /// Format string for right section.
    pub format_right: String,
    /// Foreground color (hex).
    pub fg: String,
    /// Background color (hex).
    pub bg: String,
}

impl Default for StatusBarConfig {
    /// The default status bar format and colors.
    fn default() -> (r: Self)
        ensures
            r.format_left@ == "[{session}]"@,
            r.format_center@ == "{windows}"@,
            r.format_right@ == "{time}"@,
            r.fg@ == "#a0a0a0"@,
            r.bg@ == "#1a1a1a"@,
    {
        StatusBarConfig {
            format_left: "[{session}]".to_owned(),
            format_center: "{windows}".to_owned(),
            format_right: "{time}".to_owned(),
            fg: "#a0a0a0".to_owned(),
            bg: "#1a1a1a".to_owned(),
        }
    }
}

/// Rebuild the leader key config and bindings table from the current
/// multiplexer configuration, e.g. after a configuration reload.
pub fn rebuild_config(config: &MultiplexerConfig) -> (r: (LeaderKeyConfig, Bindings))
    ensures
        r.0.timeout_ms == config.leader_timeout_ms,
        r.0.keys@.len() == config.leader_keys@.len(),
        forall|i: int|
            0 <= i < config.leader_keys@.len() ==> (#[trigger] r.0.keys@[i])@
                == config.leader_keys@[i]@,
        bindings_match_config(r.1.entries@, config.keybindings),
{
    let mut keys: Vec<String> = Vec::new();
    let mut i: usize = 0;
    while i < config.leader_keys.len()
        invariant
            0 <= i <= config.leader_keys@.len(),
            keys@.len() == i,
            forall|k: int|
                0 <= k < i ==> (#[trigger] keys@[k])@ == config.leader_keys@[k]@,
        decreases config.leader_keys@.len() - i,
    {
        keys.push(config.leader_keys[i].clone());
        i = i + 1;
    }
    let leader_config = LeaderKeyConfig { keys, timeout_ms: config.leader_timeout_ms };
    let bindings = config.keybindings.to_bindings_map();
    (leader_config, bindings)
}

} // verus!
