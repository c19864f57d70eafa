//! Multiplexer command definitions.

use vstd::prelude::*;

use crate::layout::Direction;

verus! {

/// A command dispatched by the multiplexer input layer.
#[derive(Debug, PartialEq, Eq)]
pub enum MuxCommand {
    /// Split the active pane horizontally (top/bottom).
    SplitHorizontal,
    /// Split the active pane vertically (left/right).
    SplitVertical,
    /// Close the active pane.
    ClosePane,
    /// Focus the next pane.
    NextPane,
    /// Focus the previous pane.
    PrevPane,
    /// Navigate to an adjacent pane in the given direction.
    NavigatePane(Direction),
    /// Create a new window (tab).
    NewWindow,
    /// Close the active window.
    CloseWindow,
    /// Switch to the next window.
    NextWindow,
    /// Switch to the previous window.
    PrevWindow,
    /// Switch to window by number (0-9).
    SwitchToWindow(u8),
    /// Rename the active window.
    RenameWindow(String),
    /// Detach from the current session.
    DetachSession,
    /// Toggle pane zoom (full-screen).
    ToggleZoom,
    /// Resize the active pane in a direction; the delta is in steps
    /// of a twentieth of the parent dimension.
    ResizePane(Direction, i16),
    /// Enter scrollback / vi mode.
    ScrollbackMode,
}

/// The two commands carry the same variant and payload; a renaming
/// command is compared by its text.
pub open spec fn cmd_like(a: MuxCommand, b: MuxCommand) -> bool {
    match (a, b) {
        (MuxCommand::RenameWindow(x), MuxCommand::RenameWindow(y)) => x@ == y@,
        _ => a == b,
    }
}

impl Clone for MuxCommand {
    /// A clone carries the same variant and payload.
    fn clone(&self) -> (res: Self)
        ensures
            cmd_like(res, *self),
    {
        match self {
            MuxCommand::SplitHorizontal => MuxCommand::SplitHorizontal,
            MuxCommand::SplitVertical => MuxCommand::SplitVertical,
            MuxCommand::ClosePane => MuxCommand::ClosePane,
            MuxCommand::NextPane => MuxCommand::NextPane,
            MuxCommand::PrevPane => MuxCommand::PrevPane,
            MuxCommand::NavigatePane(d) => MuxCommand::NavigatePane(*d),
            MuxCommand::NewWindow => MuxCommand::NewWindow,
            MuxCommand::CloseWindow => MuxCommand::CloseWindow,
            MuxCommand::NextWindow => MuxCommand::NextWindow,
            MuxCommand::PrevWindow => MuxCommand::PrevWindow,
            MuxCommand::SwitchToWindow(n) => MuxCommand::SwitchToWindow(*n),
            MuxCommand::RenameWindow(name) => MuxCommand::RenameWindow(name.clone()),
            MuxCommand::DetachSession => MuxCommand::DetachSession,
            MuxCommand::ToggleZoom => MuxCommand::ToggleZoom,
            MuxCommand::ResizePane(d, delta) => MuxCommand::ResizePane(*d, *delta),
            MuxCommand::ScrollbackMode => MuxCommand::ScrollbackMode,
        }
    }
}

/// Configuration for the leader (prefix) key(s).
#[derive(Debug, Clone)]
pub struct LeaderKeyConfig {
    /// Key combinations that activate command mode (e.g.
    /// "Control-Space").
    pub keys: Vec<String>,
    /// Timeout in milliseconds before leader mode expires.
    pub timeout_ms: u64,
}

impl Default for LeaderKeyConfig {
    /// The default leaders are Control-Space and Control-b, with a
    /// one second timeout.
    fn default() -> (r: Self)
        ensures
            r.keys@.len() == 2,
            r.keys@[0]@ == "Control-Space"@,
            r.keys@[1]@ == "Control-b"@,
            r.timeout_ms == 1000,
    {
        let mut keys: Vec<String> = Vec::new();
        keys.push("Control-Space".to_owned());
        keys.push("Control-b".to_owned());
        LeaderKeyConfig { keys, timeout_ms: 1000 }
    }
}

} // verus!
