//! Leader key state machine for multiplexer input interception.
//!
//! When the user presses a leader key (default: Ctrl-Space or
//! Ctrl-b), the interpreter enters `WaitingForCommand` mode. The next
//! keypress is mapped to a [`MuxCommand`]. If no valid key arrives
//! within the timeout, the leader press is forwarded to the PTY.
//!
//! Key events reach this module already reduced to plain values: the
//! key itself and its modifier flags; the clock is a millisecond
//! timestamp supplied by the caller.

use vstd::prelude::*;

use crate::command::{cmd_like, LeaderKeyConfig, MuxCommand};
use crate::fmt::{push_char, str_eq, u64_to_string};
use crate::layout::Direction;

verus! {

/// A key event reduced to what the interpreter reads.
#[derive(Debug, Clone, Copy, PartialEq, Eq, Structural)]
pub enum KeyInput {
    /// A character key.
    Char(char),
    /// The up arrow.
    Up,
    /// The down arrow.
    Down,
    /// The left arrow.
    Left,
    /// The right arrow.
    Right,
    /// The space bar.
    Space,
    /// Any key the interpreter does not map.
    Other,
}

/// Modifier flags held during a key event.
#[derive(Debug, Clone, Copy, PartialEq, Eq, Structural)]
pub struct Modifiers {
    /// Control is held.
    pub control: bool,
    /// Shift is held.
    pub shift: bool,
    /// Alt is held.
    pub alt: bool,
    /// The super (logo) key is held.
    pub super_key: bool,
}

impl Modifiers {
    /// No modifier held.
    pub fn empty() -> (r: Modifiers)
        ensures
            r == (Modifiers { control: false, shift: false, alt: false, super_key: false }),
    {
        Modifiers { control: false, shift: false, alt: false, super_key: false }
    }
}

/// Current state of the multiplexer input layer.
#[derive(Debug, Clone, Copy, PartialEq, Eq, Structural)]
pub enum MuxInputState {
    /// Normal mode: all input goes to the PTY.
    Normal,
    /// Leader key was pressed, waiting for the command key.
    WaitingForCommand {
        /// Millisecond timestamp of the leader press.
        entered_at: u64,
    },
}

impl Default for MuxInputState {
    /// The interpreter starts in normal mode.
    fn default() -> (r: Self)
        ensures
            r == MuxInputState::Normal,
    {
        MuxInputState::Normal
    }
}

/// Result of processing a key through the multiplexer input layer.
#[derive(Debug, PartialEq, Eq)]
pub enum MuxKeyResult {
    /// Key was consumed by the multiplexer (leader key or command
    /// key), possibly yielding a command.
    Consumed(Option<MuxCommand>),
    /// Key should be forwarded to the PTY as normal.
    Forward,
}

/// Leader-mode bindings from a key name to a command.
#[derive(Debug)]
pub struct Bindings {
    /// Key names with their commands; a later entry for the same
    /// name wins.
    pub entries: Vec<(String, MuxCommand)>,
}

/// The command bound to `key`: the last entry with that name.
pub open spec fn spec_lookup(entries: Seq<(String, MuxCommand)>, key: Seq<char>) -> Option<
    MuxCommand,
>
    decreases entries.len(),
{
    if entries.len() == 0 {
        None
    } else if entries.last().0@ == key {
        Some(entries.last().1)
    } else {
        spec_lookup(entries.drop_last(), key)
    }
}

impl Bindings {
    /// An empty binding table.
    pub fn new() -> (r: Bindings)
        ensures
            r.entries@.len() == 0,
    {
        Bindings { entries: Vec::new() }
    }

    /// Bind `key` to `cmd`, shadowing any earlier binding of `key`.
    pub fn insert(&mut self, key: String, cmd: MuxCommand)
        ensures
            final(self).entries@ == old(self).entries@.push((key, cmd)),
    {
        self.entries.push((key, cmd));
    }

    /// Number of entries in the table.
    pub fn len(&self) -> (n: usize)
        ensures
            n == self.entries@.len(),
    {
        self.entries.len()
    }

    /// Look up the command bound to `key`.
    pub fn get(&self, key: &str) -> (r: Option<MuxCommand>)
        ensures
            (match spec_lookup(self.entries@, key@) {
                Option::None => r is None,
                Option::Some(c) => r matches Some(c2) && cmd_like(c2, c),
            }),
    {
        let mut i: usize = self.entries.len();
        proof {
            assert(self.entries@.take(self.entries@.len() as int) =~= self.entries@);
        }
        while i > 0
            invariant
                0 <= i <= self.entries@.len(),
                spec_lookup(self.entries@, key@) == spec_lookup(
                    self.entries@.take(i as int),
                    key@,
                ),
            decreases i,
        {
            i = i - 1;
            let (name, cmd) = &self.entries[i];
            if str_eq(name.as_str(), key) {
                proof {
                    assert(self.entries@.take(i + 1).last() == self.entries@[i as int]);
                }
                return Some(cmd.clone());
            }
            proof {
                assert(self.entries@.take(i + 1).last() == self.entries@[i as int]);
                assert(self.entries@.take(i + 1).drop_last() =~= self.entries@.take(i as int));
            }
        }
        proof {
            assert(self.entries@.take(0) =~= Seq::<(String, MuxCommand)>::empty());
        }
        None
    }

    /// Whether some command is bound to `key`.
    pub fn contains_key(&self, key: &str) -> (r: bool)
        ensures
            r == (spec_lookup(self.entries@, key@) is Some),
    {
        match self.get(key) {
            Some(_) => true,
            None => false,
        }
    }
}

/// The parts of a key spec: the text split at every dash.
pub open spec fn split_dash(s: Seq<char>) -> Seq<Seq<char>>
    decreases s.len(),
{
    match s.index_of_first('-') {
        Option::None => seq![s],
        Option::Some(i) => if 0 <= i < s.len() {
            seq![s.take(i)] + split_dash(s.skip(i + 1))
        } else {
            seq![s]
        },
    }
}

/// Modifier flags and key name accumulated from spec parts: each
/// modifier word sets its flag, any other word is the key name, the
/// last such word winning.
pub open spec fn spec_parse_key_spec(parts: Seq<Seq<char>>) -> (Modifiers, Seq<char>)
    decreases parts.len(),
{
    if parts.len() == 0 {
        (Modifiers { control: false, shift: false, alt: false, super_key: false }, Seq::empty())
    } else {
        let (m, k) = spec_parse_key_spec(parts.drop_last());
        let p = parts.last();
        if p == "Control"@ || p == "Ctrl"@ {
            (Modifiers { control: true, ..m }, k)
        } else if p == "Shift"@ {
            (Modifiers { shift: true, ..m }, k)
        } else if p == "Alt"@ {
            (Modifiers { alt: true, ..m }, k)
        } else if p == "Super"@ {
            (Modifiers { super_key: true, ..m }, k)
        } else {
            (m, p)
        }
    }
}

/// The key event matches a leader key specification text such as
/// "Control-Space" or "Control-b": the modifiers equal the spec's
/// modifiers exactly, and the key part names the key.
pub open spec fn spec_matches_leader(key: KeyInput, mods: Modifiers, s: Seq<char>) -> bool {
    let parsed = spec_parse_key_spec(split_dash(s));
    &&& mods == parsed.0
    &&& (if parsed.1 == "Space"@ {
        key == KeyInput::Space
    } else {
        parsed.1.len() == 1 && key == KeyInput::Char(parsed.1[0])
    })
}

/// One of the configured leader keys matches the event.
pub open spec fn spec_is_leader(key: KeyInput, mods: Modifiers, config: LeaderKeyConfig) -> bool {
    exists|i: int|
        0 <= i < config.keys@.len() && spec_matches_leader(key, mods, config.keys@[i]@)
}

/// The binding-table name of a key event: characters name
/// themselves, arrows and space their names, with a `Ctrl-` prefix
/// under control; other keys have no name.
pub open spec fn spec_key_string(key: KeyInput, mods: Modifiers) -> Option<Seq<char>> {
    let base: Option<Seq<char>> = match key {
        KeyInput::Char(c) => Some(seq![c]),
        KeyInput::Up => Some("Up"@),
        KeyInput::Down => Some("Down"@),
        KeyInput::Left => Some("Left"@),
        KeyInput::Right => Some("Right"@),
        KeyInput::Space => Some("Space"@),
        KeyInput::Other => None,
    };
    match base {
        Option::None => None,
        Option::Some(b) => if mods.control {
            Some("Ctrl-"@ + b)
        } else {
            Some(b)
        },
    }
}

fn find_dash(s: &str) -> (r: Option<usize>)
    ensures
        (match s@.index_of_first('-') {
            Option::None => r is None,
            Option::Some(i) => r == Some(i as usize),
        }),
{
    let n = s.unicode_len();
    let mut i: usize = 0;
    while i < n
        invariant
            0 <= i <= n,
            n == s@.len(),
            forall|k: int| 0 <= k < i ==> s@[k] != '-',
        decreases n - i,
    {
        if s.get_char(i) == '-' {
            proof {
                assert(s@[i as int] == '-');
                assert(s@.contains('-'));
                s@.index_of_first_ensures('-');
                match s@.index_of_first('-') {
                    Option::Some(q) => {
                        if q < i as int {
                            assert(s@[q] == '-');
                            assert(false);
                        }
                        if q > i as int {
                            assert(s@[i as int] != '-');
                            assert(false);
                        }
                    },
                    Option::None => {
                        assert(false);
                    },
                }
            }
            return Some(i);
        }
        i = i + 1;
    }
    proof {
        assert(forall|k: int| 0 <= k < s@.len() ==> s@[k] != '-');
        assert(!s@.contains('-'));
        s@.index_of_first_ensures('-');
    }
    None
}

/// Split a key spec at every dash.
fn split_dash_exec(s: &str) -> (parts: Vec<String>)
    ensures
        parts@.map_values(|p: String| p@) == split_dash(s@),
    decreases s@.len(),
{
    match find_dash(s) {
        None => {
            let mut parts: Vec<String> = Vec::new();
            parts.push(s.to_owned());
            proof {
                assert(parts@.map_values(|p: String| p@) =~= split_dash(s@));
            }
            parts
        },
        Some(i) => {
            proof {
                s@.index_of_first_ensures('-');
            }
            let n = s.unicode_len();
            let head = s.substring_char(0, i);
            let tail = s.substring_char(i + 1, n);
            proof {
                assert(head@ == s@.take(i as int));
                assert(tail@ == s@.skip(i + 1));
            }
            let mut parts = split_dash_exec(tail);
            parts.insert(0, head.to_owned());
            proof {
                assert(parts@.map_values(|p: String| p@) =~= split_dash(s@));
            }
            parts
        },
    }
}

/// Parse modifier-key spec parts into modifier flags and a key name.
pub fn parse_key_spec(parts: &Vec<String>) -> (r: (Modifiers, String))
    ensures
        (r.0, r.1@) == spec_parse_key_spec(parts@.map_values(|p: String| p@)),
{
    let mut mods = Modifiers::empty();
    let mut key_name = String::new();
    let mut i: usize = 0;
    while i < parts.len()
        invariant
            0 <= i <= parts@.len(),
            (mods, key_name@) == spec_parse_key_spec(
                parts@.map_values(|p: String| p@).take(i as int),
            ),
        decreases parts@.len() - i,
    {
        let part = &parts[i];
        proof {
            let views = parts@.map_values(|p: String| p@);
            assert(views.take(i + 1).last() == views[i as int]);
            assert(views.take(i + 1).drop_last() =~= views.take(i as int));
        }
        if str_eq(part.as_str(), "Control") || str_eq(part.as_str(), "Ctrl") {
            mods.control = true;
        } else if str_eq(part.as_str(), "Shift") {
            mods.shift = true;
        } else if str_eq(part.as_str(), "Alt") {
            mods.alt = true;
        } else if str_eq(part.as_str(), "Super") {
            mods.super_key = true;
        } else {
            key_name = part.clone();
        }
        i = i + 1;
    }
    proof {
        assert(parts@.map_values(|p: String| p@).take(parts@.len() as int) =~= parts@.map_values(
            |p: String| p@,
        ));
    }
    (mods, key_name)
}

/// Match a key event against a leader key specification text.
pub fn matches_leader_spec(key: KeyInput, mods: Modifiers, spec_text: &str) -> (r: bool)
    ensures
        r == spec_matches_leader(key, mods, spec_text@),
{
    let parts = split_dash_exec(spec_text);
    let (required, key_part) = parse_key_spec(&parts);
    if !(mods.control == required.control && mods.shift == required.shift && mods.alt
        == required.alt && mods.super_key == required.super_key) {
        return false;
    }
    proof {
        assert(mods == required);
    }
    if str_eq(key_part.as_str(), "Space") {
        match key {
            KeyInput::Space => true,
            _ => false,
        }
    } else if key_part.unicode_len() == 1 {
        match key {
            KeyInput::Char(c) => {
                let k = key_part.as_str().get_char(0);
                proof {
                    assert(key_part@ =~= seq![key_part@[0]]);
                }
                c == k
            },
            _ => false,
        }
    } else {
        false
    }
}

/// Check whether this key event matches one of the configured leader
/// keys.
pub fn is_leader_key(key: KeyInput, mods: Modifiers, config: &LeaderKeyConfig) -> (r: bool)
    ensures
        r == spec_is_leader(key, mods, *config),
{
    let mut i: usize = 0;
    while i < config.keys.len()
        invariant
            0 <= i <= config.keys@.len(),
            forall|k: int|
                0 <= k < i ==> !spec_matches_leader(key, mods, (#[trigger] config.keys@[k])@),
        decreases config.keys@.len() - i,
    {
        if matches_leader_spec(key, mods, config.keys[i].as_str()) {
            return true;
        }
        i = i + 1;
    }
    false
}

/// Convert a key event to its binding-table name.
pub fn key_to_string(key: KeyInput, mods: Modifiers) -> (r: Option<String>)
    ensures
        (match spec_key_string(key, mods) {
            Option::None => r is None,
            Option::Some(s) => r matches Some(t) && t@ == s,
        }),
{
    let base: String = match key {
        KeyInput::Char(c) => {
            let mut s = String::new();
            push_char(&mut s, c);
            proof {
                assert(s@ =~= seq![c]);
            }
            s
        },
        KeyInput::Up => "Up".to_owned(),
        KeyInput::Down => "Down".to_owned(),
        KeyInput::Left => "Left".to_owned(),
        KeyInput::Right => "Right".to_owned(),
        KeyInput::Space => "Space".to_owned(),
        KeyInput::Other => {
            return None;
        },
    };
    if mods.control {
        let mut out = "Ctrl-".to_owned();
        out.append(base.as_str());
        Some(out)
    } else {
        Some(base)
    }
}

/// Map a command key to a command using the bindings table.
pub fn map_command_key(key: KeyInput, mods: Modifiers, bindings: &Bindings) -> (r: Option<
    MuxCommand,
>)
    ensures
        (match spec_key_string(key, mods) {
            Option::None => r is None,
            Option::Some(name) => (match spec_lookup(bindings.entries@, name) {
                Option::None => r is None,
                Option::Some(c) => r matches Some(c2) && cmd_like(c2, c),
            }),
        }),
{
    match key_to_string(key, mods) {
        Some(name) => bindings.get(name.as_str()),
        None => None,
    }
}

/// Process a key event through the multiplexer input layer.
///
/// In normal mode a leader key press enters command mode silently
/// and anything else is forwarded. In command mode: a key after the
/// timeout reverts to normal mode and is forwarded (the stale leader
/// itself is not); a second leader press is forwarded literally; a
/// bound key emits its command; an unbound key is consumed silently.
/// `now_ms` is the caller's monotonic clock reading.
pub fn process_mux_key(
    state: &mut MuxInputState,
    key: KeyInput,
    mods: Modifiers,
    now_ms: u64,
    leader_config: &LeaderKeyConfig,
    bindings: &Bindings,
) -> (r: MuxKeyResult)
    requires
        *old(state) matches MuxInputState::WaitingForCommand { entered_at } ==> entered_at
            <= now_ms,
    ensures
        *old(state) is Normal ==> (if spec_is_leader(key, mods, *leader_config) {
            *final(state) == (MuxInputState::WaitingForCommand { entered_at: now_ms }) && r == (
            MuxKeyResult::Consumed(None))
        } else {
            *final(state) == *old(state) && r == MuxKeyResult::Forward
        }),
        *old(state) matches MuxInputState::WaitingForCommand { entered_at } ==> *final(state)
            == MuxInputState::Normal && (if now_ms - entered_at > leader_config.timeout_ms {
            r == MuxKeyResult::Forward
        } else if spec_is_leader(key, mods, *leader_config) {
            r == MuxKeyResult::Forward
        } else {
            (match spec_key_string(key, mods) {
                Option::None => r == (MuxKeyResult::Consumed(None)),
                Option::Some(name) => (match spec_lookup(bindings.entries@, name) {
                    Option::None => r == (MuxKeyResult::Consumed(None)),
                    Option::Some(c) => r matches MuxKeyResult::Consumed(oc) && oc matches Some(
                        c2,
                    ) && cmd_like(c2, c),
                }),
            })
        }),
{
    match *state {
        MuxInputState::Normal => {
            if is_leader_key(key, mods, leader_config) {
                *state = MuxInputState::WaitingForCommand { entered_at: now_ms };
                MuxKeyResult::Consumed(None)
            } else {
                MuxKeyResult::Forward
            }
        },
        MuxInputState::WaitingForCommand { entered_at } => {
            *state = MuxInputState::Normal;
            if now_ms - entered_at > leader_config.timeout_ms {
                return MuxKeyResult::Forward;
            }
            if is_leader_key(key, mods, leader_config) {
                return MuxKeyResult::Forward;
            }
            match map_command_key(key, mods, bindings) {
                Some(cmd) => MuxKeyResult::Consumed(Some(cmd)),
                None => MuxKeyResult::Consumed(None),
            }
        },
    }
}

/// The fixed default binding table: the four split keys, the pane
/// and window management keys, navigation and resize on the arrows,
/// and the ten window numbers.
pub open spec fn default_bindings_match(entries: Seq<(String, MuxCommand)>) -> bool {
    &&& entries.len() == 31
    &&& entries[0].0@ == "\""@ && entries[0].1 == MuxCommand::SplitHorizontal
    &&& entries[1].0@ == "-"@ && entries[1].1 == MuxCommand::SplitHorizontal
    &&& entries[2].0@ == "%"@ && entries[2].1 == MuxCommand::SplitVertical
    &&& entries[3].0@ == "|"@ && entries[3].1 == MuxCommand::SplitVertical
    &&& entries[4].0@ == "x"@ && entries[4].1 == MuxCommand::ClosePane
    &&& entries[5].0@ == "o"@ && entries[5].1 == MuxCommand::NextPane
    &&& entries[6].0@ == ";"@ && entries[6].1 == MuxCommand::PrevPane
    &&& entries[7].0@ == "z"@ && entries[7].1 == MuxCommand::ToggleZoom
    &&& entries[8].0@ == "Up"@ && entries[8].1 == (MuxCommand::NavigatePane(
        Direction::Horizontal,
    ))
    &&& entries[9].0@ == "Down"@ && entries[9].1 == (MuxCommand::NavigatePane(
        Direction::Horizontal,
    ))
    &&& entries[10].0@ == "Left"@ && entries[10].1 == (MuxCommand::NavigatePane(
        Direction::Vertical,
    ))
    &&& entries[11].0@ == "Right"@ && entries[11].1 == (MuxCommand::NavigatePane(
        Direction::Vertical,
    ))
    &&& entries[12].0@ == "Ctrl-Up"@ && entries[12].1 == (MuxCommand::ResizePane(
        Direction::Horizontal,
        -1i16,
    ))
    &&& entries[13].0@ == "Ctrl-Down"@ && entries[13].1 == (MuxCommand::ResizePane(
        Direction::Horizontal,
        1i16,
    ))
    &&& entries[14].0@ == "Ctrl-Left"@ && entries[14].1 == (MuxCommand::ResizePane(
        Direction::Vertical,
        -1i16,
    ))
    &&& entries[15].0@ == "Ctrl-Right"@ && entries[15].1 == (MuxCommand::ResizePane(
        Direction::Vertical,
        1i16,
    ))
    &&& entries[16].0@ == "c"@ && entries[16].1 == MuxCommand::NewWindow
    &&& entries[17].0@ == "n"@ && entries[17].1 == MuxCommand::NextWindow
    &&& entries[18].0@ == "p"@ && entries[18].1 == MuxCommand::PrevWindow
    &&& entries[19].0@ == "d"@ && entries[19].1 == MuxCommand::DetachSession
    &&& entries[20].0@ == "["@ && entries[20].1 == MuxCommand::ScrollbackMode
    &&& forall|i: int|
        21 <= i < 31 ==> (#[trigger] entries[i]).0@ == crate::fmt::dec_digits((i - 21) as nat)
            && entries[i].1 == MuxCommand::SwitchToWindow((i - 21) as u8)
}

/// Build the default keybinding map (leader-mode second key to
/// command), as fixed by the configuration defaults.
pub fn default_bindings() -> (r: Bindings)
    ensures
        default_bindings_match(r.entries@),
{
    let mut m = Bindings::new();

    // Pane splitting.
    m.insert("\"".to_owned(), MuxCommand::SplitHorizontal);
    m.insert("-".to_owned(), MuxCommand::SplitHorizontal);
    m.insert("%".to_owned(), MuxCommand::SplitVertical);
    m.insert("|".to_owned(), MuxCommand::SplitVertical);

    // Pane management.
    m.insert("x".to_owned(), MuxCommand::ClosePane);
    m.insert("o".to_owned(), MuxCommand::NextPane);
    m.insert(";".to_owned(), MuxCommand::PrevPane);
    m.insert("z".to_owned(), MuxCommand::ToggleZoom);

    // Pane navigation.
    m.insert("Up".to_owned(), MuxCommand::NavigatePane(Direction::Horizontal));
    m.insert("Down".to_owned(), MuxCommand::NavigatePane(Direction::Horizontal));
    m.insert("Left".to_owned(), MuxCommand::NavigatePane(Direction::Vertical));
    m.insert("Right".to_owned(), MuxCommand::NavigatePane(Direction::Vertical));

    // Pane resize (Ctrl+arrow).
    m.insert("Ctrl-Up".to_owned(), MuxCommand::ResizePane(Direction::Horizontal, -1));
    m.insert("Ctrl-Down".to_owned(), MuxCommand::ResizePane(Direction::Horizontal, 1));
    m.insert("Ctrl-Left".to_owned(), MuxCommand::ResizePane(Direction::Vertical, -1));
    m.insert("Ctrl-Right".to_owned(), MuxCommand::ResizePane(Direction::Vertical, 1));

    // Window management.
    m.insert("c".to_owned(), MuxCommand::NewWindow);
    m.insert("n".to_owned(), MuxCommand::NextWindow);
    m.insert("p".to_owned(), MuxCommand::PrevWindow);
    m.insert("d".to_owned(), MuxCommand::DetachSession);
    m.insert("[".to_owned(), MuxCommand::ScrollbackMode);

    // Window switching by number.
    let mut i: u64 = 0;
    while i <= 9
        invariant
            0 <= i <= 10,
            m.entries@.len() == 21 + i,
            forall|k: int|
                0 <= k < 21 ==> (#[trigger] m.entries@[k]).0@ == default_key_name(k)
                    && m.entries@[k].1 == default_key_cmd(k),
            forall|k: int|
                21 <= k < 21 + i ==> (#[trigger] m.entries@[k]).0@ == crate::fmt::dec_digits(
                    (k - 21) as nat,
                ) && m.entries@[k].1 == MuxCommand::SwitchToWindow((k - 21) as u8),
        decreases 10 - i,
    {
        m.insert(u64_to_string(i), MuxCommand::SwitchToWindow(i as u8));
        i = i + 1;
    }
    m
}

/// The key text at a fixed position of the default binding table.
pub open spec fn default_key_name(k: int) -> Seq<char> {
    if k == 0 {
        "\""@
    } else if k == 1 {
        "-"@
    } else if k == 2 {
        "%"@
    } else if k == 3 {
        "|"@
    } else if k == 4 {
        "x"@
    } else if k == 5 {
        "o"@
    } else if k == 6 {
        ";"@
    } else if k == 7 {
        "z"@
    } else if k == 8 {
        "Up"@
    } else if k == 9 {
        "Down"@
    } else if k == 10 {
        "Left"@
    } else if k == 11 {
        "Right"@
    } else if k == 12 {
        "Ctrl-Up"@
    } else if k == 13 {
        "Ctrl-Down"@
    } else if k == 14 {
        "Ctrl-Left"@
    } else if k == 15 {
        "Ctrl-Right"@
    } else if k == 16 {
        "c"@
    } else if k == 17 {
        "n"@
    } else if k == 18 {
        "p"@
    } else if k == 19 {
        "d"@
    } else {
        "["@
    }
}

/// The command at a fixed position of the default binding table.
pub open spec fn default_key_cmd(k: int) -> MuxCommand {
    if k == 0 || k == 1 {
        MuxCommand::SplitHorizontal
    } else if k == 2 || k == 3 {
        MuxCommand::SplitVertical
    } else if k == 4 {
        MuxCommand::ClosePane
    } else if k == 5 {
        MuxCommand::NextPane
    } else if k == 6 {
        MuxCommand::PrevPane
    } else if k == 7 {
        MuxCommand::ToggleZoom
    } else if k == 8 || k == 9 {
        MuxCommand::NavigatePane(Direction::Horizontal)
    } else if k == 10 || k == 11 {
        MuxCommand::NavigatePane(Direction::Vertical)
    } else if k == 12 {
        MuxCommand::ResizePane(Direction::Horizontal, -1i16)
    } else if k == 13 {
        MuxCommand::ResizePane(Direction::Horizontal, 1i16)
    } else if k == 14 {
        MuxCommand::ResizePane(Direction::Vertical, -1i16)
    } else if k == 15 {
        MuxCommand::ResizePane(Direction::Vertical, 1i16)
    } else if k == 16 {
        MuxCommand::NewWindow
    } else if k == 17 {
        MuxCommand::NextWindow
    } else if k == 18 {
        MuxCommand::PrevWindow
    } else if k == 19 {
        MuxCommand::DetachSession
    } else {
        MuxCommand::ScrollbackMode
    }
}

} // verus!
