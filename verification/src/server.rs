//! Server-side session management for detach/reattach.
//!
//! The server owns the authoritative session; clients send framed
//! messages and receive state snapshots. The effect of every command
//! on the session is specified by [`command_applied`].

use vstd::prelude::*;

use crate::command::MuxCommand;
use crate::fmt::{dec_digits, usize_to_string};
use crate::layout::{pane_ids_seq, Direction, LayoutNode, PaneId};
use crate::protocol::{ClientMessage, ServerMessage};
use crate::resize::spec_resize;
use crate::session::{session_like, session_wf, session_wf_except, Session};
use crate::split::{spec_close, spec_split};
use crate::window::{spec_cycle_next, spec_cycle_prev, win_wf, MuxWindow, WindowId};

verus! {

/// The two sessions agree outside the window list and active index.
pub open spec fn same_frame(s: Session, s2: Session) -> bool {
    s2.id == s.id && s2.name == s.name && s2.next_window_id == s.next_window_id
}

/// Only the active window's entry may differ between the sessions.
pub open spec fn only_active_window_changed(s: Session, s2: Session) -> bool {
    &&& same_frame(s, s2)
    &&& s2.active_window == s.active_window
    &&& s2.windows@.len() == s.windows@.len()
    &&& forall|j: int|
        0 <= j < s.windows@.len() && j != s.active_window ==> s2.windows@[j] == s.windows@[j]
}

/// The active index after removing the window at the active index:
/// clamped to the new last window, untouched when none remain.
pub open spec fn active_after_remove(s: Session, s2: Session) -> bool {
    s2.active_window as int == (if s2.windows@.len() == 0 {
        s.active_window as int
    } else if s.active_window >= s.windows@.len() - 1 {
        s.windows@.len() - 2
    } else {
        s.active_window as int
    })
}

/// What a split command does: the active window's focused pane is
/// split with a fresh id, zoom is cleared, focus kept; an empty
/// session, or one whose active window has no pane id left, is
/// unchanged.
pub open spec fn split_applied(s: Session, dir: Direction, s2: Session) -> bool {
    if s.windows@.len() == 0 {
        s2 == s
    } else {
        let i = s.active_window as int;
        let w = s.windows@[i];
        &&& only_active_window_changed(s, s2)
        &&& (w.next_pane_id < u32::MAX ==> ({
            let new_id = PaneId(w.next_pane_id);
            let w2 = s2.windows@[i];
            &&& w2.layout == spec_split(w.layout, w.active_pane, dir, new_id)
            &&& w2.active_pane == w.active_pane
            &&& !w2.zoomed
            &&& w2.next_pane_id == w.next_pane_id + 1
            &&& w2.id == w.id && w2.name == w.name
        }))
        &&& (w.next_pane_id == u32::MAX ==> same_frame(s, s2) && s2.active_window
            == s.active_window && s2.windows@ == s.windows@)
    }
}

/// What closing the active pane does: the pane leaves the active
/// window's tree and zoom is cleared; focus falls back to the first
/// remaining pane. Closing the last pane closes the window itself.
pub open spec fn close_pane_applied(s: Session, s2: Session) -> bool {
    if s.windows@.len() == 0 {
        s2 == s
    } else {
        let i = s.active_window as int;
        let w = s.windows@[i];
        match spec_close(w.layout, w.active_pane) {
            None => {
                &&& same_frame(s, s2)
                &&& s2.windows@ == s.windows@.remove(i)
                &&& active_after_remove(s, s2)
            },
            Some(t2) => {
                &&& only_active_window_changed(s, s2)
                &&& ({
                    let w2 = s2.windows@[i];
                    &&& w2.layout == t2
                    &&& !w2.zoomed
                    &&& w2.active_pane == pane_ids_seq(t2)[0]
                    &&& w2.id == w.id && w2.name == w.name
                    &&& w2.next_pane_id == w.next_pane_id
                })
            },
        }
    }
}

/// What each command does to the session. This is the dispatch
/// semantics of the server: commands that cannot apply (an empty
/// session, an out-of-range window number) leave the session
/// unchanged.
pub open spec fn command_applied(s: Session, cmd: MuxCommand, s2: Session) -> bool {
    match cmd {
        MuxCommand::SplitHorizontal => split_applied(s, Direction::Horizontal, s2),
        MuxCommand::SplitVertical => split_applied(s, Direction::Vertical, s2),
        MuxCommand::ClosePane => close_pane_applied(s, s2),
        MuxCommand::NextPane => {
            if s.windows@.len() == 0 {
                s2 == s
            } else {
                let i = s.active_window as int;
                let w = s.windows@[i];
                &&& only_active_window_changed(s, s2)
                &&& s2.windows@[i] == (MuxWindow {
                    active_pane: spec_cycle_next(pane_ids_seq(w.layout), w.active_pane),
                    ..w
                })
            }
        },
        MuxCommand::PrevPane => {
            if s.windows@.len() == 0 {
                s2 == s
            } else {
                let i = s.active_window as int;
                let w = s.windows@[i];
                &&& only_active_window_changed(s, s2)
                &&& s2.windows@[i] == (MuxWindow {
                    active_pane: spec_cycle_prev(pane_ids_seq(w.layout), w.active_pane),
                    ..w
                })
            }
        },
        MuxCommand::NavigatePane(_) => s2 == s,
        MuxCommand::NewWindow => {
            if s.next_window_id == u32::MAX {
                s2 == s
            } else {
                &&& s2.id == s.id && s2.name == s.name
                &&& s2.next_window_id == s.next_window_id + 1
                &&& s2.windows@.len() == s.windows@.len() + 1
                &&& s2.windows@.drop_last() == s.windows@
                &&& s2.windows@.last().id == (WindowId(s.next_window_id))
                &&& s2.windows@.last().name@ == dec_digits(s.windows@.len() as nat)
                &&& s2.windows@.last().layout == (LayoutNode::Leaf { pane_id: PaneId(0) })
                &&& s2.active_window == s.windows@.len()
            }
        },
        MuxCommand::CloseWindow => {
            if s.windows@.len() == 0 {
                s2 == s
            } else {
                &&& same_frame(s, s2)
                &&& s2.windows@ == s.windows@.remove(s.active_window as int)
                &&& active_after_remove(s, s2)
            }
        },
        MuxCommand::NextWindow => {
            &&& s2 == (Session { active_window: s2.active_window, ..s })
            &&& (s.windows@.len() == 0 ==> s2.active_window == s.active_window)
            &&& (s.windows@.len() > 0 ==> s2.active_window as int == (s.active_window + 1) % (
            s.windows@.len() as int))
        },
        MuxCommand::PrevWindow => {
            &&& s2 == (Session { active_window: s2.active_window, ..s })
            &&& (s.windows@.len() == 0 ==> s2.active_window == s.active_window)
            &&& (s.windows@.len() > 0 ==> s2.active_window as int == (if s.active_window == 0 {
                s.windows@.len() - 1
            } else {
                s.active_window - 1
            }))
        },
        MuxCommand::SwitchToWindow(k) => {
            if (k as int) < s.windows@.len() {
                s2 == (Session { active_window: k as usize, ..s })
            } else {
                s2 == s
            }
        },
        MuxCommand::RenameWindow(name) => {
            if s.windows@.len() == 0 {
                s2 == s
            } else {
                let i = s.active_window as int;
                let w = s.windows@[i];
                &&& only_active_window_changed(s, s2)
                &&& ({
                    let w2 = s2.windows@[i];
                    &&& w2.name@ == name@
                    &&& w2.id == w.id
                    &&& w2.layout == w.layout
                    &&& w2.active_pane == w.active_pane
                    &&& w2.panes == w.panes
                    &&& w2.next_pane_id == w.next_pane_id
                    &&& w2.zoomed == w.zoomed
                })
            }
        },
        MuxCommand::DetachSession => s2 == s,
        MuxCommand::ToggleZoom => {
            if s.windows@.len() == 0 {
                s2 == s
            } else {
                let i = s.active_window as int;
                let w = s.windows@[i];
                &&& only_active_window_changed(s, s2)
                &&& s2.windows@[i] == (MuxWindow { zoomed: !w.zoomed, ..w })
            }
        },
        MuxCommand::ResizePane(_, delta) => {
            if s.windows@.len() == 0 {
                s2 == s
            } else {
                let i = s.active_window as int;
                let w = s.windows@[i];
                &&& only_active_window_changed(s, s2)
                &&& s2.windows@[i] == (MuxWindow {
                    layout: spec_resize(w.layout, w.active_pane, delta * 50).0,
                    ..w
                })
            }
        },
        MuxCommand::ScrollbackMode => s2 == s,
    }
}

/// Leader idempotence at the data level: flipping the active
/// window's zoom flag twice restores the window list exactly, so two
/// zoom-toggle commands restore the prior zoom state.
pub proof fn lemma_toggle_zoom_idempotent(ws: Seq<MuxWindow>, i: int)
    requires
        0 <= i < ws.len(),
    ensures
        ({
            let once = ws.update(i, MuxWindow { zoomed: !ws[i].zoomed, ..ws[i] });
            let twice = once.update(i, MuxWindow { zoomed: !once[i].zoomed, ..once[i] });
            twice =~= ws
        }),
{
}

/// Rewriting one window of a well-formed session, keeping its id
/// and well-formedness, keeps the session well-formed.
proof fn lemma_one_window_rewritten(s: Session, s2: Session, i: int)
    requires
        session_wf(s),
        0 <= i < s.windows@.len(),
        s2.windows@.len() == s.windows@.len(),
        s2.active_window == s.active_window,
        s2.next_window_id == s.next_window_id,
        forall|j: int| 0 <= j < s.windows@.len() && j != i ==> s2.windows@[j] == s.windows@[j],
        win_wf(s2.windows@[i]),
        s2.windows@[i].id == s.windows@[i].id,
    ensures
        session_wf(s2),
{
    assert forall|j: int| 0 <= j < s2.windows@.len() implies win_wf(
        #[trigger] s2.windows@[j],
    ) by {
        if j != i {
            assert(s2.windows@[j] == s.windows@[j]);
        }
    }
    assert forall|j: int| 0 <= j < s2.windows@.len() implies (#[trigger] s2.windows@[j]).id.0
        < s2.next_window_id by {
        if j != i {
            assert(s2.windows@[j] == s.windows@[j]);
        }
    }
    assert forall|j: int, k: int| 0 <= j < k < s2.windows@.len() implies s2.windows@[j].id
        != s2.windows@[k].id by {
        assert(s2.windows@[j].id == s.windows@[j].id && s2.windows@[k].id == s.windows@[k].id);
    }
}

/// State of a running multiplexer server.
#[derive(Debug)]
pub struct ServerState {
    /// The session managed by this server.
    pub session: Session,
    /// Path to the listener socket file.
    pub socket_path: String,
    /// Whether the server should keep running.
    pub running: bool,
}

impl ServerState {
    /// Create a new server state for the given session; the caller
    /// supplies the socket path it resolved for the session's name.
    pub fn new(session: Session, socket_path: String) -> (r: ServerState)
        ensures
            r.session == session,
            r.socket_path == socket_path,
            r.running,
    {
        ServerState { session, socket_path, running: true }
    }

    /// Process a client message and return the response(s).
    ///
    /// An attach is answered with a snapshot of the session; a
    /// command is applied and answered with a snapshot of the
    /// changed session; input, resize and detach produce no
    /// response and leave the session alone.
    pub fn handle_message(&mut self, msg: ClientMessage) -> (r: Vec<ServerMessage>)
        requires
            session_wf(old(self).session),
        ensures
            session_wf(final(self).session),
            final(self).socket_path == old(self).socket_path,
            final(self).running == old(self).running,
            msg matches ClientMessage::Attach ==> *final(self) == *old(self) && r@.len() == 1 && (
            r@[0] matches ServerMessage::StateSync(snap) && session_like(snap, old(self).session)),
            msg matches ClientMessage::Detach ==> *final(self) == *old(self) && r@.len() == 0,
            msg matches ClientMessage::Resize { .. } ==> *final(self) == *old(self)
                && r@.len() == 0,
            msg matches ClientMessage::Input(_) ==> *final(self) == *old(self) && r@.len()
                == 0,
            msg matches ClientMessage::Command(cmd) ==> command_applied(
                old(self).session,
                cmd,
                final(self).session,
            ) && r@.len() == 1 && (r@[0] matches ServerMessage::StateSync(snap) && session_like(
                snap,
                final(self).session,
            )),
    {
        match msg {
            ClientMessage::Attach => {
                let mut out: Vec<ServerMessage> = Vec::new();
                out.push(ServerMessage::StateSync(self.session.clone()));
                out
            },
            ClientMessage::Detach => Vec::new(),
            ClientMessage::Resize { rows: _rows, cols: _cols } => {
                // Resize propagation to individual PTYs is the PTY
                // layer's work; the session itself keeps no size.
                Vec::new()
            },
            ClientMessage::Command(cmd) => {
                let _ = self.handle_command(cmd);
                let mut out: Vec<ServerMessage> = Vec::new();
                out.push(ServerMessage::StateSync(self.session.clone()));
                out
            },
            ClientMessage::Input(_data) => {
                // Input forwarding needs the PTY handles, which live
                // with the caller.
                Vec::new()
            },
        }
    }

    /// Apply one command to the session; reports whether a redraw is
    /// required.
    fn handle_command(&mut self, cmd: MuxCommand) -> (redraw: bool)
        requires
            session_wf(old(self).session),
        ensures
            session_wf(final(self).session),
            final(self).socket_path == old(self).socket_path,
            final(self).running == old(self).running,
            command_applied(old(self).session, cmd, final(self).session),
    {
        let ghost s0 = self.session;
        match cmd {
            MuxCommand::SplitHorizontal => {
                let r = self.session.split_active(Direction::Horizontal);
                proof {
                    lemma_split_active_applied(s0, Direction::Horizontal, self.session);
                }
                r.is_ok()
            },
            MuxCommand::SplitVertical => {
                let r = self.session.split_active(Direction::Vertical);
                proof {
                    lemma_split_active_applied(s0, Direction::Vertical, self.session);
                }
                r.is_ok()
            },
            MuxCommand::ClosePane => {
                if self.session.windows.len() == 0 {
                    return false;
                }
                let idx = self.session.active_window;
                proof {
                    assert(win_wf(s0.windows@[idx as int]));
                }
                let pane = self.session.windows[idx].active_pane;
                match self.session.windows[idx].close_pane(pane) {
                    Ok(true) => {
                        proof {
                            let i = idx as int;
                            assert forall|j: int|
                                0 <= j < self.session.windows@.len() && j != i implies win_wf(
                                #[trigger] self.session.windows@[j]) by {
                                assert(self.session.windows@[j] == s0.windows@[j]);
                            }
                            assert forall|j: int|
                                0 <= j < self.session.windows@.len() implies (
                            #[trigger] self.session.windows@[j]).id == s0.windows@[j].id by {
                                if j != i {
                                    assert(self.session.windows@[j] == s0.windows@[j]);
                                }
                            }
                            assert(session_wf_except(self.session, i));
                        }
                        let ghost mid = self.session;
                        let _ = self.session.close_window(idx);
                        proof {
                            let i = idx as int;
                            mid.windows@.remove_ensures(i);
                            s0.windows@.remove_ensures(i);
                            assert(self.session.windows@ =~= s0.windows@.remove(i));
                        }
                        true
                    },
                    Ok(false) => {
                        proof {
                            let i = idx as int;
                            assert forall|j: int|
                                0 <= j < self.session.windows@.len() implies win_wf(
                                #[trigger] self.session.windows@[j]) by {
                                if j != i {
                                    assert(self.session.windows@[j] == s0.windows@[j]);
                                }
                            }
                            assert forall|j: int|
                                0 <= j < self.session.windows@.len() implies (
                            #[trigger] self.session.windows@[j]).id == s0.windows@[j].id by {
                                if j != i {
                                    assert(self.session.windows@[j] == s0.windows@[j]);
                                }
                            }
                            assert(session_wf(self.session));
                        }
                        true
                    },
                    Err(_) => {
                        proof {
                            assert(false);
                        }
                        false
                    },
                }
            },
            MuxCommand::NextPane => {
                if self.session.windows.len() == 0 {
                    return false;
                }
                let idx = self.session.active_window;
                proof {
                    assert(win_wf(s0.windows@[idx as int]));
                }
                self.session.windows[idx].next_pane();
                proof {
                    lemma_one_window_rewritten(s0, self.session, idx as int);
                }
                true
            },
            MuxCommand::PrevPane => {
                if self.session.windows.len() == 0 {
                    return false;
                }
                let idx = self.session.active_window;
                proof {
                    assert(win_wf(s0.windows@[idx as int]));
                }
                self.session.windows[idx].prev_pane();
                proof {
                    lemma_one_window_rewritten(s0, self.session, idx as int);
                }
                true
            },
            MuxCommand::NavigatePane(_) => {
                // Direction-based navigation needs layout geometry,
                // which the render layer owns; no session change.
                false
            },
            MuxCommand::NewWindow => {
                if self.session.next_window_id == u32::MAX {
                    return false;
                }
                let name = usize_to_string(self.session.windows.len());
                let _ = self.session.add_window(name.as_str());
                true
            },
            MuxCommand::CloseWindow => {
                let idx = self.session.active_window;
                let _ = self.session.close_window(idx);
                proof {
                    if s0.windows@.len() == 0 {
                        assert(idx >= s0.windows@.len());
                    }
                }
                true
            },
            MuxCommand::NextWindow => {
                self.session.next_window();
                true
            },
            MuxCommand::PrevWindow => {
                self.session.prev_window();
                true
            },
            MuxCommand::SwitchToWindow(n) => {
                let idx = n as usize;
                if idx < self.session.windows.len() {
                    self.session.active_window = idx;
                    true
                } else {
                    false
                }
            },
            MuxCommand::ToggleZoom => {
                if self.session.windows.len() == 0 {
                    return false;
                }
                let idx = self.session.active_window;
                let z = self.session.windows[idx].zoomed;
                self.session.windows[idx].zoomed = !z;
                proof {
                    assert(win_wf(s0.windows@[idx as int]) ==> win_wf(
                        self.session.windows@[idx as int],
                    ));
                    lemma_one_window_rewritten(s0, self.session, idx as int);
                }
                true
            },
            MuxCommand::RenameWindow(name) => {
                if self.session.windows.len() == 0 {
                    return false;
                }
                let idx = self.session.active_window;
                self.session.windows[idx].name = name;
                proof {
                    assert(win_wf(s0.windows@[idx as int]) ==> win_wf(
                        self.session.windows@[idx as int],
                    ));
                    lemma_one_window_rewritten(s0, self.session, idx as int);
                }
                true
            },
            MuxCommand::DetachSession => {
                // Surfaced to the caller; no session change.
                false
            },
            MuxCommand::ResizePane(_, delta) => {
                if self.session.windows.len() == 0 {
                    return false;
                }
                let idx = self.session.active_window;
                proof {
                    assert(win_wf(s0.windows@[idx as int]));
                }
                let d: i32 = (delta as i32) * 50;
                let r = self.session.windows[idx].resize_active(d);
                proof {
                    lemma_one_window_rewritten(s0, self.session, idx as int);
                }
                r.is_ok()
            },
            MuxCommand::ScrollbackMode => false,
        }
    }

    /// Request server shutdown.
    pub fn shutdown(&mut self)
        ensures
            *final(self) == (ServerState { running: false, ..*old(self) }),
    {
        self.running = false;
    }
}

/// Helper for the split arms: `split_active`'s contract implies the
/// command semantics.
proof fn lemma_split_active_applied(s: Session, dir: Direction, s2: Session)
    requires
        session_wf(s),
        s.windows@.len() == 0 ==> s2 == s,
        s.windows@.len() > 0 ==> ({
            let w = s.windows@[s.active_window as int];
            &&& s2.active_window == s.active_window
            &&& s2.windows@.len() == s.windows@.len()
            &&& s2.id == s.id && s2.name == s.name && s2.next_window_id == s.next_window_id
            &&& forall|i: int|
                0 <= i < s.windows@.len() && i != s.active_window ==> s2.windows@[i]
                    == s.windows@[i]
            &&& (w.next_pane_id < u32::MAX ==> ({
                let new_id = PaneId(w.next_pane_id);
                let w2 = s2.windows@[s.active_window as int];
                &&& w2.layout == spec_split(w.layout, w.active_pane, dir, new_id)
                &&& w2.active_pane == w.active_pane
                &&& !w2.zoomed
                &&& w2.next_pane_id == w.next_pane_id + 1
                &&& w2.id == w.id && w2.name == w.name
            }))
            &&& (w.next_pane_id == u32::MAX ==> s2.windows@ == s.windows@)
        }),
    ensures
        split_applied(s, dir, s2),
{
}

/// Compute the socket path for a named session under the given
/// socket directory.
pub fn socket_path_for(socket_dir: &str, name: &str) -> (r: String)
    ensures
        r@ == socket_dir@ + "/"@ + name@ + ".sock"@,
{
    let mut out = socket_dir.to_owned();
    out.append("/");
    out.append(name);
    out.append(".sock");
    out
}

} // verus!
