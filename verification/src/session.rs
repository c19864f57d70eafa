//! Session management.
//!
//! A session owns an ordered list of windows and the index of the
//! active one. Its invariant keeps the active index valid whenever
//! windows exist, every window well-formed, and window ids unique and
//! below the id counter.

use vstd::prelude::*;

use crate::error::{MuxError, MuxResult};
use crate::layout::{tree_contains, Direction, LayoutNode, PaneId};
use crate::split::spec_split;
use crate::window::{fresh_window, win_wf, window_like, MuxWindow, WindowId};

verus! {

/// Unique identifier for a session.
#[derive(Debug, Clone, Copy, PartialEq, Eq, Structural)]
pub struct SessionId(pub u32);

/// A multiplexer session owning one or more windows.
#[derive(Debug)]
pub struct Session {
    /// Unique session identifier.
    pub id: SessionId,
    /// User-visible session name.
    pub name: String,
    /// All windows in this session.
    pub windows: Vec<MuxWindow>,
    /// Index of the active window.
    pub active_window: usize,
    /// Counter for generating unique window ids.
    pub next_window_id: u32,
}

/// Session invariant: a valid active index whenever windows exist,
/// well-formed windows, and unique window ids below the counter.
pub open spec fn session_wf(s: Session) -> bool {
    &&& s.windows@.len() > 0 ==> s.active_window < s.windows@.len()
    &&& forall|i: int| 0 <= i < s.windows@.len() ==> win_wf(#[trigger] s.windows@[i])
    &&& forall|i: int|
        0 <= i < s.windows@.len() ==> (#[trigger] s.windows@[i]).id.0 < s.next_window_id
    &&& forall|i: int, j: int|
        0 <= i < j < s.windows@.len() ==> s.windows@[i].id != s.windows@[j].id
}

/// The session invariant with one window possibly spent: the window
/// at `idx` (about to be removed) need not be well-formed.
pub open spec fn session_wf_except(s: Session, idx: int) -> bool {
    &&& s.windows@.len() > 0 ==> s.active_window < s.windows@.len()
    &&& forall|i: int| 0 <= i < s.windows@.len() && i != idx ==> win_wf(#[trigger] s.windows@[i])
    &&& forall|i: int|
        0 <= i < s.windows@.len() ==> (#[trigger] s.windows@[i]).id.0 < s.next_window_id
    &&& forall|i: int, j: int|
        0 <= i < j < s.windows@.len() ==> s.windows@[i].id != s.windows@[j].id
}

impl Session {
    /// Create a new session with one default window named "0".
    pub fn new(id: SessionId, name: &str) -> (s: Session)
        ensures
            s.id == id,
            s.name@ == name@,
            s.windows@.len() == 1,
            fresh_window(s.windows@[0], WindowId(0), "0"@),
            s.active_window == 0,
            s.next_window_id == 1,
            session_wf(s),
    {
        let win = MuxWindow::new(WindowId(0), "0");
        let mut windows: Vec<MuxWindow> = Vec::new();
        windows.push(win);
        Session { id, name: name.to_owned(), windows, active_window: 0, next_window_id: 1 }
    }

    /// Add a new window and make it active; returns its id.
    pub fn add_window(&mut self, name: &str) -> (r: WindowId)
        requires
            session_wf(*old(self)),
            old(self).next_window_id < u32::MAX,
        ensures
            session_wf(*final(self)),
            r == (WindowId(old(self).next_window_id)),
            final(self).windows@.len() == old(self).windows@.len() + 1,
            final(self).windows@.drop_last() == old(self).windows@,
            fresh_window(final(self).windows@.last(), r, name@),
            final(self).active_window == old(self).windows@.len(),
            final(self).next_window_id == old(self).next_window_id + 1,
            final(self).id == old(self).id && final(self).name == old(self).name,
    {
        let id = WindowId(self.next_window_id);
        self.next_window_id = self.next_window_id + 1;
        self.windows.push(MuxWindow::new(id, name));
        self.active_window = self.windows.len() - 1;
        id
    }

    /// Close the window at the given index.
    ///
    /// Windows after it shift down. When windows remain, the active
    /// index is clamped to the new last index; it is not otherwise
    /// adjusted.
    pub fn close_window(&mut self, idx: usize) -> (r: MuxResult<()>)
        requires
            session_wf_except(*old(self), idx as int),
        ensures
            idx < old(self).windows@.len() ==> session_wf(*final(self)),
            idx >= old(self).windows@.len() ==> r == Err::<(), _>(MuxError::WindowNotFound(idx))
                && *final(self) == *old(self),
            idx < old(self).windows@.len() ==> ({
                &&& r == Ok::<(), MuxError>(())
                &&& final(self).windows@ == old(self).windows@.remove(idx as int)
                &&& final(self).active_window as int == (if final(self).windows@.len() == 0 {
                    old(self).active_window as int
                } else if old(self).active_window >= old(self).windows@.len() - 1 {
                    old(self).windows@.len() - 2
                } else {
                    old(self).active_window as int
                })
                &&& final(self).id == old(self).id && final(self).name == old(self).name
                &&& final(self).next_window_id == old(self).next_window_id
            }),
    {
        if idx >= self.windows.len() {
            return Err(MuxError::WindowNotFound(idx));
        }
        let ghost oldw = self.windows@;
        self.windows.remove(idx);
        proof {
            oldw.remove_ensures(idx as int);
        }
        if self.windows.len() == 0 {
            return Ok(());
        }
        if self.active_window >= self.windows.len() {
            self.active_window = self.windows.len() - 1;
        }
        Ok(())
    }

    /// Switch to the next window (wraps around); no-op when empty.
    pub fn next_window(&mut self)
        requires
            session_wf(*old(self)),
        ensures
            session_wf(*final(self)),
            *final(self) == (Session { active_window: final(self).active_window, ..*old(self) }),
            old(self).windows@.len() == 0 ==> final(self).active_window == old(
                self,
            ).active_window,
            old(self).windows@.len() > 0 ==> final(self).active_window as int == (old(
                self,
            ).active_window + 1) % (old(self).windows@.len() as int),
    {
        if self.windows.len() > 0 {
            let n = self.windows.len();
            if self.active_window + 1 < n {
                self.active_window = self.active_window + 1;
            } else {
                self.active_window = 0;
            }
            proof {
                if old(self).active_window + 1 < n {
                    vstd::arithmetic::div_mod::lemma_small_mod(
                        (old(self).active_window + 1) as nat,
                        n as nat,
                    );
                } else {
                    assert(old(self).active_window + 1 == n);
                    vstd::arithmetic::div_mod::lemma_mod_self_0(n as int);
                }
            }
        }
    }

    /// Switch to the previous window (wraps around); no-op when empty.
    pub fn prev_window(&mut self)
        requires
            session_wf(*old(self)),
        ensures
            session_wf(*final(self)),
            *final(self) == (Session { active_window: final(self).active_window, ..*old(self) }),
            old(self).windows@.len() == 0 ==> final(self).active_window == old(
                self,
            ).active_window,
            old(self).windows@.len() > 0 ==> final(self).active_window as int == (if old(
                self,
            ).active_window == 0 {
                old(self).windows@.len() - 1
            } else {
                old(self).active_window - 1
            }),
    {
        if self.windows.len() > 0 {
            if self.active_window == 0 {
                self.active_window = self.windows.len() - 1;
            } else {
                self.active_window = self.active_window - 1;
            }
        }
    }

    /// Decide the session invariant: whether this session satisfies
    /// [`session_wf`]. Lets a caller validate data that arrived from
    /// outside, e.g. a session restored from disk, before handing it
    /// to operations that require the invariant.
    pub fn is_well_formed(&self) -> (r: bool)
        ensures
            r == session_wf(*self),
    {
        if self.windows.len() > 0 && self.active_window >= self.windows.len() {
            return false;
        }
        let mut i: usize = 0;
        while i < self.windows.len()
            invariant
                0 <= i <= self.windows@.len(),
                self.windows@.len() > 0 ==> self.active_window < self.windows@.len(),
                forall|k: int| 0 <= k < i ==> win_wf(#[trigger] self.windows@[k]),
                forall|k: int|
                    0 <= k < i ==> (#[trigger] self.windows@[k]).id.0 < self.next_window_id,
                forall|a: int, b: int|
                    0 <= a < b < i ==> self.windows@[a].id != self.windows@[b].id,
            decreases self.windows@.len() - i,
        {
            if !self.windows[i].is_well_formed() {
                return false;
            }
            if self.windows[i].id.0 >= self.next_window_id {
                return false;
            }
            let mut j: usize = 0;
            while j < i
                invariant
                    0 <= j <= i < self.windows@.len(),
                    forall|b: int|
                        0 <= b < j ==> self.windows@[b].id != self.windows@[i as int].id,
                decreases i - j,
            {
                if self.windows[j].id.0 == self.windows[i].id.0 {
                    proof {
                        assert(self.windows@[j as int].id == self.windows@[i as int].id);
                    }
                    return false;
                }
                j = j + 1;
            }
            i = i + 1;
        }
        true
    }

    /// Get a reference to the active window; `None` when the session
    /// is empty.
    pub fn active_win(&self) -> (r: Option<&MuxWindow>)
        ensures
            self.windows@.len() == 0 ==> r is None,
            self.windows@.len() > 0 && self.active_window < self.windows@.len() ==> (
            r matches Some(w) && *w == self.windows@[self.active_window as int]),
    {
        if self.active_window < self.windows.len() {
            Some(&self.windows[self.active_window])
        } else {
            None
        }
    }

    /// Get a mutable reference to the active window; `None` when the
    /// session is empty.
    pub fn active_win_mut(&mut self) -> (r: Option<&mut MuxWindow>)
        ensures
            old(self).windows@.len() == 0 ==> r is None && *final(self) == *old(self),
            old(self).windows@.len() > 0 && old(self).active_window < old(self).windows@.len()
                ==> (r matches Some(w) && *w == old(self).windows@[old(self).active_window as int]
                && final(self).windows@ == old(self).windows@.update(
                old(self).active_window as int,
                *final(w),
            ) && final(self).active_window == old(self).active_window && final(self).id == old(
                self,
            ).id && final(self).name == old(self).name && final(self).next_window_id == old(
                self,
            ).next_window_id),
    {
        if self.active_window < self.windows.len() {
            let idx = self.active_window;
            Some(&mut self.windows[idx])
        } else {
            None
        }
    }

    /// Get the active pane id (from the active window); `None` when
    /// the session is empty.
    pub fn active_pane_id(&self) -> (r: Option<PaneId>)
        ensures
            self.windows@.len() == 0 ==> r is None,
            self.windows@.len() > 0 && self.active_window < self.windows@.len() ==> r == Some(
                self.windows@[self.active_window as int].active_pane,
            ),
    {
        match self.active_win() {
            Some(w) => Some(w.active_pane),
            None => None,
        }
    }

    /// Get the layout of the active window; `None` when the session
    /// is empty.
    pub fn active_layout(&self) -> (r: Option<&LayoutNode>)
        ensures
            self.windows@.len() == 0 ==> r is None,
            self.windows@.len() > 0 && self.active_window < self.windows@.len() ==> (
            r matches Some(l) && *l == self.windows@[self.active_window as int].layout),
    {
        match self.active_win() {
            Some(w) => Some(&w.layout),
            None => None,
        }
    }

    /// Whether the session has no windows left.
    pub fn is_empty(&self) -> (r: bool)
        ensures
            r == (self.windows@.len() == 0),
    {
        self.windows.len() == 0
    }

    /// Split the active pane in the active window.
    ///
    /// Fails on an empty session; otherwise behaves as the active
    /// window's split on its focused pane, which always holds it.
    pub fn split_active(&mut self, dir: Direction) -> (r: MuxResult<PaneId>)
        requires
            session_wf(*old(self)),
        ensures
            session_wf(*final(self)),
            old(self).windows@.len() == 0 ==> (r matches Err(MuxError::SessionError(_)))
                && *final(self) == *old(self),
            old(self).windows@.len() > 0 ==> ({
                let w = old(self).windows@[old(self).active_window as int];
                &&& final(self).active_window == old(self).active_window
                &&& final(self).windows@.len() == old(self).windows@.len()
                &&& final(self).id == old(self).id && final(self).name == old(self).name
                &&& final(self).next_window_id == old(self).next_window_id
                &&& forall|i: int|
                    0 <= i < old(self).windows@.len() && i != old(self).active_window
                        ==> final(self).windows@[i] == old(self).windows@[i]
                &&& (w.next_pane_id < u32::MAX ==> ({
                    let new_id = PaneId(w.next_pane_id);
                    let w2 = final(self).windows@[old(self).active_window as int];
                    &&& r == Ok::<_, MuxError>(new_id)
                    &&& w2.layout == spec_split(w.layout, w.active_pane, dir, new_id)
                    &&& w2.active_pane == w.active_pane
                    &&& !w2.zoomed
                    &&& w2.next_pane_id == w.next_pane_id + 1
                    &&& w2.id == w.id && w2.name == w.name
                }))
                &&& (w.next_pane_id == u32::MAX ==> (r matches Err(
                    MuxError::LayoutError(_),
                )) && final(self).windows@ == old(self).windows@)
            }),
    {
        if self.windows.len() == 0 {
            return Err(MuxError::SessionError("no active window".to_owned()));
        }
        let idx = self.active_window;
        let pane_id = self.windows[idx].active_pane;
        proof {
            assert(win_wf(old(self).windows@[idx as int]));
            assert(tree_contains(old(self).windows@[idx as int].layout, pane_id));
        }
        let r = self.windows[idx].split(pane_id, dir);
        proof {
            if old(self).windows@[idx as int].next_pane_id == u32::MAX {
                assert(self.windows@ =~= old(self).windows@);
            }
        }
        r
    }
}

/// The two sessions agree on every observable field, window by
/// window, with names compared by their text.
pub open spec fn session_like(a: Session, b: Session) -> bool {
    &&& a.id == b.id
    &&& a.name@ == b.name@
    &&& a.active_window == b.active_window
    &&& a.next_window_id == b.next_window_id
    &&& a.windows@.len() == b.windows@.len()
    &&& forall|i: int|
        0 <= i < a.windows@.len() ==> window_like(#[trigger] a.windows@[i], b.windows@[i])
}

impl Clone for Session {
    /// A clone matches the original in every observable field.
    fn clone(&self) -> (res: Self)
        ensures
            session_like(res, *self),
            session_wf(*self) ==> session_wf(res),
    {
        let mut windows: Vec<MuxWindow> = Vec::new();
        let mut i: usize = 0;
        while i < self.windows.len()
            invariant
                0 <= i <= self.windows@.len(),
                windows@.len() == i,
                forall|k: int|
                    0 <= k < i ==> window_like(#[trigger] windows@[k], self.windows@[k]) && (
                    win_wf(self.windows@[k]) ==> win_wf(windows@[k])),
            decreases self.windows@.len() - i,
        {
            windows.push(self.windows[i].clone());
            i = i + 1;
        }
        let res = Session {
            id: self.id,
            name: self.name.clone(),
            windows,
            active_window: self.active_window,
            next_window_id: self.next_window_id,
        };
        res
    }
}

} // verus!
