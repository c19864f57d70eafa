//! Status bar content generation.

use vstd::prelude::*;

use crate::fmt::{dec_digits, push_char, usize_to_string};
use crate::layout::pane_ids_seq;
use crate::session::Session;
use crate::window::MuxWindow;

verus! {

/// Describes a window entry for the status bar.
#[derive(Debug, Clone, PartialEq)]
pub struct WindowEntry {
    /// Index in the window list.
    pub index: usize,
    /// Window name.
    pub name: String,
    /// Whether this window is currently active.
    pub is_active: bool,
}

/// Content to be rendered in the status bar.
#[derive(Debug, Clone, PartialEq)]
pub struct StatusBarContent {
    /// Name of the current session.
    pub session_name: String,
    /// Window list with active indicator.
    pub windows: Vec<WindowEntry>,
    /// Information about the active pane.
    pub pane_info: String,
}

/// One-based position of the focused pane in depth-first order; an
/// unknown focus counts as the first position.
pub open spec fn spec_pane_position(w: MuxWindow) -> int {
    match pane_ids_seq(w.layout).index_of_first(w.active_pane) {
        Option::None => 1,
        Option::Some(p) => p + 1,
    }
}

/// One-based position of the focused pane in depth-first order.
pub fn pane_position(w: &MuxWindow) -> (r: usize)
    ensures
        r == spec_pane_position(*w),
        1 <= r <= pane_ids_seq(w.layout).len(),
{
    proof {
        crate::layout::lemma_tree_count_pos(w.layout);
    }
    let order = w.pane_order();
    let mut i: usize = 0;
    while i < order.len()
        invariant
            0 <= i <= order@.len(),
            order@ == pane_ids_seq(w.layout),
            forall|k: int| 0 <= k < i ==> order@[k] != w.active_pane,
        decreases order@.len() - i,
    {
        if order[i].0 == w.active_pane.0 {
            proof {
                assert(order@[i as int] == w.active_pane);
                assert(order@.contains(w.active_pane));
                order@.index_of_first_ensures(w.active_pane);
                match order@.index_of_first(w.active_pane) {
                    Option::Some(q) => {
                        if q < i as int {
                            assert(order@[q] == w.active_pane);
                            assert(false);
                        }
                        if q > i as int {
                            assert(order@[i as int] != w.active_pane);
                            assert(false);
                        }
                    },
                    Option::None => {
                        assert(false);
                    },
                }
            }
            return i + 1;
        }
        i = i + 1;
    }
    proof {
        assert(forall|k: int| 0 <= k < order@.len() ==> order@[k] != w.active_pane);
        assert(!order@.contains(w.active_pane));
        order@.index_of_first_ensures(w.active_pane);
    }
    1
}

/// The text of the active-pane indicator: "pane <pos>/<count>".
pub open spec fn spec_pane_info(w: MuxWindow) -> Seq<char> {
    "pane "@ + dec_digits(spec_pane_position(w) as nat) + "/"@ + dec_digits(tree_count_of(w))
}

/// Number of panes of the window's layout.
pub open spec fn tree_count_of(w: MuxWindow) -> nat {
    pane_ids_seq(w.layout).len()
}

/// Build the status bar content from the current session state: one
/// entry per window with the active one marked, and the active
/// pane's position.
pub fn build_status(session: &Session) -> (r: StatusBarContent)
    ensures
        r.session_name@ == session.name@,
        r.windows@.len() == session.windows@.len(),
        forall|i: int|
            0 <= i < session.windows@.len() ==> {
                let e = #[trigger] r.windows@[i];
                e.index == i && e.name@ == session.windows@[i].name@ && e.is_active == (i
                    == session.active_window)
            },
        session.windows@.len() == 0 ==> r.pane_info@ == Seq::<char>::empty(),
        session.windows@.len() > 0 && session.active_window < session.windows@.len()
            ==> r.pane_info@ == spec_pane_info(session.windows@[session.active_window as int]),
{
    let mut windows: Vec<WindowEntry> = Vec::new();
    let mut i: usize = 0;
    while i < session.windows.len()
        invariant
            0 <= i <= session.windows@.len(),
            windows@.len() == i,
            forall|k: int|
                0 <= k < i ==> {
                    let e = #[trigger] windows@[k];
                    e.index == k && e.name@ == session.windows@[k].name@ && e.is_active == (k
                        == session.active_window)
                },
        decreases session.windows@.len() - i,
    {
        windows.push(
            WindowEntry {
                index: i,
                name: session.windows[i].name.clone(),
                is_active: i == session.active_window,
            },
        );
        i = i + 1;
    }

    let pane_info: String = match session.active_win() {
        Some(w) => {
            let pos = pane_position(w);
            let ids = w.pane_order();
            let mut info = "pane ".to_owned();
            info.append(usize_to_string(pos).as_str());
            info.append("/");
            info.append(usize_to_string(ids.len()).as_str());
            info
        },
        None => String::new(),
    };

    StatusBarContent { session_name: session.name.clone(), windows, pane_info }
}

/// The text of one window entry: " <index>:<name>" with a star on
/// the active window.
pub open spec fn spec_entry_text(e: WindowEntry) -> Seq<char> {
    " "@ + dec_digits(e.index as nat) + ":"@ + e.name@ + (if e.is_active {
        "*"@
    } else {
        Seq::<char>::empty()
    })
}

/// Format a window entry for the status bar.
pub fn format_window_entry(e: &WindowEntry) -> (r: String)
    ensures
        r@ == spec_entry_text(*e),
{
    let mut out = " ".to_owned();
    out.append(usize_to_string(e.index).as_str());
    out.append(":");
    out.append(e.name.as_str());
    if e.is_active {
        out.append("*");
    }
    out
}

/// The concatenated texts of the window entries.
pub open spec fn spec_entries_text(es: Seq<WindowEntry>) -> Seq<char>
    decreases es.len(),
{
    if es.len() == 0 {
        Seq::empty()
    } else {
        spec_entries_text(es.drop_last()) + spec_entry_text(es.last())
    }
}

/// A run of `n` spaces.
pub open spec fn spec_spaces(n: nat) -> Seq<char>
    decreases n,
{
    if n == 0 {
        Seq::empty()
    } else {
        spec_spaces((n - 1) as nat).push(' ')
    }
}

/// Render the status bar content as a single line: the session name
/// in brackets, the window entries, then the pane info aligned to
/// the right edge when the width allows.
pub fn render_status_line(content: &StatusBarContent, width: usize) -> (r: String)
    ensures
        ({
            let left = "["@ + content.session_name@ + "]"@;
            let center = spec_entries_text(content.windows@);
            let used = left.len() + center.len() + content.pane_info@.len();
            let pad: nat = if used < width {
                (width - used) as nat
            } else {
                0
            };
            r@ == left + center + spec_spaces(pad) + content.pane_info@
        }),
{
    let mut left = "[".to_owned();
    left.append(content.session_name.as_str());
    left.append("]");

    let mut center = String::new();
    let mut i: usize = 0;
    while i < content.windows.len()
        invariant
            0 <= i <= content.windows@.len(),
            center@ == spec_entries_text(content.windows@.take(i as int)),
        decreases content.windows@.len() - i,
    {
        let piece = format_window_entry(&content.windows[i]);
        center.append(piece.as_str());
        proof {
            assert(content.windows@.take(i + 1).drop_last() =~= content.windows@.take(i as int));
            assert(content.windows@.take(i + 1).last() == content.windows@[i as int]);
        }
        i = i + 1;
    }
    proof {
        assert(content.windows@.take(content.windows@.len() as int) =~= content.windows@);
    }

    let left_len = left.as_str().unicode_len();
    let center_len = center.as_str().unicode_len();
    let right_len = content.pane_info.as_str().unicode_len();

    let mut out = left;
    out.append(center.as_str());

    if left_len <= usize::MAX - center_len && left_len + center_len <= usize::MAX - right_len {
        let used = left_len + center_len + right_len;
        let mut pad: usize = if used < width {
            width - used
        } else {
            0
        };
        let ghost target = pad;
        while pad > 0
            invariant
                0 <= pad <= target,
                out@ == "["@ + content.session_name@ + "]"@ + spec_entries_text(
                    content.windows@,
                ) + spec_spaces((target - pad) as nat),
            decreases pad,
        {
            push_char(&mut out, ' ');
            pad = pad - 1;
        }
    }
    out.append(content.pane_info.as_str());
    out
}

} // verus!
