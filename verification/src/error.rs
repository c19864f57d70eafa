//! Error types for the multiplexer crate.

use vstd::prelude::*;

verus! {

/// Errors that can occur in the multiplexer.
#[derive(Debug, Clone, PartialEq, Eq)]
pub enum MuxError {
    /// A layout operation failed (e.g. pane too small to split).
    LayoutError(String),
    /// The requested pane was not found.
    PaneNotFound(u32),
    /// The requested window was not found.
    WindowNotFound(usize),
    /// A session-level operation failed.
    SessionError(String),
    /// Persistence (save/load) failed.
    PersistenceError(String),
    /// An I/O error occurred; the field carries its description.
    IoError(String),
}

/// Convenience type alias for multiplexer results.
pub type MuxResult<T> = Result<T, MuxError>;

/// The description of an error, by variant.
pub open spec fn spec_error_message(e: MuxError) -> Seq<char> {
    match e {
        MuxError::LayoutError(m) => "layout error: "@ + m@,
        MuxError::PaneNotFound(id) => "pane not found: "@ + crate::fmt::dec_digits(id as nat),
        MuxError::WindowNotFound(idx) => "window not found: "@ + crate::fmt::dec_digits(
            idx as nat,
        ),
        MuxError::SessionError(m) => "session error: "@ + m@,
        MuxError::PersistenceError(m) => "persistence error: "@ + m@,
        MuxError::IoError(m) => "io error: "@ + m@,
    }
}

impl MuxError {
    /// A human-readable description of the error.
    pub fn message(&self) -> (r: String)
        ensures
            r@ == spec_error_message(*self),
    {
        match self {
            MuxError::LayoutError(m) => {
                let mut out = "layout error: ".to_owned();
                out.append(m.as_str());
                out
            },
            MuxError::PaneNotFound(id) => {
                let mut out = "pane not found: ".to_owned();
                out.append(crate::fmt::u64_to_string(*id as u64).as_str());
                out
            },
            MuxError::WindowNotFound(idx) => {
                let mut out = "window not found: ".to_owned();
                out.append(crate::fmt::usize_to_string(*idx).as_str());
                out
            },
            MuxError::SessionError(m) => {
                let mut out = "session error: ".to_owned();
                out.append(m.as_str());
                out
            },
            MuxError::PersistenceError(m) => {
                let mut out = "persistence error: ".to_owned();
                out.append(m.as_str());
                out
            },
            MuxError::IoError(m) => {
                let mut out = "io error: ".to_owned();
                out.append(m.as_str());
                out
            },
        }
    }
}

} // verus!
