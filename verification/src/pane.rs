//! Pane metadata.
//!
//! The terminal grid and PTY of a pane live outside this crate: here a
//! pane is its id and display metadata only.

use vstd::prelude::*;

use crate::layout::PaneId;

verus! {

/// Metadata for a single pane.
#[derive(Debug)]
pub struct Pane {
    /// Unique pane identifier.
    pub id: PaneId,
    /// Display title (e.g. shell command or working directory).
    pub title: String,
}

impl Pane {
    /// Create a new pane with a default title.
    pub fn new(id: PaneId) -> (p: Pane)
        ensures
            p.id == id,
            p.title@ == Seq::<char>::empty(),
    {
        Pane { id, title: String::new() }
    }
}

impl Clone for Pane {
    /// A clone keeps the id and the title text.
    fn clone(&self) -> (res: Self)
        ensures
            res.id == self.id,
            res.title@ == self.title@,
    {
        Pane { id: self.id, title: self.title.clone() }
    }
}

} // verus!
