//! Subcommand definitions for session management.
//!
//! These types describe the multiplexer subcommands used to create,
//! attach to, list, and kill sessions; the argument parsing itself
//! happens outside this crate.

use vstd::prelude::*;

verus! {

/// Top-level mux subcommand.
#[derive(Debug, Clone)]
pub enum MuxSubcommand {
    /// Start a new session (server + client).
    New(NewOptions),
    /// Attach to an existing session.
    Attach(AttachOptions),
    /// List active sessions.
    List,
    /// Kill a session.
    Kill(KillOptions),
}

/// Options for creating a session.
#[derive(Debug, Clone)]
pub struct NewOptions {
    /// Session name (auto-generated if not provided).
    pub session_name: Option<String>,
}

/// Options for attaching to a session.
#[derive(Debug, Clone)]
pub struct AttachOptions {
    /// Target session name.
    pub target: String,
}

/// Options for killing a session.
#[derive(Debug, Clone)]
pub struct KillOptions {
    /// Target session name.
    pub target: String,
}

} // verus!
