//! The command line, as the commands read it.

use vstd::prelude::*;

verus! {

/// The parsed command line. Without a command, the help is shown.
#[derive(Debug)]
pub struct Cli {
    pub command: Option<Commands>,
}

/// A command that works on sessions.
#[derive(Debug)]
pub enum Commands {
    /// Install hooks for every detected agent at the project level.
    Init { path: Option<String> },
    /// Show the turn history of a session.
    Log { session_ref: String, count: Option<usize>, workspace: Option<String> },
    /// Restore the working tree to a session turn's snapshot.
    Checkout { session_ref: String, force: bool, quiet: bool, workspace: Option<String> },
    /// List recorded sessions.
    Sessions { workspace: Option<String> },
    /// Handle an agent hook event.
    Hook { agent: String, event: Option<String>, payload: Option<String> },
    /// Manage hook integrations for coding agents.
    Hooks { action: HooksAction },
}

/// A command that manages hooks.
#[derive(Debug)]
pub enum HooksAction {
    /// Install hooks for the named agents.
    Install { agents: Vec<String>, path: Option<String>, global: bool },
    /// Remove hooks, of every agent where none is named.
    Uninstall { agents: Vec<String>, path: Option<String>, global: bool },
    /// Show which agents have hooks installed.
    Status { path: Option<String>, global: bool },
}

} // verus!
