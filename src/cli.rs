//! The command line's shape: one subcommand and its arguments.
use vstd::prelude::*;

verus! {

/// A parsed command line.
#[derive(Debug)]
pub struct Cli {
    pub command: Commands,
}

/// The subcommands and their arguments.
#[derive(Debug)]
pub enum Commands {
    /// List available languages and versions, or the installed ones.
    List { language: Option<String>, installed: bool },
    /// Install a language at a version.
    Install { language: String, version: String },
    /// Show or set the default version of a language.
    Default { language: String, version: Option<String>, show: bool },
    /// Uninstall one version, or all versions, of a language.
    Uninstall { language: String, version: Option<String>, all: bool },
    /// Use a version for the current session only.
    Switch { language: String, version: String },
    /// Add, set, remove or list path sources.
    Path { action: String, name: Option<String>, path: Option<String> },
}

impl Commands {
    /// Whether running this subcommand can change the environment script.
    pub fn changes_environment(&self) -> (r: bool)
        ensures
            r == (self is Install || self is Default || self is Uninstall || self is Switch || self is Path),
    {
        match self {
            Commands::List { .. } => false,
            _ => true,
        }
    }
}

} // verus!
