//! A per-user runtime version manager: the registry of installed runtimes,
//! the shell environment derived from it, and the layout of unpacked archives.

pub mod text;
pub mod paths;
pub mod registry;
pub mod jsondoc;
pub mod record;
pub mod envscript;
pub mod profile;
pub mod layout;
pub mod workflow;
pub mod parser;
pub mod formatter;
pub mod api;
pub mod cli;
