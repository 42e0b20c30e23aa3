//! Safe installation of third-party mod archives.
//!
//! The library plans an installation as pure data: it sniffs the archive
//! format from leading bytes, resolves the installed directory's name,
//! turns the archive's entries into a sequence of filesystem actions, and
//! proves that every planned path stays inside the managed mods root.
//! Performing the network fetch and the filesystem actions is left to the
//! embedding application.

pub mod archive;
pub mod detect;
pub mod errors;
pub mod fsmodel;
pub mod names;
pub mod paths;
pub mod plan;
pub mod text;
pub mod uninstall;

pub use paths::SafePath;
