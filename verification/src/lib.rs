//! The logic of a web server that exposes a git-managed Obsidian vault for editing.
//!
//! Each save that changes something results in a single git commit in the local repository. Pulling
//! and pushing are left to the operator.
pub mod assets;
pub mod git;
pub mod path;
pub mod routes;
pub mod state;
pub mod text;
pub mod tree;
pub mod vault;
