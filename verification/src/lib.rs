//! Addressing, path and shell-command logic for browsing Codex session logs
//! that live on a remote host reached over SSH, and for deleting rollouts
//! from a local or remote sessions tree.

pub mod text;
pub mod unix_path;
pub mod remote;
pub mod scripts;
pub mod commands;
pub mod lines;
pub mod titles;
pub mod discovery;
pub mod session;
pub mod download;
pub mod laws;
