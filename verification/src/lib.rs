//! Verified core of `whitman`, a tool that picks an `AGENTS.md` profile and
//! links it into a project.

pub mod agents_file;
pub mod descriptions;
pub mod global_profile;
pub mod names;
pub mod order;
pub mod path;
pub mod platform;
pub mod profile;
pub mod text;
pub mod tui;
pub mod utf8_bytes;
