//! Rewrites local-path patch overrides in a build manifest so the build can
//! run on a remote host: discovers the workspaces the patch paths live in,
//! dedupes them, and rewrites each path to its place in the remote layout.

pub mod fspath;
pub mod locate;
pub mod manifest;
pub mod plan;
