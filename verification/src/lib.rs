//! Branch identifiers and release-metadata logic for the Eden/Citron emulator family.

pub mod text;
pub mod yuzu_branch;
pub mod upstream_sha;
pub mod error;
pub mod release;
pub mod yuzu;
