//! Verified core of a game-tool launcher and installer: path rules for
//! synchronised files, parsers for offset headers and Git LFS pointers, and
//! the decisions that the launcher takes between its I/O steps.
pub mod text;
pub mod paths;
pub mod offsets;
pub mod lfs;
pub mod versions;
pub mod update;
pub mod launch;
pub mod changelog;
pub mod archive;
