//! Bridges named shared-memory segments to files on a tmpfs: a parser for the
//! mount table, discovery of a tmpfs directory, and the sizing and naming rules
//! of the file-backed mappings.

pub mod text;
pub mod mount_grammar;
pub mod scan;
pub mod mounts;
pub mod discovery;
pub mod bridge;
pub mod segments;

