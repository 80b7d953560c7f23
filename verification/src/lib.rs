//! Duplicate-file detection by content digest.
//!
//! The library is a three-stage pipeline: a tree walker that flattens a
//! directory tree into the list of its regular-file paths, a content hasher
//! that digests a file's bytes, and a grouper that collects paths sharing a
//! digest and reports every group of two or more.

pub mod grouper;
pub mod hashing;
pub mod hex;
pub mod pipeline;
pub mod report;
pub mod tree;
