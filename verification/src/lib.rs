//! A declarative configuration catalog for a local workspace of
//! source-controlled projects: where each project is checked out, and which
//! shell commands run after cloning or activating it.
//!
//! The effective workspace path and command strings of a project are not
//! stored directly; they are derived by merging three layers (an explicit
//! per-project override, a set of named tags ordered by priority, and global
//! defaults) under a deterministic, order-independent algorithm.

pub mod catalog;
pub mod laws;
pub mod model;
pub mod paths;
pub mod resolve;
pub mod sanity;
pub mod text;
