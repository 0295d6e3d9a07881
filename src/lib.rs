//! Walks filesystem paths, filters files by visibility, ignore globs and
//! extensions, and concatenates their contents into one text artifact.
//!
//! The filesystem itself is driven from outside the library: a [`walker::Walker`]
//! decides, for each path it is shown, whether to skip it, render it or expand
//! it, and accumulates the rendered output.

mod text;

pub mod paths;
pub mod config;
pub mod policy;
pub mod render;
pub mod walker;
pub mod laws;
