//! Builds a kernel command line by merging line-oriented option fragments.
//!
//! Each fragment line is a directive: a blank line or one that starts with `#`
//! does nothing, a line `-V` removes the option `V`, and any other line adds
//! itself as an option unless it is already present. The resulting options
//! keep first-seen order, hold no duplicates, and are joined with single
//! spaces.

pub mod merge;
pub mod lines;
pub mod render;
pub mod laws;
