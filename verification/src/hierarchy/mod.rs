//! Hierarchies of groups and leaves.

pub mod concrete;
pub mod lazy;
