//! Sorting of photos into a hierarchy of groups by their location and time.

pub mod algo;
pub mod apply;
pub mod backend;
pub mod bintree;
pub mod common;
pub mod deep_sorter;
pub mod geogroup;
pub mod gui;
pub mod hierarchy;
pub mod maybe_borrowed;
pub mod strength;
pub mod type_level_logic;
