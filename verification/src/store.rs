//! Stores of captures.

pub mod data;
