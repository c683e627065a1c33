//! The info column: which modules to show and the lines each produces.
pub mod modules;
pub mod platform;

pub use modules::{InfoLine, LineKind};
