//! The terminal: which image protocol it speaks, and the size of its cells.
pub mod detect;
pub mod renderers;
pub mod size;

pub use detect::{detect_protocol, Protocol};
pub use size::CellSize;
