//! Decoded images and the background keying applied to them.
pub mod chroma;
pub mod loader;

pub use chroma::ChromaKey;
pub use loader::{Frame, ImageAsset, SourceKind};
