//! Command-line arguments, as the library sees them once parsed.
use vstd::prelude::*;

verus! {

/// The command line: every flag is optional and overrides the config file.
pub struct Args {
    /// Path to a gif / webp / png / jpg to display.
    pub image: Option<String>,
    /// Force a specific terminal image protocol.
    pub protocol: Option<ProtocolArg>,
    /// Number of columns reserved for the image.
    pub image_cols: Option<u16>,
    /// Render only the first frame.
    pub no_animate: bool,
    /// Live dashboard: stay open and refresh metrics until Ctrl-C.
    pub live: bool,
    /// Refresh interval for live metrics, in milliseconds.
    pub refresh: Option<u64>,
    /// Path to a config file (JSON).
    pub config: Option<String>,
    /// Override the module list.
    pub modules: Option<Vec<String>>,
    /// Print every available module and its description.
    pub list_modules: bool,
    /// ASCII distro logo when no image is given (`auto`, `none` or a name).
    pub logo: Option<String>,
    /// Print every built-in ASCII logo name.
    pub list_logos: bool,
    /// Remove a solid background colour from the image.
    pub chroma: Option<String>,
    /// Per-channel tolerance (0-255) when matching the chroma colour.
    pub chroma_tolerance: Option<u8>,
}

/// The terminal image protocol asked for on the command line.
#[derive(Clone, Copy, Debug, PartialEq, Eq, Structural)]
pub enum ProtocolArg {
    Auto,
    Kitty,
    Iterm2,
    Ansi,
    /// No image at all (`none` on the command line).
    Off,
}

} // verus!
