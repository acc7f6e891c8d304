//! Command-line arguments.

use vstd::prelude::*;

verus! {

/// The command-line arguments of the remapper.
#[derive(Debug)]
pub struct Args {
    /// One or more key names to map to the left mouse button.
    pub keys: Vec<String>,
    /// Explicit keyboard device path (e.g. /dev/input/event3).
    pub device: Option<String>,
    /// Enable verbose logging.
    pub verbose: bool,
    /// Print what would be emitted, without creating uinput devices.
    pub dry_run: bool,
}

} // verus!
