//! Run options for embedding the remapper without the command line.

use std::collections::HashSet;
use vstd::prelude::*;
use crate::config::{parse_key_names, parsed_key_codes};
use crate::error::Error;

verus! {

/// Options for running the remapper. Build from command-line arguments or use
/// programmatically.
#[derive(Clone, Debug)]
pub struct RunOptions {
    /// Key names to map to the left mouse button (e.g. ["KEY_DOT", "KEY_SLASH"]).
    pub keys: Vec<String>,
    /// Explicit keyboard device path, or None for auto-detect.
    pub device_path: Option<String>,
    /// If true, do not create uinput devices; only log what would be emitted.
    pub dry_run: bool,
    /// If true, enable debug-level logging.
    pub verbose: bool,
}

impl Default for RunOptions {
    /// The default keys, auto-detected device, no dry run, quiet.
    fn default() -> (opts: Self)
        ensures
            opts.keys@.len() == 2,
            opts.keys@[0]@ == "KEY_DOT"@,
            opts.keys@[1]@ == "KEY_SLASH"@,
            opts.device_path is None,
            !opts.dry_run,
            !opts.verbose,
    {
        RunOptions {
            keys: vec!["KEY_DOT".to_owned(), "KEY_SLASH".to_owned()],
            device_path: None,
            dry_run: false,
            verbose: false,
        }
    }
}

impl RunOptions {
    /// The key codes named by `keys`; an error when none of the names is known.
    pub fn mapped_keys(&self) -> (r: Result<HashSet<u16>, Error>)
        ensures
            match r {
                Ok(codes) => codes@ == parsed_key_codes(self.keys@) && !codes@.is_empty(),
                Err(e) => e is InvalidKeys && parsed_key_codes(self.keys@).is_empty(),
            },
    {
        let keys = parse_key_names(self.keys.as_slice());
        if keys.is_empty() {
            return Err(Error::InvalidKeys);
        }
        Ok(keys)
    }
}

} // verus!
