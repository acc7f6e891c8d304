//! The shutdown flag shared with the signal handlers.

use std::sync::atomic::AtomicBool;
use std::sync::atomic::Ordering;
use std::sync::Arc;
use vstd::prelude::*;

verus! {

/// Shutdown flag: set by the signal handlers, polled by the event loop.
pub type ShutdownFlag = Arc<AtomicBool>;

/// Whether a shutdown has been requested. The flag is written by signal
/// handlers, so nothing is known of the value read.
pub fn should_shutdown(flag: &ShutdownFlag) -> bool {
    flag.load(Ordering::Relaxed)
}

} // verus!
