//! Coordination between workers.
use vstd::prelude::*;
use std::sync::Arc;
use std::sync::atomic::{AtomicBool, Ordering};

verus! {

/// Whether a shutdown has been requested through the shared flag (read
/// with `Relaxed` ordering). The flag is set by another thread at any time,
/// so nothing is claimed of the answer.
pub fn is_shutdown_requested(shutdown_flag: &Arc<AtomicBool>) -> bool {
    shutdown_flag.load(Ordering::Relaxed)
}

} // verus!
