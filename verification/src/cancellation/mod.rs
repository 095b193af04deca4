//! Work that can be called off: a shared cancellation signal, and a
//! responder that writes nothing once its work was cancelled.
use vstd::prelude::*;

use std::sync::atomic::{AtomicBool, Ordering};
use std::sync::Arc;

pub mod v1;
pub mod v2;

verus! {

/// A signal that any of its clones can raise and all of them see.
pub struct CancellationToken {
    cancelled: Arc<AtomicBool>,
}

impl Clone for CancellationToken {
    /// Another handle on the same signal.
    fn clone(&self) -> (r: Self)
        ensures
            r == *self,
    {
        CancellationToken { cancelled: self.cancelled.clone() }
    }
}

impl CancellationToken {
    /// A token that has not been cancelled.
    pub fn new() -> CancellationToken {
        CancellationToken { cancelled: Arc::new(AtomicBool::new(false)) }
    }

    /// Raises the signal for this token and all its clones.
    pub fn cancel(&self) {
        self.cancelled.store(true, Ordering::Relaxed);
    }

    /// Whether the signal has been raised. Any clone, on any thread, may
    /// raise it at any moment, so no contract can say what this returns.
    pub fn is_cancelled(&self) -> bool {
        self.cancelled.load(Ordering::Relaxed)
    }
}

} // verus!
