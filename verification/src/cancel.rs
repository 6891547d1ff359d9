//! Cooperative cancellation token.
//!
//! Checked at step boundaries: a running step is not interrupted, but the
//! next step sees the cancellation.

use vstd::prelude::*;
use std::sync::atomic::AtomicBool;
use std::sync::atomic::Ordering;
use std::sync::Arc;

verus! {

/// A cooperative cancellation token. All clones share one flag.
#[derive(Clone)]
pub struct CancellationToken {
    cancelled: Arc<AtomicBool>,
}

impl CancellationToken {
    /// A token that is not cancelled.
    pub fn new() -> (t: Self) {
        CancellationToken { cancelled: Arc::new(AtomicBool::new(false)) }
    }

    /// Signal cancellation. All clones observe this.
    pub fn cancel(&self) {
        self.cancelled.store(true, Ordering::SeqCst);
    }

    /// Whether cancellation has been requested (by this token or any clone,
    /// possibly on another thread).
    pub fn is_cancelled(&self) -> (r: bool) {
        self.cancelled.load(Ordering::SeqCst)
    }
}

impl Default for CancellationToken {
    fn default() -> (t: Self) {
        Self::new()
    }
}

} // verus!
