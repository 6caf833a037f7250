use std::sync::atomic::AtomicBool;
use std::sync::atomic::Ordering;
use vstd::prelude::*;

verus! {

/// Whether a stop was requested through `flag`; another thread may set it at any time.
pub fn stop_requested(flag: &AtomicBool) -> (r: bool) {
    flag.load(Ordering::Relaxed)
}

/// Requests a stop through `flag`.
pub fn request_stop(flag: &AtomicBool) {
    flag.store(true, Ordering::Relaxed);
}

/// Withdraws a stop request from `flag`.
pub fn clear_stop(flag: &AtomicBool) {
    flag.store(false, Ordering::Relaxed);
}

} // verus!
