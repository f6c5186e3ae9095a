//! Running a closure on the data behind a lock, for exactly as long as the
//! closure runs.
use vstd::prelude::*;
use std::sync::{Arc, Mutex};

verus! {

#[verifier::external_type_specification]
#[verifier::external_body]
#[verifier::reject_recursive_types(T)]
pub struct ExMutex<T: ?Sized>(Mutex<T>);

/// Scoped access to locked data.
pub trait WithLock<T> {
    /// Acquires the lock, without waiting, and runs `f` on the locked data; the
    /// lock is released when `f` returns. Returns whether `f` ran: it does not
    /// where the lock is held already, by this thread or another, or where an
    /// earlier holder panicked while holding it.
    fn with_lock<F>(&self, f: F) -> bool where F: FnMut(&mut T);
}

/// Relies on `std::sync::Mutex::try_lock`, which does not block: on success the
/// guard gives the data to `f` and releases the lock when dropped; a lock that
/// is held, or poisoned, gives an error and `f` does not run.
#[verifier::external_body]
fn try_run_locked<T, F>(m: &Mutex<T>, mut f: F) -> bool where F: FnMut(&mut T) {
    match m.try_lock() {
        Ok(mut guard) => {
            f(&mut guard);
            true
        },
        Err(_) => false,
    }
}

impl<T> WithLock<T> for Mutex<T> {
    fn with_lock<F>(&self, f: F) -> bool where F: FnMut(&mut T) {
        try_run_locked(self, f)
    }
}

impl<T> WithLock<T> for Arc<Mutex<T>> {
    fn with_lock<F>(&self, f: F) -> bool where F: FnMut(&mut T) {
        try_run_locked(&**self, f)
    }
}

} // verus!
