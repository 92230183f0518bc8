//! The reader-writer lock of `parking_lot`, as far as the queue needs it.
//!
//! Nothing here is proved. A lock hands out whatever value its last holder
//! left behind, so none of these functions promises anything about the value
//! reached through a guard: the type of the protected value has to carry what
//! is known of it.

use vstd::prelude::*;

verus! {

/// `lock_api::RwLock`, the generic lock behind `parking_lot::RwLock`. Opaque.
#[verifier::external_type_specification]
#[verifier::external_body]
#[verifier::reject_recursive_types(R)]
#[verifier::reject_recursive_types(T)]
pub struct ExRwLock<R, T: ?Sized>(parking_lot::lock_api::RwLock<R, T>);

/// `parking_lot::RawRwLock`, the lock state inside `parking_lot::RwLock`. Opaque.
#[verifier::external_type_specification]
#[verifier::external_body]
pub struct ExRawRwLock(parking_lot::RawRwLock);

/// Exclusive access to the value behind a lock, held until this is dropped.
/// It keeps a `parking_lot::RwLockWriteGuard`, whose own declaration is bound
/// by a trait of `lock_api` and cannot be shown to the verifier.
#[verifier::external_body]
#[verifier::reject_recursive_types(T)]
pub(crate) struct WriteAccess<'a, T> {
    guard: parking_lot::RwLockWriteGuard<'a, T>,
}

/// Shared access to the value behind a lock, held until this is dropped. It
/// keeps a `parking_lot::RwLockReadGuard`.
#[verifier::external_body]
#[verifier::reject_recursive_types(T)]
pub(crate) struct ReadAccess<'a, T> {
    guard: parking_lot::RwLockReadGuard<'a, T>,
}

/// Calls `RwLock::new`, which makes an unlocked lock around `value`.
#[verifier::external_body]
pub(crate) fn new_lock<T>(value: T) -> (lock: parking_lot::RwLock<T>) {
    parking_lot::RwLock::new(value)
}

/// Calls `RwLock::write`, which blocks until no other guard of the lock is
/// alive and then returns the guard of exclusive access.
#[verifier::external_body]
pub(crate) fn lock_exclusive<'a, T>(lock: &'a parking_lot::RwLock<T>) -> (access: WriteAccess<
    'a,
    T,
>) {
    WriteAccess { guard: lock.write() }
}

/// Calls `RwLock::read`, which blocks until no writer holds the lock and then
/// returns a guard of shared access.
#[verifier::external_body]
pub(crate) fn lock_shared<'a, T>(lock: &'a parking_lot::RwLock<T>) -> (access: ReadAccess<
    'a,
    T,
>) {
    ReadAccess { guard: lock.read() }
}

/// Calls `DerefMut::deref_mut` on a write guard, which gives the protected
/// value for as long as the guard is borrowed.
#[verifier::external_body]
pub(crate) fn exclusive_target<'g, 'a, T>(access: &'g mut WriteAccess<'a, T>) -> (target:
    &'g mut T) {
    std::ops::DerefMut::deref_mut(&mut access.guard)
}

/// Calls `Deref::deref` on a read guard, which gives the protected value for
/// reading.
#[verifier::external_body]
pub(crate) fn shared_target<'g, 'a, T>(access: &'g ReadAccess<'a, T>) -> (target: &'g T) {
    std::ops::Deref::deref(&access.guard)
}

} // verus!
