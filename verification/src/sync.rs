//! The std lock types that the library's shared structures hold. The
//! library never takes a lock: whoever shares a structure takes its lock and
//! hands the library the value inside.
use std::sync::{Mutex, RwLock};
use vstd::prelude::*;

verus! {

#[verifier::external_type_specification]
#[verifier::external_body]
#[verifier::reject_recursive_types(T)]
pub struct ExMutex<T: ?Sized>(Mutex<T>);

#[verifier::external_type_specification]
#[verifier::external_body]
#[verifier::reject_recursive_types(T)]
pub struct ExRwLock<T: ?Sized>(RwLock<T>);

/// `Mutex::new`: a lock around `value`. Nothing is stated of what later
/// holders of the lock find inside, since they may change it.
#[verifier::external_body]
pub(crate) fn new_mutex<T>(value: T) -> Mutex<T> {
    Mutex::new(value)
}

} // verus!
