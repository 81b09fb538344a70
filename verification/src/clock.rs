//! Timestamps for probe outcomes. A `DateTime` wraps the operating system's
//! wall-clock time; the library only carries such values through and never
//! reads anything out of them, so the inner time stays opaque.

use vstd::prelude::*;
use core::marker::PhantomData;

verus! {

/// The std wall-clock time type, declared so that it can stand in fields
/// and signatures; the library never looks inside a value of it.
#[verifier::external_type_specification]
#[verifier::external_body]
pub struct ExSystemTime(std::time::SystemTime);

/// Marker for the UTC timescale.
pub struct Utc;

/// A point in time on the timescale `T`, as the operating system reported it.
pub struct DateTime<T> {
    inner: std::time::SystemTime,
    _marker: PhantomData<T>,
}

impl<T> DateTime<T> {
    /// The wrapped wall-clock value.
    pub closed spec fn spec_time(&self) -> std::time::SystemTime {
        self.inner
    }

    /// Relies on std::time::SystemTime::now for the current wall-clock time;
    /// the value depends on the clock, so nothing is promised of it.
    #[verifier::external_body]
    pub fn now() -> Self {
        DateTime { inner: std::time::SystemTime::now(), _marker: PhantomData }
    }

    pub fn as_system_time(&self) -> (t: std::time::SystemTime)
        ensures
            t == self.spec_time(),
    {
        self.inner
    }
}

} // verus!
