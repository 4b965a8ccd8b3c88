//! The raw-passthrough escape: moving a live dynamic value through the
//! conversion pipeline by identity, bypassing shape interpretation.
//!
//! The escape is recognized only while the scoped flag is on; the flag is
//! thread-state of the interpreter instance, set for the duration of one
//! top-level conversion and restored on every exit path.

use vstd::prelude::*;

use crate::interp::Interp;
use crate::value::Value;

verus! {

/// A dynamic value carried through conversion unchanged.  It owns one
/// reference-count unit of its cell, like any other owned handle.
pub struct RawValue {
    pub value: Value,
}

impl RawValue {
    /// Wrap an owned value.
    pub fn from_value(value: Value) -> (r: RawValue)
        ensures
            r.value == value,
    {
        RawValue { value }
    }

    /// Consume the wrapper to get the contained value.
    pub fn into_inner(self) -> (r: Value)
        ensures
            r == self.value,
    {
        self.value
    }

    /// Borrow the contained value.
    pub fn get_ref(&self) -> (r: &Value)
        ensures
            r == &self.value,
    {
        &self.value
    }

    /// Borrow the contained value mutably.
    pub fn get_mut(&mut self) -> (r: &mut Value)
        ensures
            *r == old(self).value,
            *final(self) == (RawValue { value: *final(r) }),
    {
        &mut self.value
    }
}

/// Whether the raw escape is currently recognized.
pub fn is_enabled(interp: &Interp) -> (r: bool)
    ensures
        r == interp.raw_enabled,
{
    interp.raw_enabled
}

/// A scoped-flag guard: holds the previous state of the raw escape flag,
/// to be restored by [`RawGuard::restore`] on every path out of the scope.
pub struct RawGuard {
    pub prev: bool,
}

/// Replace the raw escape flag, keeping the previous state in the guard.
pub fn guarded(interp: &mut Interp, on: bool) -> (r: RawGuard)
    ensures
        r.prev == old(interp).raw_enabled,
        *final(interp) == (Interp { raw_enabled: on, ..*old(interp) }),
{
    RawGuard { prev: interp.swap_raw_flag(on) }
}

impl RawGuard {
    /// Put the saved state back.
    pub fn restore(self, interp: &mut Interp)
        ensures
            *final(interp) == (Interp { raw_enabled: self.prev, ..*old(interp) }),
    {
        let _ = interp.swap_raw_flag(self.prev);
    }
}

} // verus!
