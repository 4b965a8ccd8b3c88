//! A marshaling and object-lifetime bridge between native code and a
//! reference-counted dynamic-language interpreter.
//!
//! The interpreter's heap is modeled as a bounds-checked store of
//! reference-counted cells ([`interp::Interp`]).  On top of it sit the owned
//! value handles ([`Scalar`], [`Array`], [`Hash`], [`Value`]) with an explicit
//! reference-count discipline, a structured serializer and deserializer
//! converting between statically shaped data and dynamic values, a foreign
//! attachment ("magic") mechanism with deterministic destruction, and the
//! mark-delimited argument-stack adapter used by native entry points.

pub mod error;
pub mod interp;
pub mod coerce;
pub mod scalar;
pub mod magic;
pub mod array;
pub mod hash;
pub mod value;
pub mod data;
pub mod ser;
pub mod de;
pub mod stack;
pub mod raw_value;
pub mod digest;
pub mod testlib;
pub mod elf_notes;

pub use error::Error;
pub use scalar::{Mortal, Scalar, ScalarRef};
pub use array::Array;
pub use value::Value;
pub use magic::{MagicSpec, MagicTag, MagicValue};
pub use raw_value::RawValue;
pub use ser::to_value;
pub use de::{from_ref_value, from_value};

use vstd::prelude::*;

verus! {

/// True when the current native call was made in list context, i.e. the
/// caller expects a list of values rather than a single one.
pub fn wantarray(interp: &interp::Interp) -> (r: bool)
    ensures
        r == interp.gimme_list(),
{
    interp.gimme_list_flag()
}

} // verus!
