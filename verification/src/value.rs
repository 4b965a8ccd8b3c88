//! The canonical "any interpreter value": an owned handle classified into
//! scalar, reference, sequence or map.

use vstd::prelude::*;
use vstd::string::StringSliceAdditionalSpecFns;

use crate::array::Array;
use crate::coerce;
use crate::error::Error;
use crate::interp::{Cell, Interp, Repr, SV};
use crate::scalar::{Mortal, Scalar, ScalarRef};

verus! {

/// An owned dynamic value, discriminated by the kind of its cell.
#[derive(Debug)]
pub enum Value {
    Scalar(Scalar),
    Reference(Scalar),
    Array(Array),
    Hash(crate::hash::Hash),
}

/// The variant classification a representation demands: references,
/// sequences and maps get their own variants, everything else is a plain
/// scalar.
pub open spec fn spec_variant_for(r: Repr) -> int {
    match r {
        Repr::Ref { .. } => 1,
        Repr::Array { .. } => 2,
        Repr::Hash { .. } => 3,
        _ => 0,
    }
}

impl Value {
    /// The raw identity of the owned cell.
    pub open spec fn spec_sv(self) -> SV {
        match self {
            Value::Scalar(s) => s.sv,
            Value::Reference(s) => s.sv,
            Value::Array(a) => a.0.sv,
            Value::Hash(h) => h.0.sv,
        }
    }

    /// The owned cell.
    pub open spec fn sv_id(self) -> int {
        self.spec_sv().id as int
    }

    /// Which variant this value carries.
    pub open spec fn spec_variant(self) -> int {
        match self {
            Value::Scalar(_) => 0,
            Value::Reference(_) => 1,
            Value::Array(_) => 2,
            Value::Hash(_) => 3,
        }
    }

    /// The handle owns a unit on a live cell and its variant matches the
    /// cell's representation.
    pub open spec fn ok(self, interp: Interp) -> bool {
        &&& interp.valid_unit(self.sv_id())
        &&& self.spec_variant() == spec_variant_for(interp.repr_of(self.sv_id()))
    }

    /// The raw identity of the owned cell.
    pub fn raw_id(&self) -> (r: usize)
        ensures
            r as int == self.sv_id(),
    {
        match self {
            Value::Scalar(s) => s.sv.id,
            Value::Reference(s) => s.sv.id,
            Value::Array(a) => a.0.sv.id,
            Value::Hash(h) => h.0.sv.id,
        }
    }

    /// Borrow this value as a plain scalar handle.
    pub fn sv_ref(&self) -> (r: ScalarRef)
        ensures
            r.sv == self.spec_sv(),
    {
        ScalarRef { sv: SV { id: self.raw_id() } }
    }

    /// Classify an owned scalar handle into a value by inspecting its
    /// cell's representation.  A deferred byte string classifies as a plain
    /// scalar, like the concrete string it will become.
    pub fn from_scalar(interp: &Interp, scalar: Scalar) -> (r: Value)
        ensures
            r.spec_sv() == scalar.sv,
            interp.is_alive(scalar.sv.id as int) ==> r.spec_variant() == spec_variant_for(
                interp.repr_of(scalar.sv.id as int),
            ),
            interp.valid_unit(scalar.sv.id as int) ==> r.ok(*interp),
    {
        let id = scalar.sv.id;
        if id < interp.cells.len() {
            match &interp.cells[id].repr {
                Repr::Ref { .. } => Value::Reference(scalar),
                Repr::Array { .. } => Value::Array(Array::from_scalar(scalar)),
                Repr::Hash { .. } => Value::Hash(crate::hash::Hash::from_scalar(scalar)),
                _ => Value::Scalar(scalar),
            }
        } else {
            Value::Scalar(scalar)
        }
    }

    /// A fresh undefined value.
    pub fn new_undef(interp: &mut Interp) -> (r: Value)
        requires
            old(interp).cells@.len() < usize::MAX,
        ensures
            value_alloc_post(*old(interp), *final(interp), r, Repr::Undef),
    {
        Value::Scalar(Scalar::new_undef(interp))
    }

    /// A fresh signed integer value.
    pub fn new_int(interp: &mut Interp, v: i64) -> (r: Value)
        requires
            old(interp).cells@.len() < usize::MAX,
        ensures
            value_alloc_post(*old(interp), *final(interp), r, Repr::Int(v)),
    {
        Value::Scalar(Scalar::new_int(interp, v))
    }

    /// A fresh unsigned integer value.
    pub fn new_uint(interp: &mut Interp, v: u64) -> (r: Value)
        requires
            old(interp).cells@.len() < usize::MAX,
        ensures
            value_alloc_post(*old(interp), *final(interp), r, Repr::UInt(v)),
    {
        Value::Scalar(Scalar::new_uint(interp, v))
    }

    /// A fresh string value; tagged as text exactly when a byte outside the
    /// seven-bit range is present.
    pub fn new_string(interp: &mut Interp, s: &str) -> (r: Value)
        requires
            old(interp).cells@.len() < usize::MAX,
        ensures
            value_alloc_post(
                *old(interp),
                *final(interp),
                r,
                Repr::Str {
                    bytes: final(interp).cells@[r.sv_id()].repr->Str_bytes,
                    utf8: coerce::spec_has_high_byte(s.spec_bytes()),
                },
            ),
            final(interp).cells@[r.sv_id()].repr->Str_bytes@ == s.spec_bytes(),
    {
        Value::Scalar(Scalar::new_string(interp, s))
    }

    /// A fresh byte-string value, never tagged as text.
    pub fn new_bytes(interp: &mut Interp, s: &[u8]) -> (r: Value)
        requires
            old(interp).cells@.len() < usize::MAX,
        ensures
            value_alloc_post(
                *old(interp),
                *final(interp),
                r,
                Repr::Str { bytes: final(interp).cells@[r.sv_id()].repr->Str_bytes, utf8: false },
            ),
            final(interp).cells@[r.sv_id()].repr->Str_bytes@ == s@,
    {
        Value::Scalar(Scalar::new_bytes(interp, s))
    }

    /// A fresh value holding a raw pointer token as eight little-endian
    /// bytes.
    pub fn new_pointer(interp: &mut Interp, ptr: u64) -> (r: Value)
        requires
            old(interp).cells@.len() < usize::MAX,
        ensures
            value_alloc_post(
                *old(interp),
                *final(interp),
                r,
                Repr::Str { bytes: final(interp).cells@[r.sv_id()].repr->Str_bytes, utf8: false },
            ),
            final(interp).cells@[r.sv_id()].repr->Str_bytes@
                == vstd::bytes::spec_u64_to_le_bytes(ptr),
    {
        Value::Scalar(Scalar::new_pointer(interp, ptr))
    }

    /// A fresh, empty map value.
    pub fn new_hash(interp: &mut Interp) -> (r: Value)
        requires
            old(interp).cells@.len() < usize::MAX,
        ensures
            r.spec_variant() == 3,
            r.sv_id() == old(interp).cells@.len(),
            r.ok(*final(interp)),
            final(interp).cells@.len() == old(interp).cells@.len() + 1,
            final(interp).cells@.subrange(0, r.sv_id()) == old(interp).cells@,
            final(interp).rc_of(r.sv_id()) == 1,
            final(interp).repr_of(r.sv_id()) is Hash,
            final(interp).repr_of(r.sv_id())->Hash_entries@.len() == 0,
            final(interp).cells@[r.sv_id()].blessed is None,
            final(interp).cells@[r.sv_id()].magic@.len() == 0,
            Interp::only_cells_changed(*old(interp), *final(interp)),
    {
        Value::Hash(crate::hash::Hash::new(interp))
    }

    /// An actual reference to the given cell: the target gains one unit
    /// held by the fresh reference cell.
    pub fn new_ref(interp: &mut Interp, target: &ScalarRef) -> (r: Value)
        requires
            old(interp).valid_unit(target.sv.id as int),
            old(interp).rc_of(target.sv.id as int) < u64::MAX,
            old(interp).cells@.len() < usize::MAX,
        ensures
            r.spec_variant() == 1,
            r.sv_id() == old(interp).cells@.len(),
            r.ok(*final(interp)),
            final(interp).cells@.len() == old(interp).cells@.len() + 1,
            final(interp).rc_of(r.sv_id()) == 1,
            final(interp).repr_of(r.sv_id()) == (Repr::Ref { target: target.sv.id }),
            final(interp).rc_of(target.sv.id as int) == old(interp).rc_of(
                target.sv.id as int,
            ) + 1,
            final(interp).cells@[target.sv.id as int] == (Cell {
                rc: (old(interp).cells@[target.sv.id as int].rc + 1) as u64,
                ..old(interp).cells@[target.sv.id as int]
            }),
            forall|j: int|
                0 <= j < old(interp).cells@.len() && j != target.sv.id as int ==> final(interp).cells@[j] == old(interp).cells@[j],
            Interp::only_cells_changed(*old(interp), *final(interp)),
            final(interp).cells@[r.sv_id()].blessed is None,
            final(interp).cells@[r.sv_id()].magic@.len() == 0,
    {
        interp.inc_rc(target.sv.id);
        let id = interp.alloc_cell(Repr::Ref { target: target.sv.id });
        proof {
            assert(final(interp).cells@.subrange(0, id as int) =~= interp.cells@.subrange(
                0,
                id as int,
            ));
        }
        Value::Reference(Scalar { sv: SV { id } })
    }

    /// If the value is a sequence, its handle.
    pub fn as_array(&self) -> (r: Option<&Array>)
        ensures
            match r {
                Some(a) => self matches Value::Array(x) && a == x,
                None => !(self matches Value::Array(_)),
            },
    {
        match self {
            Value::Array(a) => Some(a),
            _ => None,
        }
    }

    /// If the value is a sequence, its handle, mutably.
    pub fn as_array_mut(&mut self) -> (r: Option<&mut Array>)
        ensures
            old(self) matches Value::Array(_) <==> r is Some,
            r matches Some(a) ==> *a == old(self)->Array_0 && *final(self) == Value::Array(
                *final(a),
            ),
            r is None ==> *final(self) == *old(self),
    {
        match self {
            Value::Array(a) => Some(a),
            _ => None,
        }
    }

    /// If the value is a map, its handle.
    pub fn as_hash(&self) -> (r: Option<&crate::hash::Hash>)
        ensures
            match r {
                Some(h) => self matches Value::Hash(x) && h == x,
                None => !(self matches Value::Hash(_)),
            },
    {
        match self {
            Value::Hash(h) => Some(h),
            _ => None,
        }
    }

    /// If the value is a map, its handle, mutably.
    pub fn as_hash_mut(&mut self) -> (r: Option<&mut crate::hash::Hash>)
        ensures
            old(self) matches Value::Hash(_) <==> r is Some,
            r matches Some(h) ==> *h == old(self)->Hash_0 && *final(self) == Value::Hash(
                *final(h),
            ),
            r is None ==> *final(self) == *old(self),
    {
        match self {
            Value::Hash(h) => Some(h),
            _ => None,
        }
    }

    /// Adopt a raw identity as an owned value (no count change).
    pub fn from_raw_move(interp: &Interp, sv: SV) -> (r: Value)
        ensures
            r.spec_sv() == sv,
            interp.valid_unit(sv.id as int) ==> r.ok(*interp),
    {
        Value::from_scalar(interp, Scalar::from_raw_move(sv))
    }

    /// Borrow a raw identity into a new owned value (one more unit).
    pub fn from_raw_ref(interp: &mut Interp, sv: SV) -> (r: Value)
        requires
            old(interp).valid_unit(sv.id as int),
            old(interp).rc_of(sv.id as int) < u64::MAX,
        ensures
            r.spec_sv() == sv,
            r.ok(*final(interp)),
            Interp::only_cell_updated(*old(interp), *final(interp), sv.id as int),
            final(interp).rc_of(sv.id as int) == old(interp).rc_of(sv.id as int) + 1,
            final(interp).cells@[sv.id as int] == (Cell {
                rc: (old(interp).cells@[sv.id as int].rc + 1) as u64,
                ..old(interp).cells@[sv.id as int]
            }),
    {
        let s = Scalar::from_raw_ref(interp, sv);
        Value::from_scalar(interp, s)
    }

    /// Acquire another owned handle on the same cell.
    pub fn clone_ref(&self, interp: &mut Interp) -> (r: Value)
        requires
            old(interp).valid_unit(self.sv_id()),
            old(interp).rc_of(self.sv_id()) < u64::MAX,
        ensures
            r.spec_sv() == self.spec_sv(),
            r.spec_variant() == self.spec_variant(),
            Interp::only_cell_updated(*old(interp), *final(interp), self.sv_id()),
            final(interp).rc_of(self.sv_id()) == old(interp).rc_of(self.sv_id()) + 1,
            final(interp).cells@[self.sv_id()] == (Cell {
                rc: (old(interp).cells@[self.sv_id()].rc + 1) as u64,
                ..old(interp).cells@[self.sv_id()]
            }),
    {
        match self {
            Value::Scalar(s) => Value::Scalar(s.sv_ref().clone_ref(interp)),
            Value::Reference(s) => Value::Reference(s.sv_ref().clone_ref(interp)),
            Value::Array(a) => Value::Array(a.clone_ref(interp)),
            Value::Hash(h) => Value::Hash(h.clone_ref(interp)),
        }
    }

    /// Dereference a reference value: a fresh owned value on the target
    /// while it is live, nothing for a dangling reference or any other
    /// variant.  Resolution happens here, on demand, never eagerly.
    pub fn dereference(&self, interp: &mut Interp) -> (r: Option<Value>)
        requires
            old(interp).is_alive(self.sv_id()),
            (old(interp).repr_of(self.sv_id()) is Ref && old(interp).is_alive(
                old(interp).repr_of(self.sv_id())->Ref_target as int,
            )) ==> old(interp).rc_of(
                old(interp).repr_of(self.sv_id())->Ref_target as int,
            ) < u64::MAX,
        ensures
            ({
                let rep = old(interp).repr_of(self.sv_id());
                match rep {
                    Repr::Ref { target } => {
                        if self is Reference && old(interp).valid_unit(target as int) {
                            &&& r matches Some(v) && v.sv_id() == target as int && v.ok(
                                *final(interp),
                            )
                            &&& Interp::only_cell_updated(
                                *old(interp),
                                *final(interp),
                                target as int,
                            )
                            &&& final(interp).rc_of(target as int) == old(interp).rc_of(
                                target as int,
                            ) + 1
                            &&& final(interp).cells@[target as int] == (Cell {
                                rc: (old(interp).cells@[target as int].rc + 1) as u64,
                                ..old(interp).cells@[target as int]
                            })
                        } else {
                            r is None && *final(interp) == *old(interp)
                        }
                    },
                    _ => r is None && *final(interp) == *old(interp),
                }
            }),
    {
        match self {
            Value::Reference(s) => {
                match s.sv_ref().dereference(interp) {
                    Some(t) => Some(Value::from_scalar(interp, t)),
                    None => None,
                }
            },
            _ => None,
        }
    }

    /// Turn this into a raw identity, transferring control of one unit to
    /// the caller.
    pub fn into_raw(self) -> (r: SV)
        ensures
            r == self.spec_sv(),
    {
        match self {
            Value::Scalar(s) => s.into_raw(),
            Value::Reference(s) => s.into_raw(),
            Value::Array(a) => a.into_scalar().into_raw(),
            Value::Hash(h) => h.into_scalar().into_raw(),
        }
    }

    /// Hand the owned unit to the deferred-free list.
    pub fn into_mortal(self, interp: &mut Interp) -> (r: Mortal)
        requires
            old(interp).mortals@.len() < usize::MAX,
        ensures
            r.sv == self.spec_sv(),
            final(interp).mortals@ == old(interp).mortals@.push(self.spec_sv().id),
            final(interp).cells@ == old(interp).cells@,
            Interp::same_env(*old(interp), *final(interp)),
            Interp::same_freed(*old(interp), *final(interp)),
            final(interp).stack@ == old(interp).stack@,
            final(interp).marks@ == old(interp).marks@,
            final(interp).tmps@ == old(interp).tmps@,
    {
        match self {
            Value::Scalar(s) => s.into_mortal(interp),
            Value::Reference(s) => s.into_mortal(interp),
            Value::Array(a) => a.into_scalar().into_mortal(interp),
            Value::Hash(h) => h.into_scalar().into_mortal(interp),
        }
    }

    /// Release the owned unit; the last unit reclaims the cell and, in
    /// cascade, the units it held.
    pub fn release(self, interp: &mut Interp)
        requires
            old(interp).valid_unit(self.sv_id()),
        ensures
            Interp::same_env(*old(interp), *final(interp)),
            Interp::same_stacks(*old(interp), *final(interp)),
            Interp::reaped(*old(interp), *final(interp)),
            old(interp).rc_of(self.sv_id()) > 1 ==> {
                &&& Interp::only_cell_updated(*old(interp), *final(interp), self.sv_id())
                &&& final(interp).cells@[self.sv_id()] == (Cell {
                    rc: (old(interp).cells@[self.sv_id()].rc - 1) as u64,
                    ..old(interp).cells@[self.sv_id()]
                })
            },
    {
        interp.release_unit(self.raw_id())
    }

    /// If this value is a sequence, the element at `index`.
    pub fn get(&self, interp: &mut Interp, index: usize) -> (r: Option<Value>)
        requires
            self matches Value::Array(_) ==> old(interp).is_alive(self.sv_id()) && old(interp).repr_of(self.sv_id()) is Array,
        ensures
            self matches Value::Array(_) ==> ({
                let elems = old(interp).repr_of(self.sv_id())->Array_elems@;
                if index < elems.len() && old(interp).valid_unit(elems[index as int] as int)
                    && old(interp).rc_of(elems[index as int] as int) < u64::MAX {
                    r matches Some(v) && v.sv_id() == elems[index as int] as int
                } else {
                    r is None
                }
            }),
            !(self matches Value::Array(_)) ==> r is None && *final(interp) == *old(interp),
    {
        match self {
            Value::Array(a) => a.get(interp, index),
            _ => None,
        }
    }

    /// Bless the referent of this reference into a package known to the
    /// interpreter.  The result is another owned handle on the same
    /// reference cell.
    pub fn bless(&self, interp: &mut Interp, package: &str) -> (r: Result<Value, Error>)
        requires
            old(interp).is_alive(self.sv_id()),
            old(interp).rc_of(self.sv_id()) >= 1,
            old(interp).rc_of(self.sv_id()) < u64::MAX,
        ensures
            bless_post(*self, *old(interp), *final(interp), package.spec_bytes(), r),
    {
        let bytes = coerce::str_bytes(package);
        self.bless_bytes(interp, bytes)
    }

    /// Same as [`Value::bless`], but the package name is already held in a
    /// string cell.
    pub fn bless_sv(&self, interp: &mut Interp, pkgsv: &ScalarRef) -> (r: Result<Value, Error>)
        requires
            old(interp).is_alive(self.sv_id()),
            old(interp).rc_of(self.sv_id()) >= 1,
            old(interp).rc_of(self.sv_id()) < u64::MAX,
            old(interp).is_alive(pkgsv.sv.id as int),
            old(interp).repr_of(pkgsv.sv.id as int) matches Repr::Str { .. },
        ensures
            ({
                let rep = old(interp).repr_of(pkgsv.sv.id as int);
                rep matches Repr::Str { bytes, .. } ==> bless_post(
                    *self,
                    *old(interp),
                    *final(interp),
                    bytes@,
                    r,
                )
            }),
    {
        let bytes = {
            let b = pkgsv.pv_bytes(interp);
            vstd::slice::slice_to_vec(b)
        };
        self.bless_bytes(interp, bytes)
    }

    /// Bless with the package name as owned bytes.
    fn bless_bytes(&self, interp: &mut Interp, bytes: Vec<u8>) -> (r: Result<Value, Error>)
        requires
            old(interp).is_alive(self.sv_id()),
            old(interp).rc_of(self.sv_id()) >= 1,
            old(interp).rc_of(self.sv_id()) < u64::MAX,
        ensures
            bless_post(*self, *old(interp), *final(interp), bytes@, r),
    {
        if !has_package(interp, bytes.as_slice()) {
            return Error::fail("failed to find package");
        }
        let id = self.raw_id();
        let target_opt = match &interp.cells[id].repr {
            Repr::Ref { target } => Some(*target),
            _ => None,
        };
        let target = match target_opt {
            Some(t) => t,
            None => {
                return Error::fail("failed to bless value into package");
            },
        };
        if !(target < interp.cells.len() && interp.cells[target].alive) {
            return Error::fail("failed to bless value into package");
        }
        let mut c = Cell {
            rc: 0,
            alive: false,
            repr: Repr::Undef,
            magic: Vec::new(),
            blessed: None,
            cursor: 0,
        };
        interp.cells.set_and_swap(target, &mut c);
        c.blessed = Some(bytes);
        interp.cells.set(target, c);
        proof {
            assert(interp.cells@ =~= old(interp).cells@.update(
                target as int,
                interp.cells@[target as int],
            ));
        }
        let s = Scalar::from_raw_ref(interp, SV { id });
        Ok(Value::Reference(s))
    }

    /// Read the pointer token out of a reference to a pointer cell: the
    /// check-and-cast used by blessed-object methods.  Distinguishes "not a
    /// reference" from a malformed pointer payload.
    pub fn from_ref_box(&self, interp: &mut Interp) -> (r: Result<u64, Error>)
        requires
            old(interp).is_alive(self.sv_id()),
            (old(interp).repr_of(self.sv_id()) is Ref && old(interp).is_alive(
                old(interp).repr_of(self.sv_id())->Ref_target as int,
            )) ==> old(interp).rc_of(
                old(interp).repr_of(self.sv_id())->Ref_target as int,
            ) < u64::MAX,
        ensures
            final(interp).cells@ == old(interp).cells@,
            Interp::only_cells_changed(*old(interp), *final(interp)),
            ({
                let rep = old(interp).repr_of(self.sv_id());
                match rep {
                    Repr::Ref { target } => {
                        if self is Reference && old(interp).valid_unit(target as int) {
                            match old(interp).repr_of(target as int) {
                                Repr::Str { bytes, .. } => if bytes@.len() == 8 {
                                    r == Ok::<u64, Error>(
                                        vstd::bytes::spec_u64_from_le_bytes(bytes@),
                                    )
                                } else {
                                    r matches Err(e) && e.0@ == "invalid value for pointer"@
                                },
                                _ => r matches Err(e) && e.0@ == "invalid value for pointer"@,
                            }
                        } else {
                            r matches Err(e) && e.0@ == "not a reference"@
                        }
                    },
                    _ => r matches Err(e) && e.0@ == "not a reference"@,
                }
            }),
    {
        let t = match self.dereference(interp) {
            Some(t) => t,
            None => {
                return Error::fail("not a reference");
            },
        };
        let out = t.sv_ref().pv_raw(interp);
        t.release(interp);
        proof {
            assert(final(interp).cells@ =~= old(interp).cells@);
        }
        out
    }

    /// Like [`Value::from_ref_box`], but also checks that the referent was
    /// blessed into exactly the given package.
    pub fn from_blessed_box(&self, interp: &mut Interp, package: &str) -> (r: Result<u64, Error>)
        requires
            old(interp).is_alive(self.sv_id()),
            (old(interp).repr_of(self.sv_id()) is Ref && old(interp).is_alive(
                old(interp).repr_of(self.sv_id())->Ref_target as int,
            )) ==> old(interp).rc_of(
                old(interp).repr_of(self.sv_id())->Ref_target as int,
            ) < u64::MAX,
        ensures
            final(interp).cells@ == old(interp).cells@,
            Interp::only_cells_changed(*old(interp), *final(interp)),
            ({
                let rep = old(interp).repr_of(self.sv_id());
                match rep {
                    Repr::Ref { target } => {
                        if self is Reference && old(interp).valid_unit(target as int) {
                            if old(interp).cells@[target as int].blessed matches Some(b)
                                && b@ == package.spec_bytes() {
                                match old(interp).repr_of(target as int) {
                                    Repr::Str { bytes, .. } => if bytes@.len() == 8 {
                                        r == Ok::<u64, Error>(
                                            vstd::bytes::spec_u64_from_le_bytes(bytes@),
                                        )
                                    } else {
                                        r matches Err(e) && e.0@ == "invalid value for pointer"@
                                    },
                                    _ => r matches Err(e) && e.0@
                                        == "invalid value for pointer"@,
                                }
                            } else {
                                r matches Err(e) && e.0@ == "value not blessed into package"@
                            }
                        } else {
                            r matches Err(e) && e.0@ == "not a reference"@
                        }
                    },
                    _ => r matches Err(e) && e.0@ == "not a reference"@,
                }
            }),
    {
        let t = match self.dereference(interp) {
            Some(t) => t,
            None => {
                return Error::fail("not a reference");
            },
        };
        let pkg = coerce::str_bytes(package);
        let matches_pkg = {
            let c = &interp.cells[t.raw_id()];
            match &c.blessed {
                Some(b) => coerce::bytes_eq(b.as_slice(), pkg.as_slice()),
                None => false,
            }
        };
        let out = if matches_pkg {
            t.sv_ref().pv_raw(interp)
        } else {
            Error::fail("value not blessed into package")
        };
        t.release(interp);
        proof {
            assert(final(interp).cells@ =~= old(interp).cells@);
        }
        out
    }

    /// Take ownership of a leaked native object and produce a value blessed
    /// into a package: a pointer cell, behind a fresh reference, whose
    /// referent carries the class tag.
    pub fn bless_box(interp: &mut Interp, class: &Value, ptr: u64) -> (r: Result<Value, Error>)
        requires
            old(interp).cells@.len() + 2 < usize::MAX,
            old(interp).is_alive(class.sv_id()),
            old(interp).repr_of(class.sv_id()) matches Repr::Str { .. },
        ensures
            ({
                let rep = old(interp).repr_of(class.sv_id());
                rep matches Repr::Str { bytes, .. } ==> {
                    if old(interp).has_package(bytes@) {
                        r matches Ok(v) && ({
                            let t = final(interp).repr_of(v.sv_id())->Ref_target as int;
                            &&& v.ok(*final(interp))
                            &&& v.spec_variant() == 1
                            &&& final(interp).repr_of(v.sv_id()) is Ref
                            &&& final(interp).repr_of(t) is Str
                            &&& final(interp).repr_of(t)->Str_bytes@
                                == vstd::bytes::spec_u64_to_le_bytes(ptr)
                            &&& final(interp).cells@[t].blessed is Some
                            &&& final(interp).cells@[t].blessed->0@ == bytes@
                        })
                    } else {
                        r matches Err(e) && e.0@ == "failed to find package"@
                    }
                }
            }),
    {
        let value = Value::new_pointer(interp, ptr);
        let rv = Value::new_ref(interp, &value.sv_ref());
        let this = match rv.bless_sv(interp, &class.sv_ref()) {
            Ok(t) => t,
            Err(e) => {
                value.release(interp);
                rv.release(interp);
                return Err(e);
            },
        };
        // The pointer cell keeps the unit held by the reference; our own
        // handles on the pointer cell and the working reference go away.
        value.release(interp);
        rv.release(interp);
        Ok(this)
    }

    /// Attempt to create a substring of a plain string scalar.
    pub fn substr(&self, interp: &mut Interp, offset: usize, len: usize) -> (r: Result<
        Value,
        Error,
    >)
        requires
            old(interp).is_alive(self.sv_id()),
            old(interp).cells@.len() < usize::MAX,
        ensures
            ({
                let rep = old(interp).repr_of(self.sv_id());
                match rep {
                    Repr::Str { bytes, utf8 } => {
                        if self is Scalar {
                            if offset + len <= bytes@.len() {
                                r matches Ok(v) && ({
                                    &&& v.sv_id() == old(interp).cells@.len()
                                    &&& v.ok(*final(interp))
                                    &&& final(interp).repr_of(v.sv_id()) is Lazy
                                    &&& final(interp).repr_of(v.sv_id())->Lazy_bytes@
                                        == bytes@.subrange(offset as int, offset + len)
                                    &&& final(interp).repr_of(v.sv_id())->Lazy_utf8 == utf8
                                    &&& final(interp).cells@.len() == old(interp).cells@.len()
                                        + 1
                                    &&& final(interp).cells@.subrange(
                                        0,
                                        old(interp).cells@.len() as int,
                                    ) == old(interp).cells@
                                    &&& Interp::only_cells_changed(*old(interp), *final(interp))
                                })
                            } else {
                                r matches Err(e) && e.0@ == "substr with out of bounds range"@
                                    && *final(interp) == *old(interp)
                            }
                        } else {
                            r matches Err(e) && e.0@ == "substr called on non-scalar"@
                                && *final(interp) == *old(interp)
                        }
                    },
                    _ => r matches Err(e) && (e.0@ == "substr called on non-scalar"@ || e.0@
                        == "substr on non-string value"@) && *final(interp) == *old(interp),
                }
            }),
    {
        match self {
            Value::Scalar(s) => {
                match s.sv_ref().substr(interp, offset, len) {
                    Ok(sub) => Ok(Value::Scalar(sub)),
                    Err(e) => Err(e),
                }
            },
            _ => Error::fail("substr called on non-scalar"),
        }
    }
}

/// What allocating one fresh plain-scalar value guarantees.
pub open spec fn value_alloc_post(pre: Interp, post: Interp, r: Value, repr: Repr) -> bool {
    &&& r.spec_variant() == 0
    &&& r.sv_id() == pre.cells@.len()
    &&& post.cells@.len() == pre.cells@.len() + 1
    &&& post.cells@.subrange(0, r.sv_id()) == pre.cells@
    &&& post.is_alive(r.sv_id())
    &&& post.rc_of(r.sv_id()) == 1
    &&& post.repr_of(r.sv_id()) == repr
    &&& post.cells@[r.sv_id()].magic@.len() == 0
    &&& post.cells@[r.sv_id()].blessed is None
    &&& post.cells@[r.sv_id()].cursor == 0
    &&& Interp::only_cells_changed(pre, post)
}

/// What blessing guarantees: with the package unknown, the lookup error and
/// no change; on a non-reference, the bless error and no change; otherwise
/// the referent now carries the class tag and the result is one more owned
/// handle on the same reference cell.
pub open spec fn bless_post(
    v: Value,
    pre: Interp,
    post: Interp,
    pkg: Seq<u8>,
    r: Result<Value, Error>,
) -> bool {
    if !pre.has_package(pkg) {
        r matches Err(e) && e.0@ == "failed to find package"@ && post == pre
    } else {
        match pre.repr_of(v.sv_id()) {
            Repr::Ref { target } => {
                if pre.is_alive(target as int) {
                    &&& r matches Ok(out) && out.spec_sv() == v.spec_sv()
                        && out.spec_variant() == 1
                    &&& post.cells@.len() == pre.cells@.len()
                    &&& Interp::only_cells_changed(pre, post)
                    &&& forall|j: int|
                        0 <= j < pre.cells@.len() && j != target as int && j != v.sv_id()
                            ==> post.cells@[j] == pre.cells@[j]
                    &&& post.cells@[target as int] == (Cell {
                        blessed: post.cells@[target as int].blessed,
                        rc: if target as int == v.sv_id() {
                            (pre.cells@[target as int].rc + 1) as u64
                        } else {
                            pre.cells@[target as int].rc
                        },
                        ..pre.cells@[target as int]
                    })
                    &&& (post.cells@[target as int].blessed matches Some(b) && b@ == pkg)
                    &&& target as int != v.sv_id() ==> post.cells@[v.sv_id()] == (Cell {
                        rc: (pre.cells@[v.sv_id()].rc + 1) as u64,
                        ..pre.cells@[v.sv_id()]
                    })
                    &&& post.rc_of(v.sv_id()) == pre.rc_of(v.sv_id()) + 1
                } else {
                    r matches Err(e) && e.0@ == "failed to bless value into package"@ && post
                        == pre
                }
            },
            _ => r matches Err(e) && e.0@ == "failed to bless value into package"@ && post
                == pre,
        }
    }
}

/// Whether the interpreter knows a package of this name.
fn has_package(interp: &Interp, name: &[u8]) -> (r: bool)
    ensures
        r == interp.has_package(name@),
{
    let n = interp.packages.len();
    let mut i: usize = 0;
    while i < n
        invariant
            n == interp.packages@.len(),
            i <= n,
            forall|j: int| 0 <= j < i ==> interp.packages@[j]@ != name@,
        decreases n - i,
    {
        if coerce::bytes_eq(interp.packages[i].as_slice(), name) {
            return true;
        }
        i = i + 1;
    }
    false
}

} // verus!
