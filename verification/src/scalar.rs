//! Owned and borrowed handles on single dynamic cells, classification, and
//! the foreign-attachment operations on one cell.

use vstd::prelude::*;
use vstd::pervasive::unreached;
use vstd::string::StringSliceAdditionalSpecFns;

use crate::coerce;
use crate::error::{Error, MagicError};
use crate::interp::{Attachment, Cell, Interp, Repr, SV, SUBSTR_VTBL};
use crate::magic::{MagicSpec, MagicValue};

verus! {

/// An owned handle: holds one reference-count unit on its cell.  Dropping
/// the unit is explicit, through [`Scalar::release`] or one of the
/// ownership-transferring conversions.
#[derive(Debug)]
pub struct Scalar {
    pub sv: SV,
}

/// A value whose unit has been handed to the interpreter's deferred-free
/// list: it will be released at the end of the enclosing scope block and
/// must never be released natively again.
#[derive(Debug)]
pub struct Mortal {
    pub sv: SV,
}

/// A borrowed handle: identifies a cell without holding a unit on it.
#[derive(Clone, Copy, Debug, PartialEq, Eq, Structural)]
pub struct ScalarRef {
    pub sv: SV,
}

/// The scalar type flags the classification reports.  A cell can carry
/// several in the host; this model reports one at a time.
pub type Flags = u8;

/// No flag set: the undefined value.
pub const FLAG_NONE: Flags = 0;

/// The cell holds an integer.
pub const FLAG_INTEGER: Flags = 1;

/// The cell holds a float.  Never produced by this model, which has no
/// float representation; kept so callers can test for it.
pub const FLAG_DOUBLE: Flags = 2;

/// The cell holds a byte string.
pub const FLAG_STRING: Flags = 4;

/// What a classification reports: a plain scalar with its flags, or one of
/// the structured kinds.  `Other` stands for host representations outside
/// this model and is never produced by it.
#[derive(Clone, Copy, Debug, PartialEq, Eq, Structural)]
pub enum Type {
    Scalar(Flags),
    Reference,
    Array,
    Hash,
    Other(u8),
}

/// Forcing a deferred byte string makes it concrete; everything else is
/// already concrete.
pub open spec fn spec_force(r: Repr) -> Repr {
    match r {
        Repr::Lazy { bytes, utf8 } => Repr::Str { bytes, utf8 },
        _ => r,
    }
}

/// Classification of a concrete representation.
pub open spec fn spec_type_of(r: Repr) -> Type {
    match r {
        Repr::Undef => Type::Scalar(FLAG_NONE),
        Repr::Int(_) => Type::Scalar(FLAG_INTEGER),
        Repr::UInt(_) => Type::Scalar(FLAG_INTEGER),
        Repr::Str { .. } => Type::Scalar(FLAG_STRING),
        Repr::Lazy { .. } => Type::Scalar(FLAG_STRING),
        Repr::Ref { .. } => Type::Reference,
        Repr::Array { .. } => Type::Array,
        Repr::Hash { .. } => Type::Hash,
    }
}

/// An unsigned integer reinterpreted as the signed integer with the same
/// two's-complement bits.
pub open spec fn spec_wrap_to_i64(u: u64) -> i64 {
    if u <= i64::MAX as u64 {
        u as i64
    } else {
        (u - 0x1_0000_0000_0000_0000) as i64
    }
}

/// The signed-integer coercion of a concrete representation: integers read
/// as themselves, strings parse numerically, the undefined value reads as
/// zero, and a reference reads as a nonzero address-like number.
pub open spec fn spec_iv_of(r: Repr) -> i64 {
    match r {
        Repr::Undef => 0,
        Repr::Int(i) => i,
        Repr::UInt(u) => spec_wrap_to_i64(u),
        Repr::Str { bytes, .. } => coerce::spec_coerce_i64(bytes@),
        Repr::Lazy { bytes, .. } => coerce::spec_coerce_i64(bytes@),
        Repr::Ref { target } => spec_wrap_to_i64(
            if target == usize::MAX {
                0u64
            } else {
                (target + 1) as u64
            },
        ),
        Repr::Array { .. } => 0,
        Repr::Hash { .. } => 0,
    }
}

/// First index in `m` whose attachment uses callback table `v`, or `m`'s
/// length when none does.
pub open spec fn spec_att_index(m: Seq<Attachment>, v: usize) -> int
    decreases m.len(),
{
    if m.len() == 0 {
        0
    } else if m[0].vtbl == v {
        0
    } else {
        1 + spec_att_index(m.drop_first(), v)
    }
}

/// The first index never passes the length.
pub proof fn lemma_att_index_le_len(m: Seq<Attachment>, v: usize)
    ensures
        0 <= spec_att_index(m, v) <= m.len(),
        spec_att_index(m, v) < m.len() ==> m[spec_att_index(m, v)].vtbl == v,
    decreases m.len(),
{
    if m.len() > 0 && m[0].vtbl != v {
        lemma_att_index_le_len(m.drop_first(), v);
    }
}

impl ScalarRef {
    /// Wrap a raw identity as a borrowed handle.
    pub fn from_sv(sv: SV) -> (r: ScalarRef)
        ensures
            r.sv == sv,
    {
        ScalarRef { sv }
    }

    /// The raw identity, as the host convention hands it around.
    pub fn sv(&self) -> (r: SV)
        ensures
            r == self.sv,
    {
        self.sv
    }

    /// The raw identity.  This does not affect the reference count; that is
    /// up to the caller.
    pub fn as_raw(&self) -> (r: SV)
        ensures
            r == self.sv,
    {
        self.sv
    }

    /// Classify the cell.  Classification is re-evaluated on every call and
    /// forces a deferred byte string to its concrete form first, which is
    /// why it takes the interpreter mutably.
    pub fn ty(&self, interp: &mut Interp) -> (t: Type)
        requires
            old(interp).is_alive(self.sv.id as int),
        ensures
            t == spec_type_of(old(interp).repr_of(self.sv.id as int)),
            Interp::only_cell_updated(*old(interp), *final(interp), self.sv.id as int),
            final(interp).cells@[self.sv.id as int] == (Cell {
                repr: spec_force(old(interp).cells@[self.sv.id as int].repr),
                ..old(interp).cells@[self.sv.id as int]
            }),
    {
        let id = self.sv.id;
        let is_lazy = matches!(&interp.cells[id].repr, Repr::Lazy { .. });
        if is_lazy {
            let mut c = crate::interp::Cell {
                rc: 0,
                alive: false,
                repr: Repr::Undef,
                magic: Vec::new(),
                blessed: None,
                cursor: 0,
            };
            interp.cells.set_and_swap(id, &mut c);
            let repr = match c.repr {
                Repr::Lazy { bytes, utf8 } => Repr::Str { bytes, utf8 },
                other => other,
            };
            c.repr = repr;
            interp.cells.set(id, c);
            proof {
                assert(final(interp).cells@ =~= old(interp).cells@.update(
                    id as int,
                    final(interp).cells@[id as int],
                ));
            }
            Type::Scalar(FLAG_STRING)
        } else {
            proof {
                assert(interp.cells@ =~= old(interp).cells@.update(
                    id as int,
                    interp.cells@[id as int],
                ));
            }
            match &interp.cells[id].repr {
                Repr::Undef => Type::Scalar(FLAG_NONE),
                Repr::Int(_) => Type::Scalar(FLAG_INTEGER),
                Repr::UInt(_) => Type::Scalar(FLAG_INTEGER),
                Repr::Str { .. } => Type::Scalar(FLAG_STRING),
                Repr::Lazy { .. } => Type::Scalar(FLAG_STRING),
                Repr::Ref { .. } => Type::Reference,
                Repr::Array { .. } => Type::Array,
                Repr::Hash { .. } => Type::Hash,
            }
        }
    }

    /// The cell holds nothing (the undefined value).
    pub fn is_undef(&self, interp: &Interp) -> (r: bool)
        requires
            interp.is_alive(self.sv.id as int),
        ensures
            r == (interp.repr_of(self.sv.id as int) is Undef),
    {
        matches!(&interp.cells[self.sv.id].repr, Repr::Undef)
    }

    /// Coerce the cell to a signed integer under the host rules.
    pub fn iv(&self, interp: &Interp) -> (r: i64)
        requires
            interp.is_alive(self.sv.id as int),
        ensures
            r == spec_iv_of(interp.repr_of(self.sv.id as int)),
    {
        match &interp.cells[self.sv.id].repr {
            Repr::Undef => 0,
            Repr::Int(i) => *i,
            Repr::UInt(u) => wrap_to_i64(*u),
            Repr::Str { bytes, .. } => coerce::coerce_i64(bytes.as_slice()),
            Repr::Lazy { bytes, .. } => coerce::coerce_i64(bytes.as_slice()),
            Repr::Ref { target } => {
                if *target == usize::MAX {
                    wrap_to_i64(0)
                } else {
                    wrap_to_i64((*target + 1) as u64)
                }
            },
            Repr::Array { .. } => 0,
            Repr::Hash { .. } => 0,
        }
    }

    /// Borrow the byte-string payload.
    pub fn pv_bytes<'a>(&self, interp: &'a Interp) -> (r: &'a [u8])
        requires
            interp.is_alive(self.sv.id as int),
            interp.repr_of(self.sv.id as int) matches Repr::Str { .. }
                || interp.repr_of(self.sv.id as int) matches Repr::Lazy { .. },
        ensures
            ({
                let rep = interp.repr_of(self.sv.id as int);
                match rep {
                    Repr::Str { bytes, .. } => r@ == bytes@,
                    Repr::Lazy { bytes, .. } => r@ == bytes@,
                    _ => false,
                }
            }),
    {
        match &interp.cells[self.sv.id].repr {
            Repr::Str { bytes, .. } => bytes.as_slice(),
            Repr::Lazy { bytes, .. } => bytes.as_slice(),
            _ => {
                proof {
                    assert(false);
                }
                unreached()
            },
        }
    }

    /// Interpret the byte-string payload as a raw pointer token: it must be
    /// exactly eight little-endian bytes.
    pub fn pv_raw(&self, interp: &Interp) -> (r: Result<u64, Error>)
        requires
            interp.is_alive(self.sv.id as int),
        ensures
            ({
                let rep = interp.repr_of(self.sv.id as int);
                match rep {
                    Repr::Str { bytes, .. } => if bytes@.len() == 8 {
                        r == Ok::<u64, Error>(vstd::bytes::spec_u64_from_le_bytes(bytes@))
                    } else {
                        r matches Err(e) && e.0@ == "invalid value for pointer"@
                    },
                    _ => r matches Err(e) && e.0@ == "invalid value for pointer"@,
                }
            }),
    {
        match &interp.cells[self.sv.id].repr {
            Repr::Str { bytes, .. } => {
                if bytes.len() == 8 {
                    Ok(vstd::bytes::u64_from_le_bytes(bytes.as_slice()))
                } else {
                    Error::fail("invalid value for pointer")
                }
            },
            _ => Error::fail("invalid value for pointer"),
        }
    }

    /// Acquire an owned handle on the same cell (one more unit).
    pub fn clone_ref(&self, interp: &mut Interp) -> (r: Scalar)
        requires
            old(interp).valid_unit(self.sv.id as int),
            old(interp).rc_of(self.sv.id as int) < u64::MAX,
        ensures
            r.sv == self.sv,
            Interp::only_cell_updated(*old(interp), *final(interp), self.sv.id as int),
            final(interp).rc_of(self.sv.id as int) == old(interp).rc_of(self.sv.id as int)
                + 1,
            final(interp).cells@[self.sv.id as int] == (Cell {
                rc: (old(interp).cells@[self.sv.id as int].rc + 1) as u64,
                ..old(interp).cells@[self.sv.id as int]
            }),
    {
        interp.inc_rc(self.sv.id);
        Scalar { sv: self.sv }
    }

    /// Dereference the cell: for a reference whose target is still live this
    /// returns a fresh owned handle on the target; for a dangling reference
    /// or any other representation it returns nothing.
    pub fn dereference(&self, interp: &mut Interp) -> (r: Option<Scalar>)
        requires
            old(interp).is_alive(self.sv.id as int),
            (old(interp).repr_of(self.sv.id as int) is Ref && old(interp).is_alive(
                old(interp).repr_of(self.sv.id as int)->Ref_target as int,
            )) ==> old(interp).rc_of(
                old(interp).repr_of(self.sv.id as int)->Ref_target as int,
            ) < u64::MAX,
        ensures
            ({
                let rep = old(interp).repr_of(self.sv.id as int);
                match rep {
                    Repr::Ref { target } => {
                        if old(interp).valid_unit(target as int) {
                            &&& r matches Some(s) && s.sv.id == target
                            &&& Interp::only_cell_updated(
                                *old(interp),
                                *final(interp),
                                target as int,
                            )
                            &&& final(interp).rc_of(target as int) == old(interp).rc_of(
                                target as int,
                            ) + 1
                            &&& final(interp).cells@[target as int] == (Cell {
                                rc: (old(interp).cells@[target as int].rc + 1) as u64,
                                ..old(interp).cells@[target as int]
                            })
                        } else {
                            r is None && *final(interp) == *old(interp)
                        }
                    },
                    _ => r is None && *final(interp) == *old(interp),
                }
            }),
    {
        let id = self.sv.id;
        let target_opt = match &interp.cells[id].repr {
            Repr::Ref { target } => Some(*target),
            _ => None,
        };
        match target_opt {
            Some(target) => {
                if target < interp.cells.len() && interp.cells[target].alive
                    && interp.cells[target].rc >= 1 {
                    interp.inc_rc(target);
                    Some(Scalar { sv: SV { id: target } })
                } else {
                    None
                }
            },
            None => None,
        }
    }

    /// Turn a borrowed handle into an owned [`crate::Value`].
    pub fn into_value(self, interp: &mut Interp) -> (r: crate::value::Value)
        requires
            old(interp).valid_unit(self.sv.id as int),
            old(interp).rc_of(self.sv.id as int) < u64::MAX,
        ensures
            Interp::only_cell_updated(*old(interp), *final(interp), self.sv.id as int),
            r.sv_id() == self.sv.id as int,
            r.ok(*final(interp)),
            final(interp).rc_of(self.sv.id as int) == old(interp).rc_of(self.sv.id as int)
                + 1,
            final(interp).repr_of(self.sv.id as int) == old(interp).repr_of(
                self.sv.id as int,
            ),
    {
        let s = self.clone_ref(interp);
        crate::value::Value::from_scalar(interp, s)
    }

    /// The name of the class the cell was blessed into when `blessed` is
    /// set and it has one, otherwise the name of its structural kind.
    pub fn reftype(&self, interp: &Interp, blessed: bool) -> (r: Vec<u8>)
        requires
            interp.is_alive(self.sv.id as int),
        ensures
            ({
                let c = interp.cells@[self.sv.id as int];
                if blessed && c.blessed is Some {
                    r@ == c.blessed->0@
                } else {
                    r@ == spec_kind_name(c.repr)
                }
            }),
    {
        let c = &interp.cells[self.sv.id];
        if blessed {
            match &c.blessed {
                Some(name) => {
                    return vstd::slice::slice_to_vec(name.as_slice());
                },
                None => {},
            }
        }
        kind_name(&c.repr)
    }

    /// Create a substring projection of a string cell: a fresh deferred
    /// byte string carrying the selected range, marked with the substring
    /// attachment.  Out-of-range bounds are an error, as is a cell that
    /// does not hold a concrete string.
    pub fn substr(&self, interp: &mut Interp, offset: usize, len: usize) -> (r: Result<
        Scalar,
        Error,
    >)
        requires
            old(interp).is_alive(self.sv.id as int),
            old(interp).cells@.len() < usize::MAX,
        ensures
            ({
                let rep = old(interp).repr_of(self.sv.id as int);
                match rep {
                    Repr::Str { bytes, utf8 } => {
                        if offset + len <= bytes@.len() {
                            &&& (r matches Ok(s) && s.sv.id == old(interp).cells@.len()
                                && final(interp).valid_unit(s.sv.id as int) && final(interp).repr_of(s.sv.id as int) is Lazy && final(interp).repr_of(
                                s.sv.id as int,
                            )->Lazy_bytes@ == bytes@.subrange(offset as int, offset + len)
                                && final(interp).repr_of(s.sv.id as int)->Lazy_utf8 == utf8)
                            &&& final(interp).cells@.len() == old(interp).cells@.len() + 1
                            &&& final(interp).cells@.subrange(0, old(interp).cells@.len() as int)
                                == old(interp).cells@
                            &&& Interp::only_cells_changed(*old(interp), *final(interp))
                            &&& spec_att_index(
                                final(interp).cells@[old(interp).cells@.len() as int].magic@,
                                SUBSTR_VTBL,
                            ) == 0
                        } else {
                            r matches Err(e) && e.0@ == "substr with out of bounds range"@
                                && *final(interp) == *old(interp)
                        }
                    },
                    _ => r matches Err(e) && e.0@ == "substr on non-string value"@ && *final(interp) == *old(interp),
                }
            }),
    {
        let id = self.sv.id;
        let piece = match &interp.cells[id].repr {
            Repr::Str { bytes, utf8 } => {
                if offset <= bytes.len() && len <= bytes.len() - offset {
                    let sub = vstd::slice::slice_subrange(bytes.as_slice(), offset, offset
                        + len);
                    Ok((vstd::slice::slice_to_vec(sub), *utf8))
                } else {
                    Err(Error::new("substr with out of bounds range"))
                }
            },
            _ => Err(Error::new("substr on non-string value")),
        };
        match piece {
            Ok((sub, utf8)) => {
                let ghost mid0 = *interp;
                let nid = interp.alloc_cell(Repr::Lazy { bytes: sub, utf8 });
                let s = Scalar { sv: SV { id: nid } };
                let sref = ScalarRef { sv: s.sv };
                sref.add_raw_magic(interp, SUBSTR_VTBL, 0);
                proof {
                    assert(final(interp).cells@.subrange(0, mid0.cells@.len() as int)
                        =~= mid0.cells@);
                }
                Ok(s)
            },
            Err(e) => Err(e),
        }
    }

    /// Whether this cell is a substring projection: it carries the
    /// substring attachment.
    pub fn is_substr(&self, interp: &Interp) -> (r: bool)
        requires
            interp.is_alive(self.sv.id as int),
        ensures
            r == (spec_att_index(interp.cells@[self.sv.id as int].magic@, SUBSTR_VTBL)
                < interp.cells@[self.sv.id as int].magic@.len()),
    {
        match self.find_raw_magic(interp, SUBSTR_VTBL) {
            Some(_) => true,
            None => false,
        }
    }

    /// Attach a foreign payload under a callback-table identity.
    pub fn add_raw_magic(&self, interp: &mut Interp, vtbl: usize, payload: u64)
        requires
            old(interp).is_alive(self.sv.id as int),
            old(interp).cells@[self.sv.id as int].magic@.len() < usize::MAX,
        ensures
            Interp::only_cell_updated(*old(interp), *final(interp), self.sv.id as int),
            final(interp).cells@[self.sv.id as int] == (Cell {
                magic: final(interp).cells@[self.sv.id as int].magic,
                ..old(interp).cells@[self.sv.id as int]
            }),
            final(interp).cells@[self.sv.id as int].magic@ == old(interp).cells@[self.sv.id as int].magic@.push((Attachment { vtbl, payload })),
    {
        let id = self.sv.id;
        let mut c = Cell {
            rc: 0,
            alive: false,
            repr: Repr::Undef,
            magic: Vec::new(),
            blessed: None,
            cursor: 0,
        };
        interp.cells.set_and_swap(id, &mut c);
        c.magic.push(Attachment { vtbl, payload });
        interp.cells.set(id, c);
        proof {
            assert(final(interp).cells@ =~= old(interp).cells@.update(
                id as int,
                final(interp).cells@[id as int],
            ));
        }
    }

    /// Find the payload attached under a callback-table identity, if any.
    pub fn find_raw_magic(&self, interp: &Interp, vtbl: usize) -> (r: Option<u64>)
        requires
            interp.is_alive(self.sv.id as int),
        ensures
            ({
                let m = interp.cells@[self.sv.id as int].magic@;
                let idx = spec_att_index(m, vtbl);
                if idx < m.len() {
                    r == Some(m[idx].payload)
                } else {
                    r is None
                }
            }),
    {
        let m = &interp.cells[self.sv.id].magic;
        let idx = find_att(m, vtbl);
        if idx < m.len() {
            Some(m[idx].payload)
        } else {
            None
        }
    }

    /// Detach the attachment under a callback-table identity, returning its
    /// payload.  No free callback runs here: that is the caller's ledger.
    pub fn remove_raw_magic(&self, interp: &mut Interp, vtbl: usize) -> (r: Option<u64>)
        requires
            old(interp).is_alive(self.sv.id as int),
        ensures
            Interp::only_cell_updated(*old(interp), *final(interp), self.sv.id as int),
            ({
                let m = old(interp).cells@[self.sv.id as int].magic@;
                let idx = spec_att_index(m, vtbl);
                &&& final(interp).cells@[self.sv.id as int] == (Cell {
                    magic: final(interp).cells@[self.sv.id as int].magic,
                    ..old(interp).cells@[self.sv.id as int]
                })
                &&& if idx < m.len() {
                    r == Some(m[idx].payload) && final(interp).cells@[self.sv.id as int].magic@ == m.remove(idx)
                } else {
                    r is None && final(interp).cells@[self.sv.id as int].magic@ == m
                }
            }),
    {
        let id = self.sv.id;
        let mut c = Cell {
            rc: 0,
            alive: false,
            repr: Repr::Undef,
            magic: Vec::new(),
            blessed: None,
            cursor: 0,
        };
        interp.cells.set_and_swap(id, &mut c);
        let idx = find_att(&c.magic, vtbl);
        let r = if idx < c.magic.len() {
            let att = c.magic.remove(idx);
            Some(att.payload)
        } else {
            None
        };
        interp.cells.set(id, c);
        proof {
            assert(final(interp).cells@ =~= old(interp).cells@.update(
                id as int,
                final(interp).cells@[id as int],
            ));
        }
        r
    }

    /// Attach a typed payload under a tag specification.
    pub fn add_magic(&self, interp: &mut Interp, mv: MagicValue)
        requires
            old(interp).is_alive(self.sv.id as int),
            old(interp).cells@[self.sv.id as int].magic@.len() < usize::MAX,
        ensures
            Interp::only_cell_updated(*old(interp), *final(interp), self.sv.id as int),
            final(interp).cells@[self.sv.id as int] == (Cell {
                magic: final(interp).cells@[self.sv.id as int].magic,
                ..old(interp).cells@[self.sv.id as int]
            }),
            final(interp).cells@[self.sv.id as int].magic@ == old(interp).cells@[self.sv.id as int].magic@.push(
                (Attachment { vtbl: mv.tag_spec.vtbl, payload: mv.payload }),
            ),
    {
        self.add_raw_magic(interp, mv.tag_spec.vtbl, mv.payload)
    }

    /// Find the payload attached under a tag specification.
    pub fn find_magic(&self, interp: &Interp, mspec: &MagicSpec) -> (r: Option<u64>)
        requires
            interp.is_alive(self.sv.id as int),
        ensures
            ({
                let m = interp.cells@[self.sv.id as int].magic@;
                let idx = spec_att_index(m, mspec.vtbl);
                if idx < m.len() {
                    r == Some(m[idx].payload)
                } else {
                    r is None
                }
            }),
    {
        self.find_raw_magic(interp, mspec.vtbl)
    }

    /// Remove the attachment under a tag specification and reclaim its
    /// payload — but only if the tag has no free callback.  A tag with one
    /// already owns the payload on the auto-free path, so the payload is
    /// handed to the free log instead and `None` comes back; reclaiming it
    /// here too would free it twice.  Without an attachment for the tag the
    /// lookup error comes back.
    pub fn remove_magic(&self, interp: &mut Interp, mspec: &MagicSpec) -> (r: Result<
        Option<u64>,
        MagicError,
    >)
        requires
            old(interp).is_alive(self.sv.id as int),
            mspec.vtbl < old(interp).vtbls@.len(),
            old(interp).freed_payloads@.len() < usize::MAX,
        ensures
            ({
                let m = old(interp).cells@[self.sv.id as int].magic@;
                let idx = spec_att_index(m, mspec.vtbl);
                &&& final(interp).cells@[self.sv.id as int] == (Cell {
                    magic: final(interp).cells@[self.sv.id as int].magic,
                    ..old(interp).cells@[self.sv.id as int]
                })
                &&& if idx < m.len() {
                    &&& final(interp).cells@[self.sv.id as int].magic@ == m.remove(idx)
                    &&& if old(interp).vtbls@[mspec.vtbl as int] {
                        r == Ok::<Option<u64>, MagicError>(None) && final(interp).freed_payloads@ == old(interp).freed_payloads@.push(m[idx].payload)
                    } else {
                        r == Ok::<Option<u64>, MagicError>(Some(m[idx].payload)) && final(interp).freed_payloads@ == old(interp).freed_payloads@
                    }
                } else {
                    &&& r == Err::<Option<u64>, MagicError>(MagicError::NotFound(""))
                    &&& final(interp).cells@[self.sv.id as int].magic@ == m
                    &&& final(interp).freed_payloads@ == old(interp).freed_payloads@
                }
            }),
            final(interp).cells@.len() == old(interp).cells@.len(),
            forall|j: int|
                0 <= j < old(interp).cells@.len() && j != self.sv.id as int ==> final(interp).cells@[j] == old(interp).cells@[j],
            Interp::same_env(*old(interp), *final(interp)),
            Interp::same_stacks(*old(interp), *final(interp)),
    {
        let has_free = interp.vtbls[mspec.vtbl];
        match self.remove_raw_magic(interp, mspec.vtbl) {
            Some(payload) => {
                if has_free {
                    // The free callback reclaims the payload.
                    interp.freed_payloads.push(payload);
                    Ok(None)
                } else {
                    Ok(Some(payload))
                }
            },
            None => Err(MagicError::NotFound("")),
        }
    }
}

/// Reinterpret an unsigned integer as the signed integer with the same bits.
pub fn wrap_to_i64(u: u64) -> (r: i64)
    ensures
        r == spec_wrap_to_i64(u),
{
    if u <= i64::MAX as u64 {
        u as i64
    } else {
        ((u - 0x8000_0000_0000_0000) as i64) + i64::MIN
    }
}

/// The structural kind names the host's `ref` reports.
pub open spec fn spec_kind_name(r: Repr) -> Seq<u8> {
    match r {
        Repr::Array { .. } => "ARRAY".spec_bytes(),
        Repr::Hash { .. } => "HASH".spec_bytes(),
        Repr::Ref { .. } => "REF".spec_bytes(),
        _ => "SCALAR".spec_bytes(),
    }
}

/// Name the structural kind of a representation.
fn kind_name(r: &Repr) -> (out: Vec<u8>)
    ensures
        out@ == spec_kind_name(*r),
{
    match r {
        Repr::Array { .. } => coerce::str_bytes("ARRAY"),
        Repr::Hash { .. } => coerce::str_bytes("HASH"),
        Repr::Ref { .. } => coerce::str_bytes("REF"),
        _ => coerce::str_bytes("SCALAR"),
    }
}

/// Find the first attachment index for a callback-table identity, or the
/// list length when there is none.
fn find_att(m: &Vec<Attachment>, vtbl: usize) -> (idx: usize)
    ensures
        idx == spec_att_index(m@, vtbl),
{
    let n = m.len();
    let mut i: usize = 0;
    proof {
        assert(m@.skip(0) =~= m@);
    }
    while i < n
        invariant
            n == m@.len(),
            i <= n,
            spec_att_index(m@, vtbl) == i + spec_att_index(m@.skip(i as int), vtbl),
        ensures
            i <= n,
            spec_att_index(m@, vtbl) == i as int,
        decreases n - i,
    {
        if m[i].vtbl == vtbl {
            proof {
                assert(m@.skip(i as int)[0] == m@[i as int]);
                assert(spec_att_index(m@.skip(i as int), vtbl) == 0);
            }
            break;
        }
        i = i + 1;
        proof {
            assert(m@.skip(i - 1).drop_first() =~= m@.skip(i as int));
            assert(m@.skip(i - 1)[0] == m@[i - 1]);
        }
    }
    proof {
        if i == n {
            assert(m@.skip(n as int) =~= Seq::<Attachment>::empty());
        }
    }
    i
}

impl Scalar {
    /// The handle holds a unit on a live cell of this interpreter.
    pub open spec fn ok(self, interp: Interp) -> bool {
        interp.valid_unit(self.sv.id as int)
    }

    /// The cell this handle owns a unit on.
    pub open spec fn id(self) -> int {
        self.sv.id as int
    }

    /// Borrow this handle.
    pub fn sv_ref(&self) -> (r: ScalarRef)
        ensures
            r.sv == self.sv,
    {
        ScalarRef { sv: self.sv }
    }

    /// Hand the owned unit to the deferred-free list: the interpreter will
    /// release it at the end of the enclosing scope block.
    pub fn into_mortal(self, interp: &mut Interp) -> (r: Mortal)
        requires
            old(interp).mortals@.len() < usize::MAX,
        ensures
            r.sv == self.sv,
            final(interp).mortals@ == old(interp).mortals@.push(self.sv.id),
            final(interp).cells@ == old(interp).cells@,
            Interp::same_env(*old(interp), *final(interp)),
            Interp::same_freed(*old(interp), *final(interp)),
            final(interp).stack@ == old(interp).stack@,
            final(interp).marks@ == old(interp).marks@,
            final(interp).tmps@ == old(interp).tmps@,
    {
        interp.push_mortal(self.sv.id);
        Mortal { sv: self.sv }
    }

    /// Turn this into a raw identity, transferring control of one unit to
    /// the caller.
    pub fn into_raw(self) -> (r: SV)
        ensures
            r == self.sv,
    {
        self.sv
    }

    /// Adopt a raw identity, taking ownership of one unit without changing
    /// the count.  The caller vouches that it held that unit.
    pub fn from_raw_move(sv: SV) -> (r: Scalar)
        ensures
            r.sv == sv,
    {
        Scalar { sv }
    }

    /// Borrow a raw identity into a new owned handle: the count goes up by
    /// one and the source keeps its unit.
    pub fn from_raw_ref(interp: &mut Interp, sv: SV) -> (r: Scalar)
        requires
            old(interp).valid_unit(sv.id as int),
            old(interp).rc_of(sv.id as int) < u64::MAX,
        ensures
            r.sv == sv,
            Interp::only_cell_updated(*old(interp), *final(interp), sv.id as int),
            final(interp).rc_of(sv.id as int) == old(interp).rc_of(sv.id as int) + 1,
            final(interp).cells@[sv.id as int] == (Cell {
                rc: (old(interp).cells@[sv.id as int].rc + 1) as u64,
                ..old(interp).cells@[sv.id as int]
            }),
    {
        interp.inc_rc(sv.id);
        Scalar { sv }
    }

    /// Release the owned unit; the last unit reclaims the cell.
    pub fn release(self, interp: &mut Interp)
        requires
            old(interp).valid_unit(self.sv.id as int),
        ensures
            Interp::same_env(*old(interp), *final(interp)),
            Interp::same_stacks(*old(interp), *final(interp)),
            Interp::reaped(*old(interp), *final(interp)),
            old(interp).rc_of(self.sv.id as int) > 1 ==> {
                &&& Interp::only_cell_updated(*old(interp), *final(interp), self.sv.id as int)
                &&& final(interp).cells@[self.sv.id as int] == (Cell {
                    rc: (old(interp).cells@[self.sv.id as int].rc - 1) as u64,
                    ..old(interp).cells@[self.sv.id as int]
                })
            },
            old(interp).rc_of(self.sv.id as int) == 1 ==> !final(interp).is_alive(
                self.sv.id as int,
            ),
    {
        interp.release_unit(self.sv.id)
    }

    /// A fresh cell holding the undefined value.
    pub fn new_undef(interp: &mut Interp) -> (r: Scalar)
        requires
            old(interp).cells@.len() < usize::MAX,
        ensures
            scalar_alloc_post(*old(interp), *final(interp), r, Repr::Undef),
    {
        Scalar { sv: SV { id: interp.alloc_cell(Repr::Undef) } }
    }

    /// A fresh true value (the integer one).
    pub fn new_yes(interp: &mut Interp) -> (r: Scalar)
        requires
            old(interp).cells@.len() < usize::MAX,
        ensures
            scalar_alloc_post(*old(interp), *final(interp), r, Repr::Int(1)),
    {
        Scalar { sv: SV { id: interp.alloc_cell(Repr::Int(1)) } }
    }

    /// A fresh false value (the integer zero).
    pub fn new_no(interp: &mut Interp) -> (r: Scalar)
        requires
            old(interp).cells@.len() < usize::MAX,
        ensures
            scalar_alloc_post(*old(interp), *final(interp), r, Repr::Int(0)),
    {
        Scalar { sv: SV { id: interp.alloc_cell(Repr::Int(0)) } }
    }

    /// A fresh signed integer cell.
    pub fn new_int(interp: &mut Interp, v: i64) -> (r: Scalar)
        requires
            old(interp).cells@.len() < usize::MAX,
        ensures
            scalar_alloc_post(*old(interp), *final(interp), r, Repr::Int(v)),
    {
        Scalar { sv: SV { id: interp.alloc_cell(Repr::Int(v)) } }
    }

    /// A fresh unsigned integer cell.
    pub fn new_uint(interp: &mut Interp, v: u64) -> (r: Scalar)
        requires
            old(interp).cells@.len() < usize::MAX,
        ensures
            scalar_alloc_post(*old(interp), *final(interp), r, Repr::UInt(v)),
    {
        Scalar { sv: SV { id: interp.alloc_cell(Repr::UInt(v)) } }
    }

    /// A fresh string cell; it is tagged as encoded text exactly when a
    /// byte outside the seven-bit range is present.
    pub fn new_string(interp: &mut Interp, s: &str) -> (r: Scalar)
        requires
            old(interp).cells@.len() < usize::MAX,
        ensures
            scalar_alloc_post(
                *old(interp),
                *final(interp),
                r,
                Repr::Str {
                    bytes: final(interp).cells@[r.sv.id as int].repr->Str_bytes,
                    utf8: coerce::spec_has_high_byte(s.spec_bytes()),
                },
            ),
            final(interp).cells@[r.sv.id as int].repr->Str_bytes@ == s.spec_bytes(),
    {
        let bytes = coerce::str_bytes(s);
        let utf8 = coerce::has_high_byte(bytes.as_slice());
        Scalar { sv: SV { id: interp.alloc_cell(Repr::Str { bytes, utf8 }) } }
    }

    /// A fresh byte-string cell, never tagged as text.
    pub fn new_bytes(interp: &mut Interp, s: &[u8]) -> (r: Scalar)
        requires
            old(interp).cells@.len() < usize::MAX,
        ensures
            scalar_alloc_post(
                *old(interp),
                *final(interp),
                r,
                Repr::Str {
                    bytes: final(interp).cells@[r.sv.id as int].repr->Str_bytes,
                    utf8: false,
                },
            ),
            final(interp).cells@[r.sv.id as int].repr->Str_bytes@ == s@,
    {
        let bytes = vstd::slice::slice_to_vec(s);
        Scalar { sv: SV { id: interp.alloc_cell(Repr::Str { bytes, utf8: false }) } }
    }

    /// A fresh cell holding a raw pointer token as its eight little-endian
    /// bytes; any such byte string reads back as a pointer.
    pub fn new_pointer(interp: &mut Interp, ptr: u64) -> (r: Scalar)
        requires
            old(interp).cells@.len() < usize::MAX,
        ensures
            scalar_alloc_post(
                *old(interp),
                *final(interp),
                r,
                Repr::Str {
                    bytes: final(interp).cells@[r.sv.id as int].repr->Str_bytes,
                    utf8: false,
                },
            ),
            final(interp).cells@[r.sv.id as int].repr->Str_bytes@
                == vstd::bytes::spec_u64_to_le_bytes(ptr),
    {
        let bytes = vstd::bytes::u64_to_le_bytes(ptr);
        Scalar { sv: SV { id: interp.alloc_cell(Repr::Str { bytes, utf8: false }) } }
    }
}

/// What allocating one fresh scalar cell guarantees: the handle owns the
/// one unit of a new live cell holding `repr`, appended to the store, and
/// nothing else moved.
pub open spec fn scalar_alloc_post(pre: Interp, post: Interp, r: Scalar, repr: Repr) -> bool {
    &&& r.sv.id == pre.cells@.len()
    &&& post.cells@.len() == pre.cells@.len() + 1
    &&& post.cells@.subrange(0, r.sv.id as int) == pre.cells@
    &&& post.is_alive(r.sv.id as int)
    &&& post.rc_of(r.sv.id as int) == 1
    &&& post.repr_of(r.sv.id as int) == repr
    &&& post.cells@[r.sv.id as int].magic@.len() == 0
    &&& post.cells@[r.sv.id as int].blessed is None
    &&& post.cells@[r.sv.id as int].cursor == 0
    &&& Interp::only_cells_changed(pre, post)
}

impl Mortal {
    /// Get the raw identity; the deferred-free list still holds the unit.
    pub fn into_raw(self) -> (r: SV)
        ensures
            r == self.sv,
    {
        self.sv
    }

    /// Borrow this handle.
    pub fn sv_ref(&self) -> (r: ScalarRef)
        ensures
            r.sv == self.sv,
    {
        ScalarRef { sv: self.sv }
    }
}


/// First index at or after `i` where the needle occurs in the haystack, or
/// a negative number when it does not occur.
pub open spec fn spec_first_occurrence(h: Seq<u8>, n: Seq<u8>, i: int) -> int
    decreases h.len() + 1 - i,
{
    if i < 0 || i + n.len() > h.len() {
        -1
    } else if h.subrange(i, i + n.len() as int) == n {
        i
    } else {
        spec_first_occurrence(h, n, i + 1)
    }
}

/// Find the first occurrence of a needle in a haystack.
fn find_occurrence(h: &[u8], n: &[u8]) -> (r: Option<usize>)
    requires
        n@.len() >= 1,
    ensures
        ({
            let f = spec_first_occurrence(h@, n@, 0);
            if f >= 0 {
                r matches Some(i) && i as int == f
            } else {
                r is None
            }
        }),
{
    let hl = h.len();
    let nl = n.len();
    if nl > hl {
        return None;
    }
    let mut i: usize = 0;
    while i <= hl - nl
        invariant
            1 <= nl <= hl,
            hl == h@.len(),
            nl == n@.len(),
            i <= hl - nl + 1,
            spec_first_occurrence(h@, n@, 0) == spec_first_occurrence(h@, n@, i as int),
        ensures
            nl <= hl,
            hl == h@.len(),
            nl == n@.len(),
            i <= hl - nl + 1,
            i <= hl - nl ==> spec_first_occurrence(h@, n@, 0) == i as int,
            i > hl - nl ==> spec_first_occurrence(h@, n@, 0) < 0,
        decreases hl - nl - i + 1,
    {
        let piece = vstd::slice::slice_subrange(h, i, i + nl);
        if crate::coerce::bytes_eq(piece, n) {
            proof {
                assert(h@.subrange(i as int, i + nl) == n@);
                assert(spec_first_occurrence(h@, n@, i as int) == i as int);
            }
            break;
        }
        proof {
            assert(h@.subrange(i as int, i + nl) != n@);
            assert(spec_first_occurrence(h@, n@, i as int) == spec_first_occurrence(
                h@,
                n@,
                i + 1,
            ));
        }
        i = i + 1;
    }
    if i <= hl - nl {
        Some(i)
    } else {
        None
    }
}

/// A found first occurrence really is one: it lies in bounds and the
/// haystack matches the needle there.
pub proof fn lemma_first_occurrence_hits(h: Seq<u8>, n: Seq<u8>, i: int)
    requires
        0 <= i,
        spec_first_occurrence(h, n, i) >= 0,
    ensures
        ({
            let f = spec_first_occurrence(h, n, i);
            &&& i <= f
            &&& f + n.len() <= h.len()
            &&& h.subrange(f, f + n.len() as int) == n
        }),
    decreases h.len() + 1 - i,
{
    if i + n.len() > h.len() {
    } else if h.subrange(i, i + n.len() as int) == n {
    } else {
        lemma_first_occurrence_hits(h, n, i + 1);
    }
}

impl Scalar {
    /// Try to produce a substring cell from a base string value and a piece
    /// of text: the first occurrence of the text inside the base becomes a
    /// deferred substring projection.  An empty piece, or one that does not
    /// occur in the base, produces nothing.
    pub fn substr_from_str_slice(interp: &mut Interp, value: &ScalarRef, substr: &str) -> (r:
        Option<Scalar>)
        requires
            old(interp).is_alive(value.sv.id as int),
            old(interp).repr_of(value.sv.id as int) matches Repr::Str { .. },
            old(interp).cells@.len() < usize::MAX,
        ensures
            ({
                let rep = old(interp).repr_of(value.sv.id as int);
                let f = spec_first_occurrence(rep->Str_bytes@, substr.spec_bytes(), 0);
                if substr.spec_bytes().len() == 0 || f < 0 {
                    r is None && *final(interp) == *old(interp)
                } else {
                    &&& (r matches Some(s) && s.sv.id == old(interp).cells@.len() && final(interp).valid_unit(s.sv.id as int) && final(interp).repr_of(
                        s.sv.id as int,
                    ) is Lazy && final(interp).repr_of(s.sv.id as int)->Lazy_bytes@
                        == substr.spec_bytes())
                    &&& final(interp).cells@.len() == old(interp).cells@.len() + 1
                    &&& final(interp).cells@.subrange(0, old(interp).cells@.len() as int)
                        == old(interp).cells@
                    &&& Interp::only_cells_changed(*old(interp), *final(interp))
                }
            }),
    {
        let sub = crate::coerce::str_bytes(substr);
        if sub.len() == 0 {
            return None;
        }
        let start_opt = {
            let bytes = value.pv_bytes(interp);
            find_occurrence(bytes, sub.as_slice())
        };
        let start = match start_opt {
            Some(i) => i,
            None => {
                return None;
            },
        };
        proof {
            let rep = old(interp).repr_of(value.sv.id as int);
            lemma_first_occurrence_hits(rep->Str_bytes@, sub@, 0);
        }
        match value.substr(interp, start, sub.len()) {
            Ok(s) => Some(s),
            Err(_) => None,
        }
    }
}

impl ScalarRef {
    /// Merge a piece of text with this string value: when the text occurs
    /// inside it, the result is the corresponding substring projection;
    /// otherwise a fresh string cell holding the text.
    pub fn merge_str_slice(&self, interp: &mut Interp, text: &str) -> (r: Scalar)
        requires
            old(interp).is_alive(self.sv.id as int),
            old(interp).repr_of(self.sv.id as int) matches Repr::Str { .. },
            old(interp).cells@.len() < usize::MAX,
        ensures
            r.sv.id == old(interp).cells@.len(),
            final(interp).valid_unit(r.sv.id as int),
            final(interp).cells@.len() == old(interp).cells@.len() + 1,
            final(interp).cells@.subrange(0, old(interp).cells@.len() as int) == old(interp).cells@,
            Interp::only_cells_changed(*old(interp), *final(interp)),
            ({
                let rep = final(interp).repr_of(r.sv.id as int);
                (rep is Lazy && rep->Lazy_bytes@ == text.spec_bytes()) || (rep is Str
                    && rep->Str_bytes@ == text.spec_bytes())
            }),
    {
        match Scalar::substr_from_str_slice(interp, self, text) {
            Some(s) => s,
            None => Scalar::new_string(interp, text),
        }
    }
}

} // verus!
