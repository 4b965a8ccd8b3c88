//! Owned handles on sequence cells.

use vstd::prelude::*;

use crate::error::CastError;
use crate::interp::{Cell, Interp, Repr, AV, SV};
use crate::scalar::Scalar;
use crate::value::Value;

verus! {

/// An owned handle on a sequence cell: a [`Scalar`] narrowed to the
/// sequence kind.
#[derive(Debug)]
pub struct Array(pub Scalar);

impl Array {
    /// The handle owns a unit on a live sequence cell.
    pub open spec fn ok(self, interp: Interp) -> bool {
        &&& interp.valid_unit(self.0.sv.id as int)
        &&& interp.repr_of(self.0.sv.id as int) is Array
    }

    /// The cell this handle owns a unit on.
    pub open spec fn id(self) -> int {
        self.0.sv.id as int
    }

    /// The element ids of the sequence cell.
    pub open spec fn spec_elems(self, interp: Interp) -> Seq<usize> {
        interp.repr_of(self.0.sv.id as int)->Array_elems@
    }

    /// A fresh, empty sequence cell.
    pub fn new(interp: &mut Interp) -> (r: Array)
        requires
            old(interp).cells@.len() < usize::MAX,
        ensures
            r.ok(*final(interp)),
            r.id() == old(interp).cells@.len(),
            r.spec_elems(*final(interp)).len() == 0,
            final(interp).cells@.len() == old(interp).cells@.len() + 1,
            final(interp).cells@.subrange(0, r.id()) == old(interp).cells@,
            final(interp).rc_of(r.id()) == 1,
            final(interp).cells@[r.id()].magic@.len() == 0,
            final(interp).cells@[r.id()].blessed is None,
            final(interp).cells@[r.id()].cursor == 0,
            Interp::only_cells_changed(*old(interp), *final(interp)),
    {
        let id = interp.alloc_cell(Repr::Array { elems: Vec::new() });
        Array(Scalar { sv: SV { id } })
    }

    /// Widen back to a plain owned handle; the cell itself is unchanged.
    pub fn into_scalar(self) -> (r: Scalar)
        ensures
            r == self.0,
    {
        self.0
    }

    /// The raw identity as a sequence pointer.
    pub fn av(&self) -> (r: AV)
        ensures
            r.id == self.0.sv.id,
    {
        AV { id: self.0.sv.id }
    }

    /// Narrow an owned handle, trusting the caller that the cell is a
    /// sequence.  Operations on the result require that it really is one.
    pub fn from_scalar(scalar: Scalar) -> (r: Array)
        ensures
            r.0 == scalar,
    {
        Array(scalar)
    }

    /// Adopt a raw sequence identity, taking over one unit.
    pub fn from_raw_move(av: AV) -> (r: Array)
        ensures
            r.0.sv.id == av.id,
    {
        Array(Scalar { sv: SV { id: av.id } })
    }

    /// Borrow a raw sequence identity into a new owned handle (one more
    /// unit).
    pub fn from_raw_ref(interp: &mut Interp, av: AV) -> (r: Array)
        requires
            old(interp).valid_unit(av.id as int),
            old(interp).rc_of(av.id as int) < u64::MAX,
        ensures
            r.0.sv.id == av.id,
            Interp::only_cell_updated(*old(interp), *final(interp), av.id as int),
            final(interp).rc_of(av.id as int) == old(interp).rc_of(av.id as int) + 1,
            final(interp).cells@[av.id as int] == (Cell {
                rc: (old(interp).cells@[av.id as int].rc + 1) as u64,
                ..old(interp).cells@[av.id as int]
            }),
    {
        interp.inc_rc(av.id);
        Array(Scalar { sv: SV { id: av.id } })
    }

    /// Acquire another owned handle on the same cell.
    pub fn clone_ref(&self, interp: &mut Interp) -> (r: Array)
        requires
            old(interp).valid_unit(self.0.sv.id as int),
            old(interp).rc_of(self.0.sv.id as int) < u64::MAX,
        ensures
            r.0.sv == self.0.sv,
            Interp::only_cell_updated(*old(interp), *final(interp), self.id()),
            final(interp).rc_of(self.id()) == old(interp).rc_of(self.id()) + 1,
            final(interp).cells@[self.id()] == (Cell {
                rc: (old(interp).cells@[self.id()].rc + 1) as u64,
                ..old(interp).cells@[self.id()]
            }),
    {
        interp.inc_rc(self.0.sv.id);
        Array(Scalar { sv: self.0.sv })
    }

    /// Release the owned unit.
    pub fn release(self, interp: &mut Interp)
        requires
            old(interp).valid_unit(self.0.sv.id as int),
        ensures
            Interp::same_env(*old(interp), *final(interp)),
            Interp::same_stacks(*old(interp), *final(interp)),
            Interp::reaped(*old(interp), *final(interp)),
    {
        self.0.release(interp)
    }

    /// Number of elements.
    pub fn len(&self, interp: &Interp) -> (r: usize)
        requires
            interp.is_alive(self.0.sv.id as int),
            interp.repr_of(self.0.sv.id as int) is Array,
        ensures
            r == self.spec_elems(*interp).len(),
    {
        match &interp.cells[self.0.sv.id].repr {
            Repr::Array { elems } => elems.len(),
            _ => {
                proof {
                    assert(false);
                }
                0
            },
        }
    }

    /// Whether the sequence is empty.
    pub fn is_empty(&self, interp: &Interp) -> (r: bool)
        requires
            interp.is_alive(self.0.sv.id as int),
            interp.repr_of(self.0.sv.id as int) is Array,
        ensures
            r == (self.spec_elems(*interp).len() == 0),
    {
        self.len(interp) == 0
    }

    /// Get the element at `index` as a fresh owned value (one more unit on
    /// it), or nothing when the index is out of range, the element cell is
    /// gone, or its count is exhausted.
    pub fn get(&self, interp: &mut Interp, index: usize) -> (r: Option<Value>)
        requires
            old(interp).is_alive(self.0.sv.id as int),
            old(interp).repr_of(self.0.sv.id as int) is Array,
        ensures
            ({
                let elems = self.spec_elems(*old(interp));
                if index < elems.len() && old(interp).valid_unit(elems[index as int] as int)
                    && old(interp).rc_of(elems[index as int] as int) < u64::MAX {
                    let e = elems[index as int];
                    &&& r matches Some(v) && v.sv_id() == e as int
                    &&& v_ok_after_get(r, *final(interp))
                    &&& Interp::only_cell_updated(*old(interp), *final(interp), e as int)
                    &&& final(interp).rc_of(e as int) == old(interp).rc_of(e as int) + 1
                    &&& final(interp).cells@[e as int] == (Cell {
                        rc: (old(interp).cells@[e as int].rc + 1) as u64,
                        ..old(interp).cells@[e as int]
                    })
                } else {
                    r is None && *final(interp) == *old(interp)
                }
            }),
    {
        let e_opt = match &interp.cells[self.0.sv.id].repr {
            Repr::Array { elems } => {
                if index < elems.len() {
                    Some(elems[index])
                } else {
                    None
                }
            },
            _ => None,
        };
        match e_opt {
            Some(e) => {
                if e < interp.cells.len() && interp.cells[e].alive && interp.cells[e].rc >= 1
                    && interp.cells[e].rc < u64::MAX {
                    let s = Scalar::from_raw_ref(interp, SV { id: e });
                    Some(Value::from_scalar(interp, s))
                } else {
                    None
                }
            },
            None => None,
        }
    }

    /// Append a value, transferring its owned unit into the sequence.
    pub fn push(&self, interp: &mut Interp, value: Value)
        requires
            old(interp).is_alive(self.0.sv.id as int),
            old(interp).repr_of(self.0.sv.id as int) is Array,
            old(interp).repr_of(self.0.sv.id as int)->Array_elems@.len() < usize::MAX,
        ensures
            Interp::only_cell_updated(*old(interp), *final(interp), self.id()),
            final(interp).cells@[self.id()] == (Cell {
                repr: final(interp).cells@[self.id()].repr,
                ..old(interp).cells@[self.id()]
            }),
            final(interp).repr_of(self.id()) is Array,
            final(interp).repr_of(self.id())->Array_elems@ == old(interp).repr_of(
                self.id(),
            )->Array_elems@.push(value.spec_sv().id),
    {
        let id = self.0.sv.id;
        let e = value.into_raw().id;
        let mut c = Cell {
            rc: 0,
            alive: false,
            repr: Repr::Undef,
            magic: Vec::new(),
            blessed: None,
            cursor: 0,
        };
        interp.cells.set_and_swap(id, &mut c);
        let repr = match c.repr {
            Repr::Array { mut elems } => {
                elems.push(e);
                Repr::Array { elems }
            },
            other => other,
        };
        c.repr = repr;
        interp.cells.set(id, c);
        proof {
            assert(final(interp).cells@ =~= old(interp).cells@.update(
                id as int,
                final(interp).cells@[id as int],
            ));
        }
    }

    /// Remove and return the last element, transferring its owned unit to
    /// the caller; nothing when the sequence is empty.
    pub fn pop(&self, interp: &mut Interp) -> (r: Option<Value>)
        requires
            old(interp).is_alive(self.0.sv.id as int),
            old(interp).repr_of(self.0.sv.id as int) is Array,
        ensures
            ({
                let elems = self.spec_elems(*old(interp));
                if elems.len() == 0 {
                    r is None && *final(interp) == *old(interp)
                } else {
                    &&& r matches Some(v) && v.sv_id() == elems.last() as int
                    &&& Interp::only_cell_updated(*old(interp), *final(interp), self.id())
                    &&& final(interp).cells@[self.id()] == (Cell {
                        repr: final(interp).cells@[self.id()].repr,
                        ..old(interp).cells@[self.id()]
                    })
                    &&& final(interp).repr_of(self.id()) is Array
                    &&& final(interp).repr_of(self.id())->Array_elems@ == elems.drop_last()
                }
            }),
    {
        let id = self.0.sv.id;
        if self.len(interp) == 0 {
            return None;
        }
        let mut c = Cell {
            rc: 0,
            alive: false,
            repr: Repr::Undef,
            magic: Vec::new(),
            blessed: None,
            cursor: 0,
        };
        interp.cells.set_and_swap(id, &mut c);
        let (repr, out) = match c.repr {
            Repr::Array { mut elems } => {
                let out = elems.pop();
                (Repr::Array { elems }, out)
            },
            other => (other, None),
        };
        c.repr = repr;
        interp.cells.set(id, c);
        let e = out.unwrap();
        proof {
            assert(interp.cells@ =~= old(interp).cells@.update(
                id as int,
                interp.cells@[id as int],
            ));
            assert(self.spec_elems(*old(interp)).drop_last() =~= interp.repr_of(
                self.id(),
            )->Array_elems@);
        }
        Some(Value::from_scalar(interp, Scalar { sv: SV { id: e } }))
    }

    /// A restartable iterator over the sequence; it holds its own unit on
    /// the cell and is safe to run beside other iterators.
    pub fn iter(&self, interp: &mut Interp) -> (r: Iter)
        requires
            old(interp).valid_unit(self.0.sv.id as int),
            old(interp).rc_of(self.0.sv.id as int) < u64::MAX,
        ensures
            r.array.0.sv == self.0.sv,
            r.at == 0,
            Interp::only_cell_updated(*old(interp), *final(interp), self.id()),
            final(interp).cells@[self.id()] == (Cell {
                rc: (old(interp).cells@[self.id()].rc + 1) as u64,
                ..old(interp).cells@[self.id()]
            }),
    {
        Iter { array: self.clone_ref(interp), at: 0 }
    }
}

/// When a get returns a value it is a live owned handle.
pub open spec fn v_ok_after_get(r: Option<Value>, post: Interp) -> bool {
    r matches Some(v) ==> v.ok(post)
}

/// An iterator over a sequence cell: a position and its own owned handle.
pub struct Iter {
    pub array: Array,
    pub at: usize,
}

impl Iter {
    /// The next element, as a fresh owned value, or nothing past the end.
    pub fn next(&mut self, interp: &mut Interp) -> (r: Option<Value>)
        requires
            old(interp).is_alive(old(self).array.0.sv.id as int),
            old(interp).repr_of(old(self).array.0.sv.id as int) is Array,
        ensures
            final(self).array == old(self).array,
            ({
                let elems = old(self).array.spec_elems(*old(interp));
                let at = old(self).at;
                if at < elems.len() && old(interp).valid_unit(elems[at as int] as int)
                    && old(interp).rc_of(elems[at as int] as int) < u64::MAX {
                    &&& final(self).at == at + 1
                    &&& (r matches Some(v) && v.sv_id() == elems[at as int] as int && v.ok(
                        *final(interp),
                    ))
                    &&& final(interp).rc_of(elems[at as int] as int) == old(interp).rc_of(
                        elems[at as int] as int,
                    ) + 1
                    &&& Interp::only_cell_updated(
                        *old(interp),
                        *final(interp),
                        elems[at as int] as int,
                    )
                    &&& final(interp).cells@[elems[at as int] as int] == (Cell {
                        rc: (old(interp).cells@[elems[at as int] as int].rc + 1) as u64,
                        ..old(interp).cells@[elems[at as int] as int]
                    })
                } else {
                    r is None && *final(interp) == *old(interp)
                }
            }),
    {
        let at = self.at;
        let n = self.array.len(interp);
        if at < n {
            let r = self.array.get(interp, at);
            match r {
                Some(v) => {
                    self.at = at + 1;
                    Some(v)
                },
                None => None,
            }
        } else {
            None
        }
    }
}

impl Array {
    /// Narrow an owned handle after checking the runtime type tag; a
    /// mismatch reports the cast error and returns nothing else.  This
    /// validates only, it converts nothing.
    pub fn try_from_scalar(interp: &Interp, scalar: Scalar) -> (r: Result<Array, (Scalar,
        CastError,
    )>)
        requires
            interp.is_alive(scalar.sv.id as int),
        ensures
            interp.repr_of(scalar.sv.id as int) is Array ==> (r matches Ok(a)
                && a.0 == scalar),
            !(interp.repr_of(scalar.sv.id as int) is Array) ==> (r matches Err(p)
                && p.0 == scalar),
    {
        if matches!(&interp.cells[scalar.sv.id].repr, Repr::Array { .. }) {
            Ok(Array(scalar))
        } else {
            Err((scalar, CastError))
        }
    }
}

} // verus!
