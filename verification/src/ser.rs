//! The structured serializer: statically shaped data to dynamic values.
//!
//! Scalars become scalar cells (booleans as zero or one, absent values as
//! the undefined singleton, text tagged as encoded exactly when a byte
//! outside the seven-bit range occurs); sequences and records become fresh
//! containers behind one reference, per the host convention; a fieldless
//! variant becomes its bare name and the other variants a single-key map
//! from the tag to the payload.  The raw-passthrough escape re-attaches an
//! existing cell by identity — one more ownership unit — and is recognized
//! only while the scoped flag is on.

use vstd::prelude::*;

use crate::data::{
    data_cells, data_has_raw, data_wf, encodes, encodes_fields, encodes_items, fields_cells,
    fields_have_raw, fuel_fields, fuel_items, fuel_needed, lemma_encodes_fields_stable,
    lemma_encodes_items_stable, lemma_encodes_stable, list_cells, list_has_raw, repr_preserved,
    Data, DataField,
};
use crate::error::Error;
use crate::interp::{Cell, HashEntry, Interp, Repr, SV};
use crate::scalar::Scalar;
use crate::value::Value;

pub mod return_value;

verus! {

/// Whether this library's serializer is currently active: the raw escape is
/// recognized exactly then.
pub fn is_active(interp: &Interp) -> (r: bool)
    ensures
        r == interp.raw_enabled,
{
    interp.raw_enabled
}

/// What any serialization step leaves alone: the ambient state, and every
/// pre-existing cell except for ownership units acquired on it.
pub open spec fn ser_frame(pre: Interp, post: Interp) -> bool {
    &&& Interp::same_env(pre, post)
    &&& Interp::same_stacks(pre, post)
    &&& Interp::same_freed(pre, post)
    &&& pre.cells@.len() <= post.cells@.len()
    &&& forall|j: int|
        0 <= j < pre.cells@.len() ==> post.cells@[j] == (Cell {
            rc: post.cells@[j].rc,
            ..pre.cells@[j]
        }) && pre.cells@[j].rc <= post.cells@[j].rc
}

/// What even a failed serialization step leaves alone: the ambient state;
/// the store never shrinks and free callbacks only accumulate.
pub open spec fn ser_weak(pre: Interp, post: Interp) -> bool {
    &&& Interp::same_env(pre, post)
    &&& Interp::same_stacks(pre, post)
    &&& pre.freed_payloads@.is_prefix_of(post.freed_payloads@)
    &&& pre.cells@.len() <= post.cells@.len()
}




/// A serialization step preserves liveness and representations.
pub proof fn lemma_ser_frame_repr(a: Interp, b: Interp)
    requires
        ser_frame(a, b),
    ensures
        repr_preserved(a.cells@, b.cells@),
{
}

/// Serialize data into a fresh owned dynamic value.  This is the top-level
/// conversion: the raw-passthrough escape is recognized for its duration
/// and the flag is restored on every path out.
pub fn to_value(interp: &mut Interp, d: &Data) -> (r: Result<Value, Error>)
    ensures
        final(interp).raw_enabled == old(interp).raw_enabled,
        Interp::same_stacks(*old(interp), *final(interp)),
        r is Ok ==> Interp::same_freed(*old(interp), *final(interp)),
        final(interp).vtbls@ == old(interp).vtbls@,
        final(interp).packages@ == old(interp).packages@,
        final(interp).list_enabled == old(interp).list_enabled,
        final(interp).gimme == old(interp).gimme,
        final(interp).safe_putenv == old(interp).safe_putenv,
        old(interp).cells@.len() <= final(interp).cells@.len(),
        old(interp).freed_payloads@.is_prefix_of(final(interp).freed_payloads@),
        r is Ok ==> repr_preserved(old(interp).cells@, final(interp).cells@),
        final(interp).cells@.len() <= old(interp).cells@.len() + data_cells(*d),
        r matches Ok(v) ==> v.ok(*final(interp)) && (data_wf(*d) ==> encodes(
            final(interp).cells@,
            v.sv_id(),
            *d,
        ) && fuel_needed(*d) <= final(interp).cells@.len()),
        (!data_has_raw(*d) && old(interp).cells@.len() + data_cells(*d) <= usize::MAX)
            ==> r is Ok,
        (r is Ok && !data_has_raw(*d)) ==> forall|j: int|
            0 <= j < old(interp).cells@.len() ==> final(interp).cells@[j] == old(interp).cells@[j],
        (d matches Data::Raw(rid) && old(interp).valid_unit(rid as int) && old(interp).rc_of(rid as int) < u64::MAX) ==> ({
            let rid = d->Raw_0;
            &&& r matches Ok(v) && v.sv_id() == rid as int
            &&& Interp::only_cell_updated(*old(interp), *final(interp), rid as int)
            &&& final(interp).rc_of(rid as int) == old(interp).rc_of(rid as int) + 1
            &&& final(interp).cells@[rid as int] == (Cell {
                rc: (old(interp).cells@[rid as int].rc + 1) as u64,
                ..old(interp).cells@[rid as int]
            })
        }),
{
    let prev = interp.swap_raw_flag(true);
    let ghost st = *interp;
    let r = ser_value(interp, d);
    let ghost mid = *interp;
    let _restored = interp.swap_raw_flag(prev);
    proof {
        assert(final(interp).cells@ == mid.cells@);
        if r is Ok {
            lemma_ser_frame_repr(st, mid);
        }
    }
    r
}

/// Serialize data into a fresh owned dynamic value, recognizing the raw
/// escape only if the scoped flag is currently on; with it off, a raw
/// escape is refused with an explicit error rather than leaking a handle.
#[verifier::rlimit(80)]
pub fn ser_value(interp: &mut Interp, d: &Data) -> (r: Result<Value, Error>)
    ensures
        ser_weak(*old(interp), *final(interp)),
        final(interp).cells@.len() <= old(interp).cells@.len() + data_cells(*d),
        r is Ok ==> ser_frame(*old(interp), *final(interp)),
        r matches Ok(v) ==> v.ok(*final(interp)) && (data_wf(*d) ==> encodes(
            final(interp).cells@,
            v.sv_id(),
            *d,
        ) && fuel_needed(*d) <= final(interp).cells@.len()),
        (!data_has_raw(*d) && old(interp).cells@.len() + data_cells(*d) <= usize::MAX)
            ==> r is Ok,
        (r is Ok && !data_has_raw(*d)) ==> forall|j: int|
            0 <= j < old(interp).cells@.len() ==> final(interp).cells@[j] == old(interp).cells@[j],
        !old(interp).raw_enabled && data_has_raw(*d) ==> r is Err,
        (d matches Data::Raw(rid) && old(interp).raw_enabled && old(interp).valid_unit(
            rid as int,
        ) && old(interp).rc_of(rid as int) < u64::MAX) ==> ({
            let rid = d->Raw_0;
            &&& r matches Ok(v) && v.sv_id() == rid as int
            &&& Interp::only_cell_updated(*old(interp), *final(interp), rid as int)
            &&& final(interp).rc_of(rid as int) == old(interp).rc_of(rid as int) + 1
            &&& final(interp).cells@[rid as int] == (Cell {
                rc: (old(interp).cells@[rid as int].rc + 1) as u64,
                ..old(interp).cells@[rid as int]
            })
        }),
    decreases *d, 0int,
{
    proof {
        crate::interp::lemma_prefix_refl(interp.freed_payloads@);
    }
    if let Data::Raw(rid) = d {
        if !interp.raw_enabled {
            return Error::fail("raw value serialization disabled");
        }
        let rid = *rid;
        if !(rid < interp.cells.len() && interp.cells[rid].alive && interp.cells[rid].rc
            >= 1) {
            return Error::fail("raw value target is gone");
        }
        if interp.cells[rid].rc == u64::MAX {
            return Error::fail("raw value count exhausted");
        }
        return Ok(Value::from_raw_ref(interp, SV { id: rid }));
    }
    if interp.cells.len() == usize::MAX {
        proof {
            lemma_data_cells_pos(*d);
        }
        return Error::fail("cell store exhausted");
    }
    match d {
        Data::Bool(b) => Ok(Value::new_uint(interp, if *b {
            1
        } else {
            0
        })),
        Data::I64(i) => Ok(Value::new_int(interp, *i)),
        Data::U64(u) => Ok(Value::new_uint(interp, *u)),
        Data::Str(s) => {
            let bytes = vstd::slice::slice_to_vec(s.as_slice());
            let utf8 = crate::coerce::has_high_byte(bytes.as_slice());
            let id = interp.alloc_cell(Repr::Str { bytes, utf8 });
            Ok(Value::Scalar(Scalar { sv: SV { id } }))
        },
        Data::Bytes(s) => {
            let bytes = vstd::slice::slice_to_vec(s.as_slice());
            let id = interp.alloc_cell(Repr::Str { bytes, utf8: false });
            Ok(Value::Scalar(Scalar { sv: SV { id } }))
        },
        Data::Unit => Ok(Value::new_undef(interp)),
        Data::OptSome(x) => ser_value(interp, x),
        Data::List(items) => {
            proof {
                assert(items@.skip(0) =~= items@);
            }
            let ids = match ser_items(interp, items, 0) {
                Ok(ids) => ids,
                Err(e) => {
                    return Err(e);
                },
            };
            let ghost mid = *interp;
            let ghost ids_view = ids@;
            let r = finish_array(interp, ids);
            proof {
                if r is Ok && data_wf(*d) {
                    lemma_ser_frame_repr(mid, *interp);
                    lemma_encodes_items_stable(mid.cells@, interp.cells@, ids_view, items@);
                }
            }
            r
        },
        Data::Dict(fields) => {
            proof {
                assert(fields@.skip(0) =~= fields@);
            }
            let entries = match ser_fields(interp, fields, 0) {
                Ok(es) => es,
                Err(e) => {
                    return Err(e);
                },
            };
            let ghost mid = *interp;
            let ghost es_view = entries@;
            let r = finish_hash(interp, entries);
            proof {
                if r is Ok && data_wf(*d) {
                    lemma_ser_frame_repr(mid, *interp);
                    lemma_encodes_fields_stable(mid.cells@, interp.cells@, es_view, fields@);
                }
            }
            r
        },
        Data::UnitVariant(name) => {
            let bytes = vstd::slice::slice_to_vec(name.as_slice());
            let utf8 = crate::coerce::has_high_byte(bytes.as_slice());
            let id = interp.alloc_cell(Repr::Str { bytes, utf8 });
            Ok(Value::Scalar(Scalar { sv: SV { id } }))
        },
        Data::NewtypeVariant(name, x) => {
            let pv = match ser_value(interp, x) {
                Ok(v) => v,
                Err(e) => {
                    return Err(e);
                },
            };
            let ghost mid = *interp;
            let ghost pid = pv.sv_id();
            let r = finish_tagged(interp, name, pv);
            proof {
                if r is Ok && data_wf(*d) {
                    lemma_ser_frame_repr(mid, *interp);
                    lemma_encodes_stable(mid.cells@, interp.cells@, pid, **x);
                }
            }
            r
        },
        Data::TupleVariant(name, items) => {
            proof {
                assert(items@.skip(0) =~= items@);
            }
            let ids = match ser_items(interp, items, 0) {
                Ok(ids) => ids,
                Err(e) => {
                    return Err(e);
                },
            };
            proof {
                assert(items@.skip(0) =~= items@);
            }
            let ghost mid0 = *interp;
            let ghost ids_view = ids@;
            let inner = match finish_array(interp, ids) {
                Ok(v) => v,
                Err(e) => {
                    return Err(e);
                },
            };
            let ghost mid = *interp;
            let r = finish_tagged(interp, name, inner);
            proof {
                if r is Ok && data_wf(*d) {
                    lemma_ser_frame_repr(mid0, mid);
                    lemma_ser_frame_repr(mid, *interp);
                    lemma_encodes_items_stable(mid0.cells@, mid.cells@, ids_view, items@);
                    lemma_encodes_items_stable(mid.cells@, interp.cells@, ids_view, items@);
                }
            }
            r
        },
        Data::StructVariant(name, fields) => {
            proof {
                assert(fields@.skip(0) =~= fields@);
            }
            let entries = match ser_fields(interp, fields, 0) {
                Ok(es) => es,
                Err(e) => {
                    return Err(e);
                },
            };
            proof {
                assert(fields@.skip(0) =~= fields@);
            }
            let ghost mid0 = *interp;
            let ghost es_view = entries@;
            let inner = match finish_hash(interp, entries) {
                Ok(v) => v,
                Err(e) => {
                    return Err(e);
                },
            };
            let ghost mid = *interp;
            let r = finish_tagged(interp, name, inner);
            proof {
                if r is Ok && data_wf(*d) {
                    lemma_ser_frame_repr(mid0, mid);
                    lemma_ser_frame_repr(mid, *interp);
                    lemma_encodes_fields_stable(mid0.cells@, mid.cells@, es_view, fields@);
                    lemma_encodes_fields_stable(mid.cells@, interp.cells@, es_view, fields@);
                }
            }
            r
        },
        Data::Raw(_) => Error::fail("raw value target is gone"),
    }
}

/// Serialize the items from position `i` on, front to back, handing back
/// the fresh cells (one owned unit each) that will become the sequence's
/// elements.
#[verifier::rlimit(60)]
fn ser_items(interp: &mut Interp, items: &Vec<Data>, i: usize) -> (r: Result<Vec<usize>, Error>)
    requires
        i <= items@.len(),
    ensures
        ser_weak(*old(interp), *final(interp)),
        final(interp).cells@.len() <= old(interp).cells@.len() + list_cells(items@.skip(i as int)),
        r is Ok ==> ser_frame(*old(interp), *final(interp)),
        r matches Ok(ids) ==> ({
            &&& ids@.len() == items@.len() - i
            &&& crate::data::data_list_wf(items@.skip(i as int)) ==> encodes_items(
                final(interp).cells@,
                ids@,
                items@.skip(i as int),
            ) && fuel_items(items@.skip(i as int)) <= final(interp).cells@.len()
        }),
        (!list_has_raw(items@.skip(i as int)) && old(interp).cells@.len() + list_cells(
            items@.skip(i as int),
        ) <= usize::MAX) ==> r is Ok,
        (r is Ok && !list_has_raw(items@.skip(i as int))) ==> forall|j: int|
            0 <= j < old(interp).cells@.len() ==> final(interp).cells@[j] == old(interp).cells@[j],
        !old(interp).raw_enabled && list_has_raw(items@.skip(i as int)) ==> r is Err,
    decreases *items, items@.len() - i,
{
    if i == items.len() {
        proof {
            assert(items@.skip(i as int) =~= Seq::<Data>::empty());
        }
        return Ok(Vec::new());
    }
    proof {
        assert(items@.skip(i as int)[0] == items@[i as int]);
        assert(items@.skip(i as int).drop_first() =~= items@.skip(i + 1));
    }
    let head = match ser_value(interp, &items[i]) {
        Ok(v) => v,
        Err(e) => {
            return Err(e);
        },
    };
    let head_id = head.into_raw().id;
    let ghost mid = *interp;
    match ser_items(interp, items, i + 1) {
        Ok(mut ids) => {
            let ghost rest_view = ids@;
            ids.insert(0, head_id);
            proof {
                lemma_ser_frame_repr(mid, *interp);
                assert(ids@.drop_first() =~= rest_view);
                assert(ids@[0] == head_id);
                if crate::data::data_list_wf(items@.skip(i as int)) {
                    lemma_encodes_stable(
                        mid.cells@,
                        interp.cells@,
                        head_id as int,
                        items@[i as int],
                    );
                }
            }
            Ok(ids)
        },
        Err(e) => {
            release_orphan(interp, head_id);
            Err(e)
        },
    }
}

/// Serialize the fields from position `i` on, handing back the entries of
/// the record's map.
#[verifier::rlimit(60)]
fn ser_fields(interp: &mut Interp, fields: &Vec<DataField>, i: usize) -> (r: Result<
    Vec<HashEntry>,
    Error,
>)
    requires
        i <= fields@.len(),
    ensures
        ser_weak(*old(interp), *final(interp)),
        final(interp).cells@.len() <= old(interp).cells@.len() + fields_cells(
            fields@.skip(i as int),
        ),
        r is Ok ==> ser_frame(*old(interp), *final(interp)),
        r matches Ok(es) ==> ({
            &&& es@.len() == fields@.len() - i
            &&& crate::data::data_fields_wf(fields@.skip(i as int)) ==> encodes_fields(
                final(interp).cells@,
                es@,
                fields@.skip(i as int),
            ) && fuel_fields(fields@.skip(i as int)) <= final(interp).cells@.len()
        }),
        (!fields_have_raw(fields@.skip(i as int)) && old(interp).cells@.len() + fields_cells(
            fields@.skip(i as int),
        ) <= usize::MAX) ==> r is Ok,
        (r is Ok && !fields_have_raw(fields@.skip(i as int))) ==> forall|j: int|
            0 <= j < old(interp).cells@.len() ==> final(interp).cells@[j] == old(interp).cells@[j],
        !old(interp).raw_enabled && fields_have_raw(fields@.skip(i as int)) ==> r is Err,
    decreases *fields, fields@.len() - i,
{
    if i == fields.len() {
        proof {
            assert(fields@.skip(i as int) =~= Seq::<DataField>::empty());
        }
        return Ok(Vec::new());
    }
    proof {
        assert(fields@.skip(i as int)[0] == fields@[i as int]);
        assert(fields@.skip(i as int).drop_first() =~= fields@.skip(i + 1));
    }
    let head = match ser_value(interp, &fields[i].value) {
        Ok(v) => v,
        Err(e) => {
            return Err(e);
        },
    };
    let head_id = head.into_raw().id;
    let key = vstd::slice::slice_to_vec(fields[i].name.as_slice());
    let ghost mid = *interp;
    match ser_fields(interp, fields, i + 1) {
        Ok(mut es) => {
            let ghost rest_view = es@;
            es.insert(0, HashEntry { key, val: head_id });
            proof {
                lemma_ser_frame_repr(mid, *interp);
                assert(es@.drop_first() =~= rest_view);
                assert(es@[0].val == head_id);
                if crate::data::data_fields_wf(fields@.skip(i as int)) {
                    lemma_encodes_stable(
                        mid.cells@,
                        interp.cells@,
                        head_id as int,
                        fields@[i as int].value,
                    );
                }
            }
            Ok(es)
        },
        Err(e) => {
            release_orphan(interp, head_id);
            Err(e)
        },
    }
}

/// Release a unit left without a handle on an error path, if its cell is
/// still sound.
fn release_orphan(interp: &mut Interp, id: usize)
    ensures
        Interp::same_env(*old(interp), *final(interp)),
        Interp::same_stacks(*old(interp), *final(interp)),
        Interp::reaped(*old(interp), *final(interp)),
{
    proof {
        Interp::lemma_reaped_refl(*old(interp));
    }
    if id < interp.cells.len() && interp.cells[id].alive && interp.cells[id].rc >= 1 {
        interp.release_unit(id);
    }
}

/// Wrap freshly serialized element cells as a sequence behind a reference.
fn finish_array(interp: &mut Interp, ids: Vec<usize>) -> (r: Result<Value, Error>)
    ensures
        ser_frame(*old(interp), *final(interp)),
        final(interp).cells@.len() <= old(interp).cells@.len() + 2,
        forall|j: int|
            0 <= j < old(interp).cells@.len() ==> final(interp).cells@[j] == old(interp).cells@[j],
        old(interp).cells@.len() + 2 <= usize::MAX ==> r is Ok,
        r matches Ok(v) ==> ({
            &&& v.ok(*final(interp))
            &&& v.sv_id() >= old(interp).cells@.len()
            &&& final(interp).cells@.len() == old(interp).cells@.len() + 2
            &&& final(interp).repr_of(v.sv_id()) is Ref
            &&& crate::data::array_cell(
                final(interp).cells@,
                final(interp).repr_of(v.sv_id())->Ref_target as int,
                ids@.len(),
            )
            &&& final(interp).cells@[final(interp).repr_of(
                v.sv_id(),
            )->Ref_target as int].repr->Array_elems@ == ids@
        }),
{
    if interp.cells.len() >= usize::MAX - 1 {
        return Error::fail("cell store exhausted");
    }
    let arr_id = interp.alloc_cell(Repr::Array { elems: ids });
    let ghost mid = *interp;
    let rv_id = interp.alloc_cell(Repr::Ref { target: arr_id });
    proof {
        assert(interp.cells@[arr_id as int] == mid.cells@[arr_id as int]);
    }
    Ok(Value::Reference(Scalar { sv: SV { id: rv_id } }))
}

/// Wrap freshly serialized entries as a map behind a reference.
fn finish_hash(interp: &mut Interp, entries: Vec<HashEntry>) -> (r: Result<Value, Error>)
    ensures
        ser_frame(*old(interp), *final(interp)),
        final(interp).cells@.len() <= old(interp).cells@.len() + 2,
        forall|j: int|
            0 <= j < old(interp).cells@.len() ==> final(interp).cells@[j] == old(interp).cells@[j],
        old(interp).cells@.len() + 2 <= usize::MAX ==> r is Ok,
        r matches Ok(v) ==> ({
            &&& v.ok(*final(interp))
            &&& v.sv_id() >= old(interp).cells@.len()
            &&& final(interp).cells@.len() == old(interp).cells@.len() + 2
            &&& final(interp).repr_of(v.sv_id()) is Ref
            &&& crate::data::hash_cell(
                final(interp).cells@,
                final(interp).repr_of(v.sv_id())->Ref_target as int,
                entries@.len(),
            )
            &&& final(interp).cells@[final(interp).repr_of(
                v.sv_id(),
            )->Ref_target as int].repr->Hash_entries@ == entries@
        }),
{
    if interp.cells.len() >= usize::MAX - 1 {
        return Error::fail("cell store exhausted");
    }
    let hash_id = interp.alloc_cell(Repr::Hash { entries });
    let ghost mid = *interp;
    let rv_id = interp.alloc_cell(Repr::Ref { target: hash_id });
    proof {
        assert(interp.cells@[hash_id as int] == mid.cells@[hash_id as int]);
    }
    Ok(Value::Reference(Scalar { sv: SV { id: rv_id } }))
}

/// Wrap a serialized payload as a single-key map tagged with the variant
/// name, behind a reference; the payload's owned unit moves into the map.
fn finish_tagged(interp: &mut Interp, name: &Vec<u8>, payload: Value) -> (r: Result<Value, Error>)
    ensures
        ser_frame(*old(interp), *final(interp)),
        final(interp).cells@.len() <= old(interp).cells@.len() + 2,
        forall|j: int|
            0 <= j < old(interp).cells@.len() ==> final(interp).cells@[j] == old(interp).cells@[j],
        old(interp).cells@.len() + 2 <= usize::MAX ==> r is Ok,
        r matches Ok(v) ==> ({
            &&& v.ok(*final(interp))
            &&& v.sv_id() >= old(interp).cells@.len()
            &&& final(interp).cells@.len() == old(interp).cells@.len() + 2
            &&& final(interp).repr_of(v.sv_id()) is Ref
            &&& crate::data::encodes_tagged(
                final(interp).cells@,
                final(interp).repr_of(v.sv_id())->Ref_target as int,
                name@,
            )
            &&& crate::data::payload_of(
                final(interp).cells@,
                final(interp).repr_of(v.sv_id())->Ref_target as int,
            ) as int == payload.sv_id()
        }),
{
    if interp.cells.len() >= usize::MAX - 1 {
        return Error::fail("cell store exhausted");
    }
    let key = vstd::slice::slice_to_vec(name.as_slice());
    let pid = payload.into_raw().id;
    let mut entries: Vec<HashEntry> = Vec::new();
    entries.push(HashEntry { key, val: pid });
    let hash_id = interp.alloc_cell(Repr::Hash { entries });
    let ghost mid = *interp;
    let rv_id = interp.alloc_cell(Repr::Ref { target: hash_id });
    proof {
        assert(interp.cells@[hash_id as int] == mid.cells@[hash_id as int]);
    }
    Ok(Value::Reference(Scalar { sv: SV { id: rv_id } }))
}

/// Every datum without the raw escape allocates at least one cell.
pub proof fn lemma_data_cells_pos(d: Data)
    ensures
        !data_has_raw(d) ==> data_cells(d) >= 1,
    decreases d,
{
    match d {
        Data::OptSome(x) => {
            lemma_data_cells_pos(*x);
        },
        _ => {},
    }
}

} // verus!
