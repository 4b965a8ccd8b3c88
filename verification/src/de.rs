//! The structured deserializer: dynamic values back to statically shaped
//! data.
//!
//! References are dereferenced until a concrete value is reached (a dangling
//! target fails); scalar requests coerce under the host rules (a
//! string-looking cell requested as an integer parses numerically); a
//! dynamic-shape request on a sequence or map dispatches structurally.  The
//! treat-undefined-as-absent rule is active by default and suppressed one
//! level deep while a present optional is unwrapped, so nested optionals do
//! not collapse.  Choices are externally tagged: a bare string is a
//! fieldless variant, a single-key map carries the tag and payload.  The
//! raw-passthrough escape wraps the current cell's identity without
//! recursing into it and is refused explicitly while the scoped flag is off.
//!
//! The whole behavior is pinned by the spec-level decoder [`spec_decode`]:
//! the executable entry points return exactly what it returns.

use vstd::prelude::*;

use crate::coerce;
use crate::data::{Data, DataField, FieldShape, Shape, VariantShape};
use crate::error::Error;
use crate::interp::{Cell, Interp, Repr, AV, SV};
use crate::scalar::{spec_force, spec_wrap_to_i64};
use crate::value::Value;

verus! {

/// The failures deserialization can report.
pub enum DeErr {
    /// A cell along the way no longer exists.
    Gone,
    /// The depth budget ran out (a cyclic reference chain, or data deeper
    /// than the store is large).
    Recursion,
    /// The raw escape was requested while the scoped flag is off.
    RawDisabled,
    /// The dynamic kind cannot satisfy the request.
    InvalidType,
    /// A boolean was requested of a string cell.
    ExpectedBool,
    /// A choice was requested of a plain non-string scalar.
    ExpectedEnum,
    /// A choice was requested of a sequence.
    EnumShape,
    /// A tagged map did not have exactly one key.
    SingleKey,
    /// The tag names no variant of the choice.
    UnknownVariant,
    /// A one-field variant got no payload.
    ExpectedNewtype,
    /// A tuple variant got an unusable payload.
    ExpectedTupleVariant,
    /// A record variant got an unusable payload.
    ExpectedStructVariant,
    /// A required record field is absent.
    MissingField,
}

/// The message each failure carries.
pub open spec fn de_err_msg(e: DeErr) -> Seq<char> {
    match e {
        DeErr::Gone => "encountered a reclaimed value while deserializing"@,
        DeErr::Recursion => "deserialization recursion limit reached"@,
        DeErr::RawDisabled => "attempted raw value deserialization while disabled"@,
        DeErr::InvalidType => "invalid type for requested shape"@,
        DeErr::ExpectedBool => "expected bool value"@,
        DeErr::ExpectedEnum => "expected an enum value"@,
        DeErr::EnumShape => "expected a string or hash for an enum"@,
        DeErr::SingleKey => "expected hash with a single key"@,
        DeErr::UnknownVariant => "unknown enum variant"@,
        DeErr::ExpectedNewtype => "expected newtype variant, found unit variant"@,
        DeErr::ExpectedTupleVariant => "expected tuple variant"@,
        DeErr::ExpectedStructVariant => "expected struct variant"@,
        DeErr::MissingField => "missing required field"@,
    }
}

/// The mathematical image of deserialized data: the same tree with byte
/// strings and children as sequences.
pub enum DataView {
    Bool(bool),
    I64(i64),
    U64(u64),
    Str(Seq<u8>),
    Bytes(Seq<u8>),
    Unit,
    OptSome(Box<DataView>),
    List(Seq<DataView>),
    Dict(Seq<(Seq<u8>, DataView)>),
    UnitVariant(Seq<u8>),
    NewtypeVariant(Seq<u8>, Box<DataView>),
    TupleVariant(Seq<u8>, Seq<DataView>),
    StructVariant(Seq<u8>, Seq<(Seq<u8>, DataView)>),
    Raw(int),
}

/// The view of a datum.
pub open spec fn data_view(d: Data) -> DataView
    decreases d, 0int,
{
    match d {
        Data::Bool(b) => DataView::Bool(b),
        Data::I64(i) => DataView::I64(i),
        Data::U64(u) => DataView::U64(u),
        Data::Str(s) => DataView::Str(s@),
        Data::Bytes(s) => DataView::Bytes(s@),
        Data::Unit => DataView::Unit,
        Data::OptSome(x) => DataView::OptSome(Box::new(data_view(*x))),
        Data::List(items) => DataView::List(view_items(items@)),
        Data::Dict(fields) => DataView::Dict(view_fields(fields@)),
        Data::UnitVariant(n) => DataView::UnitVariant(n@),
        Data::NewtypeVariant(n, x) => DataView::NewtypeVariant(n@, Box::new(data_view(*x))),
        Data::TupleVariant(n, items) => DataView::TupleVariant(n@, view_items(items@)),
        Data::StructVariant(n, fields) => DataView::StructVariant(n@, view_fields(fields@)),
        Data::Raw(rid) => DataView::Raw(rid as int),
    }
}

/// Views of a sequence of items.
pub open spec fn view_items(items: Seq<Data>) -> Seq<DataView>
    decreases items, 1int,
{
    if items.len() == 0 {
        Seq::empty()
    } else {
        seq![data_view(items[0])] + view_items(items.drop_first())
    }
}

/// Views of a record's fields.
pub open spec fn view_fields(fields: Seq<DataField>) -> Seq<(Seq<u8>, DataView)>
    decreases fields, 1int,
{
    if fields.len() == 0 {
        Seq::empty()
    } else {
        seq![(fields[0].name@, data_view(fields[0].value))] + view_fields(fields.drop_first())
    }
}

/// The shape mentions the raw escape somewhere, so deserializing may
/// acquire ownership units.
pub open spec fn shape_has_raw(s: Shape) -> bool
    decreases s, 0int, 0int,
{
    match s {
        Shape::Raw => true,
        Shape::Opt(inner) => shape_has_raw(*inner),
        Shape::List(inner) => shape_has_raw(*inner),
        Shape::Dict(inner) => shape_has_raw(*inner),
        Shape::Record(fs) => field_shapes_have_raw(fs@),
        Shape::Enum(vars) => variant_shapes_have_raw(vars@),
        _ => false,
    }
}

/// Some field shape mentions the raw escape.
pub open spec fn field_shapes_have_raw(fs: Seq<FieldShape>) -> bool
    decreases fs, 1int, 0int,
{
    if fs.len() == 0 {
        false
    } else {
        shape_has_raw(fs[0].shape) || field_shapes_have_raw(fs.drop_first())
    }
}

/// Some variant shape mentions the raw escape.
pub open spec fn variant_shapes_have_raw(vars: Seq<VariantShape>) -> bool
    decreases vars, 1int, 0int,
{
    if vars.len() == 0 {
        false
    } else {
        (match vars[0] {
            VariantShape::Unit(_) => false,
            VariantShape::Newtype(_, inner) => shape_has_raw(*inner),
            VariantShape::Tuple(_, shapes) => shapes_have_raw(shapes@),
            VariantShape::Struct(_, fs) => field_shapes_have_raw(fs@),
        }) || variant_shapes_have_raw(vars.drop_first())
    }
}

/// Some positional shape mentions the raw escape.
pub open spec fn shapes_have_raw(shapes: Seq<Shape>) -> bool
    decreases shapes, 1int, 0int,
{
    if shapes.len() == 0 {
        false
    } else {
        shape_has_raw(shapes[0]) || shapes_have_raw(shapes.drop_first())
    }
}

/// A signed integer reinterpreted as the unsigned integer with the same
/// two's-complement bits.
pub open spec fn spec_wrap_to_u64(i: i64) -> u64 {
    if i >= 0 {
        i as u64
    } else {
        (i + 0x1_0000_0000_0000_0000) as u64
    }
}

/// The deserializer, stated mathematically: what each request yields from a
/// cell, with the given depth budget.  The executable entry points return
/// exactly this.
pub open spec fn spec_decode(
    cells: Seq<Cell>,
    raw_on: bool,
    id: int,
    s: Shape,
    allowed: bool,
    fuel: nat,
) -> Result<DataView, DeErr>
    decreases fuel, s, 0int, 0int,
{
    if fuel == 0 {
        Err(DeErr::Recursion)
    } else if !(0 <= id < cells.len() && cells[id].alive) {
        Err(DeErr::Gone)
    } else if s is Raw {
        if raw_on {
            Ok(DataView::Raw(id))
        } else {
            Err(DeErr::RawDisabled)
        }
    } else {
        let rep = spec_force(cells[id].repr);
        if rep is Ref {
            spec_decode(cells, raw_on, rep->Ref_target as int, s, allowed, (fuel - 1) as nat)
        } else {
            match s {
                Shape::Bool => match rep {
                    Repr::Undef => Ok(DataView::Bool(false)),
                    Repr::Int(i) => Ok(DataView::Bool(i != 0)),
                    Repr::UInt(u) => Ok(DataView::Bool(u != 0)),
                    Repr::Str { .. } => Err(DeErr::ExpectedBool),
                    _ => Err(DeErr::InvalidType),
                },
                Shape::I64 => match rep {
                    Repr::Int(i) => Ok(DataView::I64(i)),
                    Repr::UInt(u) => Ok(DataView::I64(spec_wrap_to_i64(u))),
                    Repr::Str { bytes, .. } => Ok(
                        DataView::I64(coerce::spec_coerce_i64(bytes@)),
                    ),
                    _ => Err(DeErr::InvalidType),
                },
                Shape::U64 => match rep {
                    Repr::UInt(u) => Ok(DataView::U64(u)),
                    Repr::Int(i) => Ok(DataView::U64(spec_wrap_to_u64(i))),
                    Repr::Str { bytes, .. } => Ok(
                        DataView::U64(coerce::spec_coerce_u64(bytes@)),
                    ),
                    _ => Err(DeErr::InvalidType),
                },
                Shape::Str => match rep {
                    Repr::Str { bytes, .. } => Ok(DataView::Str(bytes@)),
                    _ => Err(DeErr::InvalidType),
                },
                Shape::Bytes => match rep {
                    Repr::Str { bytes, .. } => Ok(DataView::Bytes(bytes@)),
                    _ => Err(DeErr::InvalidType),
                },
                Shape::Opt(inner) => {
                    if rep is Undef {
                        if allowed && *inner is Opt {
                            match spec_decode(cells, raw_on, id, *inner, false, fuel) {
                                Ok(dv) => Ok(DataView::OptSome(Box::new(dv))),
                                Err(e) => Err(e),
                            }
                        } else {
                            Ok(DataView::Unit)
                        }
                    } else {
                        if allowed {
                            match spec_decode(cells, raw_on, id, *inner, false, fuel) {
                                Ok(dv) => Ok(DataView::OptSome(Box::new(dv))),
                                Err(e) => Err(e),
                            }
                        } else {
                            Err(DeErr::InvalidType)
                        }
                    }
                },
                Shape::List(inner) => match rep {
                    Repr::Array { elems } => {
                        match spec_decode_items(
                            cells,
                            raw_on,
                            elems@,
                            *inner,
                            (fuel - 1) as nat,
                        ) {
                            Ok(vs) => Ok(DataView::List(vs)),
                            Err(e) => Err(e),
                        }
                    },
                    _ => Err(DeErr::InvalidType),
                },
                Shape::Dict(inner) => match rep {
                    Repr::Hash { entries } => {
                        match spec_decode_dict(
                            cells,
                            raw_on,
                            entries@,
                            *inner,
                            (fuel - 1) as nat,
                        ) {
                            Ok(vs) => Ok(DataView::Dict(vs)),
                            Err(e) => Err(e),
                        }
                    },
                    _ => Err(DeErr::InvalidType),
                },
                Shape::Record(fs) => match rep {
                    Repr::Hash { entries } => {
                        match spec_decode_record(
                            cells,
                            raw_on,
                            entries@,
                            fs@,
                            (fuel - 1) as nat,
                        ) {
                            Ok(vs) => Ok(DataView::Dict(vs)),
                            Err(e) => Err(e),
                        }
                    },
                    _ => Err(DeErr::InvalidType),
                },
                Shape::Enum(vars) => match rep {
                    Repr::Str { bytes, .. } => {
                        let i = crate::data::spec_variant_index(vars@, bytes@);
                        if i >= vars@.len() {
                            Err(DeErr::UnknownVariant)
                        } else {
                            match vars@[i] {
                                VariantShape::Unit(_) => Ok(DataView::UnitVariant(bytes@)),
                                VariantShape::Newtype(_, _) => Err(DeErr::ExpectedNewtype),
                                VariantShape::Tuple(_, _) => Err(DeErr::ExpectedTupleVariant),
                                VariantShape::Struct(_, _) => Err(
                                    DeErr::ExpectedStructVariant,
                                ),
                            }
                        }
                    },
                    Repr::Hash { entries } => {
                        if entries@.len() != 1 {
                            Err(DeErr::SingleKey)
                        } else {
                            let name = entries@[0].key@;
                            let v = entries@[0].val as int;
                            let i = crate::data::spec_variant_index(vars@, name);
                            if i >= vars@.len() {
                                Err(DeErr::UnknownVariant)
                            } else {
                                match vars@[i] {
                                    VariantShape::Unit(_) => {
                                        match spec_decode_undef(
                                            cells,
                                            v,
                                            (fuel - 1) as nat,
                                        ) {
                                            Ok(_) => Ok(DataView::UnitVariant(name)),
                                            Err(e) => Err(e),
                                        }
                                    },
                                    VariantShape::Newtype(_, inner) => {
                                        match spec_decode(
                                            cells,
                                            raw_on,
                                            v,
                                            *inner,
                                            true,
                                            (fuel - 1) as nat,
                                        ) {
                                            Ok(dv) => Ok(
                                                DataView::NewtypeVariant(name, Box::new(dv)),
                                            ),
                                            Err(e) => Err(e),
                                        }
                                    },
                                    VariantShape::Tuple(_, shapes) => {
                                        match spec_decode_tuple_payload(
                                            cells,
                                            raw_on,
                                            v,
                                            shapes@,
                                            (fuel - 1) as nat,
                                        ) {
                                            Ok(vs) => Ok(DataView::TupleVariant(name, vs)),
                                            Err(e) => Err(e),
                                        }
                                    },
                                    VariantShape::Struct(_, fs) => {
                                        match spec_decode_struct_payload(
                                            cells,
                                            raw_on,
                                            v,
                                            fs@,
                                            (fuel - 1) as nat,
                                        ) {
                                            Ok(vs) => Ok(DataView::StructVariant(name, vs)),
                                            Err(e) => Err(e),
                                        }
                                    },
                                }
                            }
                        }
                    },
                    Repr::Array { .. } => Err(DeErr::EnumShape),
                    _ => Err(DeErr::ExpectedEnum),
                },
                Shape::Any => match rep {
                    Repr::Undef => Ok(DataView::Unit),
                    Repr::Int(i) => Ok(DataView::I64(i)),
                    Repr::UInt(u) => Ok(DataView::U64(u)),
                    Repr::Str { bytes, .. } => Ok(DataView::Str(bytes@)),
                    Repr::Array { elems } => {
                        match spec_decode_items(
                            cells,
                            raw_on,
                            elems@,
                            Shape::Any,
                            (fuel - 1) as nat,
                        ) {
                            Ok(vs) => Ok(DataView::List(vs)),
                            Err(e) => Err(e),
                        }
                    },
                    Repr::Hash { entries } => {
                        match spec_decode_dict(
                            cells,
                            raw_on,
                            entries@,
                            Shape::Any,
                            (fuel - 1) as nat,
                        ) {
                            Ok(vs) => Ok(DataView::Dict(vs)),
                            Err(e) => Err(e),
                        }
                    },
                    _ => Err(DeErr::InvalidType),
                },
                Shape::Raw => Err(DeErr::InvalidType),
            }
        }
    }
}

/// Decode each element at the element shape, in a fresh optional context.
pub open spec fn spec_decode_items(
    cells: Seq<Cell>,
    raw_on: bool,
    elems: Seq<usize>,
    inner: Shape,
    fuel: nat,
) -> Result<Seq<DataView>, DeErr>
    decreases fuel, inner, 1int, elems.len() as int,
{
    if elems.len() == 0 {
        Ok(Seq::empty())
    } else {
        match spec_decode(cells, raw_on, elems[0] as int, inner, true, fuel) {
            Ok(dv) => match spec_decode_items(cells, raw_on, elems.drop_first(), inner, fuel) {
                Ok(vs) => Ok(seq![dv] + vs),
                Err(e) => Err(e),
            },
            Err(e) => Err(e),
        }
    }
}

/// Decode each entry's value at the map's value shape, keeping keys and
/// entry order.
pub open spec fn spec_decode_dict(
    cells: Seq<Cell>,
    raw_on: bool,
    entries: Seq<crate::interp::HashEntry>,
    inner: Shape,
    fuel: nat,
) -> Result<Seq<(Seq<u8>, DataView)>, DeErr>
    decreases fuel, inner, 1int, entries.len() as int,
{
    if entries.len() == 0 {
        Ok(Seq::empty())
    } else {
        match spec_decode(cells, raw_on, entries[0].val as int, inner, true, fuel) {
            Ok(dv) => match spec_decode_dict(
                cells,
                raw_on,
                entries.drop_first(),
                inner,
                fuel,
            ) {
                Ok(vs) => Ok(seq![(entries[0].key@, dv)] + vs),
                Err(e) => Err(e),
            },
            Err(e) => Err(e),
        }
    }
}

/// Decode a record against its field shapes, in shape order: a present
/// entry decodes at the field's shape; an absent optional field reads as
/// no value; an absent required field fails.  Unknown keys are ignored.
pub open spec fn spec_decode_record(
    cells: Seq<Cell>,
    raw_on: bool,
    entries: Seq<crate::interp::HashEntry>,
    fs: Seq<FieldShape>,
    fuel: nat,
) -> Result<Seq<(Seq<u8>, DataView)>, DeErr>
    decreases fuel, fs, 1int, 0int,
{
    if fs.len() == 0 {
        Ok(Seq::empty())
    } else {
        let idx = crate::hash::spec_hash_index(entries, fs[0].name@);
        let head: Result<DataView, DeErr> = if idx < entries.len() {
            spec_decode(cells, raw_on, entries[idx].val as int, fs[0].shape, true, fuel)
        } else if fs[0].shape is Opt {
            Ok(DataView::Unit)
        } else {
            Err(DeErr::MissingField)
        };
        match head {
            Ok(dv) => match spec_decode_record(cells, raw_on, entries, fs.drop_first(), fuel) {
                Ok(vs) => Ok(seq![(fs[0].name@, dv)] + vs),
                Err(e) => Err(e),
            },
            Err(e) => Err(e),
        }
    }
}

/// The payload of a fieldless variant given as a tagged map must read as
/// the undefined value (after dereferencing).
pub open spec fn spec_decode_undef(cells: Seq<Cell>, id: int, fuel: nat) -> Result<(), DeErr>
    decreases fuel,
{
    if fuel == 0 {
        Err(DeErr::Recursion)
    } else if !(0 <= id < cells.len() && cells[id].alive) {
        Err(DeErr::Gone)
    } else {
        let rep = spec_force(cells[id].repr);
        if rep is Ref {
            spec_decode_undef(cells, rep->Ref_target as int, (fuel - 1) as nat)
        } else if rep is Undef {
            Ok(())
        } else {
            Err(DeErr::InvalidType)
        }
    }
}

/// A tuple variant's payload: dereference to a sequence of matching arity
/// and decode positionally.
pub open spec fn spec_decode_tuple_payload(
    cells: Seq<Cell>,
    raw_on: bool,
    id: int,
    shapes: Seq<Shape>,
    fuel: nat,
) -> Result<Seq<DataView>, DeErr>
    decreases fuel, shapes, 2int, 0int,
{
    if fuel == 0 {
        Err(DeErr::Recursion)
    } else if !(0 <= id < cells.len() && cells[id].alive) {
        Err(DeErr::Gone)
    } else {
        let rep = spec_force(cells[id].repr);
        if rep is Ref {
            spec_decode_tuple_payload(
                cells,
                raw_on,
                rep->Ref_target as int,
                shapes,
                (fuel - 1) as nat,
            )
        } else {
            match rep {
                Repr::Array { elems } => {
                    if elems@.len() != shapes.len() {
                        Err(DeErr::InvalidType)
                    } else {
                        spec_decode_tuple_items(cells, raw_on, elems@, shapes, (fuel - 1) as nat)
                    }
                },
                _ => Err(DeErr::ExpectedTupleVariant),
            }
        }
    }
}

/// Decode tuple elements positionally.
pub open spec fn spec_decode_tuple_items(
    cells: Seq<Cell>,
    raw_on: bool,
    elems: Seq<usize>,
    shapes: Seq<Shape>,
    fuel: nat,
) -> Result<Seq<DataView>, DeErr>
    decreases fuel, shapes, 1int, 0int,
{
    if shapes.len() == 0 {
        Ok(Seq::empty())
    } else if elems.len() != shapes.len() {
        Err(DeErr::InvalidType)
    } else {
        match spec_decode(cells, raw_on, elems[0] as int, shapes[0], true, fuel) {
            Ok(dv) => match spec_decode_tuple_items(
                cells,
                raw_on,
                elems.drop_first(),
                shapes.drop_first(),
                fuel,
            ) {
                Ok(vs) => Ok(seq![dv] + vs),
                Err(e) => Err(e),
            },
            Err(e) => Err(e),
        }
    }
}

/// A record variant's payload: dereference to a map and decode it as a
/// record.
pub open spec fn spec_decode_struct_payload(
    cells: Seq<Cell>,
    raw_on: bool,
    id: int,
    fs: Seq<FieldShape>,
    fuel: nat,
) -> Result<Seq<(Seq<u8>, DataView)>, DeErr>
    decreases fuel, fs, 2int, 0int,
{
    if fuel == 0 {
        Err(DeErr::Recursion)
    } else if !(0 <= id < cells.len() && cells[id].alive) {
        Err(DeErr::Gone)
    } else {
        let rep = spec_force(cells[id].repr);
        if rep is Ref {
            spec_decode_struct_payload(
                cells,
                raw_on,
                rep->Ref_target as int,
                fs,
                (fuel - 1) as nat,
            )
        } else {
            match rep {
                Repr::Hash { entries } => spec_decode_record(
                    cells,
                    raw_on,
                    entries@,
                    fs,
                    (fuel - 1) as nat,
                ),
                _ => Err(DeErr::ExpectedStructVariant),
            }
        }
    }
}


/// Two stores with the same liveness and representations everywhere (the
/// counts may differ).
pub open spec fn same_shape_cells(a: Seq<Cell>, b: Seq<Cell>) -> bool {
    &&& a.len() == b.len()
    &&& forall|j: int|
        0 <= j < a.len() ==> b[j].alive == a[j].alive && b[j].repr == a[j].repr
}

/// The decoder never reads reference counts: stores of the same shape
/// decode identically.
pub proof fn lemma_decode_rc_stable(
    a: Seq<Cell>,
    b: Seq<Cell>,
    raw_on: bool,
    id: int,
    s: Shape,
    allowed: bool,
    fuel: nat,
)
    requires
        same_shape_cells(a, b),
    ensures
        spec_decode(a, raw_on, id, s, allowed, fuel) == spec_decode(
            b,
            raw_on,
            id,
            s,
            allowed,
            fuel,
        ),
    decreases fuel, s, 0int, 0int,
{
    if fuel == 0 || !(0 <= id < a.len() && a[id].alive) || s is Raw {
    } else {
        let rep = spec_force(a[id].repr);
        if rep is Ref {
            lemma_decode_rc_stable(a, b, raw_on, rep->Ref_target as int, s, allowed, (fuel
                - 1) as nat);
        } else {
            match s {
                Shape::Opt(inner) => {
                    lemma_decode_rc_stable(a, b, raw_on, id, *inner, false, fuel);
                },
                Shape::List(inner) => {
                    if rep is Array {
                        lemma_decode_items_rc_stable(
                            a,
                            b,
                            raw_on,
                            rep->Array_elems@,
                            *inner,
                            (fuel - 1) as nat,
                        );
                    }
                },
                Shape::Dict(inner) => {
                    if rep is Hash {
                        lemma_decode_dict_rc_stable(
                            a,
                            b,
                            raw_on,
                            rep->Hash_entries@,
                            *inner,
                            (fuel - 1) as nat,
                        );
                    }
                },
                Shape::Record(fs) => {
                    if rep is Hash {
                        lemma_decode_record_rc_stable(
                            a,
                            b,
                            raw_on,
                            rep->Hash_entries@,
                            fs@,
                            (fuel - 1) as nat,
                        );
                    }
                },
                Shape::Enum(vars) => {
                    if rep is Hash {
                        let entries = rep->Hash_entries@;
                        if entries.len() == 1 {
                            let name = entries[0].key@;
                            let v = entries[0].val as int;
                            let i = crate::data::spec_variant_index(vars@, name);
                            if i < vars@.len() {
                                match vars@[i] {
                                    VariantShape::Unit(_) => {
                                        lemma_decode_undef_rc_stable(
                                            a,
                                            b,
                                            v,
                                            (fuel - 1) as nat,
                                        );
                                    },
                                    VariantShape::Newtype(_, inner) => {
                                        lemma_decode_rc_stable(
                                            a,
                                            b,
                                            raw_on,
                                            v,
                                            *inner,
                                            true,
                                            (fuel - 1) as nat,
                                        );
                                    },
                                    VariantShape::Tuple(_, shapes) => {
                                        lemma_decode_tuple_payload_rc_stable(
                                            a,
                                            b,
                                            raw_on,
                                            v,
                                            shapes@,
                                            (fuel - 1) as nat,
                                        );
                                    },
                                    VariantShape::Struct(_, fs) => {
                                        lemma_decode_struct_payload_rc_stable(
                                            a,
                                            b,
                                            raw_on,
                                            v,
                                            fs@,
                                            (fuel - 1) as nat,
                                        );
                                    },
                                }
                            }
                        }
                    }
                },
                Shape::Any => {
                    if rep is Array {
                        lemma_decode_items_rc_stable(
                            a,
                            b,
                            raw_on,
                            rep->Array_elems@,
                            Shape::Any,
                            (fuel - 1) as nat,
                        );
                    }
                    if rep is Hash {
                        lemma_decode_dict_rc_stable(
                            a,
                            b,
                            raw_on,
                            rep->Hash_entries@,
                            Shape::Any,
                            (fuel - 1) as nat,
                        );
                    }
                },
                _ => {},
            }
        }
    }
}

/// Element decoding never reads counts.
pub proof fn lemma_decode_items_rc_stable(
    a: Seq<Cell>,
    b: Seq<Cell>,
    raw_on: bool,
    elems: Seq<usize>,
    inner: Shape,
    fuel: nat,
)
    requires
        same_shape_cells(a, b),
    ensures
        spec_decode_items(a, raw_on, elems, inner, fuel) == spec_decode_items(
            b,
            raw_on,
            elems,
            inner,
            fuel,
        ),
    decreases fuel, inner, 1int, elems.len() as int,
{
    if elems.len() > 0 {
        lemma_decode_rc_stable(a, b, raw_on, elems[0] as int, inner, true, fuel);
        lemma_decode_items_rc_stable(a, b, raw_on, elems.drop_first(), inner, fuel);
    }
}

/// Map decoding never reads counts.
pub proof fn lemma_decode_dict_rc_stable(
    a: Seq<Cell>,
    b: Seq<Cell>,
    raw_on: bool,
    entries: Seq<crate::interp::HashEntry>,
    inner: Shape,
    fuel: nat,
)
    requires
        same_shape_cells(a, b),
    ensures
        spec_decode_dict(a, raw_on, entries, inner, fuel) == spec_decode_dict(
            b,
            raw_on,
            entries,
            inner,
            fuel,
        ),
    decreases fuel, inner, 1int, entries.len() as int,
{
    if entries.len() > 0 {
        lemma_decode_rc_stable(a, b, raw_on, entries[0].val as int, inner, true, fuel);
        lemma_decode_dict_rc_stable(a, b, raw_on, entries.drop_first(), inner, fuel);
    }
}

/// Record decoding never reads counts.
pub proof fn lemma_decode_record_rc_stable(
    a: Seq<Cell>,
    b: Seq<Cell>,
    raw_on: bool,
    entries: Seq<crate::interp::HashEntry>,
    fs: Seq<FieldShape>,
    fuel: nat,
)
    requires
        same_shape_cells(a, b),
    ensures
        spec_decode_record(a, raw_on, entries, fs, fuel) == spec_decode_record(
            b,
            raw_on,
            entries,
            fs,
            fuel,
        ),
    decreases fuel, fs, 1int, 0int,
{
    if fs.len() > 0 {
        let idx = crate::hash::spec_hash_index(entries, fs[0].name@);
        if idx < entries.len() {
            lemma_decode_rc_stable(a, b, raw_on, entries[idx].val as int, fs[0].shape, true, fuel);
        }
        lemma_decode_record_rc_stable(a, b, raw_on, entries, fs.drop_first(), fuel);
    }
}

/// The undefined-payload check never reads counts.
pub proof fn lemma_decode_undef_rc_stable(a: Seq<Cell>, b: Seq<Cell>, id: int, fuel: nat)
    requires
        same_shape_cells(a, b),
    ensures
        spec_decode_undef(a, id, fuel) == spec_decode_undef(b, id, fuel),
    decreases fuel,
{
    if fuel > 0 && 0 <= id < a.len() && a[id].alive {
        let rep = spec_force(a[id].repr);
        if rep is Ref {
            lemma_decode_undef_rc_stable(a, b, rep->Ref_target as int, (fuel - 1) as nat);
        }
    }
}

/// Tuple payload decoding never reads counts.
pub proof fn lemma_decode_tuple_payload_rc_stable(
    a: Seq<Cell>,
    b: Seq<Cell>,
    raw_on: bool,
    id: int,
    shapes: Seq<Shape>,
    fuel: nat,
)
    requires
        same_shape_cells(a, b),
    ensures
        spec_decode_tuple_payload(a, raw_on, id, shapes, fuel) == spec_decode_tuple_payload(
            b,
            raw_on,
            id,
            shapes,
            fuel,
        ),
    decreases fuel, shapes, 2int, 0int,
{
    if fuel > 0 && 0 <= id < a.len() && a[id].alive {
        let rep = spec_force(a[id].repr);
        if rep is Ref {
            lemma_decode_tuple_payload_rc_stable(
                a,
                b,
                raw_on,
                rep->Ref_target as int,
                shapes,
                (fuel - 1) as nat,
            );
        } else if rep is Array && rep->Array_elems@.len() == shapes.len() {
            lemma_decode_tuple_items_rc_stable(
                a,
                b,
                raw_on,
                rep->Array_elems@,
                shapes,
                (fuel - 1) as nat,
            );
        }
    }
}

/// Positional decoding never reads counts.
pub proof fn lemma_decode_tuple_items_rc_stable(
    a: Seq<Cell>,
    b: Seq<Cell>,
    raw_on: bool,
    elems: Seq<usize>,
    shapes: Seq<Shape>,
    fuel: nat,
)
    requires
        same_shape_cells(a, b),
    ensures
        spec_decode_tuple_items(a, raw_on, elems, shapes, fuel) == spec_decode_tuple_items(
            b,
            raw_on,
            elems,
            shapes,
            fuel,
        ),
    decreases fuel, shapes, 1int, 0int,
{
    if shapes.len() > 0 && elems.len() == shapes.len() {
        lemma_decode_rc_stable(a, b, raw_on, elems[0] as int, shapes[0], true, fuel);
        lemma_decode_tuple_items_rc_stable(
            a,
            b,
            raw_on,
            elems.drop_first(),
            shapes.drop_first(),
            fuel,
        );
    }
}

/// Record payload decoding never reads counts.
pub proof fn lemma_decode_struct_payload_rc_stable(
    a: Seq<Cell>,
    b: Seq<Cell>,
    raw_on: bool,
    id: int,
    fs: Seq<FieldShape>,
    fuel: nat,
)
    requires
        same_shape_cells(a, b),
    ensures
        spec_decode_struct_payload(a, raw_on, id, fs, fuel) == spec_decode_struct_payload(
            b,
            raw_on,
            id,
            fs,
            fuel,
        ),
    decreases fuel, fs, 2int, 0int,
{
    if fuel > 0 && 0 <= id < a.len() && a[id].alive {
        let rep = spec_force(a[id].repr);
        if rep is Ref {
            lemma_decode_struct_payload_rc_stable(
                a,
                b,
                raw_on,
                rep->Ref_target as int,
                fs,
                (fuel - 1) as nat,
            );
        } else if rep is Hash {
            lemma_decode_record_rc_stable(
                a,
                b,
                raw_on,
                rep->Hash_entries@,
                fs,
                (fuel - 1) as nat,
            );
        }
    }
}


/// What any deserialization step leaves alone: everything but ownership
/// units acquired on existing cells.
pub open spec fn de_frame(pre: Interp, post: Interp) -> bool {
    &&& Interp::same_env(pre, post)
    &&& Interp::same_stacks(pre, post)
    &&& Interp::same_freed(pre, post)
    &&& post.cells@.len() == pre.cells@.len()
    &&& forall|j: int|
        0 <= j < pre.cells@.len() ==> post.cells@[j] == (Cell {
            rc: post.cells@[j].rc,
            ..pre.cells@[j]
        }) && pre.cells@[j].rc <= post.cells@[j].rc
}


/// A deserialization step keeps the store's shape.
pub proof fn lemma_de_frame_shape(a: Interp, b: Interp)
    requires
        de_frame(a, b),
    ensures
        same_shape_cells(a.cells@, b.cells@),
{
}

/// The executable result agrees with the decoder: the same data on
/// success (up to its view) and the failure's exact message otherwise.
/// The one escape: a shape using the raw escape may fail with the count
/// exhaustion message, and only when some live cell's count really stands
/// at the limit on exit — with headroom everywhere, the decoder's verdict
/// is forced.
pub open spec fn de_matches(
    sr: Result<DataView, DeErr>,
    r: Result<Data, Error>,
    s: Shape,
    post: Seq<Cell>,
) -> bool {
    let escape = shape_has_raw(s) && (exists|j: int|
        0 <= j < post.len() && post[j].alive && post[j].rc == u64::MAX) && (r matches Err(e)
        && e.0@ == "raw value count exhausted"@);
    match sr {
        Ok(dv) => (r matches Ok(out) && data_view(out) == dv) || escape,
        Err(k) => (r matches Err(e) && e.0@ == de_err_msg(k)) || escape,
    }
}

/// Deserialize the cell at the requested shape, with an explicit depth
/// budget; this is the executable mirror of [`spec_decode`] and returns
/// exactly what it does.
#[verifier::rlimit(100)]
#[verifier::spinoff_prover]
pub fn de_value(interp: &mut Interp, id: usize, shape: &Shape, allowed: bool, fuel: usize) -> (r:
    Result<Data, Error>)
    ensures
        de_frame(*old(interp), *final(interp)),
        !shape_has_raw(*shape) ==> final(interp).cells@ == old(interp).cells@,
        de_matches(
            spec_decode(
                old(interp).cells@,
                old(interp).raw_enabled,
                id as int,
                *shape,
                allowed,
                fuel as nat,
            ),
            r,
            *shape,
            final(interp).cells@,
        ),
        (*shape is Raw && r is Ok) ==> ({
            &&& old(interp).cells@[id as int].rc < u64::MAX
            &&& Interp::only_cell_updated(*old(interp), *final(interp), id as int)
            &&& final(interp).cells@[id as int] == (Cell {
                rc: (old(interp).cells@[id as int].rc + 1) as u64,
                ..old(interp).cells@[id as int]
            })
        }),
        (*shape is Raw && fuel >= 1 && old(interp).raw_enabled && old(interp).is_alive(
            id as int,
        ) && old(interp).cells@[id as int].rc < u64::MAX) ==> r is Ok,
        (*shape is Raw && fuel >= 1 && old(interp).raw_enabled && old(interp).is_alive(
            id as int,
        ) && old(interp).cells@[id as int].rc == u64::MAX) ==> (r matches Err(e) && e.0@
            == "raw value count exhausted"@),
        (*shape is Raw && fuel >= 1 && old(interp).is_alive(id as int) && !old(interp).raw_enabled) ==> (r matches Err(e) && e.0@
            == "attempted raw value deserialization while disabled"@),
    decreases fuel, *shape, 0int, 0int,
{
    if fuel == 0 {
        return Error::fail("deserialization recursion limit reached");
    }
    if !(id < interp.cells.len() && interp.cells[id].alive) {
        return Error::fail("encountered a reclaimed value while deserializing");
    }
    if matches!(shape, Shape::Raw) {
        if !interp.raw_enabled {
            return Error::fail("attempted raw value deserialization while disabled");
        }
        if interp.cells[id].rc == u64::MAX {
            return Error::fail("raw value count exhausted");
        }
        let mut c = Cell {
            rc: 0,
            alive: false,
            repr: Repr::Undef,
            magic: Vec::new(),
            blessed: None,
            cursor: 0,
        };
        interp.cells.set_and_swap(id, &mut c);
        c.rc = c.rc + 1;
        interp.cells.set(id, c);
        proof {
            assert(interp.cells@ =~= old(interp).cells@.update(
                id as int,
                interp.cells@[id as int],
            ));
        }
        return Ok(Data::Raw(id));
    }
    let target_opt = match &interp.cells[id].repr {
        Repr::Ref { target } => Some(*target),
        _ => None,
    };
    if let Some(target) = target_opt {
        return de_value(interp, target, shape, allowed, fuel - 1);
    }
    match shape {
        Shape::Bool => {
            match &interp.cells[id].repr {
                Repr::Undef => Ok(Data::Bool(false)),
                Repr::Int(i) => Ok(Data::Bool(*i != 0)),
                Repr::UInt(u) => Ok(Data::Bool(*u != 0)),
                Repr::Str { .. } => Error::fail("expected bool value"),
                Repr::Lazy { .. } => Error::fail("expected bool value"),
                _ => Error::fail("invalid type for requested shape"),
            }
        },
        Shape::I64 => {
            match &interp.cells[id].repr {
                Repr::Int(i) => Ok(Data::I64(*i)),
                Repr::UInt(u) => Ok(Data::I64(crate::scalar::wrap_to_i64(*u))),
                Repr::Str { bytes, .. } => Ok(Data::I64(coerce::coerce_i64(bytes.as_slice()))),
                Repr::Lazy { bytes, .. } => Ok(Data::I64(coerce::coerce_i64(bytes.as_slice()))),
                _ => Error::fail("invalid type for requested shape"),
            }
        },
        Shape::U64 => {
            match &interp.cells[id].repr {
                Repr::UInt(u) => Ok(Data::U64(*u)),
                Repr::Int(i) => Ok(Data::U64(wrap_to_u64(*i))),
                Repr::Str { bytes, .. } => Ok(Data::U64(coerce::coerce_u64(bytes.as_slice()))),
                Repr::Lazy { bytes, .. } => Ok(Data::U64(coerce::coerce_u64(bytes.as_slice()))),
                _ => Error::fail("invalid type for requested shape"),
            }
        },
        Shape::Str => {
            match &interp.cells[id].repr {
                Repr::Str { bytes, .. } => Ok(
                    Data::Str(vstd::slice::slice_to_vec(bytes.as_slice())),
                ),
                Repr::Lazy { bytes, .. } => Ok(
                    Data::Str(vstd::slice::slice_to_vec(bytes.as_slice())),
                ),
                _ => Error::fail("invalid type for requested shape"),
            }
        },
        Shape::Bytes => {
            match &interp.cells[id].repr {
                Repr::Str { bytes, .. } => Ok(
                    Data::Bytes(vstd::slice::slice_to_vec(bytes.as_slice())),
                ),
                Repr::Lazy { bytes, .. } => Ok(
                    Data::Bytes(vstd::slice::slice_to_vec(bytes.as_slice())),
                ),
                _ => Error::fail("invalid type for requested shape"),
            }
        },
        Shape::Opt(inner) => {
            let is_undef = matches!(&interp.cells[id].repr, Repr::Undef);
            if is_undef {
                if allowed && matches!(&**inner, Shape::Opt(_)) {
                    match de_value(interp, id, inner, false, fuel) {
                        Ok(dv) => Ok(Data::OptSome(Box::new(dv))),
                        Err(e) => Err(e),
                    }
                } else {
                    Ok(Data::Unit)
                }
            } else {
                if allowed {
                    match de_value(interp, id, inner, false, fuel) {
                        Ok(dv) => Ok(Data::OptSome(Box::new(dv))),
                        Err(e) => Err(e),
                    }
                } else {
                    Error::fail("invalid type for requested shape")
                }
            }
        },
        Shape::List(inner) => {
            if matches!(&interp.cells[id].repr, Repr::Array { .. }) {
                proof {
                    assert(interp.repr_of(id as int)->Array_elems@.skip(0)
                        =~= interp.repr_of(id as int)->Array_elems@);
                }
                match de_items(interp, id, 0, inner, fuel - 1) {
                    Ok(items) => Ok(Data::List(items)),
                    Err(e) => Err(e),
                }
            } else {
                Error::fail("invalid type for requested shape")
            }
        },
        Shape::Dict(inner) => {
            if matches!(&interp.cells[id].repr, Repr::Hash { .. }) {
                proof {
                    assert(interp.repr_of(id as int)->Hash_entries@.skip(0)
                        =~= interp.repr_of(id as int)->Hash_entries@);
                }
                match de_dict(interp, id, 0, inner, fuel - 1) {
                    Ok(fields) => Ok(Data::Dict(fields)),
                    Err(e) => Err(e),
                }
            } else {
                Error::fail("invalid type for requested shape")
            }
        },
        Shape::Record(fs) => {
            if matches!(&interp.cells[id].repr, Repr::Hash { .. }) {
                proof {
                    assert(fs@.skip(0) =~= fs@);
                }
                match de_record(interp, id, fs, 0, fuel - 1) {
                    Ok(fields) => Ok(Data::Dict(fields)),
                    Err(e) => Err(e),
                }
            } else {
                Error::fail("invalid type for requested shape")
            }
        },
        Shape::Enum(vars) => de_enum(interp, id, vars, fuel),
        Shape::Any => {
            match &interp.cells[id].repr {
                Repr::Undef => Ok(Data::Unit),
                Repr::Int(i) => Ok(Data::I64(*i)),
                Repr::UInt(u) => Ok(Data::U64(*u)),
                Repr::Str { bytes, .. } => Ok(
                    Data::Str(vstd::slice::slice_to_vec(bytes.as_slice())),
                ),
                Repr::Lazy { bytes, .. } => Ok(
                    Data::Str(vstd::slice::slice_to_vec(bytes.as_slice())),
                ),
                Repr::Array { .. } => {
                    proof {
                        assert(interp.repr_of(id as int)->Array_elems@.skip(0)
                            =~= interp.repr_of(id as int)->Array_elems@);
                    }
                    match de_items(interp, id, 0, &Shape::Any, fuel - 1) {
                        Ok(items) => Ok(Data::List(items)),
                        Err(e) => Err(e),
                    }
                },
                Repr::Hash { .. } => {
                    proof {
                        assert(interp.repr_of(id as int)->Hash_entries@.skip(0)
                            =~= interp.repr_of(id as int)->Hash_entries@);
                    }
                    match de_dict(interp, id, 0, &Shape::Any, fuel - 1) {
                        Ok(fields) => Ok(Data::Dict(fields)),
                        Err(e) => Err(e),
                    }
                },
                _ => Error::fail("invalid type for requested shape"),
            }
        },
        Shape::Raw => Error::fail("invalid type for requested shape"),
    }
}

/// Reinterpret a signed integer as the unsigned integer with the same bits.
pub fn wrap_to_u64(i: i64) -> (r: u64)
    ensures
        r == spec_wrap_to_u64(i),
{
    if i >= 0 {
        i as u64
    } else {
        0x8000_0000_0000_0000u64 + ((i - i64::MIN) as u64)
    }
}


/// First variant index with the tag name, or the length when none.
fn find_variant(vars: &Vec<VariantShape>, name: &[u8]) -> (idx: usize)
    ensures
        idx == crate::data::spec_variant_index(vars@, name@),
{
    let n = vars.len();
    let mut i: usize = 0;
    proof {
        assert(vars@.skip(0) =~= vars@);
    }
    while i < n
        invariant
            n == vars@.len(),
            i <= n,
            crate::data::spec_variant_index(vars@, name@) == i
                + crate::data::spec_variant_index(vars@.skip(i as int), name@),
        ensures
            i <= n,
            crate::data::spec_variant_index(vars@, name@) == i as int,
        decreases n - i,
    {
        let hit = match &vars[i] {
            VariantShape::Unit(nm) => coerce::bytes_eq(nm.as_slice(), name),
            VariantShape::Newtype(nm, _) => coerce::bytes_eq(nm.as_slice(), name),
            VariantShape::Tuple(nm, _) => coerce::bytes_eq(nm.as_slice(), name),
            VariantShape::Struct(nm, _) => coerce::bytes_eq(nm.as_slice(), name),
        };
        if hit {
            proof {
                assert(vars@.skip(i as int)[0] == vars@[i as int]);
                assert(crate::data::spec_variant_index(vars@.skip(i as int), name@) == 0);
            }
            break;
        }
        i = i + 1;
        proof {
            assert(vars@.skip(i - 1).drop_first() =~= vars@.skip(i as int));
            assert(vars@.skip(i - 1)[0] == vars@[i - 1]);
        }
    }
    proof {
        if i == n {
            assert(vars@.skip(n as int) =~= Seq::<VariantShape>::empty());
        }
    }
    i
}

/// Decode the elements of a sequence cell from position `k` on.
#[verifier::rlimit(80)]
fn de_items(interp: &mut Interp, arr: usize, k: usize, inner: &Shape, fuel: usize) -> (r: Result<
    Vec<Data>,
    Error,
>)
    requires
        old(interp).is_alive(arr as int),
        old(interp).repr_of(arr as int) is Array,
        k <= old(interp).repr_of(arr as int)->Array_elems@.len(),
    ensures
        de_frame(*old(interp), *final(interp)),
        !shape_has_raw(*inner) ==> final(interp).cells@ == old(interp).cells@,
        ({
            let elems = old(interp).repr_of(arr as int)->Array_elems@;
            match spec_decode_items(
                old(interp).cells@,
                old(interp).raw_enabled,
                elems.skip(k as int),
                *inner,
                fuel as nat,
            ) {
                Ok(vs) => (r matches Ok(out) && view_items(out@) == vs) || (shape_has_raw(
                    *inner,
                ) && (exists|j: int|
                    0 <= j < final(interp).cells@.len() && final(interp).cells@[j].alive
                        && final(interp).cells@[j].rc == u64::MAX) && (r matches Err(e) && e.0@
                    == "raw value count exhausted"@)),
                Err(kk) => (r matches Err(e) && e.0@ == de_err_msg(kk)) || (shape_has_raw(
                    *inner,
                ) && (exists|j: int|
                    0 <= j < final(interp).cells@.len() && final(interp).cells@[j].alive
                        && final(interp).cells@[j].rc == u64::MAX) && (r matches Err(e) && e.0@
                    == "raw value count exhausted"@)),
            }
        }),
    decreases fuel, *inner, 1int,
        old(interp).repr_of(arr as int)->Array_elems@.len() - k,
{
    let ghost elems = old(interp).repr_of(arr as int)->Array_elems@;
    let n = match &interp.cells[arr].repr {
        Repr::Array { elems } => elems.len(),
        _ => 0,
    };
    if k == n {
        proof {
            assert(elems.skip(k as int) =~= Seq::<usize>::empty());
        }
        return Ok(Vec::new());
    }
    let e = match &interp.cells[arr].repr {
        Repr::Array { elems } => elems[k],
        _ => 0,
    };
    proof {
        assert(elems.skip(k as int)[0] == elems[k as int]);
        assert(elems.skip(k as int).drop_first() =~= elems.skip(k + 1));
    }
    let head = match de_value(interp, e, inner, true, fuel) {
        Ok(h) => h,
        Err(er) => {
            return Err(er);
        },
    };
    let ghost mid = *interp;
    proof {
        lemma_de_frame_shape(*old(interp), mid);
        lemma_decode_items_rc_stable(
            old(interp).cells@,
            mid.cells@,
            old(interp).raw_enabled,
            elems.skip(k + 1),
            *inner,
            fuel as nat,
        );
    }
    match de_items(interp, arr, k + 1, inner, fuel) {
        Ok(mut rest) => {
            let ghost rest_view = rest@;
            rest.insert(0, head);
            proof {
                assert(rest@.drop_first() =~= rest_view);
                assert(rest@[0] == head);
                assert(view_items(rest@) =~= seq![data_view(head)] + view_items(rest_view));
            }
            Ok(rest)
        },
        Err(er) => Err(er),
    }
}

/// Decode the entries of a map cell from position `k` on, keeping keys.
#[verifier::rlimit(80)]
fn de_dict(interp: &mut Interp, hv: usize, k: usize, inner: &Shape, fuel: usize) -> (r: Result<
    Vec<DataField>,
    Error,
>)
    requires
        old(interp).is_alive(hv as int),
        old(interp).repr_of(hv as int) is Hash,
        k <= old(interp).repr_of(hv as int)->Hash_entries@.len(),
    ensures
        de_frame(*old(interp), *final(interp)),
        !shape_has_raw(*inner) ==> final(interp).cells@ == old(interp).cells@,
        ({
            let entries = old(interp).repr_of(hv as int)->Hash_entries@;
            match spec_decode_dict(
                old(interp).cells@,
                old(interp).raw_enabled,
                entries.skip(k as int),
                *inner,
                fuel as nat,
            ) {
                Ok(vs) => (r matches Ok(out) && view_fields(out@) == vs) || (shape_has_raw(
                    *inner,
                ) && (exists|j: int|
                    0 <= j < final(interp).cells@.len() && final(interp).cells@[j].alive
                        && final(interp).cells@[j].rc == u64::MAX) && (r matches Err(e) && e.0@
                    == "raw value count exhausted"@)),
                Err(kk) => (r matches Err(e) && e.0@ == de_err_msg(kk)) || (shape_has_raw(
                    *inner,
                ) && (exists|j: int|
                    0 <= j < final(interp).cells@.len() && final(interp).cells@[j].alive
                        && final(interp).cells@[j].rc == u64::MAX) && (r matches Err(e) && e.0@
                    == "raw value count exhausted"@)),
            }
        }),
    decreases fuel, *inner, 1int,
        old(interp).repr_of(hv as int)->Hash_entries@.len() - k,
{
    let ghost entries = old(interp).repr_of(hv as int)->Hash_entries@;
    let n = match &interp.cells[hv].repr {
        Repr::Hash { entries } => entries.len(),
        _ => 0,
    };
    if k == n {
        proof {
            assert(entries.skip(k as int) =~= Seq::<crate::interp::HashEntry>::empty());
        }
        return Ok(Vec::new());
    }
    let (key, e) = match &interp.cells[hv].repr {
        Repr::Hash { entries } => (
            vstd::slice::slice_to_vec(entries[k].key.as_slice()),
            entries[k].val,
        ),
        _ => (Vec::new(), 0),
    };
    proof {
        assert(entries.skip(k as int)[0] == entries[k as int]);
        assert(entries.skip(k as int).drop_first() =~= entries.skip(k + 1));
    }
    let head = match de_value(interp, e, inner, true, fuel) {
        Ok(h) => h,
        Err(er) => {
            return Err(er);
        },
    };
    let ghost mid = *interp;
    proof {
        lemma_de_frame_shape(*old(interp), mid);
        lemma_decode_dict_rc_stable(
            old(interp).cells@,
            mid.cells@,
            old(interp).raw_enabled,
            entries.skip(k + 1),
            *inner,
            fuel as nat,
        );
    }
    match de_dict(interp, hv, k + 1, inner, fuel) {
        Ok(mut rest) => {
            let ghost rest_view = rest@;
            rest.insert(0, DataField { name: key, value: head });
            proof {
                assert(rest@.drop_first() =~= rest_view);
                assert(rest@[0].name@ == entries[k as int].key@);
                assert(rest@[0].value == head);
                assert(view_fields(rest@) =~= seq![
                    (entries[k as int].key@, data_view(head)),
                ] + view_fields(rest_view));
            }
            Ok(rest)
        },
        Err(er) => Err(er),
    }
}

/// Decode a record cell against its field shapes, from field `k` on.
#[verifier::rlimit(80)]
fn de_record(
    interp: &mut Interp,
    hv: usize,
    fs: &Vec<FieldShape>,
    k: usize,
    fuel: usize,
) -> (r: Result<Vec<DataField>, Error>)
    requires
        old(interp).is_alive(hv as int),
        old(interp).repr_of(hv as int) is Hash,
        k <= fs@.len(),
    ensures
        de_frame(*old(interp), *final(interp)),
        !field_shapes_have_raw(fs@.skip(k as int)) ==> final(interp).cells@ == old(interp).cells@,
        ({
            let entries = old(interp).repr_of(hv as int)->Hash_entries@;
            match spec_decode_record(
                old(interp).cells@,
                old(interp).raw_enabled,
                entries,
                fs@.skip(k as int),
                fuel as nat,
            ) {
                Ok(vs) => (r matches Ok(out) && view_fields(out@) == vs) || (
                field_shapes_have_raw(fs@.skip(k as int)) && (exists|j: int|
                    0 <= j < final(interp).cells@.len() && final(interp).cells@[j].alive
                        && final(interp).cells@[j].rc == u64::MAX) && (
                r matches Err(e) && e.0@ == "raw value count exhausted"@)),
                Err(kk) => (r matches Err(e) && e.0@ == de_err_msg(kk)) || (
                field_shapes_have_raw(fs@.skip(k as int)) && (exists|j: int|
                    0 <= j < final(interp).cells@.len() && final(interp).cells@[j].alive
                        && final(interp).cells@[j].rc == u64::MAX) && (
                r matches Err(e) && e.0@ == "raw value count exhausted"@)),
            }
        }),
    decreases fuel, *fs, 1int, fs@.len() - k,
{
    let ghost entries = old(interp).repr_of(hv as int)->Hash_entries@;
    if k == fs.len() {
        proof {
            assert(fs@.skip(k as int) =~= Seq::<FieldShape>::empty());
        }
        return Ok(Vec::new());
    }
    proof {
        assert(fs@.skip(k as int)[0] == fs@[k as int]);
        assert(fs@.skip(k as int).drop_first() =~= fs@.skip(k + 1));
    }
    let idx = match &interp.cells[hv].repr {
        Repr::Hash { entries } => crate::hash::find_entry(entries, fs[k].name.as_slice()),
        _ => 0,
    };
    let n_entries = match &interp.cells[hv].repr {
        Repr::Hash { entries } => entries.len(),
        _ => 0,
    };
    let head: Data = if idx < n_entries {
        let e = match &interp.cells[hv].repr {
            Repr::Hash { entries } => entries[idx].val,
            _ => 0,
        };
        match de_value(interp, e, &fs[k].shape, true, fuel) {
            Ok(h) => h,
            Err(er) => {
                return Err(er);
            },
        }
    } else if matches!(&fs[k].shape, Shape::Opt(_)) {
        Data::Unit
    } else {
        return Error::fail("missing required field");
    };
    let key = vstd::slice::slice_to_vec(fs[k].name.as_slice());
    let ghost mid = *interp;
    proof {
        lemma_de_frame_shape(*old(interp), mid);
        lemma_decode_record_rc_stable(
            old(interp).cells@,
            mid.cells@,
            old(interp).raw_enabled,
            entries,
            fs@.skip(k + 1),
            fuel as nat,
        );
    }
    match de_record(interp, hv, fs, k + 1, fuel) {
        Ok(mut rest) => {
            let ghost rest_view = rest@;
            rest.insert(0, DataField { name: key, value: head });
            proof {
                assert(rest@.drop_first() =~= rest_view);
                assert(rest@[0].name@ == fs@[k as int].name@);
                assert(rest@[0].value == head);
                assert(view_fields(rest@) =~= seq![
                    (fs@[k as int].name@, data_view(head)),
                ] + view_fields(rest_view));
            }
            Ok(rest)
        },
        Err(er) => Err(er),
    }
}


/// When no variant of a choice mentions the raw escape, neither does any
/// single variant's payload shape.
pub proof fn lemma_variant_no_raw(vars: Seq<VariantShape>, i: int)
    requires
        0 <= i < vars.len(),
        !variant_shapes_have_raw(vars),
    ensures
        match vars[i] {
            VariantShape::Unit(_) => true,
            VariantShape::Newtype(_, inner) => !shape_has_raw(*inner),
            VariantShape::Tuple(_, shapes) => !shapes_have_raw(shapes@),
            VariantShape::Struct(_, fs) => !field_shapes_have_raw(fs@),
        },
    decreases vars.len(),
{
    if i > 0 {
        lemma_variant_no_raw(vars.drop_first(), i - 1);
    }
}

/// Decode an externally tagged choice: a bare string names a fieldless
/// variant; a single-key map names the variant and carries its payload.
#[verifier::rlimit(100)]
#[verifier::spinoff_prover]
fn de_enum(interp: &mut Interp, id: usize, vars: &Vec<VariantShape>, fuel: usize) -> (r: Result<
    Data,
    Error,
>)
    requires
        old(interp).is_alive(id as int),
        fuel >= 1,
        !(old(interp).repr_of(id as int) is Ref),
    ensures
        de_frame(*old(interp), *final(interp)),
        !variant_shapes_have_raw(vars@) ==> final(interp).cells@ == old(interp).cells@,
        de_matches(
            spec_decode(
                old(interp).cells@,
                old(interp).raw_enabled,
                id as int,
                Shape::Enum(*vars),
                true,
                fuel as nat,
            ),
            r,
            Shape::Enum(*vars),
            final(interp).cells@,
        ),
    decreases fuel, *vars, 3int, 0int,
{
    let kind = {
        match &interp.cells[id].repr {
            Repr::Str { .. } => 0usize,
            Repr::Lazy { .. } => 0usize,
            Repr::Hash { .. } => 1usize,
            Repr::Array { .. } => 2usize,
            _ => 3usize,
        }
    };
    if kind == 0 {
        let bytes = match &interp.cells[id].repr {
            Repr::Str { bytes, .. } => vstd::slice::slice_to_vec(bytes.as_slice()),
            Repr::Lazy { bytes, .. } => vstd::slice::slice_to_vec(bytes.as_slice()),
            _ => Vec::new(),
        };
        let i = find_variant(vars, bytes.as_slice());
        if i >= vars.len() {
            return Error::fail("unknown enum variant");
        }
        match &vars[i] {
            VariantShape::Unit(_) => Ok(Data::UnitVariant(bytes)),
            VariantShape::Newtype(_, _) => Error::fail(
                "expected newtype variant, found unit variant",
            ),
            VariantShape::Tuple(_, _) => Error::fail("expected tuple variant"),
            VariantShape::Struct(_, _) => Error::fail("expected struct variant"),
        }
    } else if kind == 1 {
        let n_entries = match &interp.cells[id].repr {
            Repr::Hash { entries } => entries.len(),
            _ => 0,
        };
        if n_entries != 1 {
            return Error::fail("expected hash with a single key");
        }
        let (name, v) = match &interp.cells[id].repr {
            Repr::Hash { entries } => (
                vstd::slice::slice_to_vec(entries[0].key.as_slice()),
                entries[0].val,
            ),
            _ => (Vec::new(), 0),
        };
        let i = find_variant(vars, name.as_slice());
        if i >= vars.len() {
            return Error::fail("unknown enum variant");
        }
        proof {
            if !variant_shapes_have_raw(vars@) {
                lemma_variant_no_raw(vars@, i as int);
            }
        }
        match &vars[i] {
            VariantShape::Unit(_) => {
                match de_undef(interp, v, fuel - 1) {
                    Ok(_) => Ok(Data::UnitVariant(name)),
                    Err(e) => Err(e),
                }
            },
            VariantShape::Newtype(_, inner) => {
                match de_value(interp, v, inner, true, fuel - 1) {
                    Ok(dv) => Ok(Data::NewtypeVariant(name, Box::new(dv))),
                    Err(e) => Err(e),
                }
            },
            VariantShape::Tuple(_, shapes) => {
                match de_tuple_payload(interp, v, shapes, fuel - 1) {
                    Ok(items) => Ok(Data::TupleVariant(name, items)),
                    Err(e) => Err(e),
                }
            },
            VariantShape::Struct(_, fs) => {
                match de_struct_payload(interp, v, fs, fuel - 1) {
                    Ok(fields) => Ok(Data::StructVariant(name, fields)),
                    Err(e) => Err(e),
                }
            },
        }
    } else if kind == 2 {
        Error::fail("expected a string or hash for an enum")
    } else {
        Error::fail("expected an enum value")
    }
}


/// Check that a fieldless variant's payload reads as the undefined value.
fn de_undef(interp: &mut Interp, id: usize, fuel: usize) -> (r: Result<(), Error>)
    ensures
        *final(interp) == *old(interp),
        ({
            match spec_decode_undef(old(interp).cells@, id as int, fuel as nat) {
                Ok(_) => r is Ok,
                Err(kk) => r matches Err(e) && e.0@ == de_err_msg(kk),
            }
        }),
    decreases fuel,
{
    if fuel == 0 {
        return Error::fail("deserialization recursion limit reached");
    }
    if !(id < interp.cells.len() && interp.cells[id].alive) {
        return Error::fail("encountered a reclaimed value while deserializing");
    }
    let target_opt = match &interp.cells[id].repr {
        Repr::Ref { target } => Some(*target),
        _ => None,
    };
    if let Some(target) = target_opt {
        return de_undef(interp, target, fuel - 1);
    }
    if matches!(&interp.cells[id].repr, Repr::Undef) {
        Ok(())
    } else {
        Error::fail("invalid type for requested shape")
    }
}

/// Decode a tuple variant's payload: dereference to a sequence of matching
/// arity and decode positionally.
#[verifier::rlimit(60)]
fn de_tuple_payload(interp: &mut Interp, id: usize, shapes: &Vec<Shape>, fuel: usize) -> (r:
    Result<Vec<Data>, Error>)
    ensures
        de_frame(*old(interp), *final(interp)),
        !shapes_have_raw(shapes@) ==> final(interp).cells@ == old(interp).cells@,
        ({
            match spec_decode_tuple_payload(
                old(interp).cells@,
                old(interp).raw_enabled,
                id as int,
                shapes@,
                fuel as nat,
            ) {
                Ok(vs) => (r matches Ok(out) && view_items(out@) == vs) || (shapes_have_raw(
                    shapes@,
                ) && (exists|j: int|
                    0 <= j < final(interp).cells@.len() && final(interp).cells@[j].alive
                        && final(interp).cells@[j].rc == u64::MAX) && (r matches Err(e) && e.0@
                    == "raw value count exhausted"@)),
                Err(kk) => (r matches Err(e) && e.0@ == de_err_msg(kk)) || (shapes_have_raw(
                    shapes@,
                ) && (exists|j: int|
                    0 <= j < final(interp).cells@.len() && final(interp).cells@[j].alive
                        && final(interp).cells@[j].rc == u64::MAX) && (r matches Err(e) && e.0@
                    == "raw value count exhausted"@)),
            }
        }),
    decreases fuel, *shapes, 2int, 0int,
{
    if fuel == 0 {
        return Error::fail("deserialization recursion limit reached");
    }
    if !(id < interp.cells.len() && interp.cells[id].alive) {
        return Error::fail("encountered a reclaimed value while deserializing");
    }
    let target_opt = match &interp.cells[id].repr {
        Repr::Ref { target } => Some(*target),
        _ => None,
    };
    if let Some(target) = target_opt {
        return de_tuple_payload(interp, target, shapes, fuel - 1);
    }
    let n = match &interp.cells[id].repr {
        Repr::Array { elems } => elems.len(),
        _ => {
            return Error::fail("expected tuple variant");
        },
    };
    if n != shapes.len() {
        return Error::fail("invalid type for requested shape");
    }
    proof {
        assert(shapes@.skip(0) =~= shapes@);
        assert(interp.repr_of(id as int)->Array_elems@.skip(0) =~= interp.repr_of(
            id as int,
        )->Array_elems@);
    }
    de_tuple_items(interp, id, shapes, 0, fuel - 1)
}

/// Decode tuple elements positionally, from position `k` on.
#[verifier::rlimit(80)]
fn de_tuple_items(
    interp: &mut Interp,
    arr: usize,
    shapes: &Vec<Shape>,
    k: usize,
    fuel: usize,
) -> (r: Result<Vec<Data>, Error>)
    requires
        old(interp).is_alive(arr as int),
        old(interp).repr_of(arr as int) is Array,
        old(interp).repr_of(arr as int)->Array_elems@.len() == shapes@.len(),
        k <= shapes@.len(),
    ensures
        de_frame(*old(interp), *final(interp)),
        !shapes_have_raw(shapes@.skip(k as int)) ==> final(interp).cells@ == old(interp).cells@,
        ({
            let elems = old(interp).repr_of(arr as int)->Array_elems@;
            match spec_decode_tuple_items(
                old(interp).cells@,
                old(interp).raw_enabled,
                elems.skip(k as int),
                shapes@.skip(k as int),
                fuel as nat,
            ) {
                Ok(vs) => (r matches Ok(out) && view_items(out@) == vs) || (shapes_have_raw(
                    shapes@.skip(k as int),
                ) && (exists|j: int|
                    0 <= j < final(interp).cells@.len() && final(interp).cells@[j].alive
                        && final(interp).cells@[j].rc == u64::MAX) && (r matches Err(e) && e.0@
                    == "raw value count exhausted"@)),
                Err(kk) => (r matches Err(e) && e.0@ == de_err_msg(kk)) || (shapes_have_raw(
                    shapes@.skip(k as int),
                ) && (exists|j: int|
                    0 <= j < final(interp).cells@.len() && final(interp).cells@[j].alive
                        && final(interp).cells@[j].rc == u64::MAX) && (r matches Err(e) && e.0@
                    == "raw value count exhausted"@)),
            }
        }),
    decreases fuel, *shapes, 1int, shapes@.len() - k,
{
    let ghost elems = old(interp).repr_of(arr as int)->Array_elems@;
    if k == shapes.len() {
        proof {
            assert(shapes@.skip(k as int) =~= Seq::<Shape>::empty());
        }
        return Ok(Vec::new());
    }
    let e = match &interp.cells[arr].repr {
        Repr::Array { elems } => elems[k],
        _ => 0,
    };
    proof {
        assert(elems.skip(k as int)[0] == elems[k as int]);
        assert(elems.skip(k as int).drop_first() =~= elems.skip(k + 1));
        assert(shapes@.skip(k as int)[0] == shapes@[k as int]);
        assert(shapes@.skip(k as int).drop_first() =~= shapes@.skip(k + 1));
    }
    let head = match de_value(interp, e, &shapes[k], true, fuel) {
        Ok(h) => h,
        Err(er) => {
            return Err(er);
        },
    };
    let ghost mid = *interp;
    proof {
        lemma_de_frame_shape(*old(interp), mid);
        lemma_decode_tuple_items_rc_stable(
            old(interp).cells@,
            mid.cells@,
            old(interp).raw_enabled,
            elems.skip(k + 1),
            shapes@.skip(k + 1),
            fuel as nat,
        );
    }
    match de_tuple_items(interp, arr, shapes, k + 1, fuel) {
        Ok(mut rest) => {
            let ghost rest_view = rest@;
            rest.insert(0, head);
            proof {
                assert(rest@.drop_first() =~= rest_view);
                assert(rest@[0] == head);
                assert(view_items(rest@) =~= seq![data_view(head)] + view_items(rest_view));
            }
            Ok(rest)
        },
        Err(er) => Err(er),
    }
}

/// Decode a record variant's payload: dereference to a map and decode it as
/// a record.
#[verifier::rlimit(60)]
fn de_struct_payload(interp: &mut Interp, id: usize, fs: &Vec<FieldShape>, fuel: usize) -> (r:
    Result<Vec<DataField>, Error>)
    ensures
        de_frame(*old(interp), *final(interp)),
        !field_shapes_have_raw(fs@) ==> final(interp).cells@ == old(interp).cells@,
        ({
            match spec_decode_struct_payload(
                old(interp).cells@,
                old(interp).raw_enabled,
                id as int,
                fs@,
                fuel as nat,
            ) {
                Ok(vs) => (r matches Ok(out) && view_fields(out@) == vs) || (
                field_shapes_have_raw(fs@) && (exists|j: int|
                    0 <= j < final(interp).cells@.len() && final(interp).cells@[j].alive
                        && final(interp).cells@[j].rc == u64::MAX) && (r matches Err(e)
                && e.0@ == "raw value count exhausted"@)),
                Err(kk) => (r matches Err(e) && e.0@ == de_err_msg(kk)) || (
                field_shapes_have_raw(fs@) && (exists|j: int|
                    0 <= j < final(interp).cells@.len() && final(interp).cells@[j].alive
                        && final(interp).cells@[j].rc == u64::MAX) && (r matches Err(e)
                && e.0@ == "raw value count exhausted"@)),
            }
        }),
    decreases fuel, *fs, 2int, 0int,
{
    if fuel == 0 {
        return Error::fail("deserialization recursion limit reached");
    }
    if !(id < interp.cells.len() && interp.cells[id].alive) {
        return Error::fail("encountered a reclaimed value while deserializing");
    }
    let target_opt = match &interp.cells[id].repr {
        Repr::Ref { target } => Some(*target),
        _ => None,
    };
    if let Some(target) = target_opt {
        return de_struct_payload(interp, target, fs, fuel - 1);
    }
    if !matches!(&interp.cells[id].repr, Repr::Hash { .. }) {
        return Error::fail("expected struct variant");
    }
    proof {
        assert(fs@.skip(0) =~= fs@);
    }
    de_record(interp, id, fs, 0, fuel - 1)
}


/// Entry extraction from an encoded record: position `k` has the field's
/// name and an encoded value.
pub proof fn lemma_encodes_fields_index(
    cells: Seq<Cell>,
    entries: Seq<crate::interp::HashEntry>,
    fields: Seq<DataField>,
    k: int,
)
    requires
        crate::data::encodes_fields(cells, entries, fields),
        0 <= k < fields.len(),
    ensures
        entries.len() == fields.len(),
        entries[k].key@ == fields[k].name@,
        crate::data::encodes(cells, entries[k].val as int, fields[k].value),
    decreases k,
{
    if k > 0 {
        lemma_encodes_fields_index(cells, entries.drop_first(), fields.drop_first(), k - 1);
    }
}

/// Element extraction from an encoded sequence.
pub proof fn lemma_encodes_items_index(
    cells: Seq<Cell>,
    elems: Seq<usize>,
    items: Seq<Data>,
    k: int,
)
    requires
        crate::data::encodes_items(cells, elems, items),
        0 <= k < items.len(),
    ensures
        elems.len() == items.len(),
        crate::data::encodes(cells, elems[k] as int, items[k]),
    decreases k,
{
    if k > 0 {
        lemma_encodes_items_index(cells, elems.drop_first(), items.drop_first(), k - 1);
    }
}

/// With entry keys matching a distinct name list, the first index found for
/// the name at position `k` is `k` itself.
pub proof fn lemma_hash_index_exact(
    entries: Seq<crate::interp::HashEntry>,
    names: Seq<Seq<u8>>,
    k: int,
)
    requires
        entries.len() == names.len(),
        forall|j: int| 0 <= j < entries.len() ==> entries[j].key@ == names[j],
        forall|i: int, j: int| 0 <= i < j < names.len() ==> names[i] != names[j],
        0 <= k < entries.len(),
    ensures
        crate::hash::spec_hash_index(entries, names[k]) == k,
    decreases k,
{
    if k == 0 {
    } else {
        assert(names[0] != names[k]);
        assert(entries[0].key@ != names[k]);
        lemma_hash_index_exact(
            entries.drop_first(),
            names.drop_first(),
            k - 1,
        );
    }
}

/// The depth budget of a sequence covers each item.
pub proof fn lemma_fuel_items_ge(items: Seq<Data>, k: int)
    requires
        0 <= k < items.len(),
    ensures
        crate::data::fuel_items(items) >= crate::data::fuel_needed(items[k]),
    decreases k,
{
    if k > 0 {
        lemma_fuel_items_ge(items.drop_first(), k - 1);
    }
}

/// The depth budget of a record covers each field.
pub proof fn lemma_fuel_fields_ge(fields: Seq<DataField>, k: int)
    requires
        0 <= k < fields.len(),
    ensures
        crate::data::fuel_fields(fields) >= crate::data::fuel_needed(fields[k].value),
    decreases k,
{
    if k > 0 {
        lemma_fuel_fields_ge(fields.drop_first(), k - 1);
    }
}

/// Item fitting extraction.
pub proof fn lemma_fits_items_index(items: Seq<Data>, inner: Shape, k: int)
    requires
        crate::data::fits_items(items, inner),
        0 <= k < items.len(),
    ensures
        crate::data::fits(items[k], inner, true),
    decreases k,
{
    if k > 0 {
        lemma_fits_items_index(items.drop_first(), inner, k - 1);
    }
}

/// Map-field fitting extraction.
pub proof fn lemma_fits_dict_index(fields: Seq<DataField>, inner: Shape, k: int)
    requires
        crate::data::fits_dict_fields(fields, inner),
        0 <= k < fields.len(),
    ensures
        crate::data::fits(fields[k].value, inner, true),
    decreases k,
{
    if k > 0 {
        lemma_fits_dict_index(fields.drop_first(), inner, k - 1);
    }
}

/// Record fitting extraction: lengths agree, names line up, values fit.
pub proof fn lemma_fits_record_index(fields: Seq<DataField>, fs: Seq<FieldShape>, k: int)
    requires
        crate::data::fits_record(fields, fs),
        0 <= k < fs.len(),
    ensures
        fields.len() == fs.len(),
        fields[k].name@ == fs[k].name@,
        crate::data::fits(fields[k].value, fs[k].shape, true),
    decreases k,
{
    if k > 0 {
        lemma_fits_record_index(fields.drop_first(), fs.drop_first(), k - 1);
    }
}

/// Tuple fitting extraction.
pub proof fn lemma_fits_tuple_index(items: Seq<Data>, shapes: Seq<Shape>, k: int)
    requires
        crate::data::fits_tuple(items, shapes),
        0 <= k < items.len(),
    ensures
        shapes.len() == items.len(),
        crate::data::fits(items[k], shapes[k], true),
    decreases k,
{
    if k > 0 {
        lemma_fits_tuple_index(items.drop_first(), shapes.drop_first(), k - 1);
    }
}

/// Dynamic-shape fitting of items, as item fitting at the dynamic shape.
pub proof fn lemma_fits_any_items(items: Seq<Data>)
    requires
        crate::data::fits_any_items(items),
    ensures
        crate::data::fits_items(items, Shape::Any),
    decreases items,
{
    if items.len() > 0 {
        assert(crate::data::fits(items[0], Shape::Any, true));
        lemma_fits_any_items(items.drop_first());
    }
}

/// Dynamic-shape fitting of fields, as field fitting at the dynamic shape.
pub proof fn lemma_fits_any_fields(fields: Seq<DataField>)
    requires
        crate::data::fits_any_fields(fields),
    ensures
        crate::data::fits_dict_fields(fields, Shape::Any),
    decreases fields,
{
    if fields.len() > 0 {
        assert(crate::data::fits(fields[0].value, Shape::Any, true));
        lemma_fits_any_fields(fields.drop_first());
    }
}

/// Well-formedness extraction for record field shapes.
pub proof fn lemma_wf_field_shapes_index(fs: Seq<FieldShape>, k: int)
    requires
        crate::data::wf_field_shapes(fs),
        0 <= k < fs.len(),
    ensures
        crate::data::wf_shape(fs[k].shape),
    decreases k,
{
    if k > 0 {
        lemma_wf_field_shapes_index(fs.drop_first(), k - 1);
    }
}

/// Well-formedness extraction for positional shapes.
pub proof fn lemma_wf_shapes_index(shapes: Seq<Shape>, k: int)
    requires
        crate::data::wf_shapes(shapes),
        0 <= k < shapes.len(),
    ensures
        crate::data::wf_shape(shapes[k]),
    decreases k,
{
    if k > 0 {
        lemma_wf_shapes_index(shapes.drop_first(), k - 1);
    }
}

/// Well-formedness extraction for variants.
pub proof fn lemma_wf_variants_index(vars: Seq<VariantShape>, k: int)
    requires
        crate::data::wf_variant_shapes(vars),
        0 <= k < vars.len(),
    ensures
        match vars[k] {
            VariantShape::Unit(_) => true,
            VariantShape::Newtype(_, inner) => crate::data::wf_shape(*inner),
            VariantShape::Tuple(_, shapes) => crate::data::wf_shapes(shapes@),
            VariantShape::Struct(_, fs) => crate::data::field_names_distinct(fs@)
                && crate::data::wf_field_shapes(fs@),
        },
    decreases k,
{
    if k > 0 {
        lemma_wf_variants_index(vars.drop_first(), k - 1);
    }
}

/// With distinct tag names, the scan for the name at position `i` finds
/// exactly `i`.
pub proof fn lemma_variant_index_exact(vars: Seq<VariantShape>, i: int)
    requires
        crate::data::variant_names_distinct(vars),
        0 <= i < vars.len(),
    ensures
        crate::data::spec_variant_index(vars, crate::data::variant_name(vars[i])) == i,
    decreases i,
{
    if i == 0 {
    } else {
        assert(crate::data::variant_name(vars[0]) != crate::data::variant_name(vars[i]));
        lemma_variant_index_exact(vars.drop_first(), i - 1);
    }
}

/// No raw escape sits along a chain of present-optional wrappers.
pub open spec fn spine_no_raw(d: Data) -> bool
    decreases d,
{
    match d {
        Data::Raw(_) => false,
        Data::OptSome(x) => spine_no_raw(*x),
        _ => true,
    }
}

/// Fitting data never has a raw escape along its optional spine.
pub proof fn lemma_fits_spine_no_raw(d: Data, s: Shape, allowed: bool)
    requires
        crate::data::fits(d, s, allowed),
    ensures
        spine_no_raw(d),
    decreases d, s,
{
    match s {
        Shape::Opt(inner) => {
            match d {
                Data::OptSome(x) => {
                    if crate::data::is_undef_data(*x) {
                        assert(*x is Unit);
                        assert(spine_no_raw(*x));
                    } else {
                        lemma_fits_spine_no_raw(*x, *inner, false);
                    }
                },
                _ => {},
            }
        },
        Shape::Enum(vars) => {
            assert(crate::data::fits(d, s, allowed) == crate::data::fits_enum(d, vars@));
        },
        Shape::Any => {
            assert(crate::data::fits(d, s, allowed) == crate::data::fits_any(d));
        },
        _ => {},
    }
}

/// With the undefined-as-absent rule suppressed, no present optional fits.
pub proof fn lemma_fits_not_optsome(d: Data, s: Shape)
    requires
        crate::data::fits(d, s, false),
    ensures
        !(d is OptSome),
{
    match s {
        Shape::Opt(_) => {},
        Shape::Enum(vars) => {
            assert(crate::data::fits(d, s, false) == crate::data::fits_enum(d, vars@));
        },
        Shape::Any => {
            assert(crate::data::fits(d, s, false) == crate::data::fits_any(d));
        },
        _ => {},
    }
}

/// Data that does not serialize to the undefined singleton never lies in an
/// undefined cell.
pub proof fn lemma_encodes_not_undef(cells: Seq<Cell>, id: int, d: Data)
    requires
        crate::data::encodes(cells, id, d),
        !crate::data::is_undef_data(d),
        spine_no_raw(d),
    ensures
        !(cells[id].repr is Undef),
    decreases d,
{
    match d {
        Data::OptSome(x) => {
            lemma_encodes_not_undef(cells, id, *x);
        },
        _ => {},
    }
}


/// The round-trip law for sequence items: encoded elements decode back to
/// exactly the items' views.
pub proof fn lemma_rt_items(
    cells: Seq<Cell>,
    raw_on: bool,
    elems: Seq<usize>,
    items: Seq<Data>,
    inner: Shape,
    fuel: nat,
)
    requires
        crate::data::encodes_items(cells, elems, items),
        crate::data::fits_items(items, inner),
        crate::data::wf_shape(inner),
        fuel >= crate::data::fuel_items(items),
    ensures
        spec_decode_items(cells, raw_on, elems, inner, fuel) == Ok::<
            Seq<DataView>,
            DeErr,
        >(view_items(items)),
    decreases items, inner, 1int,
{
    if items.len() > 0 {
        lemma_round_trip(cells, raw_on, elems[0] as int, items[0], inner, true, fuel);
        lemma_rt_items(cells, raw_on, elems.drop_first(), items.drop_first(), inner, fuel);
    }
}

/// The round-trip law for map entries: keys are kept and values decode back.
pub proof fn lemma_rt_dict(
    cells: Seq<Cell>,
    raw_on: bool,
    entries: Seq<crate::interp::HashEntry>,
    fields: Seq<DataField>,
    inner: Shape,
    fuel: nat,
)
    requires
        crate::data::encodes_fields(cells, entries, fields),
        crate::data::fits_dict_fields(fields, inner),
        crate::data::wf_shape(inner),
        fuel >= crate::data::fuel_fields(fields),
    ensures
        spec_decode_dict(cells, raw_on, entries, inner, fuel) == Ok::<
            Seq<(Seq<u8>, DataView)>,
            DeErr,
        >(view_fields(fields)),
    decreases fields, inner, 1int,
{
    if fields.len() > 0 {
        lemma_round_trip(
            cells,
            raw_on,
            entries[0].val as int,
            fields[0].value,
            inner,
            true,
            fuel,
        );
        lemma_rt_dict(
            cells,
            raw_on,
            entries.drop_first(),
            fields.drop_first(),
            inner,
            fuel,
        );
    }
}

/// The round-trip law for records, from field `j` on: every field is found
/// under its own name (the names are distinct) and decodes back in shape
/// order.
pub proof fn lemma_rt_record(
    cells: Seq<Cell>,
    raw_on: bool,
    entries: Seq<crate::interp::HashEntry>,
    fields: Seq<DataField>,
    fs: Seq<FieldShape>,
    j: int,
    fuel: nat,
)
    requires
        crate::data::encodes_fields(cells, entries, fields),
        crate::data::fits_record(fields, fs),
        crate::data::field_names_distinct(fs),
        crate::data::wf_field_shapes(fs),
        0 <= j <= fs.len(),
        fuel >= crate::data::fuel_fields(fields),
    ensures
        spec_decode_record(cells, raw_on, entries, fs.skip(j), fuel) == Ok::<
            Seq<(Seq<u8>, DataView)>,
            DeErr,
        >(view_fields(fields.skip(j))),
    decreases fields, fs, fs.len() - j,
{
    if j == fs.len() {
        assert(fs.skip(j) =~= Seq::<FieldShape>::empty());
        if fields.len() > 0 {
            lemma_fits_record_index(fields, fs, 0);
        }
        assert(fields.skip(j) =~= Seq::<DataField>::empty());
    } else {
        let names = Seq::new(fs.len(), |k: int| fs[k].name@);
        assert forall|k: int| 0 <= k < entries.len() implies entries[k].key@ == names[k] by {
            lemma_encodes_fields_index(cells, entries, fields, k);
            lemma_fits_record_index(fields, fs, k);
        }
        lemma_fits_record_index(fields, fs, j);
        lemma_encodes_fields_index(cells, entries, fields, j);
        assert(entries.len() == names.len()) by {
            lemma_fits_record_index(fields, fs, 0);
            if fields.len() > 0 {
                lemma_encodes_fields_index(cells, entries, fields, 0);
            }
        }
        lemma_hash_index_exact(entries, names, j);
        assert(fs.skip(j)[0] == fs[j]);
        assert(crate::hash::spec_hash_index(entries, fs.skip(j)[0].name@) == j);
        lemma_wf_field_shapes_index(fs, j);
        lemma_fuel_fields_ge(fields, j);
        lemma_round_trip(
            cells,
            raw_on,
            entries[j].val as int,
            fields[j].value,
            fs[j].shape,
            true,
            fuel,
        );
        lemma_rt_record(cells, raw_on, entries, fields, fs, j + 1, fuel);
        assert(fs.skip(j).drop_first() =~= fs.skip(j + 1));
        assert(fields.skip(j)[0] == fields[j]);
        assert(fields.skip(j).drop_first() =~= fields.skip(j + 1));
        assert(view_fields(fields.skip(j)) =~= seq![
            (fields[j].name@, data_view(fields[j].value)),
        ] + view_fields(fields.skip(j + 1)));
    }
}

/// The round-trip law for tuple elements.
pub proof fn lemma_rt_tuple_items(
    cells: Seq<Cell>,
    raw_on: bool,
    elems: Seq<usize>,
    items: Seq<Data>,
    shapes: Seq<Shape>,
    fuel: nat,
)
    requires
        crate::data::encodes_items(cells, elems, items),
        crate::data::fits_tuple(items, shapes),
        crate::data::wf_shapes(shapes),
        fuel >= crate::data::fuel_items(items),
    ensures
        spec_decode_tuple_items(cells, raw_on, elems, shapes, fuel) == Ok::<
            Seq<DataView>,
            DeErr,
        >(view_items(items)),
    decreases items, shapes, 1int,
{
    if items.len() > 0 {
        lemma_round_trip(cells, raw_on, elems[0] as int, items[0], shapes[0], true, fuel);
        lemma_rt_tuple_items(
            cells,
            raw_on,
            elems.drop_first(),
            items.drop_first(),
            shapes.drop_first(),
            fuel,
        );
    } else {
        assert(shapes.len() == 0);
    }
}

/// Round trip: data laid out by the serializer and fitting the requested
/// shape decodes back to exactly itself, whenever the depth budget covers
/// the tree.  This holds for every supported scalar, optional, sequence,
/// record and externally tagged variant shape; for a doubly optional shape
/// it holds of the canonical image, where the undefined singleton reads as
/// a present-but-absent optional rather than the outer absence.
#[verifier::rlimit(100)]
#[verifier::spinoff_prover]
pub proof fn lemma_round_trip(
    cells: Seq<Cell>,
    raw_on: bool,
    id: int,
    d: Data,
    s: Shape,
    allowed: bool,
    fuel: nat,
)
    requires
        crate::data::encodes(cells, id, d),
        crate::data::fits(d, s, allowed),
        crate::data::wf_shape(s),
        fuel >= crate::data::fuel_needed(d),
    ensures
        spec_decode(cells, raw_on, id, s, allowed, fuel) == Ok::<DataView, DeErr>(
            data_view(d),
        ),
    decreases d, s, 1int,
{
    match s {
        Shape::Bool => {},
        Shape::I64 => {},
        Shape::U64 => {},
        Shape::Str => {},
        Shape::Bytes => {},
        Shape::Opt(inner) => {
            lemma_rt_opt(cells, raw_on, id, d, s, allowed, fuel);
        },
        Shape::List(inner) => {
            let items = d->List_0;
            let t = cells[id].repr->Ref_target as int;
            assert(spec_decode(cells, raw_on, id, s, allowed, fuel) == spec_decode(
                cells,
                raw_on,
                t,
                s,
                allowed,
                (fuel - 1) as nat,
            ));
            lemma_rt_items(
                cells,
                raw_on,
                cells[t].repr->Array_elems@,
                items@,
                *inner,
                (fuel - 2) as nat,
            );
        },
        Shape::Dict(inner) => {
            let fields = d->Dict_0;
            let t = cells[id].repr->Ref_target as int;
            assert(spec_decode(cells, raw_on, id, s, allowed, fuel) == spec_decode(
                cells,
                raw_on,
                t,
                s,
                allowed,
                (fuel - 1) as nat,
            ));
            lemma_rt_dict(
                cells,
                raw_on,
                cells[t].repr->Hash_entries@,
                fields@,
                *inner,
                (fuel - 2) as nat,
            );
        },
        Shape::Record(fs) => {
            let fields = d->Dict_0;
            let t = cells[id].repr->Ref_target as int;
            assert(fs@.skip(0) =~= fs@);
            assert(fields@.skip(0) =~= fields@);
            assert(spec_decode(cells, raw_on, id, s, allowed, fuel) == spec_decode(
                cells,
                raw_on,
                t,
                s,
                allowed,
                (fuel - 1) as nat,
            ));
            lemma_rt_record(
                cells,
                raw_on,
                cells[t].repr->Hash_entries@,
                fields@,
                fs@,
                0,
                (fuel - 2) as nat,
            );
        },
        Shape::Enum(vars) => {
            lemma_rt_enum(cells, raw_on, id, d, s, allowed, fuel);
        },
        Shape::Any => {
            match d {
                Data::List(items) => {
                    let t = cells[id].repr->Ref_target as int;
                    lemma_fits_any_items(items@);
                    assert(spec_decode(cells, raw_on, id, s, allowed, fuel) == spec_decode(
                        cells,
                        raw_on,
                        t,
                        s,
                        allowed,
                        (fuel - 1) as nat,
                    ));
                    lemma_rt_items(
                        cells,
                        raw_on,
                        cells[t].repr->Array_elems@,
                        items@,
                        Shape::Any,
                        (fuel - 2) as nat,
                    );
                },
                Data::Dict(fields) => {
                    let t = cells[id].repr->Ref_target as int;
                    lemma_fits_any_fields(fields@);
                    assert(spec_decode(cells, raw_on, id, s, allowed, fuel) == spec_decode(
                        cells,
                        raw_on,
                        t,
                        s,
                        allowed,
                        (fuel - 1) as nat,
                    ));
                    lemma_rt_dict(
                        cells,
                        raw_on,
                        cells[t].repr->Hash_entries@,
                        fields@,
                        Shape::Any,
                        (fuel - 2) as nat,
                    );
                },
                _ => {},
            }
        },
        Shape::Raw => {},
    }
}

/// The optional case of the round-trip law.
#[verifier::rlimit(100)]
#[verifier::spinoff_prover]
proof fn lemma_rt_opt(
    cells: Seq<Cell>,
    raw_on: bool,
    id: int,
    d: Data,
    s: Shape,
    allowed: bool,
    fuel: nat,
)
    requires
        s is Opt,
        crate::data::encodes(cells, id, d),
        crate::data::fits(d, s, allowed),
        crate::data::wf_shape(s),
        fuel >= crate::data::fuel_needed(d),
    ensures
        spec_decode(cells, raw_on, id, s, allowed, fuel) == Ok::<DataView, DeErr>(
            data_view(d),
        ),
    decreases d, s, 0int,
{
    let inner = s->Opt_0;
    match d {
        Data::Unit => {},
        Data::OptSome(x) => {
            assert(allowed);
            if crate::data::is_undef_data(*x) {
                assert(*inner is Opt && *x is Unit);
                assert(crate::data::encodes(cells, id, *x));
                assert(cells[id].repr is Undef);
                assert(crate::data::fuel_needed(d) == crate::data::fuel_needed(*x));
                assert(crate::data::fuel_needed(*x) == 1);
                assert(fuel >= 1);
                assert(0 <= id < cells.len() && cells[id].alive);
                assert(crate::scalar::spec_force(cells[id].repr) is Undef);
                assert(!(*inner is Raw));
                assert(spec_decode(cells, raw_on, id, *inner, false, fuel) == Ok::<
                    DataView,
                    DeErr,
                >(DataView::Unit));
            } else {
                assert(crate::data::encodes(cells, id, *x));
                lemma_fits_spine_no_raw(*x, *inner, false);
                lemma_encodes_not_undef(cells, id, *x);
                lemma_round_trip(cells, raw_on, id, *x, *inner, false, fuel);
                if cells[id].repr is Ref {
                    let t = cells[id].repr->Ref_target as int;
                    lemma_fits_not_optsome(*x, *inner);
                    // The target holds a container: scalar layouts are never
                    // references.
                    match *x {
                        Data::List(items) => {
                            assert(cells[t].repr is Array);
                        },
                        Data::Dict(fields) => {
                            assert(cells[t].repr is Hash);
                        },
                        Data::NewtypeVariant(_, _) => {
                            assert(cells[t].repr is Hash);
                        },
                        Data::TupleVariant(_, _) => {
                            assert(cells[t].repr is Hash);
                        },
                        Data::StructVariant(_, _) => {
                            assert(cells[t].repr is Hash);
                        },
                        _ => {
                            assert(false);
                        },
                    }
                    assert(!(cells[t].repr is Undef));
                    assert(!(cells[t].repr is Ref));
                    assert(spec_decode(cells, raw_on, id, *inner, false, fuel)
                        == spec_decode(cells, raw_on, t, *inner, false, (fuel - 1) as nat));
                    assert(spec_decode(cells, raw_on, id, s, allowed, fuel) == spec_decode(
                        cells,
                        raw_on,
                        t,
                        s,
                        allowed,
                        (fuel - 1) as nat,
                    ));
                }
            }
        },
        _ => {},
    }
}

/// The externally tagged choice case of the round-trip law.
#[verifier::rlimit(100)]
#[verifier::spinoff_prover]
proof fn lemma_rt_enum(
    cells: Seq<Cell>,
    raw_on: bool,
    id: int,
    d: Data,
    s: Shape,
    allowed: bool,
    fuel: nat,
)
    requires
        s is Enum,
        crate::data::encodes(cells, id, d),
        crate::data::fits(d, s, allowed),
        crate::data::wf_shape(s),
        fuel >= crate::data::fuel_needed(d),
    ensures
        spec_decode(cells, raw_on, id, s, allowed, fuel) == Ok::<DataView, DeErr>(
            data_view(d),
        ),
    decreases d, s, 0int,
{
    let vars = s->Enum_0;
    assert(crate::data::fits_enum(d, vars@));
    assert(crate::data::variant_names_distinct(vars@));
    assert(crate::data::wf_variant_shapes(vars@));
    match d {
        Data::UnitVariant(name) => {
            let i = crate::data::spec_variant_index(vars@, name@);
            crate::data::lemma_variant_index_le_len(vars@, name@);
        },
        Data::NewtypeVariant(name, x) => {
            let t = cells[id].repr->Ref_target as int;
            assert(spec_decode(cells, raw_on, id, s, allowed, fuel) == spec_decode(
                cells,
                raw_on,
                t,
                s,
                allowed,
                (fuel - 1) as nat,
            ));
            let i = crate::data::spec_variant_index(vars@, name@);
            crate::data::lemma_variant_index_le_len(vars@, name@);
            lemma_wf_variants_index(vars@, i);
            let v = crate::data::payload_of(cells, t) as int;
            match vars@[i] {
                VariantShape::Newtype(_, inner) => {
                    lemma_round_trip(cells, raw_on, v, *x, *inner, true, (fuel - 2) as nat);
                },
                _ => {
                    assert(false);
                },
            }
        },
        Data::TupleVariant(name, items) => {
            let t = cells[id].repr->Ref_target as int;
            assert(spec_decode(cells, raw_on, id, s, allowed, fuel) == spec_decode(
                cells,
                raw_on,
                t,
                s,
                allowed,
                (fuel - 1) as nat,
            ));
            let i = crate::data::spec_variant_index(vars@, name@);
            crate::data::lemma_variant_index_le_len(vars@, name@);
            lemma_wf_variants_index(vars@, i);
            let v = crate::data::payload_of(cells, t) as int;
            let vt = cells[v].repr->Ref_target as int;
            match vars@[i] {
                VariantShape::Tuple(_, shapes) => {
                    lemma_rt_tuple_items(
                        cells,
                        raw_on,
                        cells[vt].repr->Array_elems@,
                        items@,
                        shapes@,
                        (fuel - 4) as nat,
                    );
                    assert(spec_decode_tuple_payload(
                        cells,
                        raw_on,
                        v,
                        shapes@,
                        (fuel - 2) as nat,
                    ) == spec_decode_tuple_payload(
                        cells,
                        raw_on,
                        vt,
                        shapes@,
                        (fuel - 3) as nat,
                    ));
                    assert(spec_decode_tuple_payload(
                        cells,
                        raw_on,
                        vt,
                        shapes@,
                        (fuel - 3) as nat,
                    ) == spec_decode_tuple_items(
                        cells,
                        raw_on,
                        cells[vt].repr->Array_elems@,
                        shapes@,
                        (fuel - 4) as nat,
                    ));
                },
                _ => {
                    assert(false);
                },
            }
        },
        Data::StructVariant(name, fields) => {
            let t = cells[id].repr->Ref_target as int;
            assert(spec_decode(cells, raw_on, id, s, allowed, fuel) == spec_decode(
                cells,
                raw_on,
                t,
                s,
                allowed,
                (fuel - 1) as nat,
            ));
            let i = crate::data::spec_variant_index(vars@, name@);
            crate::data::lemma_variant_index_le_len(vars@, name@);
            lemma_wf_variants_index(vars@, i);
            let v = crate::data::payload_of(cells, t) as int;
            let vt = cells[v].repr->Ref_target as int;
            match vars@[i] {
                VariantShape::Struct(_, fs) => {
                    assert(fs@.skip(0) =~= fs@);
                    assert(fields@.skip(0) =~= fields@);
                    lemma_rt_record(
                        cells,
                        raw_on,
                        cells[vt].repr->Hash_entries@,
                        fields@,
                        fs@,
                        0,
                        (fuel - 4) as nat,
                    );
                    assert(spec_decode_struct_payload(
                        cells,
                        raw_on,
                        v,
                        fs@,
                        (fuel - 2) as nat,
                    ) == spec_decode_struct_payload(
                        cells,
                        raw_on,
                        vt,
                        fs@,
                        (fuel - 3) as nat,
                    ));
                    assert(spec_decode_struct_payload(
                        cells,
                        raw_on,
                        vt,
                        fs@,
                        (fuel - 3) as nat,
                    ) == spec_decode_record(
                        cells,
                        raw_on,
                        cells[vt].repr->Hash_entries@,
                        fs@,
                        (fuel - 4) as nat,
                    ));
                },
                _ => {
                    assert(false);
                },
            }
        },
        _ => {},
    }
}



/// Deserialize a borrowed dynamic value at the requested shape.  The raw
/// escape is recognized for the duration of the call; the flag is restored
/// on every path out.  The depth budget is the size of the store, which
/// covers any value the serializer can have produced; only a cyclic
/// reference chain exhausts it.
pub fn from_ref_value(interp: &mut Interp, v: &Value, shape: &Shape) -> (r: Result<Data, Error>)
    ensures
        de_frame(*old(interp), *final(interp)),
        !shape_has_raw(*shape) ==> final(interp).cells@ == old(interp).cells@,
        de_matches(
            spec_decode(
                old(interp).cells@,
                true,
                v.sv_id(),
                *shape,
                true,
                old(interp).cells@.len(),
            ),
            r,
            *shape,
            final(interp).cells@,
        ),
        (*shape is Raw && r is Ok) ==> ({
            &&& old(interp).cells@[v.sv_id()].rc < u64::MAX
            &&& Interp::only_cell_updated(*old(interp), *final(interp), v.sv_id())
            &&& final(interp).cells@[v.sv_id()] == (Cell {
                rc: (old(interp).cells@[v.sv_id()].rc + 1) as u64,
                ..old(interp).cells@[v.sv_id()]
            })
        }),
        (*shape is Raw && old(interp).cells@.len() >= 1 && old(interp).is_alive(v.sv_id())
            && old(interp).cells@[v.sv_id()].rc < u64::MAX) ==> r is Ok,
        (*shape is Raw && old(interp).is_alive(v.sv_id()) && old(interp).cells@[v.sv_id()].rc
            == u64::MAX) ==> (r matches Err(e) && e.0@ == "raw value count exhausted"@),
{
    let prev = interp.swap_raw_flag(true);
    let fuel = interp.cells.len();
    let r = de_value(interp, v.raw_id(), shape, true, fuel);
    let ghost mid = *interp;
    let _restored = interp.swap_raw_flag(prev);
    proof {
        assert(final(interp).cells@ == mid.cells@);
    }
    r
}

/// Deserialize an owned dynamic value at the requested shape, consuming
/// it: the handle's ownership unit goes to the deferred-free list once the
/// data has been read out, to be released at the end of the enclosing
/// scope block.  Through the raw escape this is the identity-preserving
/// passthrough: the named cell comes back under the same identity with its
/// count up by exactly the one unit the result now carries — so a
/// serialize/deserialize round trip of a live value nets exactly one unit
/// once the scope's deferred entries drop.
pub fn from_value(interp: &mut Interp, v: Value, shape: &Shape) -> (r: Result<Data, Error>)
    requires
        old(interp).valid_unit(v.sv_id()),
        old(interp).mortals@.len() < usize::MAX,
    ensures
        Interp::same_env(*old(interp), *final(interp)),
        Interp::same_freed(*old(interp), *final(interp)),
        final(interp).stack@ == old(interp).stack@,
        final(interp).marks@ == old(interp).marks@,
        final(interp).tmps@ == old(interp).tmps@,
        final(interp).mortals@ == old(interp).mortals@.push(v.spec_sv().id),
        final(interp).cells@.len() == old(interp).cells@.len(),
        forall|j: int|
            0 <= j < old(interp).cells@.len() ==> final(interp).cells@[j] == (Cell {
                rc: final(interp).cells@[j].rc,
                ..old(interp).cells@[j]
            }) && old(interp).cells@[j].rc <= final(interp).cells@[j].rc,
        !shape_has_raw(*shape) ==> final(interp).cells@ == old(interp).cells@,
        de_matches(
            spec_decode(
                old(interp).cells@,
                true,
                v.sv_id(),
                *shape,
                true,
                old(interp).cells@.len(),
            ),
            r,
            *shape,
            final(interp).cells@,
        ),
        (*shape is Raw && r is Ok) ==> ({
            &&& forall|j: int|
                0 <= j < old(interp).cells@.len() && j != v.sv_id() ==> final(interp).cells@[j] == old(interp).cells@[j]
            &&& final(interp).cells@[v.sv_id()] == (Cell {
                rc: (old(interp).cells@[v.sv_id()].rc + 1) as u64,
                ..old(interp).cells@[v.sv_id()]
            })
        }),
        (*shape is Raw && old(interp).cells@.len() >= 1 && old(interp).cells@[v.sv_id()].rc
            < u64::MAX) ==> r is Ok,
        (*shape is Raw && old(interp).cells@[v.sv_id()].rc == u64::MAX) ==> (r matches Err(e)
            && e.0@ == "raw value count exhausted"@),
{
    let r = from_ref_value(interp, &v, shape);
    let _deferred = v.into_mortal(interp);
    r
}

/// A deserialization in progress: the current input value and whether the
/// treat-undefined-as-absent rule is active.
pub struct Deserializer {
    pub input: Value,
    pub option_allowed: bool,
}

impl Deserializer {
    /// Start deserializing an owned value.
    pub fn from_value(input: Value) -> (r: Deserializer)
        ensures
            r.input == input,
            r.option_allowed,
    {
        Deserializer { input, option_allowed: true }
    }

    /// Follow reference cells until the input is no longer a reference,
    /// releasing each intermediate handle; fails on a dangling target or a
    /// cyclic chain.
    pub fn deref_current(&mut self, interp: &mut Interp) -> (r: Result<(), Error>)
        requires
            old(interp).valid_unit(old(self).input.sv_id()),
        ensures
            Interp::same_env(*old(interp), *final(interp)),
            final(interp).cells@.len() == old(interp).cells@.len(),
            final(interp).stack@ == old(interp).stack@,
            final(interp).marks@ == old(interp).marks@,
            final(interp).tmps@ == old(interp).tmps@,
            final(self).option_allowed == old(self).option_allowed,
            r is Ok ==> !(final(self).input is Reference) && final(interp).valid_unit(
                final(self).input.sv_id(),
            ),
    {
        let ghost pre = *interp;
        let mut fuel = interp.cells.len();
        loop
            invariant
                pre == *old(interp),
                Interp::same_env(pre, *interp),
                interp.cells@.len() == pre.cells@.len(),
                interp.stack@ == pre.stack@,
                interp.marks@ == pre.marks@,
                interp.tmps@ == pre.tmps@,
                interp.valid_unit(self.input.sv_id()),
                self.option_allowed == old(self).option_allowed,
            decreases fuel,
        {
            if !matches!(self.input, Value::Reference(_)) {
                return Ok(());
            }
            if fuel == 0 {
                return Error::fail("deserialization recursion limit reached");
            }
            if interp.mortals.len() == usize::MAX {
                return Error::fail("deferred-free list exhausted");
            }
            fuel = fuel - 1;
            let target_ok = {
                let c = &interp.cells[self.input.raw_id()];
                match &c.repr {
                    Repr::Ref { target } => {
                        if *target < interp.cells.len() && interp.cells[*target].alive {
                            interp.cells[*target].rc < u64::MAX
                        } else {
                            true
                        }
                    },
                    _ => true,
                }
            };
            if !target_ok {
                return Error::fail("raw value count exhausted");
            }
            let next = match self.input.dereference(interp) {
                Some(n) => n,
                None => {
                    return Error::fail(
                        "failed to dereference a reference while deserializing",
                    );
                },
            };
            let mut cur = next;
            core::mem::swap(&mut self.input, &mut cur);
            // The consumed reference handle is deferred to the free list.
            let m = cur.into_mortal(interp);
        }
    }

    /// The input is a plain value this model can deserialize; the host's
    /// other representations do not occur here.
    pub fn sanity_check(&self, interp: &Interp) -> (r: Result<(), Error>)
        ensures
            r is Ok,
    {
        Ok(())
    }

    /// Dereference and check, handing back the current input: a live,
    /// concrete (non-reference) value.
    pub fn get(&mut self, interp: &mut Interp) -> (r: Result<&Value, Error>)
        requires
            old(interp).valid_unit(old(self).input.sv_id()),
        ensures
            Interp::same_env(*old(interp), *final(interp)),
            final(interp).stack@ == old(interp).stack@,
            final(interp).marks@ == old(interp).marks@,
            final(self).option_allowed == old(self).option_allowed,
            r matches Ok(v) ==> *v == final(self).input && !(final(self).input is Reference)
                && final(interp).valid_unit(final(self).input.sv_id()),
    {
        match self.deref_current(interp) {
            Ok(_) => {},
            Err(e) => {
                return Err(e);
            },
        }
        match self.sanity_check(interp) {
            Ok(_) => {},
            Err(e) => {
                return Err(e);
            },
        }
        Ok(&self.input)
    }
}

/// Map visitation state for a deserialization: walks the map's shared
/// cursor, which it resets on creation.
pub struct HashAccess {
    pub hv: crate::interp::HV,
    pub at_value: bool,
}

impl HashAccess {
    /// Start visiting a map: any iteration already in flight starts over.
    pub fn new(interp: &mut Interp, value: &crate::hash::Hash) -> (r: HashAccess)
        requires
            old(interp).is_alive(value.id()),
        ensures
            r.hv.id as int == value.id(),
            !r.at_value,
            Interp::only_cell_updated(*old(interp), *final(interp), value.id()),
            final(interp).cells@[value.id()] == (Cell {
                cursor: 0,
                ..old(interp).cells@[value.id()]
            }),
    {
        let it = value.shared_iter(interp);
        HashAccess { hv: it.hv, at_value: false }
    }
}

/// Sequence visitation state for a deserialization.
pub struct ArrayAccess {
    pub av: crate::interp::AV,
    pub at: usize,
}

impl ArrayAccess {
    /// Start visiting a sequence from its first element.
    pub fn new(value: &crate::array::Array) -> (r: ArrayAccess)
        ensures
            r.av.id as int == value.id(),
            r.at == 0,
    {
        ArrayAccess { av: AV { id: value.0.sv.id }, at: 0 }
    }
}


/// Optional nesting does not collapse: the undefined singleton, read at a
/// doubly optional shape, comes back as a present-but-absent optional — the
/// treat-undefined-as-absent rule is suppressed one level deep — rather
/// than as the outer absence.
pub proof fn lemma_optional_nesting(cells: Seq<Cell>, raw_on: bool, id: int, s: Shape, fuel: nat)
    requires
        0 <= id < cells.len(),
        cells[id].alive,
        cells[id].repr is Undef,
        s is Opt && (*s->Opt_0) is Opt,
        crate::data::wf_shape(s),
        fuel >= 1,
    ensures
        spec_decode(cells, raw_on, id, s, true, fuel) == Ok::<DataView, DeErr>(
            DataView::OptSome(Box::new(DataView::Unit)),
        ),
{
    let d = Data::OptSome(Box::new(Data::Unit));
    assert(crate::data::encodes(cells, id, Data::Unit));
    assert(crate::data::encodes(cells, id, d));
    assert(crate::data::is_undef_data(Data::Unit));
    assert(crate::data::fits(d, s, true));
    assert(crate::data::fuel_needed(d) == crate::data::fuel_needed(Data::Unit));
    lemma_round_trip(cells, raw_on, id, d, s, true, fuel);
    assert(data_view(d) == DataView::OptSome(Box::new(data_view(Data::Unit))));
}

/// Raw passthrough preserves identity: with the scoped flag on, a live cell
/// read at the raw shape comes back as exactly its own identity, without
/// recursing into it; with the flag off, the same request is refused
/// explicitly.  The executable entry points pair this with acquiring
/// exactly one ownership unit on that cell.
pub proof fn lemma_raw_identity(cells: Seq<Cell>, raw_on: bool, id: int, allowed: bool, fuel: nat)
    requires
        0 <= id < cells.len(),
        cells[id].alive,
        fuel >= 1,
    ensures
        raw_on ==> spec_decode(cells, raw_on, id, Shape::Raw, allowed, fuel) == Ok::<
            DataView,
            DeErr,
        >(DataView::Raw(id)),
        !raw_on ==> spec_decode(cells, raw_on, id, Shape::Raw, allowed, fuel) == Err::<
            DataView,
            DeErr,
        >(DeErr::RawDisabled),
{
}

} // verus!
