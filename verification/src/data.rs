//! The statically shaped data the marshaling layer converts: a tree of
//! scalars, optionals, sequences, keyed records and externally tagged
//! variants, plus the raw-passthrough escape, together with the shape
//! descriptions that drive deserialization.
//!
//! [`encodes`] states how a data tree lies in the cell store after
//! serialization; [`fits`] says which trees a shape decodes back unchanged.

use vstd::prelude::*;

use crate::coerce;
use crate::interp::{Cell, Repr};

verus! {

/// A statically shaped datum.
#[derive(Debug, PartialEq, Eq)]
pub enum Data {
    /// A boolean; serialized as the integer zero or one.
    Bool(bool),
    /// A signed integer.
    I64(i64),
    /// An unsigned integer.
    U64(u64),
    /// Text, as its encoded bytes.
    Str(Vec<u8>),
    /// A plain byte string.
    Bytes(Vec<u8>),
    /// No value: the unit, or an absent optional.
    Unit,
    /// A present optional.
    OptSome(Box<Data>),
    /// An ordered sequence or tuple.
    List(Vec<Data>),
    /// A keyed record or map, in field order.
    Dict(Vec<DataField>),
    /// A fieldless variant, externally tagged by its name.
    UnitVariant(Vec<u8>),
    /// A one-field variant.
    NewtypeVariant(Vec<u8>, Box<Data>),
    /// A tuple variant.
    TupleVariant(Vec<u8>, Vec<Data>),
    /// A record variant.
    StructVariant(Vec<u8>, Vec<DataField>),
    /// The raw-passthrough escape: the identity of an existing cell, with
    /// one ownership unit riding on it.
    Raw(usize),
}

/// One named field of a record datum.
#[derive(Debug, PartialEq, Eq)]
pub struct DataField {
    pub name: Vec<u8>,
    pub value: Data,
}

/// A type description driving deserialization.
pub enum Shape {
    Bool,
    I64,
    U64,
    Str,
    Bytes,
    /// An optional of the inner shape.
    Opt(Box<Shape>),
    /// A sequence of the inner shape.
    List(Box<Shape>),
    /// A map with text keys and values of the inner shape.
    Dict(Box<Shape>),
    /// A record with the given fields.
    Record(Vec<FieldShape>),
    /// An externally tagged choice of variants.
    Enum(Vec<VariantShape>),
    /// No static expectation: dynamic shape decides.
    Any,
    /// The raw-passthrough escape.
    Raw,
}

/// One named field of a record shape.
pub struct FieldShape {
    pub name: Vec<u8>,
    pub shape: Shape,
}

/// One variant of a choice shape.
pub enum VariantShape {
    Unit(Vec<u8>),
    Newtype(Vec<u8>, Box<Shape>),
    Tuple(Vec<u8>, Vec<Shape>),
    Struct(Vec<u8>, Vec<FieldShape>),
}

/// The tag name of a variant shape.
pub open spec fn variant_name(v: VariantShape) -> Seq<u8> {
    match v {
        VariantShape::Unit(n) => n@,
        VariantShape::Newtype(n, _) => n@,
        VariantShape::Tuple(n, _) => n@,
        VariantShape::Struct(n, _) => n@,
    }
}

/// First variant index with the given tag name, or the length when none.
pub open spec fn spec_variant_index(vars: Seq<VariantShape>, name: Seq<u8>) -> int
    decreases vars.len(),
{
    if vars.len() == 0 {
        0
    } else if variant_name(vars[0]) == name {
        0
    } else {
        1 + spec_variant_index(vars.drop_first(), name)
    }
}

/// The first variant index never passes the length and lands on the name.
pub proof fn lemma_variant_index_le_len(vars: Seq<VariantShape>, name: Seq<u8>)
    ensures
        0 <= spec_variant_index(vars, name) <= vars.len(),
        spec_variant_index(vars, name) < vars.len() ==> variant_name(
            vars[spec_variant_index(vars, name)],
        ) == name,
    decreases vars.len(),
{
    if vars.len() > 0 && variant_name(vars[0]) != name {
        lemma_variant_index_le_len(vars.drop_first(), name);
    }
}

/// The data serializes to the undefined singleton: no value, under any
/// number of present-optional wrappers.
pub open spec fn is_undef_data(d: Data) -> bool
    decreases d,
{
    match d {
        Data::Unit => true,
        Data::OptSome(x) => is_undef_data(*x),
        _ => false,
    }
}

/// Well-formed data: every keyed record has pairwise distinct field names,
/// so that serialization drops nothing.
pub open spec fn data_wf(d: Data) -> bool
    decreases d,
{
    match d {
        Data::OptSome(x) => data_wf(*x),
        Data::List(items) => data_list_wf(items@),
        Data::Dict(fields) => fields_distinct(fields@) && data_fields_wf(fields@),
        Data::NewtypeVariant(_, x) => data_wf(*x),
        Data::TupleVariant(_, items) => data_list_wf(items@),
        Data::StructVariant(_, fields) => fields_distinct(fields@) && data_fields_wf(fields@),
        _ => true,
    }
}

/// Well-formed items of a sequence.
pub open spec fn data_list_wf(items: Seq<Data>) -> bool
    decreases items,
{
    if items.len() == 0 {
        true
    } else {
        data_wf(items[0]) && data_list_wf(items.drop_first())
    }
}

/// Well-formed fields of a record.
pub open spec fn data_fields_wf(fields: Seq<DataField>) -> bool
    decreases fields,
{
    if fields.len() == 0 {
        true
    } else {
        data_wf(fields[0].value) && data_fields_wf(fields.drop_first())
    }
}

/// Pairwise distinct field names.
pub open spec fn fields_distinct(fields: Seq<DataField>) -> bool {
    forall|i: int, j: int|
        0 <= i < j < fields.len() ==> fields[i].name@ != fields[j].name@
}

/// The data contains the raw-passthrough escape somewhere.
pub open spec fn data_has_raw(d: Data) -> bool
    decreases d,
{
    match d {
        Data::Raw(_) => true,
        Data::OptSome(x) => data_has_raw(*x),
        Data::List(items) => list_has_raw(items@),
        Data::Dict(fields) => fields_have_raw(fields@),
        Data::NewtypeVariant(_, x) => data_has_raw(*x),
        Data::TupleVariant(_, items) => list_has_raw(items@),
        Data::StructVariant(_, fields) => fields_have_raw(fields@),
        _ => false,
    }
}

/// Some item contains the raw escape.
pub open spec fn list_has_raw(items: Seq<Data>) -> bool
    decreases items,
{
    if items.len() == 0 {
        false
    } else {
        data_has_raw(items[0]) || list_has_raw(items.drop_first())
    }
}

/// Some field contains the raw escape.
pub open spec fn fields_have_raw(fields: Seq<DataField>) -> bool
    decreases fields,
{
    if fields.len() == 0 {
        false
    } else {
        data_has_raw(fields[0].value) || fields_have_raw(fields.drop_first())
    }
}

/// How many ownership units marshaling this data acquires on cell `j`: one
/// per raw escape naming it.
pub open spec fn raw_uses(d: Data, j: int) -> nat
    decreases d,
{
    match d {
        Data::Raw(rid) => if rid == j {
            1nat
        } else {
            0nat
        },
        Data::OptSome(x) => raw_uses(*x, j),
        Data::List(items) => list_raw_uses(items@, j),
        Data::Dict(fields) => fields_raw_uses(fields@, j),
        Data::NewtypeVariant(_, x) => raw_uses(*x, j),
        Data::TupleVariant(_, items) => list_raw_uses(items@, j),
        Data::StructVariant(_, fields) => fields_raw_uses(fields@, j),
        _ => 0,
    }
}

/// Units acquired on `j` by a sequence of items.
pub open spec fn list_raw_uses(items: Seq<Data>, j: int) -> nat
    decreases items,
{
    if items.len() == 0 {
        0
    } else {
        raw_uses(items[0], j) + list_raw_uses(items.drop_first(), j)
    }
}

/// Units acquired on `j` by a record's fields.
pub open spec fn fields_raw_uses(fields: Seq<DataField>, j: int) -> nat
    decreases fields,
{
    if fields.len() == 0 {
        0
    } else {
        raw_uses(fields[0].value, j) + fields_raw_uses(fields.drop_first(), j)
    }
}

/// How the serializer lays a data tree out in the cell store, rooted at
/// `id`: scalars in place; a present optional transparently; sequences and
/// records as a fresh container behind one reference, per the host
/// convention; a fieldless variant as its bare name; other variants as a
/// single-key map from the name to the payload; the raw escape as the named
/// cell itself.
pub open spec fn encodes(cells: Seq<Cell>, id: int, d: Data) -> bool
    decreases d,
{
    &&& 0 <= id < cells.len()
    &&& cells[id].alive
    &&& match d {
        Data::Bool(b) => cells[id].repr == Repr::UInt(
            if b {
                1
            } else {
                0
            },
        ),
        Data::I64(i) => cells[id].repr == Repr::Int(i),
        Data::U64(u) => cells[id].repr == Repr::UInt(u),
        Data::Str(s) => cells[id].repr == (Repr::Str {
            bytes: cells[id].repr->Str_bytes,
            utf8: coerce::spec_has_high_byte(s@),
        }) && cells[id].repr->Str_bytes@ == s@,
        Data::Bytes(s) => cells[id].repr == (Repr::Str {
            bytes: cells[id].repr->Str_bytes,
            utf8: false,
        }) && cells[id].repr->Str_bytes@ == s@,
        Data::Unit => cells[id].repr is Undef,
        Data::OptSome(x) => encodes(cells, id, *x),
        Data::List(items) => cells[id].repr is Ref && {
            let t = cells[id].repr->Ref_target as int;
            &&& array_cell(cells, t, items@.len())
            &&& encodes_items(cells, cells[t].repr->Array_elems@, items@)
        },
        Data::Dict(fields) => cells[id].repr is Ref && {
            let t = cells[id].repr->Ref_target as int;
            &&& hash_cell(cells, t, fields@.len())
            &&& encodes_fields(cells, cells[t].repr->Hash_entries@, fields@)
        },
        Data::UnitVariant(name) => cells[id].repr == (Repr::Str {
            bytes: cells[id].repr->Str_bytes,
            utf8: coerce::spec_has_high_byte(name@),
        }) && cells[id].repr->Str_bytes@ == name@,
        Data::NewtypeVariant(name, x) => cells[id].repr is Ref && encodes_tagged(
            cells,
            cells[id].repr->Ref_target as int,
            name@,
        ) && encodes(
            cells,
            payload_of(cells, cells[id].repr->Ref_target as int) as int,
            *x,
        ),
        Data::TupleVariant(name, items) => cells[id].repr is Ref && encodes_tagged(
            cells,
            cells[id].repr->Ref_target as int,
            name@,
        ) && {
            let p = payload_of(cells, cells[id].repr->Ref_target as int) as int;
            let t = cells[p].repr->Ref_target as int;
            &&& 0 <= p < cells.len()
            &&& cells[p].alive
            &&& cells[p].repr is Ref
            &&& array_cell(cells, t, items@.len())
            &&& encodes_items(cells, cells[t].repr->Array_elems@, items@)
        },
        Data::StructVariant(name, fields) => cells[id].repr is Ref && encodes_tagged(
            cells,
            cells[id].repr->Ref_target as int,
            name@,
        ) && {
            let p = payload_of(cells, cells[id].repr->Ref_target as int) as int;
            let t = cells[p].repr->Ref_target as int;
            &&& 0 <= p < cells.len()
            &&& cells[p].alive
            &&& cells[p].repr is Ref
            &&& hash_cell(cells, t, fields@.len())
            &&& encodes_fields(cells, cells[t].repr->Hash_entries@, fields@)
        },
        Data::Raw(rid) => rid == id,
    }
}

/// The cell is a live sequence of the given length.
pub open spec fn array_cell(cells: Seq<Cell>, id: int, n: nat) -> bool {
    &&& 0 <= id < cells.len()
    &&& cells[id].alive
    &&& cells[id].repr is Array
    &&& cells[id].repr->Array_elems@.len() == n
}

/// The cell is a live map of the given length.
pub open spec fn hash_cell(cells: Seq<Cell>, id: int, n: nat) -> bool {
    &&& 0 <= id < cells.len()
    &&& cells[id].alive
    &&& cells[id].repr is Hash
    &&& cells[id].repr->Hash_entries@.len() == n
}

/// Each element cell encodes the item at its position.
pub open spec fn encodes_items(cells: Seq<Cell>, elems: Seq<usize>, items: Seq<Data>) -> bool
    decreases items,
{
    if items.len() == 0 {
        elems.len() == 0
    } else {
        &&& elems.len() == items.len()
        &&& encodes(cells, elems[0] as int, items[0])
        &&& encodes_items(cells, elems.drop_first(), items.drop_first())
    }
}

/// Each entry matches the field at its position: same name, value encoded.
pub open spec fn encodes_fields(
    cells: Seq<Cell>,
    entries: Seq<crate::interp::HashEntry>,
    fields: Seq<DataField>,
) -> bool
    decreases fields,
{
    if fields.len() == 0 {
        entries.len() == 0
    } else {
        &&& entries.len() == fields.len()
        &&& entries[0].key@ == fields[0].name@
        &&& encodes(cells, entries[0].val as int, fields[0].value)
        &&& encodes_fields(cells, entries.drop_first(), fields.drop_first())
    }
}

/// The cell is a live single-entry map tagged with the variant name.
pub open spec fn encodes_tagged(cells: Seq<Cell>, id: int, name: Seq<u8>) -> bool {
    &&& 0 <= id < cells.len()
    &&& cells[id].alive
    &&& cells[id].repr is Hash
    &&& cells[id].repr->Hash_entries@.len() == 1
    &&& cells[id].repr->Hash_entries@[0].key@ == name
}

/// The single payload cell of a tagged map.
pub open spec fn payload_of(cells: Seq<Cell>, id: int) -> usize {
    cells[id].repr->Hash_entries@[0].val
}


/// Well-formed shape: record field names and variant tag names are
/// pairwise distinct, recursively.
pub open spec fn wf_shape(s: Shape) -> bool
    decreases s,
{
    match s {
        Shape::Opt(inner) => wf_shape(*inner),
        Shape::List(inner) => wf_shape(*inner),
        Shape::Dict(inner) => wf_shape(*inner),
        Shape::Record(fields) => field_names_distinct(fields@) && wf_field_shapes(fields@),
        Shape::Enum(vars) => variant_names_distinct(vars@) && wf_variant_shapes(vars@),
        _ => true,
    }
}

/// Pairwise distinct record field names.
pub open spec fn field_names_distinct(fields: Seq<FieldShape>) -> bool {
    forall|i: int, j: int|
        0 <= i < j < fields.len() ==> fields[i].name@ != fields[j].name@
}

/// Pairwise distinct variant tag names.
pub open spec fn variant_names_distinct(vars: Seq<VariantShape>) -> bool {
    forall|i: int, j: int|
        0 <= i < j < vars.len() ==> variant_name(vars[i]) != variant_name(vars[j])
}

/// Well-formed record field shapes.
pub open spec fn wf_field_shapes(fields: Seq<FieldShape>) -> bool
    decreases fields,
{
    if fields.len() == 0 {
        true
    } else {
        wf_shape(fields[0].shape) && wf_field_shapes(fields.drop_first())
    }
}

/// Well-formed variant shapes.
pub open spec fn wf_variant_shapes(vars: Seq<VariantShape>) -> bool
    decreases vars,
{
    if vars.len() == 0 {
        true
    } else {
        (match vars[0] {
            VariantShape::Unit(_) => true,
            VariantShape::Newtype(_, inner) => wf_shape(*inner),
            VariantShape::Tuple(_, shapes) => wf_shapes(shapes@),
            VariantShape::Struct(_, fields) => field_names_distinct(fields@)
                && wf_field_shapes(fields@),
        }) && wf_variant_shapes(vars.drop_first())
    }
}

/// Well-formed shape sequence.
pub open spec fn wf_shapes(shapes: Seq<Shape>) -> bool
    decreases shapes,
{
    if shapes.len() == 0 {
        true
    } else {
        wf_shape(shapes[0]) && wf_shapes(shapes.drop_first())
    }
}

/// Which data a shape decodes back exactly as serialized: the canonical
/// image of deserialization.  `allowed` mirrors the treat-undefined-as-
/// absent rule, suppressed one level deep while a present optional is being
/// unwrapped.
pub open spec fn fits(d: Data, s: Shape, allowed: bool) -> bool
    decreases d, s,
{
    match s {
        Shape::Bool => d is Bool,
        Shape::I64 => d is I64,
        Shape::U64 => d is U64,
        Shape::Str => d is Str,
        Shape::Bytes => d is Bytes,
        Shape::Opt(inner) => match d {
            Data::Unit => if allowed {
                !(*inner is Opt)
            } else {
                true
            },
            Data::OptSome(x) => allowed && if is_undef_data(*x) {
                *inner is Opt && *x is Unit
            } else {
                fits(*x, *inner, false)
            },
            _ => false,
        },
        Shape::List(inner) => d matches Data::List(items) && fits_items(items@, *inner),
        Shape::Dict(inner) => d matches Data::Dict(fields) && fields_distinct(fields@)
            && fits_dict_fields(fields@, *inner),
        Shape::Record(fs) => d matches Data::Dict(fields) && fits_record(fields@, fs@),
        Shape::Enum(vars) => fits_enum(d, vars@),
        Shape::Any => fits_any(d),
        Shape::Raw => false,
    }
}

/// Each item fits the element shape, in a fresh optional context.
pub open spec fn fits_items(items: Seq<Data>, inner: Shape) -> bool
    decreases items, inner,
{
    if items.len() == 0 {
        true
    } else {
        fits(items[0], inner, true) && fits_items(items.drop_first(), inner)
    }
}

/// Each field value fits the map's value shape.
pub open spec fn fits_dict_fields(fields: Seq<DataField>, inner: Shape) -> bool
    decreases fields, inner,
{
    if fields.len() == 0 {
        true
    } else {
        fits(fields[0].value, inner, true) && fits_dict_fields(fields.drop_first(), inner)
    }
}

/// The record data carries exactly the shape's fields, in shape order.
pub open spec fn fits_record(fields: Seq<DataField>, fs: Seq<FieldShape>) -> bool
    decreases fields, fs,
{
    if fs.len() == 0 {
        fields.len() == 0
    } else {
        &&& fields.len() == fs.len()
        &&& fields[0].name@ == fs[0].name@
        &&& fits(fields[0].value, fs[0].shape, true)
        &&& fits_record(fields.drop_first(), fs.drop_first())
    }
}

/// The variant data names a variant of the choice and its payload fits.
pub open spec fn fits_enum(d: Data, vars: Seq<VariantShape>) -> bool
    decreases d, vars,
{
    match d {
        Data::UnitVariant(name) => {
            let i = spec_variant_index(vars, name@);
            i < vars.len() && vars[i] is Unit
        },
        Data::NewtypeVariant(name, x) => {
            let i = spec_variant_index(vars, name@);
            i < vars.len() && (vars[i] matches VariantShape::Newtype(_, inner) && fits(
                *x,
                *inner,
                true,
            ))
        },
        Data::TupleVariant(name, items) => {
            let i = spec_variant_index(vars, name@);
            i < vars.len() && (vars[i] matches VariantShape::Tuple(_, shapes)
                && items@.len() == shapes@.len() && fits_tuple(items@, shapes@))
        },
        Data::StructVariant(name, fields) => {
            let i = spec_variant_index(vars, name@);
            i < vars.len() && (vars[i] matches VariantShape::Struct(_, fs) && fits_record(
                fields@,
                fs@,
            ))
        },
        _ => false,
    }
}

/// Each tuple item fits its positional shape.
pub open spec fn fits_tuple(items: Seq<Data>, shapes: Seq<Shape>) -> bool
    decreases items, shapes,
{
    if items.len() == 0 {
        shapes.len() == 0
    } else {
        &&& shapes.len() == items.len()
        &&& fits(items[0], shapes[0], true)
        &&& fits_tuple(items.drop_first(), shapes.drop_first())
    }
}

/// Which data the dynamic-shape request reproduces: integers, text,
/// sequences and maps read back as themselves; everything else loses its
/// static identity.
pub open spec fn fits_any(d: Data) -> bool
    decreases d,
{
    match d {
        Data::Unit => true,
        Data::I64(_) => true,
        Data::U64(_) => true,
        Data::Str(_) => true,
        Data::List(items) => fits_any_items(items@),
        Data::Dict(fields) => fields_distinct(fields@) && fits_any_fields(fields@),
        _ => false,
    }
}

/// Each item reads back as itself dynamically.
pub open spec fn fits_any_items(items: Seq<Data>) -> bool
    decreases items,
{
    if items.len() == 0 {
        true
    } else {
        fits_any(items[0]) && fits_any_items(items.drop_first())
    }
}

/// Each field value reads back as itself dynamically.
pub open spec fn fits_any_fields(fields: Seq<DataField>) -> bool
    decreases fields,
{
    if fields.len() == 0 {
        true
    } else {
        fits_any(fields[0].value) && fits_any_fields(fields.drop_first())
    }
}

/// Deserialization depth budget a serialized tree needs: one step per cell
/// visited along the deepest path.
pub open spec fn fuel_needed(d: Data) -> nat
    decreases d,
{
    match d {
        Data::OptSome(x) => fuel_needed(*x),
        Data::List(items) => 2 + fuel_items(items@),
        Data::Dict(fields) => 2 + fuel_fields(fields@),
        Data::NewtypeVariant(_, x) => 2 + fuel_needed(*x),
        Data::TupleVariant(_, items) => 4 + fuel_items(items@),
        Data::StructVariant(_, fields) => 4 + fuel_fields(fields@),
        _ => 1,
    }
}

/// Depth budget of the deepest item.
pub open spec fn fuel_items(items: Seq<Data>) -> nat
    decreases items,
{
    if items.len() == 0 {
        0
    } else {
        let rest = fuel_items(items.drop_first());
        if fuel_needed(items[0]) > rest {
            fuel_needed(items[0])
        } else {
            rest
        }
    }
}

/// Depth budget of the deepest field value.
pub open spec fn fuel_fields(fields: Seq<DataField>) -> nat
    decreases fields,
{
    if fields.len() == 0 {
        0
    } else {
        let rest = fuel_fields(fields.drop_first());
        if fuel_needed(fields[0].value) > rest {
            fuel_needed(fields[0].value)
        } else {
            rest
        }
    }
}


/// The second store keeps every cell of the first with the same liveness
/// and representation (counts may differ, cells may be appended).
pub open spec fn repr_preserved(a: Seq<Cell>, b: Seq<Cell>) -> bool {
    &&& a.len() <= b.len()
    &&& forall|j: int|
        0 <= j < a.len() ==> b[j].alive == a[j].alive && b[j].repr == a[j].repr
}


/// A laid-out tree stays laid out while its cells keep their liveness and
/// representation: growth of the store and count changes do not disturb it.
pub proof fn lemma_encodes_stable(a: Seq<Cell>, b: Seq<Cell>, id: int, d: Data)
    requires
        repr_preserved(a, b),
        encodes(a, id, d),
    ensures
        encodes(b, id, d),
    decreases d,
{
    match d {
        Data::OptSome(x) => {
            lemma_encodes_stable(a, b, id, *x);
        },
        Data::List(items) => {
            let t = a[id].repr->Ref_target as int;
            lemma_encodes_items_stable(a, b, a[t].repr->Array_elems@, items@);
        },
        Data::Dict(fields) => {
            let t = a[id].repr->Ref_target as int;
            lemma_encodes_fields_stable(a, b, a[t].repr->Hash_entries@, fields@);
        },
        Data::NewtypeVariant(name, x) => {
            let t = a[id].repr->Ref_target as int;
            lemma_encodes_stable(a, b, payload_of(a, t) as int, *x);
        },
        Data::TupleVariant(name, items) => {
            let h = a[id].repr->Ref_target as int;
            let p = payload_of(a, h) as int;
            let t = a[p].repr->Ref_target as int;
            lemma_encodes_items_stable(a, b, a[t].repr->Array_elems@, items@);
        },
        Data::StructVariant(name, fields) => {
            let h = a[id].repr->Ref_target as int;
            let p = payload_of(a, h) as int;
            let t = a[p].repr->Ref_target as int;
            lemma_encodes_fields_stable(a, b, a[t].repr->Hash_entries@, fields@);
        },
        _ => {},
    }
}

/// Item layouts are stable under store growth.
pub proof fn lemma_encodes_items_stable(
    a: Seq<Cell>,
    b: Seq<Cell>,
    elems: Seq<usize>,
    items: Seq<Data>,
)
    requires
        repr_preserved(a, b),
        encodes_items(a, elems, items),
    ensures
        encodes_items(b, elems, items),
    decreases items,
{
    if items.len() > 0 {
        lemma_encodes_stable(a, b, elems[0] as int, items[0]);
        lemma_encodes_items_stable(a, b, elems.drop_first(), items.drop_first());
    }
}

/// Field layouts are stable under store growth.
pub proof fn lemma_encodes_fields_stable(
    a: Seq<Cell>,
    b: Seq<Cell>,
    entries: Seq<crate::interp::HashEntry>,
    fields: Seq<DataField>,
)
    requires
        repr_preserved(a, b),
        encodes_fields(a, entries, fields),
    ensures
        encodes_fields(b, entries, fields),
    decreases fields,
{
    if fields.len() > 0 {
        lemma_encodes_stable(a, b, entries[0].val as int, fields[0].value);
        lemma_encodes_fields_stable(a, b, entries.drop_first(), fields.drop_first());
    }
}

/// Upper bound on the cells one serialization allocates.
pub open spec fn data_cells(d: Data) -> nat
    decreases d,
{
    match d {
        Data::OptSome(x) => data_cells(*x),
        Data::List(items) => 2 + list_cells(items@),
        Data::Dict(fields) => 2 + fields_cells(fields@),
        Data::NewtypeVariant(_, x) => 2 + data_cells(*x),
        Data::TupleVariant(_, items) => 4 + list_cells(items@),
        Data::StructVariant(_, fields) => 4 + fields_cells(fields@),
        Data::Raw(_) => 0,
        _ => 1,
    }
}

/// Upper bound on the cells a sequence's items allocate.
pub open spec fn list_cells(items: Seq<Data>) -> nat
    decreases items,
{
    if items.len() == 0 {
        0
    } else {
        data_cells(items[0]) + list_cells(items.drop_first())
    }
}

/// Upper bound on the cells a record's fields allocate.
pub open spec fn fields_cells(fields: Seq<DataField>) -> nat
    decreases fields,
{
    if fields.len() == 0 {
        0
    } else {
        data_cells(fields[0].value) + fields_cells(fields.drop_first())
    }
}

} // verus!
