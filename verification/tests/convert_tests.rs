//! Round trips through the serializer and deserializer, the raw escape, and
//! the conversion error paths.

use perlmod::data::{Data, DataField, FieldShape, Shape, VariantShape};
use perlmod::de::from_value;
use perlmod::interp::Interp;
use perlmod::ser::to_value;
use perlmod::Value;

fn roundtrip(d: Data, s: Shape) -> Data {
    let mut interp = Interp::new();
    let v = to_value(&mut interp, &d).expect("serialize");
    from_value(&mut interp, v, &s).expect("deserialize")
}

#[test]
fn roundtrip_scalars() {
    assert_eq!(roundtrip(Data::Bool(true), Shape::Bool), Data::Bool(true));
    assert_eq!(roundtrip(Data::Bool(false), Shape::Bool), Data::Bool(false));
    assert_eq!(roundtrip(Data::I64(-7), Shape::I64), Data::I64(-7));
    assert_eq!(roundtrip(Data::U64(u64::MAX), Shape::U64), Data::U64(u64::MAX));
    assert_eq!(
        roundtrip(Data::Str(b"hi there".to_vec()), Shape::Str),
        Data::Str(b"hi there".to_vec())
    );
    assert_eq!(
        roundtrip(Data::Bytes(vec![0, 255, 3]), Shape::Bytes),
        Data::Bytes(vec![0, 255, 3])
    );
    assert_eq!(roundtrip(Data::Unit, Shape::Opt(Box::new(Shape::I64))), Data::Unit);
}

#[test]
fn roundtrip_containers() {
    let list = Data::List(vec![Data::I64(1), Data::I64(2), Data::I64(3)]);
    assert_eq!(
        roundtrip(list, Shape::List(Box::new(Shape::I64))),
        Data::List(vec![Data::I64(1), Data::I64(2), Data::I64(3)])
    );

    let dict = Data::Dict(vec![
        DataField { name: b"a".to_vec(), value: Data::I64(1) },
        DataField { name: b"b".to_vec(), value: Data::Str(b"x".to_vec()) },
    ]);
    let shape = Shape::Record(vec![
        FieldShape { name: b"a".to_vec(), shape: Shape::I64 },
        FieldShape { name: b"b".to_vec(), shape: Shape::Str },
    ]);
    let back = roundtrip(dict, shape);
    assert_eq!(
        back,
        Data::Dict(vec![
            DataField { name: b"a".to_vec(), value: Data::I64(1) },
            DataField { name: b"b".to_vec(), value: Data::Str(b"x".to_vec()) },
        ])
    );
}

#[test]
fn roundtrip_nested_list() {
    let d = Data::List(vec![
        Data::List(vec![Data::U64(1)]),
        Data::List(vec![]),
    ]);
    let s = Shape::List(Box::new(Shape::List(Box::new(Shape::U64))));
    assert_eq!(
        roundtrip(d, s),
        Data::List(vec![Data::List(vec![Data::U64(1)]), Data::List(vec![])])
    );
}

#[test]
fn optional_nesting_does_not_collapse() {
    // A present-but-absent optional survives a round trip at a doubly
    // optional shape instead of collapsing to the outer absence.
    let d = Data::OptSome(Box::new(Data::Unit));
    let s = Shape::Opt(Box::new(Shape::Opt(Box::new(Shape::I64))));
    assert_eq!(
        roundtrip(d, s),
        Data::OptSome(Box::new(Data::Unit))
    );

    // A present inner value keeps both wrappers' content.
    let d2 = Data::OptSome(Box::new(Data::I64(5)));
    let s2 = Shape::Opt(Box::new(Shape::I64));
    assert_eq!(roundtrip(d2, s2), Data::OptSome(Box::new(Data::I64(5))));
}

#[test]
fn enum_decode() {
    // {"Something":"abc"} against Something(String) | Another(i32,i32)
    let schema = Shape::Enum(vec![
        VariantShape::Newtype(b"Something".to_vec(), Box::new(Shape::Str)),
        VariantShape::Tuple(b"Another".to_vec(), vec![Shape::I64, Shape::I64]),
    ]);
    let mut interp = Interp::new();
    let d = Data::NewtypeVariant(b"Something".to_vec(), Box::new(Data::Str(b"abc".to_vec())));
    let v = to_value(&mut interp, &d).expect("serialize");
    let back = from_value(&mut interp, v, &schema).expect("deserialize");
    assert_eq!(
        back,
        Data::NewtypeVariant(b"Something".to_vec(), Box::new(Data::Str(b"abc".to_vec())))
    );

    // {"Another":[1,2]} yields Another(1,2).
    let d = Data::TupleVariant(b"Another".to_vec(), vec![Data::I64(1), Data::I64(2)]);
    let v = to_value(&mut interp, &d).expect("serialize");
    let back = from_value(&mut interp, v, &schema).expect("deserialize");
    assert_eq!(
        back,
        Data::TupleVariant(b"Another".to_vec(), vec![Data::I64(1), Data::I64(2)])
    );

    // A bare string "Another" against a unit-only schema yields that unit
    // variant.
    let unit_schema = Shape::Enum(vec![
        VariantShape::Unit(b"Something".to_vec()),
        VariantShape::Unit(b"Another".to_vec()),
    ]);
    let d = Data::UnitVariant(b"Another".to_vec());
    let v = to_value(&mut interp, &d).expect("serialize");
    let back = from_value(&mut interp, v, &unit_schema).expect("deserialize");
    assert_eq!(back, Data::UnitVariant(b"Another".to_vec()));
}

#[test]
fn struct_variant_roundtrip() {
    let schema = Shape::Enum(vec![VariantShape::Struct(
        b"Rec".to_vec(),
        vec![FieldShape { name: b"n".to_vec(), shape: Shape::U64 }],
    )]);
    let d = Data::StructVariant(
        b"Rec".to_vec(),
        vec![DataField { name: b"n".to_vec(), value: Data::U64(9) }],
    );
    let mut interp = Interp::new();
    let v = to_value(&mut interp, &d).expect("serialize");
    let back = from_value(&mut interp, v, &schema).expect("deserialize");
    assert_eq!(
        back,
        Data::StructVariant(
            b"Rec".to_vec(),
            vec![DataField { name: b"n".to_vec(), value: Data::U64(9) }],
        )
    );
}

#[test]
fn unknown_variant_is_an_error() {
    let schema = Shape::Enum(vec![VariantShape::Unit(b"Known".to_vec())]);
    let mut interp = Interp::new();
    let v = to_value(&mut interp, &Data::UnitVariant(b"Nope".to_vec())).expect("serialize");
    let err = from_value(&mut interp, v, &schema).unwrap_err();
    assert_eq!(err.0, "unknown enum variant");
}

#[test]
fn missing_required_field_is_an_error() {
    let shape = Shape::Record(vec![FieldShape { name: b"req".to_vec(), shape: Shape::I64 }]);
    let mut interp = Interp::new();
    let v = to_value(&mut interp, &Data::Dict(vec![])).expect("serialize");
    let err = from_value(&mut interp, v, &shape).unwrap_err();
    assert_eq!(err.0, "missing required field");
}

#[test]
fn absent_optional_field_reads_as_none() {
    let shape = Shape::Record(vec![FieldShape {
        name: b"opt".to_vec(),
        shape: Shape::Opt(Box::new(Shape::Bool)),
    }]);
    let mut interp = Interp::new();
    let v = to_value(&mut interp, &Data::Dict(vec![])).expect("serialize");
    let back = from_value(&mut interp, v, &shape).expect("deserialize");
    assert_eq!(
        back,
        Data::Dict(vec![DataField { name: b"opt".to_vec(), value: Data::Unit }])
    );
}

#[test]
fn string_coerces_to_integer() {
    let mut interp = Interp::new();
    let v = to_value(&mut interp, &Data::Str(b"  -42xyz".to_vec())).expect("serialize");
    let back = from_value(&mut interp, v, &Shape::I64).expect("deserialize");
    assert_eq!(back, Data::I64(-42));

    let v = to_value(&mut interp, &Data::Str(b"17".to_vec())).expect("serialize");
    let back = from_value(&mut interp, v, &Shape::U64).expect("deserialize");
    assert_eq!(back, Data::U64(17));

    let v = to_value(&mut interp, &Data::Str(b"pony".to_vec())).expect("serialize");
    let back = from_value(&mut interp, v, &Shape::I64).expect("deserialize");
    assert_eq!(back, Data::I64(0));
}

#[test]
fn dynamic_shape_dispatches_structurally() {
    let d = Data::Dict(vec![DataField {
        name: b"k".to_vec(),
        value: Data::List(vec![Data::I64(1), Data::Str(b"s".to_vec())]),
    }]);
    let s = Shape::Any;
    assert_eq!(
        roundtrip(d, s),
        Data::Dict(vec![DataField {
            name: b"k".to_vec(),
            value: Data::List(vec![Data::I64(1), Data::Str(b"s".to_vec())]),
        }])
    );
}

#[test]
fn raw_passthrough_preserves_identity_and_one_unit() {
    let mut interp = Interp::new();
    // A live value to thread through the escape.
    let live = Value::new_string(&mut interp, "payload");
    let id = live.raw_id();
    let rc0 = interp.ref_count(id);

    // Round-trip it through the raw escape with the flag enabled by the
    // top-level conversions themselves, inside a scope block so the
    // consumed intermediate's deferred unit drops at its end.
    let _mark = interp.save_tmps();
    let v = to_value(&mut interp, &Data::Raw(id)).expect("serialize raw");
    assert_eq!(v.raw_id(), id, "identity preserved by serialization");
    let back = from_value(&mut interp, v, &Shape::Raw).expect("deserialize raw");
    assert_eq!(back, Data::Raw(id), "identity preserved by the round trip");

    // The serializer's unit (now deferred) and the result's unit are both
    // counted until the scope closes...
    assert_eq!(interp.ref_count(id), rc0 + 2);
    interp.free_tmps();
    // ...after which exactly one gained unit remains, carried by the
    // result.
    assert_eq!(interp.ref_count(id), rc0 + 1);
}

#[test]
fn raw_passthrough_fails_while_disabled() {
    let mut interp = Interp::new();
    let live = Value::new_string(&mut interp, "payload");
    let id = live.raw_id();

    // The low-level converters honor the scoped flag, which starts off.
    let err = perlmod::ser::ser_value(&mut interp, &Data::Raw(id)).unwrap_err();
    assert_eq!(err.0, "raw value serialization disabled");

    let err = perlmod::de::de_value(&mut interp, id, &Shape::Raw, true, 8).unwrap_err();
    assert_eq!(err.0, "attempted raw value deserialization while disabled");
}

#[test]
fn mixed_record_with_raw_reference() {
    let mut interp = Interp::new();
    let live = Value::new_int(&mut interp, 99);
    let id = live.raw_id();
    let d = Data::Dict(vec![
        DataField { name: b"copied".to_vec(), value: Data::Str(b"text".to_vec()) },
        DataField { name: b"reference".to_vec(), value: Data::Raw(id) },
    ]);
    let shape = Shape::Record(vec![
        FieldShape { name: b"copied".to_vec(), shape: Shape::Str },
        FieldShape { name: b"reference".to_vec(), shape: Shape::Raw },
    ]);
    let v = to_value(&mut interp, &d).expect("serialize");
    let back = from_value(&mut interp, v, &shape).expect("deserialize");
    assert_eq!(
        back,
        Data::Dict(vec![
            DataField { name: b"copied".to_vec(), value: Data::Str(b"text".to_vec()) },
            DataField { name: b"reference".to_vec(), value: Data::Raw(id) },
        ])
    );
}

#[test]
fn bool_reads_back_through_host_truth() {
    let mut interp = Interp::new();
    let v = to_value(&mut interp, &Data::Bool(true)).expect("serialize");
    assert_eq!(from_value(&mut interp, v, &Shape::Bool).unwrap(), Data::Bool(true));
    let v = to_value(&mut interp, &Data::Unit).expect("serialize");
    assert_eq!(from_value(&mut interp, v, &Shape::Bool).unwrap(), Data::Bool(false));
    let v = to_value(&mut interp, &Data::Str(b"x".to_vec())).expect("serialize");
    let err = from_value(&mut interp, v, &Shape::Bool).unwrap_err();
    assert_eq!(err.0, "expected bool value");
}

#[test]
fn enum_error_paths() {
    let schema = Shape::Enum(vec![
        VariantShape::Newtype(b"Something".to_vec(), Box::new(Shape::Str)),
        VariantShape::Tuple(b"Another".to_vec(), vec![Shape::I64, Shape::I64]),
    ]);
    let mut interp = Interp::new();

    // A bare string naming a payload-carrying variant is not enough.
    let v = to_value(&mut interp, &Data::UnitVariant(b"Something".to_vec())).unwrap();
    let err = from_value(&mut interp, v, &schema).unwrap_err();
    assert_eq!(err.0, "expected newtype variant, found unit variant");

    // A map with two keys is not an externally tagged variant.
    let d = Data::Dict(vec![
        DataField { name: b"a".to_vec(), value: Data::I64(1) },
        DataField { name: b"b".to_vec(), value: Data::I64(2) },
    ]);
    let v = to_value(&mut interp, &d).unwrap();
    let err = from_value(&mut interp, v, &schema).unwrap_err();
    assert_eq!(err.0, "expected hash with a single key");

    // A plain number is no variant at all.
    let v = to_value(&mut interp, &Data::I64(1)).unwrap();
    let err = from_value(&mut interp, v, &schema).unwrap_err();
    assert_eq!(err.0, "expected an enum value");

    // A bare sequence is neither a tag string nor a tagged map.
    let v = to_value(&mut interp, &Data::List(vec![])).unwrap();
    let err = from_value(&mut interp, v, &schema).unwrap_err();
    assert_eq!(err.0, "expected a string or hash for an enum");

    // A wrong-arity tuple payload is refused.
    let d = Data::TupleVariant(b"Another".to_vec(), vec![Data::I64(1)]);
    let v = to_value(&mut interp, &d).unwrap();
    let err = from_value(&mut interp, v, &schema).unwrap_err();
    assert_eq!(err.0, "invalid type for requested shape");
}

#[test]
fn cyclic_reference_chain_exhausts_the_depth_budget() {
    let mut interp = Interp::new();
    // A reference cell whose target is itself.
    let id = interp.cells.len();
    let _ = interp.alloc_cell(perlmod::interp::Repr::Ref { target: id });
    let v = Value::from_raw_move(&interp, perlmod::interp::SV { id });
    let err = from_value(&mut interp, v, &Shape::I64).unwrap_err();
    assert_eq!(err.0, "deserialization recursion limit reached");
}

#[test]
fn dangling_reference_fails_deserialization() {
    let mut interp = Interp::new();
    let target = Value::new_int(&mut interp, 5);
    let tid = target.raw_id();
    let rv = Value::new_ref(&mut interp, &target.sv_ref());
    target.release(&mut interp);
    // Forge a second owner of the target's one remaining unit and release
    // it: the reference now dangles.
    let forged = perlmod::Scalar::from_raw_move(perlmod::interp::SV { id: tid });
    forged.release(&mut interp);
    let err = from_value(&mut interp, rv, &Shape::I64).unwrap_err();
    assert_eq!(err.0, "encountered a reclaimed value while deserializing");
}
