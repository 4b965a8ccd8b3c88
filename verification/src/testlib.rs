//! Example exports exercising the marshaling layer: the plain functions a
//! generated wrapper would call after extracting and deserializing its
//! arguments.

use vstd::prelude::*;

use crate::error::Error;
use crate::interp::{Interp, Repr};
use crate::value::Value;

verus! {

/// A string wrapped in a one-field record.
pub struct NewString(pub String);

/// A record with one optional field.
pub struct StructOptString {
    pub value: Option<bool>,
}

/// A record with one optional tristate field.
pub struct WithOption {
    pub tristate: Option<bool>,
}

/// A one-field record carried through conversion.
pub struct Blubber(pub String);

/// A record mixing copied text with a raw-passthrough value.
pub struct RawRefs {
    pub copied: String,
    pub reference: Value,
}

/// A record mixing copied text with a raw-passthrough value.
pub struct TestStruct {
    pub text: String,
    pub reference: Value,
}

/// A fieldless choice.
#[derive(Clone, Copy, Debug, PartialEq, Eq, Structural)]
pub enum AnEnum {
    Something,
    Another,
    ResultA,
    ResultB,
}

/// An externally tagged choice with payloads.
#[derive(Debug, PartialEq, Eq)]
pub enum TaggedEnum {
    Something(String),
    Another(i32, i32),
}

/// A structured error with two text fields.
pub struct MyError {
    pub a: String,
    pub b: String,
}

/// Greet by name.
pub fn hello(name: &str) -> (r: Result<String, Error>)
    ensures
        r matches Ok(s) && s@ == "Hello, '"@ + name@ + "'"@,
{
    let mut s = String::from_str("Hello, '");
    s.append(name);
    s.append("'");
    Ok(s)
}

/// Return a fixed pair, exercising the multi-value return path.
pub fn multi_return() -> (r: Result<(u32, u32), Error>)
    ensures
        r == Ok::<(u32, u32), Error>((17u32, 32u32)),
{
    Ok((17, 32))
}

/// The debug text of an optional boolean.
pub open spec fn spec_opt_bool_text(v: Option<bool>) -> Seq<char> {
    match v {
        Option::None => "None"@,
        Option::Some(true) => "Some(true)"@,
        Option::Some(false) => "Some(false)"@,
    }
}

/// Render an optional boolean.
pub fn opt_bool_to_string(value: Option<bool>) -> (r: String)
    ensures
        r@ == spec_opt_bool_text(value),
{
    match value {
        Option::None => String::from_str("None"),
        Option::Some(true) => String::from_str("Some(true)"),
        Option::Some(false) => String::from_str("Some(false)"),
    }
}

/// Render the optional field of a record.
pub fn struct_opt_to_string(s: StructOptString) -> (r: String)
    ensures
        r@ == spec_opt_bool_text(s.value),
{
    opt_bool_to_string(s.value)
}

/// Render an optional boolean tristate.
pub fn to_string(tristate: Option<bool>) -> (r: String)
    ensures
        r@ == spec_opt_bool_text(tristate),
{
    opt_bool_to_string(tristate)
}

/// Render a record's optional tristate.
pub fn struct_to_string(with_option: WithOption) -> (r: String)
    ensures
        r@ == spec_opt_bool_text(with_option.tristate),
{
    opt_bool_to_string(with_option.tristate)
}

/// Describe an optional owned string argument.
pub fn opt_string(arg: Option<String>) -> (r: String)
    ensures
        arg matches Some(a) ==> r@ == "Called with '"@ + a@ + "'."@,
        arg is None ==> r@ == "Called with None."@,
    {
    match arg {
        Option::Some(a) => {
            let mut s = String::from_str("Called with '");
            s.append(a.as_str());
            s.append("'.");
            s
        },
        Option::None => String::from_str("Called with None."),
    }
}

/// Describe an optional borrowed string argument.
pub fn opt_str(arg: Option<&str>) -> (r: String)
    ensures
        arg matches Some(a) ==> r@ == "Called with '"@ + a@ + "'."@,
        arg is None ==> r@ == "Called with None."@,
{
    match arg {
        Option::Some(a) => {
            let mut s = String::from_str("Called with '");
            s.append(a);
            s.append("'.");
            s
        },
        Option::None => String::from_str("Called with None."),
    }
}

/// Describe the contents of a wrapped string.
pub fn new_string_param(value: NewString) -> (r: String)
    ensures
        r@ == "string contained '"@ + value.0@ + "'"@,
{
    let mut s = String::from_str("string contained '");
    s.append(value.0.as_str());
    s.append("'");
    s
}

/// Map the fieldless choice: the two input variants map to the two result
/// variants; a result variant as input is refused.
pub fn map_an_enum(data: AnEnum) -> (r: Result<AnEnum, Error>)
    ensures
        data == AnEnum::Something ==> r == Ok::<AnEnum, Error>(AnEnum::ResultA),
        data == AnEnum::Another ==> r == Ok::<AnEnum, Error>(AnEnum::ResultB),
        (data == AnEnum::ResultA || data == AnEnum::ResultB) ==> (r matches Err(e) && e.0@
            == "invalid"@),
{
    match data {
        AnEnum::Something => Ok(AnEnum::ResultA),
        AnEnum::Another => Ok(AnEnum::ResultB),
        _ => Error::fail("invalid"),
    }
}

/// Map the fieldless choice (the package variant of the same logic).
pub fn test_enums(data: AnEnum) -> (r: Result<AnEnum, Error>)
    ensures
        data == AnEnum::Something ==> r == Ok::<AnEnum, Error>(AnEnum::ResultA),
        data == AnEnum::Another ==> r == Ok::<AnEnum, Error>(AnEnum::ResultB),
        (data == AnEnum::ResultA || data == AnEnum::ResultB) ==> (r matches Err(e) && e.0@
            == "invalid"@),
{
    map_an_enum(data)
}

/// Map the tagged choice: text payloads gain a trailing stop, number pairs
/// step and double.
pub fn test_enums2(data: TaggedEnum) -> (r: TaggedEnum)
    requires
        data matches TaggedEnum::Another(n, m) ==> n < i32::MAX && 2 * m <= i32::MAX && 2 * m
            >= i32::MIN,
    ensures
        data matches TaggedEnum::Something(w) ==> (r matches TaggedEnum::Something(out)
            && out@ == w@ + "."@),
        data matches TaggedEnum::Another(n, m) ==> r == TaggedEnum::Another(
            (n + 1) as i32,
            (2 * m) as i32,
        ),
{
    match data {
        TaggedEnum::Something(word) => TaggedEnum::Something(word.concat(".")),
        TaggedEnum::Another(n, m) => TaggedEnum::Another(n + 1, m * 2),
    }
}

/// Describe a required number and an optional second number.
pub fn trailing_optional(first: u32, second: Option<u32>) -> (r: String)
    ensures
        second matches Some(b) ==> r@ == crate::stack::spec_dec_chars(first as nat) + ", Some("@
            + crate::stack::spec_dec_chars(b as nat) + ")"@,
        second is None ==> r@ == crate::stack::spec_dec_chars(first as nat) + ", None"@,
{
    let mut s = crate::stack::dec_string(first as u64);
    match second {
        Option::Some(b) => {
            s.append(", Some(");
            s.append(crate::stack::dec_string(b as u64).as_str());
            s.append(")");
        },
        Option::None => {
            s.append(", None");
        },
    }
    s
}

/// Add two numbers, dying on the magic number.
pub fn foo142(a: u32, b: u32) -> (r: Result<u32, Error>)
    requires
        a != 42 ==> a + b <= u32::MAX,
    ensures
        a == 42 ==> (r matches Err(e) && e.0@ == "dying on magic number"@),
        a != 42 ==> r == Ok::<u32, Error>((a + b) as u32),
{
    if a == 42 {
        return Error::fail("dying on magic number");
    }
    Ok(a + b)
}

/// An entry point that takes its own callable and an argument and does
/// nothing with them.
pub fn testit(cv: &Value, arg: &str) -> (r: bool)
    ensures
        r,
{
    true
}

/// Return the selected substring of a raw argument.
pub fn test_substr_return(interp: &mut Interp, value: Value) -> (r: Result<Value, Error>)
    requires
        old(interp).is_alive(value.sv_id()),
        old(interp).cells@.len() < usize::MAX,
    ensures
        ({
            let rep = old(interp).repr_of(value.sv_id());
            (value is Scalar && rep is Str && 6 <= rep->Str_bytes@.len()) ==> (
            r matches Ok(v) && final(interp).repr_of(v.sv_id()) is Lazy && final(interp).repr_of(v.sv_id())->Lazy_bytes@ == rep->Str_bytes@.subrange(3, 6))
        }),
{
    value.substr(interp, 3, 3)
}

/// Fail with a structured error, or succeed with fixed text.
pub fn test_deserialized_error(fail: bool) -> (r: Result<&'static str, MyError>)
    ensures
        fail ==> (r matches Err(e) && e.a@ == "first"@ && e.b@ == "second"@),
        !fail ==> r == Ok::<&'static str, MyError>("worked"),
{
    if fail {
        Err(
            MyError {
                a: String::from_str("first"),
                b: String::from_str("second"),
            },
        )
    } else {
        Ok("worked")
    }
}

/// Construct a blessed native object: a leaked payload token behind a
/// blessed reference, under the class named by the class argument.
pub fn new(interp: &mut Interp, class: &Value, payload: u64) -> (r: Result<Value, Error>)
    requires
        old(interp).cells@.len() + 2 < usize::MAX,
        old(interp).is_alive(class.sv_id()),
        old(interp).repr_of(class.sv_id()) matches Repr::Str { .. },
    ensures
        ({
            let rep = old(interp).repr_of(class.sv_id());
            rep matches Repr::Str { bytes, .. } ==> {
                if old(interp).has_package(bytes@) {
                    r matches Ok(v) && v.ok(*final(interp))
                } else {
                    r matches Err(e) && e.0@ == "failed to find package"@
                }
            }
        }),
{
    Value::bless_box(interp, class, payload)
}

/// Destroy a blessed native object: read its payload token back out of the
/// reference so the caller can reclaim it.
pub fn destroy(interp: &mut Interp, this: &Value) -> (r: Result<u64, Error>)
    requires
        old(interp).is_alive(this.sv_id()),
        (old(interp).repr_of(this.sv_id()) is Ref && old(interp).is_alive(
            old(interp).repr_of(this.sv_id())->Ref_target as int,
        )) ==> old(interp).rc_of(old(interp).repr_of(this.sv_id())->Ref_target as int)
            < u64::MAX,
    ensures
        final(interp).cells@ == old(interp).cells@,
{
    this.from_ref_box(interp)
}

/// Whether a native payload token has been reclaimed by a free callback.
pub fn is_dropped(interp: &Interp, token: u64) -> (r: bool)
    ensures
        r == interp.freed_payloads@.contains(token),
{
    interp.payload_was_freed(token)
}

} // verus!
