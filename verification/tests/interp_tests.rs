//! The reference-count discipline, handle operations, attachments and the
//! argument-stack adapter, exercised against the counting backend.

use perlmod::array::Array;
use perlmod::interp::{Interp, Repr, SV};
use perlmod::magic::{MagicSpec, MagicTag, MGVTBL};
use perlmod::scalar::{Scalar, Type, FLAG_INTEGER, FLAG_NONE, FLAG_STRING};
use perlmod::stack::{extract_args, gen_prototype, pop_arg_mark, push_arg_mark, stack_push};
use perlmod::value::Value;
use perlmod::error::MagicError;

#[test]
fn refcount_balance_on_one_handle() {
    let mut interp = Interp::new();
    let s = Scalar::new_int(&mut interp, 5);
    let id = s.sv.id;
    assert_eq!(interp.ref_count(id), 1);

    // Acquire and release balance out exactly.
    let c = s.sv_ref().clone_ref(&mut interp);
    assert_eq!(interp.ref_count(id), 2);
    c.release(&mut interp);
    assert_eq!(interp.ref_count(id), 1);

    // A raw extraction and a move adoption change no count.
    let raw = s.into_raw();
    assert_eq!(interp.ref_count(id), 1);
    let s = Scalar::from_raw_move(raw);
    assert_eq!(interp.ref_count(id), 1);

    // The last release reclaims the cell: no leak, and a later lookup shows
    // it gone rather than double-freed.
    s.release(&mut interp);
    assert_eq!(interp.ref_count(id), 0);
    assert_eq!(interp.live_count(), 0);
}

#[test]
fn releasing_a_tree_reclaims_every_cell() {
    let mut interp = Interp::new();
    let arr = Array::new(&mut interp);
    let one = Value::new_int(&mut interp, 1);
    let two = Value::new_string(&mut interp, "two");
    arr.push(&mut interp, one);
    arr.push(&mut interp, two);
    let rv = Value::new_ref(&mut interp, &arr.0.sv_ref());
    arr.release(&mut interp);
    assert_eq!(interp.live_count(), 4);

    // Dropping the one remaining handle reclaims the reference, the
    // sequence, and both elements.
    rv.release(&mut interp);
    assert_eq!(interp.live_count(), 0);
}

#[test]
fn hash_single_cursor_resets_inflight_iteration() {
    let mut interp = Interp::new();
    let h = perlmod::hash::Hash::new(&mut interp);
    let a = Value::new_int(&mut interp, 1);
    let b = Value::new_int(&mut interp, 2);
    h.insert(&mut interp, "a", a);
    h.insert(&mut interp, "b", b);

    let it1 = h.shared_iter(&mut interp);
    let (k1, v1) = it1.next(&mut interp).expect("first entry");
    assert_eq!(k1, b"a".to_vec());
    v1.release(&mut interp);

    // Starting a second iteration over the same map resets the first: the
    // cursor belongs to the container.
    let it2 = h.shared_iter(&mut interp);
    let (k2, v2) = it2.next(&mut interp).expect("first entry again");
    assert_eq!(k2, b"a".to_vec());
    v2.release(&mut interp);

    // The first iterator now continues from the shared cursor.
    let (k3, v3) = it1.next(&mut interp).expect("second entry");
    assert_eq!(k3, b"b".to_vec());
    v3.release(&mut interp);
    assert!(it1.next(&mut interp).is_none());
}

#[test]
fn hash_insert_replaces_and_get_finds() {
    let mut interp = Interp::new();
    let h = perlmod::hash::Hash::new(&mut interp);
    let a = Value::new_int(&mut interp, 1);
    h.insert(&mut interp, "k", a);
    let b = Value::new_int(&mut interp, 2);
    h.insert(&mut interp, "k", b);
    assert_eq!(h.len(&interp), 1);
    let got = h.get(&mut interp, "k").expect("present");
    let got_ref = got.sv_ref();
    assert_eq!(got_ref.iv(&interp), 2);
    got.release(&mut interp);
    assert!(h.get(&mut interp, "absent").is_none());
}

#[test]
fn insert_by_scalar_key_coerces() {
    let mut interp = Interp::new();
    let h = perlmod::hash::Hash::new(&mut interp);

    // An integer key stores under its decimal text.
    let k = Value::new_int(&mut interp, -42);
    let v = Value::new_int(&mut interp, 7);
    h.insert_by_value(&mut interp, k, v);
    let got = h.get(&mut interp, "-42").expect("decimal key");
    assert_eq!(got.sv_ref().iv(&interp), 7);
    got.release(&mut interp);

    // A string key stores under its own bytes and replaces on repeat.
    let k = Value::new_string(&mut interp, "name");
    let v = Value::new_int(&mut interp, 1);
    h.insert_by_value(&mut interp, k, v);
    let k = Value::new_string(&mut interp, "name");
    let v = Value::new_int(&mut interp, 2);
    h.insert_by_value(&mut interp, k, v);
    assert_eq!(h.len(&interp), 2);
    let got = h.get(&mut interp, "name").expect("string key");
    assert_eq!(got.sv_ref().iv(&interp), 2);
    got.release(&mut interp);

    // An undefined key stores under the empty string.
    let k = Value::new_undef(&mut interp);
    let v = Value::new_int(&mut interp, 9);
    h.insert_by_value(&mut interp, k, v);
    let got = h.get(&mut interp, "").expect("empty key");
    assert_eq!(got.sv_ref().iv(&interp), 9);
    got.release(&mut interp);
}

#[test]
fn freeing_a_scope_releases_each_deferred_unit() {
    let mut interp = Interp::new();
    let s = Scalar::new_int(&mut interp, 1);
    let id = s.sv.id;
    let extra = s.sv_ref().clone_ref(&mut interp);
    let extra2 = s.sv_ref().clone_ref(&mut interp);
    assert_eq!(interp.ref_count(id), 3);

    // Two deferred entries on the same cell drop two units at scope end.
    let _mark = interp.save_tmps();
    let _m1 = extra.into_mortal(&mut interp);
    let _m2 = extra2.into_mortal(&mut interp);
    assert_eq!(interp.ref_count(id), 3);
    interp.free_tmps();
    assert_eq!(interp.ref_count(id), 1);

    // A cell whose whole count sits on the deferred list is reclaimed.
    let _mark = interp.save_tmps();
    let _m3 = s.into_mortal(&mut interp);
    interp.free_tmps();
    assert_eq!(interp.ref_count(id), 0);
    assert_eq!(interp.live_count(), 0);
}

#[test]
fn array_get_push_pop() {
    let mut interp = Interp::new();
    let arr = Array::new(&mut interp);
    assert!(arr.is_empty(&interp));
    let v = Value::new_int(&mut interp, 7);
    arr.push(&mut interp, v);
    assert_eq!(arr.len(&interp), 1);
    let got = arr.get(&mut interp, 0).expect("index 0");
    assert_eq!(got.sv_ref().iv(&interp), 7);
    got.release(&mut interp);
    assert!(arr.get(&mut interp, 1).is_none());
    let popped = arr.pop(&mut interp).expect("pop");
    assert_eq!(popped.sv_ref().iv(&interp), 7);
    popped.release(&mut interp);
    assert!(arr.pop(&mut interp).is_none());
}

#[test]
fn classification_and_lazy_forcing() {
    let mut interp = Interp::new();
    let s = Scalar::new_string(&mut interp, "hello world");
    assert_eq!(s.sv_ref().ty(&mut interp), Type::Scalar(FLAG_STRING));
    let n = Scalar::new_int(&mut interp, 3);
    assert_eq!(n.sv_ref().ty(&mut interp), Type::Scalar(FLAG_INTEGER));
    let u = Scalar::new_undef(&mut interp);
    assert_eq!(u.sv_ref().ty(&mut interp), Type::Scalar(FLAG_NONE));

    // A substring is deferred; classifying forces it to a concrete string.
    let sub = s.sv_ref().substr(&mut interp, 0, 5).expect("substr");
    assert!(sub.sv_ref().is_substr(&interp));
    assert!(matches!(
        interp.cells[sub.sv.id].repr,
        Repr::Lazy { .. }
    ));
    assert_eq!(sub.sv_ref().ty(&mut interp), Type::Scalar(FLAG_STRING));
    assert!(matches!(
        interp.cells[sub.sv.id].repr,
        Repr::Str { .. }
    ));
    let err = s.sv_ref().substr(&mut interp, 8, 10).unwrap_err();
    assert_eq!(err.0, "substr with out of bounds range");
}

#[test]
fn dereference_and_dangling() {
    let mut interp = Interp::new();
    let target = Scalar::new_int(&mut interp, 11);
    let tid = target.sv.id;
    let rv = Value::new_ref(&mut interp, &target.sv_ref());
    target.release(&mut interp);

    let got = rv.dereference(&mut interp).expect("live target");
    assert_eq!(got.raw_id(), tid);
    got.release(&mut interp);

    // Forging a second owner for the target's single unit and releasing it
    // leaves the reference dangling: resolution reports nothing.
    let forged = Scalar::from_raw_move(SV { id: tid });
    forged.release(&mut interp);
    assert!(rv.dereference(&mut interp).is_none());
    rv.release(&mut interp);
}

#[test]
fn attachment_duality() {
    let mut interp = Interp::new();

    // A tag without a free callback: remove returns the payload exactly
    // once and errors on a second call.
    let manual_tag = MagicTag::new(&mut interp, MGVTBL::zero());
    let manual = MagicSpec::new_static(&manual_tag);
    let cell = Scalar::new_undef(&mut interp);
    cell.sv_ref().add_magic(&mut interp, manual.with_value(777));
    assert_eq!(cell.sv_ref().find_magic(&interp, &manual), Some(777));
    assert_eq!(cell.sv_ref().remove_magic(&mut interp, &manual), Ok(Some(777)));
    assert_eq!(
        cell.sv_ref().remove_magic(&mut interp, &manual),
        Err(MagicError::NotFound(""))
    );

    // A tag with a free callback: ownership rides the auto-free path, so
    // remove hands nothing out and the callback reclaims the payload.
    let auto_tag = MagicTag::new(&mut interp, MGVTBL::with_free());
    let auto = MagicSpec::new_static(&auto_tag);
    cell.sv_ref().add_magic(&mut interp, auto.with_value(888));
    assert_eq!(cell.sv_ref().remove_magic(&mut interp, &auto), Ok(None));
    assert!(perlmod::testlib::is_dropped(&interp, 888));

    // And when the interpreter reclaims the holder, the callback runs too.
    cell.sv_ref().add_magic(&mut interp, auto.with_value(999));
    let _ = interp.save_tmps();
    let m = cell.into_mortal(&mut interp);
    interp.free_tmps();
    assert!(perlmod::testlib::is_dropped(&interp, 999));
}

#[test]
fn argument_extraction_arity() {
    let mut interp = Interp::new();
    let names = vec![
        String::from("alpha"),
        String::from("beta"),
    ];

    // One argument for two required parameters: the absent one is named.
    push_arg_mark(&mut interp);
    let a1 = Value::new_int(&mut interp, 1);
    let m1 = a1.into_mortal(&mut interp);
    stack_push(&mut interp, m1);
    let mark = pop_arg_mark(&mut interp);
    let err = extract_args(&mut interp, &mark, &names, 2).unwrap_err();
    assert_eq!(err.0, "missing required parameter: 'beta'");
    mark.set_stack(&mut interp);

    // Three arguments for two parameters: the expected count is stated.
    push_arg_mark(&mut interp);
    for i in 0..3 {
        let v = Value::new_int(&mut interp, i);
        let m = v.into_mortal(&mut interp);
        stack_push(&mut interp, m);
    }
    let mark = pop_arg_mark(&mut interp);
    let err = extract_args(&mut interp, &mark, &names, 2).unwrap_err();
    assert_eq!(err.0, "too many parameters for function (expected 2)");
    mark.set_stack(&mut interp);

    // One argument with one required and one trailing optional: the
    // optional parameter reads as undefined.
    push_arg_mark(&mut interp);
    let a1 = Value::new_int(&mut interp, 5);
    let m5 = a1.into_mortal(&mut interp);
    stack_push(&mut interp, m5);
    let mark = pop_arg_mark(&mut interp);
    let args = extract_args(&mut interp, &mark, &names, 1).expect("arity ok");
    assert_eq!(args.len(), 2);
    assert_eq!(args[0].sv_ref().iv(&interp), 5);
    assert!(args[1].sv_ref().is_undef(&interp));
}

#[test]
fn prototypes() {
    assert_eq!(gen_prototype(4, 2), "$$;$$");
    assert_eq!(gen_prototype(3, 0), "$$$");
    assert_eq!(gen_prototype(0, 0), "");
    assert_eq!(gen_prototype(1, 1), ";$");
}

#[test]
fn narrowing_checks_the_type_tag() {
    let mut interp = Interp::new();
    let s = Scalar::new_int(&mut interp, 1);
    let res = Array::try_from_scalar(&interp, s);
    let (s, e) = res.unwrap_err();
    assert_eq!(e.message(), "wrong type");
    let res = perlmod::hash::Hash::try_from_scalar(&interp, s);
    assert!(res.is_err());

    let h = perlmod::hash::Hash::new(&mut interp);
    let hs = h.into_scalar();
    assert!(perlmod::hash::Hash::try_from_scalar(&interp, hs).is_ok());
}

#[test]
fn blessing_and_pointer_cells() {
    let mut interp = Interp::new();
    interp.register_package("RSPM::Thing");
    let class = Value::new_string(&mut interp, "RSPM::Thing");

    let this = perlmod::testlib::new(&mut interp, &class, 0xdead).expect("bless");
    let token = perlmod::testlib::destroy(&mut interp, &this).expect("pointer back");
    assert_eq!(token, 0xdead);
    let back = this.from_blessed_box(&mut interp, "RSPM::Thing").expect("blessed");
    assert_eq!(back, 0xdead);
    let err = this.from_blessed_box(&mut interp, "RSPM::Other").unwrap_err();
    assert_eq!(err.0, "value not blessed into package");

    let missing = Value::new_string(&mut interp, "No::Such");
    let err = perlmod::testlib::new(&mut interp, &missing, 1).unwrap_err();
    assert_eq!(err.0, "failed to find package");

    let plain = Value::new_int(&mut interp, 0);
    let err = plain.from_ref_box(&mut interp).unwrap_err();
    assert_eq!(err.0, "not a reference");
}

#[test]
fn wantarray_follows_context() {
    let mut interp = Interp::new();
    assert!(!perlmod::wantarray(&interp));
    interp.set_gimme(true);
    assert!(perlmod::wantarray(&interp));
}

#[test]
fn list_return_publishes_contiguously() {
    let mut interp = Interp::new();
    let a = Value::new_int(&mut interp, 1);
    let b = Value::new_int(&mut interp, 2);
    let (ia, ib) = (a.raw_id(), b.raw_id());
    perlmod::ser::return_value::ReturnValue::List(vec![a, b]).__private_push_to_stack(&mut interp);
    assert_eq!(interp.stack.len(), 2);
    assert_eq!(interp.stack[0], ia);
    assert_eq!(interp.stack[1], ib);
}

#[test]
fn example_exports() {
    assert_eq!(perlmod::testlib::hello("you").unwrap(), "Hello, 'you'");
    assert_eq!(perlmod::testlib::multi_return().unwrap(), (17, 32));
    assert_eq!(perlmod::testlib::opt_bool_to_string(Some(true)), "Some(true)");
    assert_eq!(perlmod::testlib::opt_bool_to_string(None), "None");
    assert_eq!(perlmod::testlib::to_string(Some(false)), "Some(false)");
    assert_eq!(perlmod::testlib::trailing_optional(17, Some(32)), "17, Some(32)");
    assert_eq!(perlmod::testlib::trailing_optional(5, None), "5, None");
    assert_eq!(perlmod::testlib::foo142(1, 2).unwrap(), 3);
    assert_eq!(perlmod::testlib::foo142(42, 0).unwrap_err().0, "dying on magic number");
    assert_eq!(
        perlmod::testlib::map_an_enum(perlmod::testlib::AnEnum::Something).unwrap(),
        perlmod::testlib::AnEnum::ResultA
    );
    assert_eq!(
        perlmod::testlib::test_enums2(perlmod::testlib::TaggedEnum::Another(1, 2)),
        perlmod::testlib::TaggedEnum::Another(2, 4)
    );
    match perlmod::testlib::test_enums2(perlmod::testlib::TaggedEnum::Something(String::from("word"))) {
        perlmod::testlib::TaggedEnum::Something(w) => assert_eq!(w, "word."),
        _ => panic!("wrong variant"),
    }
}

#[test]
fn pointer_cells_roundtrip_tokens() {
    let mut interp = Interp::new();
    let p = Scalar::new_pointer(&mut interp, 0x1122334455667788);
    let got = p.sv_ref().pv_raw(&interp).expect("eight bytes");
    assert_eq!(got, 0x1122334455667788);
    let s = Scalar::new_string(&mut interp, "xyz");
    let err = s.sv_ref().pv_raw(&interp).unwrap_err();
    assert_eq!(err.0, "invalid value for pointer");
}
