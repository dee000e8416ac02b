use pyproto::runtime::{PyContext, ObjRef, PyErr};
use pyproto::value::{Value, value_eq};
use pyproto::iter::{PyIterObj, IterStep, get_iter, iter_next, iter_length_hint};
use pyproto::enumerate::{PyEnumerate, PyReverseSequenceIterator, RevIterReduced};
use pyproto::map::{PyMap, Mapper};
use pyproto::zip::{PyZip, PyZipNewArgs};
use pyproto::bignum::BigNum;

fn ready_context() -> PyContext {
    let mut ctx = PyContext::new();
    pyproto::enumerate::init(&mut ctx);
    pyproto::map::init(&mut ctx);
    pyproto::zip::init(&mut ctx);
    pyproto::odict::init(&mut ctx);
    ctx
}

fn int_list(ctx: &mut PyContext, vals: &[i64]) -> ObjRef {
    let mut items = Vec::new();
    for v in vals {
        items.push(Value::int64(*v));
    }
    ctx.add_list(items)
}

fn step(it: PyIterObj, ctx: &PyContext) -> (PyIterObj, Result<IterStep, PyErr>) {
    iter_next(it, ctx)
}

fn expect_item(r: Result<IterStep, PyErr>) -> Value {
    match r {
        Ok(IterStep::Item(v)) => v,
        Ok(IterStep::Done) => panic!("expected an item, iterator signalled completion"),
        Err(e) => panic!("expected an item, got an error: {:?}", e),
    }
}

fn expect_done(r: Result<IterStep, PyErr>) {
    match r {
        Ok(IterStep::Done) => {}
        other => panic!("expected completion, got {:?}", other),
    }
}

fn int_of(v: &Value) -> String {
    match v {
        Value::Int(n) => n.to_decimal(),
        other => panic!("expected an integer value, got {:?}", other),
    }
}

#[test]
fn forward_iteration_walks_a_list() {
    let mut ctx = ready_context();
    let obj = int_list(&mut ctx, &[10, 20]);
    let it = get_iter(&ctx, &obj).unwrap();
    let (it, r) = step(it, &ctx);
    assert_eq!(int_of(&expect_item(r)), "10");
    let (it, r) = step(it, &ctx);
    assert_eq!(int_of(&expect_item(r)), "20");
    let (_, r) = step(it, &ctx);
    expect_done(r);
}

#[test]
fn exhaustion_is_sticky_on_a_list_iterator() {
    let mut ctx = ready_context();
    let obj = int_list(&mut ctx, &[1]);
    let it = get_iter(&ctx, &obj).unwrap();
    let (it, _) = step(it, &ctx);
    let (it, r) = step(it, &ctx);
    expect_done(r);
    for _ in 0..3 {
        let (_it2, r) = step(
            match &it {
                PyIterObj::Sequence(s) => PyIterObj::Sequence(pyproto::iter::SeqIter {
                    obj: s.obj.clone(),
                    position: s.position,
                    status: s.status,
                }),
                _ => unreachable!(),
            },
            &ctx,
        );
        expect_done(r);
    }
}

#[test]
fn reverse_iterator_of_empty_subject_starts_exhausted() {
    let mut ctx = ready_context();
    let obj = int_list(&mut ctx, &[]);
    let rv = PyReverseSequenceIterator::new(obj, 0);
    let (_, r) = step(PyIterObj::Reversed(rv), &ctx);
    expect_done(r);
}

#[test]
fn reverse_iterator_yields_back_to_front_then_completes() {
    let mut ctx = ready_context();
    let obj = int_list(&mut ctx, &[1, 2, 3]);
    let rv = PyReverseSequenceIterator::new(obj, 3);
    let mut it = PyIterObj::Reversed(rv);
    for expected in ["3", "2", "1"] {
        let (next, r) = step(it, &ctx);
        it = next;
        assert_eq!(int_of(&expect_item(r)), expected);
    }
    let (it, r) = step(it, &ctx);
    expect_done(r);
    let (_, r) = step(it, &ctx);
    expect_done(r);
}

#[test]
fn reverse_iterator_treats_shrunken_subject_as_exhaustion() {
    let mut ctx = ready_context();
    let obj = int_list(&mut ctx, &[1, 2, 3]);
    let rv = PyReverseSequenceIterator::new(obj, 3);
    // Shrink the subject before stepping: the out-of-range read is
    // ordinary exhaustion, not an error.
    ctx.lists[0].pop();
    ctx.lists[0].pop();
    ctx.lists[0].pop();
    let (_, r) = step(PyIterObj::Reversed(rv), &ctx);
    expect_done(r);
}

#[test]
fn reverse_roundtrip_continues_identically() {
    let mut ctx = ready_context();
    let obj = int_list(&mut ctx, &[1, 2, 3]);
    let rv = PyReverseSequenceIterator::new(obj, 3);
    let mut original = PyIterObj::Reversed(rv);
    let (next, r) = step(original, &ctx);
    original = next;
    assert_eq!(int_of(&expect_item(r)), "3");
    // Persist mid-traversal.
    let reduced = match &original {
        PyIterObj::Reversed(r) => r.reduce(),
        _ => unreachable!(),
    };
    let (obj2, pos) = match reduced {
        RevIterReduced::Active { obj, position } => (obj, position),
        RevIterReduced::Exhausted => panic!("iterator should still be active"),
    };
    // Rebuild over the same, equal-length subject and restore.
    let mut rebuilt_state = PyReverseSequenceIterator::new(obj2, 3);
    rebuilt_state.setstate(&ctx, pos).unwrap();
    let mut rebuilt = PyIterObj::Reversed(rebuilt_state);
    for expected in ["2", "1"] {
        let (no, ro) = step(original, &ctx);
        let (nr, rr) = step(rebuilt, &ctx);
        original = no;
        rebuilt = nr;
        assert_eq!(int_of(&expect_item(ro)), expected);
        assert_eq!(int_of(&expect_item(rr)), expected);
    }
    let (_, ro) = step(original, &ctx);
    let (_, rr) = step(rebuilt, &ctx);
    expect_done(ro);
    expect_done(rr);
}

#[test]
fn setstate_clamps_to_current_bounds() {
    let mut ctx = ready_context();
    let obj = int_list(&mut ctx, &[1, 2, 3]);
    let mut rv = PyReverseSequenceIterator::new(obj, 3);
    rv.setstate(&ctx, 100).unwrap();
    assert_eq!(rv.position, 2);
    rv.setstate(&ctx, -7).unwrap();
    assert_eq!(rv.position, 0);
}

#[test]
fn setstate_on_exhausted_iterator_changes_nothing() {
    let mut ctx = ready_context();
    let obj = int_list(&mut ctx, &[]);
    let mut rv = PyReverseSequenceIterator::new(obj, 0);
    rv.setstate(&ctx, 5).unwrap();
    assert_eq!(rv.position, -1);
}

#[test]
fn enumerate_counts_from_start() {
    let mut ctx = ready_context();
    let mut items = Vec::new();
    items.push(Value::string("x"));
    items.push(Value::string("y"));
    let obj = ctx.add_list(items);
    let e = PyEnumerate::tp_new(&ctx, &obj, Some(5)).unwrap();
    let mut it = PyIterObj::Enumerate(e);
    for (idx, txt) in [("5", "x"), ("6", "y")] {
        let (next, r) = step(it, &ctx);
        it = next;
        let pair = expect_item(r);
        match pair {
            Value::Tuple(parts) => {
                assert_eq!(int_of(&parts[0]), idx);
                match &parts[1] {
                    Value::Str(s) => assert_eq!(s, txt),
                    other => panic!("expected a string, got {:?}", other),
                }
            }
            other => panic!("expected a pairing, got {:?}", other),
        }
    }
    let (_, r) = step(it, &ctx);
    expect_done(r);
}

#[test]
fn enumerate_counter_grows_past_fixed_width() {
    let mut n = BigNum::from_u64(u64::MAX);
    assert_eq!(n.to_decimal(), "18446744073709551615");
    n.succ();
    assert_eq!(n.to_decimal(), "18446744073709551616");
    n.succ();
    assert_eq!(n.to_decimal(), "18446744073709551617");
    let mut m = BigNum::from_i64(-2);
    m.succ();
    assert_eq!(m.to_decimal(), "-1");
    m.succ();
    assert_eq!(m.to_decimal(), "0");
    m.succ();
    assert_eq!(m.to_decimal(), "1");
}

#[test]
fn map_stops_at_shortest_iterable() {
    let mut ctx = ready_context();
    let a = int_list(&mut ctx, &[1, 2, 3]);
    let b = int_list(&mut ctx, &[1, 2]);
    let iterables = vec![a, b];
    let m = PyMap::tp_new(&ctx, Mapper::PackTuple, &iterables).unwrap();
    let mut it = PyIterObj::Mapped(m);
    let mut yielded = 0;
    loop {
        let (next, r) = step(it, &ctx);
        it = next;
        match r.unwrap() {
            IterStep::Item(_) => yielded += 1,
            IterStep::Done => break,
        }
    }
    assert_eq!(yielded, 2);
}

#[test]
fn map_with_stop_transform_completes_immediately() {
    let mut ctx = ready_context();
    let a = int_list(&mut ctx, &[1, 2, 3]);
    let iterables = vec![a];
    let m = PyMap::tp_new(&ctx, Mapper::Stop, &iterables).unwrap();
    let (_, r) = step(PyIterObj::Mapped(m), &ctx);
    expect_done(r);
}

#[test]
fn map_length_hint_takes_the_largest_estimate() {
    let mut ctx = ready_context();
    let a = int_list(&mut ctx, &[1, 2, 3]);
    let b = int_list(&mut ctx, &[1]);
    let iterables = vec![a, b];
    let m = PyMap::tp_new(&ctx, Mapper::PackTuple, &iterables).unwrap();
    assert_eq!(m.length_hint(&ctx), 3);
    assert_eq!(iter_length_hint(&PyIterObj::Mapped(m), &ctx), 3);
}

fn make_zip(ctx: &mut PyContext, a: &[i64], b: &[i64], strict: bool) -> PyIterObj {
    let oa = int_list(ctx, a);
    let ob = int_list(ctx, b);
    let ia = get_iter(ctx, &oa).unwrap();
    let ib = get_iter(ctx, &ob).unwrap();
    let z = PyZip::py_new(vec![ia, ib], PyZipNewArgs { strict: Some(strict) });
    PyIterObj::Zipped(z)
}

#[test]
fn zip_strict_reports_the_shorter_argument() {
    let mut ctx = ready_context();
    let mut it = make_zip(&mut ctx, &[1, 2, 3], &[1, 2], true);
    for _ in 0..2 {
        let (next, r) = step(it, &ctx);
        it = next;
        expect_item(r);
    }
    let (_, r) = step(it, &ctx);
    match r {
        Err(PyErr::ValueError(m)) => {
            assert_eq!(m, "zip() argument 2 is shorter than argument 1");
        }
        other => panic!("expected the length-mismatch error, got {:?}", other),
    }
}

#[test]
fn zip_strict_reports_the_longer_argument() {
    let mut ctx = ready_context();
    let mut it = make_zip(&mut ctx, &[1, 2], &[1, 2, 3], true);
    for _ in 0..2 {
        let (next, r) = step(it, &ctx);
        it = next;
        expect_item(r);
    }
    let (_, r) = step(it, &ctx);
    match r {
        Err(PyErr::ValueError(m)) => {
            assert_eq!(m, "zip() argument 2 is longer than argument 1");
        }
        other => panic!("expected the length-mismatch error, got {:?}", other),
    }
}

#[test]
fn zip_strict_of_equal_lengths_completes_cleanly() {
    let mut ctx = ready_context();
    let mut it = make_zip(&mut ctx, &[1, 2], &[3, 4], true);
    let (next, r) = step(it, &ctx);
    it = next;
    let first = expect_item(r);
    match &first {
        Value::Tuple(parts) => {
            assert_eq!(int_of(&parts[0]), "1");
            assert_eq!(int_of(&parts[1]), "3");
        }
        other => panic!("expected a pairing, got {:?}", other),
    }
    let (next, r) = step(it, &ctx);
    it = next;
    let second = expect_item(r);
    match &second {
        Value::Tuple(parts) => {
            assert_eq!(int_of(&parts[0]), "2");
            assert_eq!(int_of(&parts[1]), "4");
        }
        other => panic!("expected a pairing, got {:?}", other),
    }
    let (it, r) = step(it, &ctx);
    expect_done(r);
    let (_, r) = step(it, &ctx);
    expect_done(r);
}

#[test]
fn zip_lenient_stops_at_first_exhausted() {
    let mut ctx = ready_context();
    let mut it = make_zip(&mut ctx, &[1], &[3, 4, 5], false);
    let (next, r) = step(it, &ctx);
    it = next;
    expect_item(r);
    let (_, r) = step(it, &ctx);
    expect_done(r);
}

#[test]
fn zip_of_nothing_is_always_done() {
    let ctx = ready_context();
    let z = PyZip::py_new(Vec::new(), PyZipNewArgs { strict: None });
    let (_, r) = step(PyIterObj::Zipped(z), &ctx);
    expect_done(r);
}

#[test]
fn zip_reduce_and_setstate_round_the_strict_flag() {
    let mut ctx = ready_context();
    let oa = int_list(&mut ctx, &[1]);
    let ia = get_iter(&ctx, &oa).unwrap();
    let mut z = PyZip::py_new(vec![ia], PyZipNewArgs { strict: Some(true) });
    let (iters, flag) = z.reduce(&ctx);
    assert_eq!(iters.len(), 1);
    assert_eq!(flag, Some(true));
    z.setstate(Some(false));
    assert!(!z.strict);
    z.setstate(None);
    assert!(!z.strict);
}

#[test]
fn nested_composites_iterate() {
    let mut ctx = ready_context();
    let oa = int_list(&mut ctx, &[7, 8]);
    let ob = int_list(&mut ctx, &[9, 10, 11]);
    let ia = get_iter(&ctx, &oa).unwrap();
    let ib = get_iter(&ctx, &ob).unwrap();
    let z = PyZip::py_new(vec![ia, ib], PyZipNewArgs { strict: None });
    let e = PyEnumerate {
        counter: BigNum::zero(),
        iterator: Box::new(PyIterObj::Zipped(z)),
    };
    let mut it = PyIterObj::Enumerate(e);
    let mut count = 0;
    loop {
        let (next, r) = step(it, &ctx);
        it = next;
        match r.unwrap() {
            IterStep::Item(v) => {
                match &v {
                    Value::Tuple(parts) => {
                        assert_eq!(int_of(&parts[0]), count.to_string());
                    }
                    other => panic!("expected a pairing, got {:?}", other),
                }
                count += 1;
            }
            IterStep::Done => break,
        }
    }
    assert_eq!(count, 2);
}

#[test]
fn iterating_a_non_iterable_names_its_type() {
    let ctx = ready_context();
    let obj = ObjRef::Imm(Value::int64(3));
    match get_iter(&ctx, &obj) {
        Err(PyErr::TypeError(m)) => assert_eq!(m, "'int' object is not iterable"),
        other => panic!("expected the not-iterable error, got {:?}", other),
    }
}

#[test]
fn tuple_values_iterate_like_sequences() {
    let ctx = ready_context();
    let t = Value::pair(Value::int64(4), Value::int64(5));
    let obj = ObjRef::Imm(t);
    let it = get_iter(&ctx, &obj).unwrap();
    let (it, r) = step(it, &ctx);
    assert_eq!(int_of(&expect_item(r)), "4");
    let (it, r) = step(it, &ctx);
    assert_eq!(int_of(&expect_item(r)), "5");
    let (_, r) = step(it, &ctx);
    expect_done(r);
}

#[test]
fn values_compare_structurally() {
    let a = Value::pair(Value::int64(1), Value::string("a"));
    let b = Value::pair(Value::int64(1), Value::string("a"));
    let c = Value::pair(Value::int64(1), Value::string("b"));
    assert!(value_eq(&a, &b));
    assert!(!value_eq(&a, &c));
    assert!(!value_eq(&Value::Nil, &Value::Bool(false)));
    assert!(value_eq(&Value::Nil, &Value::Nil));
}
