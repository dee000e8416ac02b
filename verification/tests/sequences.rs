use pyproto::runtime::{PyContext, ObjRef, PyErr, PyComparisonOp};
use pyproto::value::Value;
use pyproto::sequence::{eq, cmp, seq_mul, seq_len, seq_get_item, PySequenceMethods,
    PySequenceMethodsRef};
use pyproto::bignum::BigNum;

fn ints(vals: &[i64]) -> Vec<Value> {
    let mut out = Vec::new();
    for v in vals {
        out.push(Value::int64(*v));
    }
    out
}

fn int_of(v: &Value) -> String {
    match v {
        Value::Int(n) => n.to_decimal(),
        other => panic!("expected an integer value, got {:?}", other),
    }
}

#[test]
fn elementwise_equality() {
    assert!(eq(&ints(&[1, 2, 3]), &ints(&[1, 2, 3])));
    assert!(!eq(&ints(&[1, 2, 3]), &ints(&[1, 2])));
    assert!(!eq(&ints(&[1, 2, 3]), &ints(&[1, 2, 4])));
    assert!(eq(&ints(&[]), &ints(&[])));
}

#[test]
fn lexicographic_comparison_decides_on_first_difference() {
    assert!(cmp(&ints(&[1, 2, 3]), &ints(&[1, 3]), PyComparisonOp::Lt).unwrap());
    assert!(cmp(&ints(&[1, 3]), &ints(&[1, 2, 3]), PyComparisonOp::Gt).unwrap());
    assert!(!cmp(&ints(&[1, 2]), &ints(&[1, 2]), PyComparisonOp::Lt).unwrap());
    assert!(cmp(&ints(&[1, 2]), &ints(&[1, 2]), PyComparisonOp::Le).unwrap());
    assert!(cmp(&ints(&[1, 2]), &ints(&[1, 2]), PyComparisonOp::Eq).unwrap());
    assert!(cmp(&ints(&[1, 2]), &ints(&[2]), PyComparisonOp::Ne).unwrap());
}

#[test]
fn comparison_ties_break_by_length() {
    assert!(cmp(&ints(&[1, 2]), &ints(&[1, 2, 0]), PyComparisonOp::Lt).unwrap());
    assert!(cmp(&ints(&[1, 2, 0]), &ints(&[1, 2]), PyComparisonOp::Ge).unwrap());
}

#[test]
fn unordered_operands_refuse_order_but_allow_equality() {
    let a = vec![Value::string("s")];
    let b = ints(&[1]);
    match cmp(&a, &b, PyComparisonOp::Lt) {
        Err(PyErr::TypeError(_)) => {}
        other => panic!("expected the ordering error, got {:?}", other),
    }
    assert!(cmp(&a, &b, PyComparisonOp::Ne).unwrap());
}

#[test]
fn repetition_walks_the_row_in_rounds() {
    let mut m = seq_mul(ints(&[1, 2]), 2);
    let mut seen = Vec::new();
    while let Some(v) = m.next_item() {
        seen.push(int_of(&v));
    }
    assert_eq!(seen, ["1", "2", "1", "2"]);
    assert!(m.next_item().is_none());
}

#[test]
fn repetition_of_nothing_is_empty() {
    let mut m = seq_mul(ints(&[]), 5);
    assert!(m.next_item().is_none());
    let mut m2 = seq_mul(ints(&[1]), 0);
    assert!(m2.next_item().is_none());
}

#[test]
fn repetition_reports_its_remaining_count() {
    let mut m = seq_mul(ints(&[1, 2, 3]), 1);
    assert_eq!(m.remaining(), 3);
    m.next_item();
    assert_eq!(m.remaining(), 2);
}

#[test]
fn sequence_methods_on_a_row() {
    let v = ints(&[5, 6, 5]);
    assert_eq!(v.length(), 3);
    assert_eq!(v.size(), 3);
    match v.get_item(1) {
        Ok(item) => assert_eq!(int_of(&item), "6"),
        other => panic!("expected the element, got {:?}", other),
    }
    match v.get_item(9) {
        Err(PyErr::IndexError(_)) => {}
        other => panic!("expected the index error, got {:?}", other),
    }
    assert!(PySequenceMethods::contains(&v, &Value::int64(6)));
    assert!(!PySequenceMethods::contains(&v, &Value::int64(7)));
    assert_eq!(v.count(&Value::int64(5)), 2);
    assert_eq!(v.index(&Value::int64(6)).unwrap(), 1);
    match v.index(&Value::int64(9)) {
        Err(PyErr::ValueError(_)) => {}
        other => panic!("expected the lookup error, got {:?}", other),
    }
    let copy = v.to_vec();
    assert_eq!(copy.len(), 3);
    let joined = v.concat(&ints(&[7]));
    assert_eq!(joined.len(), 4);
    assert_eq!(int_of(&joined[3]), "7");
    let listed = v.list();
    assert_eq!(listed.len(), 3);
    match v.tuple() {
        Value::Tuple(parts) => assert_eq!(parts.len(), 3),
        other => panic!("expected a tuple value, got {:?}", other),
    }
}

#[test]
fn shared_sequence_methods_forward() {
    let handle = PySequenceMethodsRef::new(ints(&[8, 9]));
    let shared = handle.into_rcbuf();
    assert_eq!(shared.length(), 2);
    assert_eq!(int_of(&shared.get_item(0).unwrap()), "8");
    assert!(PySequenceMethods::contains(&shared, &Value::int64(9)));
    assert_eq!(shared.count(&Value::int64(8)), 1);
    assert_eq!(shared.index(&Value::int64(9)).unwrap(), 1);
    assert_eq!(shared.to_vec().len(), 2);
    assert_eq!(shared.get().length(), 2);
}

#[test]
fn generic_sequence_protocol_reads_lists_and_tuples() {
    let mut ctx = PyContext::new();
    let obj = ctx.add_list(ints(&[4, 5, 6]));
    assert_eq!(seq_len(&ctx, &obj).unwrap(), 3);
    assert_eq!(int_of(&seq_get_item(&ctx, &obj, 2).unwrap()), "6");
    match seq_get_item(&ctx, &obj, 3) {
        Err(PyErr::IndexError(m)) => assert_eq!(m, "sequence index out of range"),
        other => panic!("expected the index error, got {:?}", other),
    }
    let t = ObjRef::Imm(Value::pair(Value::int64(1), Value::int64(2)));
    assert_eq!(seq_len(&ctx, &t).unwrap(), 2);
    // A mapping never resolves as a sequence.
    let d = ctx.add_dict(pyproto::odict::OrderedDict::new());
    match seq_len(&ctx, &d) {
        Err(PyErr::TypeError(m)) => {
            assert_eq!(m, "a bytes-like object is required, not 'dict'");
        }
        other => panic!("expected the protocol error, got {:?}", other),
    }
}

#[test]
fn big_numbers_order_by_value() {
    let a = BigNum::from_i64(-5);
    let b = BigNum::from_i64(3);
    let c = BigNum::from_u64(u64::MAX);
    assert!(a.lt_big(&b));
    assert!(b.lt_big(&c));
    assert!(!c.lt_big(&b));
    assert!(!a.lt_big(&a));
    assert!(a.eq_big(&BigNum::from_i64(-5)));
    assert!(!a.eq_big(&b));
    let d = BigNum::from_i64(-6);
    assert!(d.lt_big(&a));
}
