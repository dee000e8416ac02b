use pyproto::runtime::{PyContext, ObjRef, PyErr, PyComparisonOp, TYPE_DICT, TYPE_WARNING,
    TYPE_USER_WARNING, TYPE_ODICT};
use pyproto::value::Value;
use pyproto::odict::{OrderedDict, PyOrderedDict};
use pyproto::mapping::{PyMapping, mapping_subscript, mapping_ass_subscript};
use pyproto::views::{ValueSet, ViewKind, DictViewIterator, PyOrderedDictKeys, PyOrderedDictItems};
use pyproto::iter::{PyIterObj, IterStep, iter_next, get_iter};
use pyproto::descr::{PyWrapperDescriptor, PyMethodWrapper, WrapperFn, BindOutcome};
use pyproto::warnings::get_category;

fn ready_context() -> PyContext {
    let mut ctx = PyContext::new();
    pyproto::enumerate::init(&mut ctx);
    pyproto::map::init(&mut ctx);
    pyproto::zip::init(&mut ctx);
    pyproto::odict::init(&mut ctx);
    ctx
}

fn small_dict(ctx: &mut PyContext, entries: &[(&str, i64)]) -> (ObjRef, usize) {
    let mut d = OrderedDict::new();
    for (k, v) in entries {
        d.set_item(Value::string(k), Value::int64(*v));
    }
    let obj = ctx.add_dict(d);
    let id = match &obj {
        ObjRef::Dict(i) => *i,
        _ => unreachable!(),
    };
    (obj, id)
}

#[test]
fn dict_binds_looks_up_and_removes() {
    let mut d = OrderedDict::new();
    d.set_item(Value::string("a"), Value::int64(1));
    d.set_item(Value::string("b"), Value::int64(2));
    d.set_item(Value::string("a"), Value::int64(7));
    assert_eq!(d.len(), 2);
    assert!(d.contains_key(&Value::string("a")));
    match d.get(&Value::string("a")) {
        Some(Value::Int(n)) => assert_eq!(n.to_decimal(), "7"),
        other => panic!("expected the rebound value, got {:?}", other),
    }
    // Updating in place keeps insertion order: "a" still first.
    let first = d.entry_at(0);
    match &first.0 {
        Value::Str(s) => assert_eq!(s, "a"),
        other => panic!("expected the first key, got {:?}", other),
    }
    assert!(d.remove(&Value::string("a")).is_some());
    assert!(!d.contains_key(&Value::string("a")));
    assert!(d.remove(&Value::string("missing")).is_none());
}

#[test]
fn subscript_reads_through_the_slot_table() {
    let mut ctx = ready_context();
    let (obj, _) = small_dict(&mut ctx, &[("k", 41)]);
    match mapping_subscript(&ctx, &obj, &Value::string("k")) {
        Ok(Value::Int(n)) => assert_eq!(n.to_decimal(), "41"),
        other => panic!("expected the stored value, got {:?}", other),
    }
    match mapping_subscript(&ctx, &obj, &Value::string("absent")) {
        Err(PyErr::KeyError(m)) => assert_eq!(m, "mapping key not found"),
        other => panic!("expected the lookup error, got {:?}", other),
    }
}

#[test]
fn subscript_on_a_non_mapping_names_the_protocol() {
    let ctx = ready_context();
    let obj = ObjRef::Imm(Value::int64(9));
    match mapping_subscript(&ctx, &obj, &Value::int64(0)) {
        Err(PyErr::TypeError(m)) => {
            assert_eq!(m, "a dict-like object is required, not 'int'");
        }
        other => panic!("expected the protocol error, got {:?}", other),
    }
}

#[test]
fn subscript_writes_and_deletes_in_one_step() {
    let mut ctx = ready_context();
    let (obj, id) = small_dict(&mut ctx, &[("k", 1)]);
    mapping_ass_subscript(&mut ctx, &obj, &Value::string("j"), Some(Value::int64(2))).unwrap();
    assert_eq!(ctx.dicts[id].len(), 2);
    mapping_ass_subscript(&mut ctx, &obj, &Value::string("k"), None).unwrap();
    assert_eq!(ctx.dicts[id].len(), 1);
    match mapping_ass_subscript(&mut ctx, &obj, &Value::string("k"), None) {
        Err(PyErr::KeyError(_)) => {}
        other => panic!("expected the lookup error, got {:?}", other),
    }
}

#[test]
fn mapping_handle_checks_and_sizes() {
    let mut ctx = ready_context();
    let (obj, _) = small_dict(&mut ctx, &[("a", 1), ("b", 2)]);
    assert!(PyMapping::check(&obj, &ctx));
    assert!(!PyMapping::check(&ObjRef::Imm(Value::int64(1)), &ctx));
    let m = PyMapping::new(obj);
    assert_eq!(m.size(&ctx).unwrap(), 2);
    assert!(m.keys(&ctx).is_ok());
    assert!(m.values(&ctx).is_ok());
    assert!(m.items(&ctx).is_ok());
    let m2 = PyMapping::new(ObjRef::Imm(Value::int64(1)));
    match m2.size(&ctx) {
        Err(PyErr::TypeError(msg)) => assert_eq!(msg, "object of type int has no len()"),
        other => panic!("expected the no-len error, got {:?}", other),
    }
}

#[test]
fn ordered_subclass_resolves_slots_down_the_mro() {
    let mut ctx = ready_context();
    // An instance of the ordered-dictionary subclass is recognized as a
    // mapping through the base dictionary's slots.
    let inst = ObjRef::Imm(Value::Instance { type_id: TYPE_ODICT, uid: 1 });
    assert!(PyMapping::check(&inst, &ctx));
    let _ = &mut ctx;
}

#[test]
fn structural_mutation_is_fatal_then_exhausts() {
    let mut ctx = ready_context();
    let (_, id) = small_dict(&mut ctx, &[("a", 1), ("b", 2)]);
    let it = DictViewIterator::new(&ctx, id, ViewKind::Keys);
    let mut it = PyIterObj::DictView(it);
    let (next, r) = iter_next(it, &ctx);
    it = next;
    match r.unwrap() {
        IterStep::Item(Value::Str(s)) => assert_eq!(s, "a"),
        other => panic!("expected the first key, got {:?}", other),
    }
    // Insert a new key behind the iterator's back.
    ctx.dicts[id].set_item(Value::string("c"), Value::int64(3));
    let (next, r) = iter_next(it, &ctx);
    it = next;
    match r {
        Err(PyErr::RuntimeError(m)) => {
            assert_eq!(m, "dictionary changed size during iteration");
        }
        other => panic!("expected the mutation error, got {:?}", other),
    }
    // The error is fatal: the iterator is exhausted for good.
    let (_, r) = iter_next(it, &ctx);
    match r {
        Ok(IterStep::Done) => {}
        other => panic!("expected completion after the fatal error, got {:?}", other),
    }
}

#[test]
fn value_mutation_in_place_is_not_detected() {
    let mut ctx = ready_context();
    let (_, id) = small_dict(&mut ctx, &[("a", 1), ("b", 2)]);
    let it = DictViewIterator::new(&ctx, id, ViewKind::Values);
    let mut it = PyIterObj::DictView(it);
    let (next, _) = iter_next(it, &ctx);
    it = next;
    // Rebinding an existing key keeps the size; iteration continues.
    ctx.dicts[id].set_item(Value::string("b"), Value::int64(99));
    let (_, r) = iter_next(it, &ctx);
    match r.unwrap() {
        IterStep::Item(Value::Int(n)) => assert_eq!(n.to_decimal(), "99"),
        other => panic!("expected the rebound value, got {:?}", other),
    }
}

#[test]
fn reverse_view_iteration_walks_entries_backwards() {
    let mut ctx = ready_context();
    let (_, id) = small_dict(&mut ctx, &[("a", 1), ("b", 2)]);
    let it = DictViewIterator::new_reverse(&ctx, id, ViewKind::Keys);
    let mut it = PyIterObj::DictView(it);
    for expected in ["b", "a"] {
        let (next, r) = iter_next(it, &ctx);
        it = next;
        match r.unwrap() {
            IterStep::Item(Value::Str(s)) => assert_eq!(s, expected),
            other => panic!("expected a key, got {:?}", other),
        }
    }
    let (_, r) = iter_next(it, &ctx);
    match r.unwrap() {
        IterStep::Done => {}
        other => panic!("expected completion, got {:?}", other),
    }
}

#[test]
fn iterating_a_dict_yields_its_keys() {
    let mut ctx = ready_context();
    let (obj, _) = small_dict(&mut ctx, &[("only", 5)]);
    let it = get_iter(&ctx, &obj).unwrap();
    let (_, r) = iter_next(it, &ctx);
    match r.unwrap() {
        IterStep::Item(Value::Str(s)) => assert_eq!(s, "only"),
        other => panic!("expected the key, got {:?}", other),
    }
}

#[test]
fn key_views_take_symmetric_differences() {
    let mut ctx = ready_context();
    let (_, d1) = small_dict(&mut ctx, &[("a", 1), ("b", 2)]);
    let (_, d2) = small_dict(&mut ctx, &[("b", 2), ("c", 3)]);
    let keys1 = PyOrderedDictKeys { dict: d1 };
    let keys2 = PyOrderedDictKeys { dict: d2 };
    let other = keys2.to_set(&ctx);
    let sym = keys1.xor(&ctx, &other);
    assert!(sym.contains(&Value::string("a")));
    assert!(sym.contains(&Value::string("c")));
    assert!(!sym.contains(&Value::string("b")));
    let mut expected = ValueSet::new();
    expected.insert(Value::string("a"));
    expected.insert(Value::string("c"));
    assert!(sym.set_eq(&expected));
}

#[test]
fn items_view_membership_checks_key_and_value() {
    let mut ctx = ready_context();
    let (_, id) = small_dict(&mut ctx, &[("a", 1), ("b", 2)]);
    let items = PyOrderedDictItems { dict: id };
    let good = Value::pair(Value::string("b"), Value::int64(2));
    let bad = Value::pair(Value::string("b"), Value::int64(3));
    assert!(items.contains(&ctx, &good));
    assert!(!items.contains(&ctx, &bad));
    assert!(!items.contains(&ctx, &Value::string("b")));
    let short = Value::tuple(vec![Value::string("b")]);
    assert!(!items.contains(&ctx, &short));
}

#[test]
fn view_set_operations_cover_the_algebra() {
    let mut ctx = ready_context();
    let (_, d1) = small_dict(&mut ctx, &[("a", 1), ("b", 2)]);
    let keys1 = PyOrderedDictKeys { dict: d1 };
    let mut other = ValueSet::new();
    other.insert(Value::string("b"));
    other.insert(Value::string("z"));
    let union = keys1.or(&ctx, &other);
    assert_eq!(union.members().len(), 3);
    let inter = keys1.and(&ctx, &other);
    assert!(inter.contains(&Value::string("b")));
    assert_eq!(inter.members().len(), 1);
    let diff = keys1.sub(&ctx, &other);
    assert!(diff.contains(&Value::string("a")));
    assert_eq!(diff.members().len(), 1);
    let rdiff = keys1.rsub(&ctx, &other);
    assert!(rdiff.contains(&Value::string("z")));
    assert_eq!(rdiff.members().len(), 1);
}

#[test]
fn view_comparison_goes_by_the_induced_set() {
    let mut ctx = ready_context();
    let (_, d1) = small_dict(&mut ctx, &[("a", 1)]);
    let (_, d2) = small_dict(&mut ctx, &[("a", 9), ("b", 2)]);
    let keys1 = PyOrderedDictKeys { dict: d1 };
    let keys2 = PyOrderedDictKeys { dict: d2 };
    let set2 = keys2.to_set(&ctx);
    assert!(keys1.cmp(&ctx, &set2, PyComparisonOp::Lt));
    assert!(keys1.cmp(&ctx, &set2, PyComparisonOp::Le));
    assert!(keys1.cmp(&ctx, &set2, PyComparisonOp::Ne));
    assert!(!keys1.cmp(&ctx, &set2, PyComparisonOp::Eq));
    let items2 = PyOrderedDictItems { dict: d2 };
    let self_set = items2.to_set(&ctx);
    assert!(items2.cmp(&ctx, &self_set, PyComparisonOp::Eq));
}

#[test]
fn fromkeys_binds_every_key_once() {
    let mut ctx = ready_context();
    let keys = vec![
        Value::string("x"),
        Value::string("y"),
        Value::string("x"),
    ];
    let od = PyOrderedDict::fromkeys(&mut ctx, &keys, Some(Value::int64(0)));
    assert_eq!(ctx.dicts[od.dict].len(), 2);
    let od2 = PyOrderedDict::fromkeys(&mut ctx, &keys, None);
    match ctx.dicts[od2.dict].get(&Value::string("y")) {
        Some(Value::Nil) => {}
        other => panic!("expected the default none value, got {:?}", other),
    }
    assert!(od.init().is_ok());
    assert!(od.update().is_ok());
    assert_eq!(od.keys().len(&ctx), 2);
    assert_eq!(od.values().len(&ctx), 2);
    assert_eq!(od.items().len(&ctx), 2);
    let it = od.iter(&ctx);
    assert_eq!(it.length_hint(), 2);
}

#[test]
fn unbound_descriptor_call_needs_an_argument() {
    let ctx = ready_context();
    let d = PyWrapperDescriptor::new("__len__".to_string(), TYPE_DICT, WrapperFn::Length);
    match d.call(&ctx, &Vec::new()) {
        Err(PyErr::TypeError(m)) => {
            assert_eq!(m, "descriptor '__len__' of 'dict' object needs an argument");
        }
        other => panic!("expected the arity error, got {:?}", other),
    }
}

#[test]
fn bound_descriptor_rejects_an_unrelated_receiver() {
    let ctx = ready_context();
    let d = PyWrapperDescriptor::new("__len__".to_string(), TYPE_DICT, WrapperFn::Length);
    let receiver = ObjRef::Imm(Value::int64(1));
    let bound = match d.descr_get(Some(receiver)) {
        BindOutcome::Bound(m) => m,
        BindOutcome::Unbound(_) => panic!("binding with a receiver must produce a bound method"),
    };
    match bound.call(&ctx, &Vec::new()) {
        Err(PyErr::TypeError(m)) => {
            assert_eq!(m, "descriptor '__len__' requires a 'dict' object but received a 'int'");
        }
        other => panic!("expected the receiver-type error, got {:?}", other),
    }
}

#[test]
fn bound_descriptor_dispatches_on_its_receiver() {
    let mut ctx = ready_context();
    let (obj, _) = small_dict(&mut ctx, &[("a", 1), ("b", 2)]);
    let d = PyWrapperDescriptor::new("__len__".to_string(), TYPE_DICT, WrapperFn::Length);
    let bound = PyMethodWrapper::new(d, obj);
    match bound.call(&ctx, &Vec::new()) {
        Ok(Value::Int(n)) => assert_eq!(n.to_decimal(), "2"),
        other => panic!("expected the mapping's length, got {:?}", other),
    }
    assert_eq!(bound.qualname(&ctx), "dict.__len__");
    let _ = bound.get_self();
}

#[test]
fn descriptor_getitem_reaches_the_mapping() {
    let mut ctx = ready_context();
    let (obj, _) = small_dict(&mut ctx, &[("k", 13)]);
    let d = PyWrapperDescriptor::new("__getitem__".to_string(), TYPE_DICT, WrapperFn::GetItem);
    let bound = PyMethodWrapper::new(d, obj);
    let args = vec![Value::string("k")];
    match bound.call(&ctx, &args) {
        Ok(Value::Int(n)) => assert_eq!(n.to_decimal(), "13"),
        other => panic!("expected the stored value, got {:?}", other),
    }
}

#[test]
fn descriptor_text_forms() {
    let ctx = ready_context();
    let d = PyWrapperDescriptor::new("__len__".to_string(), TYPE_DICT, WrapperFn::Length);
    assert_eq!(d.repr(&ctx), "<slot wrapper '__len__' of 'dict' objects>");
    assert_eq!(d.name(), "__len__");
    assert_eq!(d.qualname(&ctx), "dict.__len__");
    match d.descr_get(None) {
        BindOutcome::Unbound(u) => assert_eq!(u.name(), "__len__"),
        BindOutcome::Bound(_) => panic!("class access must hand the descriptor back unbound"),
    }
}

#[test]
fn warning_category_resolution() {
    let ctx = ready_context();
    let warning_instance = ObjRef::Imm(Value::Instance { type_id: TYPE_WARNING, uid: 7 });
    assert_eq!(get_category(&ctx, &warning_instance, None).unwrap(), TYPE_WARNING);
    let plain = ObjRef::Imm(Value::int64(1));
    assert_eq!(
        get_category(&ctx, &plain, Some(TYPE_USER_WARNING)).unwrap(),
        TYPE_USER_WARNING
    );
    assert_eq!(get_category(&ctx, &plain, None).unwrap(), TYPE_USER_WARNING);
    match get_category(&ctx, &plain, Some(TYPE_DICT)) {
        Err(PyErr::TypeError(m)) => {
            assert_eq!(m, "category must be a Warning subclass, not dict");
        }
        other => panic!("expected the category error, got {:?}", other),
    }
}
