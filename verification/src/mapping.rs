//! The mapping protocol: per-type slot tables for length, subscript
//! read and subscript write, resolved along the method-resolution order,
//! and the generic operations that check for a slot and then dispatch.

use vstd::prelude::*;
use vstd::string::StringExecFns;
use crate::value::{Value, AbsVal, val_wf};
use crate::runtime::{PyContext, ObjRef, PyErr, TypeInfo, obj_wf, spec_type_of, type_of};

verus! {

/// Which built-in implementation fills a mapping slot.
#[derive(Clone, Copy, Debug, PartialEq, Eq, Structural)]
pub enum MappingImpl {
    Dict,
}

/// A type's mapping slots: each operation is either absent or filled by
/// one of the built-in implementations.
#[derive(Clone, Copy, Debug)]
pub struct PyMappingMethods {
    pub length: Option<MappingImpl>,
    pub subscript: Option<MappingImpl>,
    pub ass_subscript: Option<MappingImpl>,
}

/// The message raised when no type in the MRO supplies mapping slots.
pub open spec fn missing_mapping_msg(name: Seq<char>) -> Seq<char> {
    "a dict-like object is required, not '"@ + name + "'"@
}

/// The message raised when an object's type supplies no length slot.
pub open spec fn no_len_msg(name: Seq<char>) -> Seq<char> {
    "object of type "@ + name + " has no len()"@
}

/// First mapping-slot table along an MRO, front to back.
pub open spec fn first_as_mapping(types: Seq<TypeInfo>, mro: Seq<usize>)
    -> Option<PyMappingMethods>
    decreases mro.len(),
{
    if mro.len() == 0 {
        None
    } else if 0 <= mro[0] < types.len() && types[mro[0] as int].as_mapping is Some {
        types[mro[0] as int].as_mapping
    } else {
        first_as_mapping(types, mro.skip(1))
    }
}

/// The mapping-slot table the dispatch layer resolves for a type.
pub open spec fn spec_mapping_methods_of(ctx: PyContext, tid: int)
    -> Option<PyMappingMethods> {
    first_as_mapping(ctx.types@, ctx.types@[tid].mro@)
}

/// Resolve the mapping slots of an object's type: walk the MRO in
/// definition order and take the first type that supplies the table.
/// The check-then-dispatch step of every generic mapping operation.
pub fn try_mapping_methods(ctx: &PyContext, obj: &ObjRef) -> (r: Result<PyMappingMethods, PyErr>)
    requires
        ctx.wf(),
        obj_wf(*obj, *ctx),
    ensures
        match r {
            Ok(m) => spec_mapping_methods_of(*ctx, spec_type_of(*obj)) == Some(m),
            Err(e) => spec_mapping_methods_of(*ctx, spec_type_of(*obj)) is None
                && (e matches PyErr::TypeError(m)
                    && m@ == missing_mapping_msg_str(*ctx, spec_type_of(*obj))),
        },
{
    let tid = type_of(ctx, obj);
    let mro = &ctx.types[tid].mro;
    let n = mro.len();
    let ghost types = ctx.types@;
    proof {
        assert(mro@.skip(0) =~= mro@);
    }
    let mut i: usize = 0;
    while i < n
        invariant
            ctx.wf(),
            obj_wf(*obj, *ctx),
            n == mro@.len(),
            i <= n,
            tid as int == spec_type_of(*obj),
            mro@ == ctx.types@[tid as int].mro@,
            types == ctx.types@,
            tid < ctx.types@.len(),
            forall|j: int| 0 <= j < mro@.len() ==> #[trigger] mro@[j] < ctx.types@.len(),
            first_as_mapping(types, mro@) == first_as_mapping(types, mro@.skip(i as int)),
        decreases n - i,
    {
        let cls = mro[i];
        let found = ctx.types[cls].as_mapping;
        proof {
            assert(mro@.skip(i as int)[0] == mro@[i as int]);
            assert(mro@.skip(i as int).skip(1) =~= mro@.skip(i as int + 1));
        }
        if let Some(m) = found {
            return Ok(m);
        }
        i += 1;
    }
    proof {
        assert(mro@.skip(n as int) =~= Seq::<usize>::empty());
    }
    Err(PyErr::TypeError(missing_mapping_message(ctx, tid)))
}

/// The resolved message text for a protocol-missing error on `tid`.
pub open spec fn missing_mapping_msg_str(ctx: PyContext, tid: int) -> PyErrMsg {
    missing_mapping_msg(ctx.types@[tid].name@)
}

/// Message text alias used by the contracts above.
pub type PyErrMsg = Seq<char>;

/// Build the protocol-missing message for a type.
fn missing_mapping_message(ctx: &PyContext, tid: usize) -> (r: String)
    requires
        ctx.wf(),
        tid < ctx.types@.len(),
    ensures
        r@ == missing_mapping_msg(ctx.types@[tid as int].name@),
{
    let mut m: String = "a dict-like object is required, not '".to_owned();
    m.append(ctx.types[tid].name.as_str());
    m.append("'");
    m
}

/// What the generic length operation yields on an object, when it
/// succeeds: the type resolves a dict-backed length slot and the object
/// really is a stored mapping.
pub open spec fn spec_mapping_size(ctx: PyContext, o: ObjRef) -> Option<int> {
    match spec_mapping_methods_of(ctx, spec_type_of(o)) {
        Some(m) => {
            if m.length == Some(MappingImpl::Dict) {
                match o {
                    ObjRef::Dict(d) => Some(ctx.dicts@[d as int].view_entries().len() as int),
                    _ => None,
                }
            } else {
                None
            }
        },
        None => None,
    }
}

/// What the generic subscript read yields on success.
pub open spec fn spec_mapping_subscript(ctx: PyContext, o: ObjRef, k: AbsVal)
    -> Option<Option<AbsVal>> {
    match spec_mapping_methods_of(ctx, spec_type_of(o)) {
        Some(m) => {
            if m.subscript == Some(MappingImpl::Dict) {
                match o {
                    ObjRef::Dict(d) => Some(ctx.dicts@[d as int].spec_get(k)),
                    _ => None,
                }
            } else {
                None
            }
        },
        None => None,
    }
}

/// Generic subscript read, `obj[key]`: resolve the subscript slot along
/// the MRO, then look the key up in the backing mapping. A missing slot
/// is a protocol error; a missing key is a lookup error.
pub fn mapping_subscript(ctx: &PyContext, o: &ObjRef, key: &Value) -> (r: Result<Value, PyErr>)
    requires
        ctx.wf(),
        obj_wf(*o, *ctx),
        key.wf(),
    ensures
        match r {
            Ok(v) => spec_mapping_subscript(*ctx, *o, key@) == Some(Some(v@)) && v.wf(),
            Err(e) => match e {
                PyErr::KeyError(m) => spec_mapping_subscript(*ctx, *o, key@) == Some(None::<AbsVal>)
                    && m@ == "mapping key not found"@,
                PyErr::TypeError(m) => spec_mapping_subscript(*ctx, *o, key@) is None
                    && m@ == missing_mapping_msg_str(*ctx, spec_type_of(*o)),
                _ => false,
            },
        },
{
    let m = match try_mapping_methods(ctx, o) {
        Ok(m) => m,
        Err(e) => {
            return Err(e);
        },
    };
    let usable = match m.subscript {
        Some(MappingImpl::Dict) => matches!(o, ObjRef::Dict(_)),
        None => false,
    };
    if !usable {
        let tid = type_of(ctx, o);
        return Err(PyErr::TypeError(missing_mapping_message(ctx, tid)));
    }
    match o {
        ObjRef::Dict(d) => {
            proof {
                assert(m.subscript == Some(MappingImpl::Dict));
                assert(spec_mapping_subscript(*ctx, *o, key@)
                    == Some(ctx.dicts@[*d as int].spec_get(key@)));
            }
            match ctx.dicts[*d].get(key) {
                Some(v) => Ok(v),
                None => Err(PyErr::KeyError("mapping key not found".to_owned())),
            }
        },
        _ => {
            proof {
                assert(false);
            }
            Err(PyErr::TypeError("a dict-like object is required".to_owned()))
        },
    }
}

/// Whether the generic subscript write applies to the object.
pub open spec fn spec_can_ass_subscript(ctx: PyContext, o: ObjRef) -> bool {
    match spec_mapping_methods_of(ctx, spec_type_of(o)) {
        Some(m) => m.ass_subscript == Some(MappingImpl::Dict) && o is Dict,
        None => false,
    }
}

/// Generic subscript write and delete, `obj[key] = value` and
/// `del obj[key]`: resolve the slot, then mutate the backing mapping in
/// one step. A store binds the key; a delete of an absent key fails
/// without mutating anything.
pub fn mapping_ass_subscript(
    ctx: &mut PyContext,
    o: &ObjRef,
    key: &Value,
    value: Option<Value>,
) -> (r: Result<(), PyErr>)
    requires
        old(ctx).wf(),
        obj_wf(*o, *old(ctx)),
        key.wf(),
        value matches Some(v) ==> v.wf(),
    ensures
        final(ctx).wf(),
        final(ctx).types@ == old(ctx).types@,
        final(ctx).lists@ == old(ctx).lists@,
        obj_wf(*o, *final(ctx)),
        final(ctx).dicts@.len() == old(ctx).dicts@.len(),
        match r {
            Ok(()) => {
                &&& spec_can_ass_subscript(*old(ctx), *o)
                &&& (o matches ObjRef::Dict(d) ==> {
                    let dict = old(ctx).dicts@[d as int];
                    &&& (forall|j: int|
                        0 <= j < old(ctx).dicts@.len() && j != d as int
                            ==> final(ctx).dicts@[j] == old(ctx).dicts@[j])
                    &&& match value {
                        Some(v) => final(ctx).dicts@[d as int].view_entries()
                            =~= crate::odict::dict_set(dict.view_entries(), key@, v@),
                        None => {
                            let i = crate::odict::first_idx(dict.keys_abs(), key@);
                            &&& i >= 0
                            &&& final(ctx).dicts@[d as int].view_entries()
                                =~= dict.view_entries().remove(i)
                        },
                    }
                })
            },
            Err(e) => {
                final(ctx).dicts@ =~= old(ctx).dicts@
                && match e {
                    PyErr::KeyError(m) => spec_can_ass_subscript(*old(ctx), *o)
                        && value is None
                        && !old(ctx).dicts@[o->Dict_0 as int].spec_has_key(key@)
                        && m@ == "mapping key not found"@,
                    PyErr::TypeError(m) => !spec_can_ass_subscript(*old(ctx), *o)
                        && m@ == missing_mapping_msg_str(*old(ctx), spec_type_of(*o)),
                    _ => false,
                }
            },
        },
{
    let m = match try_mapping_methods(ctx, o) {
        Ok(m) => m,
        Err(e) => {
            return Err(e);
        },
    };
    let usable = match m.ass_subscript {
        Some(MappingImpl::Dict) => matches!(o, ObjRef::Dict(_)),
        None => false,
    };
    if !usable {
        let tid = type_of(ctx, o);
        return Err(PyErr::TypeError(missing_mapping_message(ctx, tid)));
    }
    match o {
        ObjRef::Dict(d) => {
            proof {
                assert(m.ass_subscript == Some(MappingImpl::Dict));
                assert(spec_can_ass_subscript(*ctx, *o));
            }
            match value {
                Some(v) => {
                    ctx.dicts[*d].set_item(key.clone(), v);
                    Ok(())
                },
                None => {
                    match ctx.dicts[*d].remove(key) {
                        Some(_) => Ok(()),
                        None => Err(PyErr::KeyError("mapping key not found".to_owned())),
                    }
                },
            }
        },
        _ => {
            proof {
                assert(false);
            }
            Err(PyErr::TypeError("a dict-like object is required".to_owned()))
        },
    }
}

/// A checked handle for treating an object through the mapping
/// protocol.
#[derive(Debug)]
pub struct PyMapping {
    obj: ObjRef,
}

impl PyMapping {
    /// The wrapped object.
    pub closed spec fn spec_obj(self) -> ObjRef {
        self.obj
    }

    /// Wrap an object; no check happens here.
    pub fn new(obj: ObjRef) -> (r: PyMapping)
        ensures
            r.spec_obj() == obj,
    {
        PyMapping { obj }
    }

    /// Hand the object back.
    pub fn into_object(self) -> (r: ObjRef)
        ensures
            r == self.spec_obj(),
    {
        self.obj
    }

    /// Borrow the object.
    pub fn as_object(&self) -> (r: &ObjRef)
        ensures
            *r == self.spec_obj(),
    {
        &self.obj
    }

    /// Whether the object's type resolves a subscript slot: the
    /// mapping-ness test.
    pub fn check(obj: &ObjRef, ctx: &PyContext) -> (r: bool)
        requires
            ctx.wf(),
            obj_wf(*obj, *ctx),
        ensures
            r == spec_mapping_check(*ctx, *obj),
    {
        match try_mapping_methods(ctx, obj) {
            Ok(m) => m.subscript.is_some(),
            Err(_) => false,
        }
    }

    /// The mapping's length through its length slot; an object whose
    /// type supplies no usable slot has no len().
    pub fn size(&self, ctx: &PyContext) -> (r: Result<usize, PyErr>)
        requires
            ctx.wf(),
            obj_wf(self.spec_obj(), *ctx),
        ensures
            match r {
                Ok(n) => spec_mapping_size(*ctx, self.spec_obj()) == Some(n as int),
                Err(e) => spec_mapping_size(*ctx, self.spec_obj()) is None
                    && (e matches PyErr::TypeError(m)
                        && m@ == no_len_msg(
                            ctx.types@[spec_type_of(self.spec_obj())].name@)),
            },
    {
        let methods = match try_mapping_methods(ctx, &self.obj) {
            Ok(m) => Some(m),
            Err(_) => None,
        };
        let usable = match methods {
            Some(mm) => match mm.length {
                Some(MappingImpl::Dict) => matches!(&self.obj, ObjRef::Dict(_)),
                None => false,
            },
            None => false,
        };
        if usable {
            match &self.obj {
                ObjRef::Dict(d) => {
                    proof {
                        assert(methods matches Some(mm)
                            && spec_mapping_methods_of(*ctx, spec_type_of(self.spec_obj()))
                                == Some(mm)
                            && mm.length == Some(MappingImpl::Dict));
                        assert(spec_mapping_size(*ctx, self.spec_obj())
                            == Some(ctx.dicts@[*d as int].view_entries().len() as int));
                    }
                    Ok(ctx.dicts[*d].len())
                },
                _ => {
                    proof {
                        assert(false);
                    }
                    Err(PyErr::TypeError("object has no len()".to_owned()))
                },
            }
        } else {
            let tid = type_of(ctx, &self.obj);
            let mut m: String = "object of type ".to_owned();
            m.append(ctx.types[tid].name.as_str());
            m.append(" has no len()");
            Err(PyErr::TypeError(m))
        }
    }

    /// The key view of a dictionary-backed mapping. Other mappings
    /// would answer through the host's attribute machinery, which sits
    /// outside this engine, so they report the protocol error instead.
    pub fn keys(&self, ctx: &PyContext) -> (r: Result<crate::views::PyOrderedDictKeys, PyErr>)
        requires
            ctx.wf(),
            obj_wf(self.spec_obj(), *ctx),
        ensures
            match r {
                Ok(v) => self.spec_obj() matches ObjRef::Dict(d) && v.dict == d,
                Err(e) => !(self.spec_obj() is Dict)
                    && (e matches PyErr::TypeError(m)
                        && m@ == missing_mapping_msg_str(*ctx, spec_type_of(self.spec_obj()))),
            },
    {
        match &self.obj {
            ObjRef::Dict(d) => Ok(crate::views::PyOrderedDictKeys { dict: *d }),
            _ => {
                let tid = type_of(ctx, &self.obj);
                Err(PyErr::TypeError(missing_mapping_message(ctx, tid)))
            },
        }
    }

    /// The value view of a dictionary-backed mapping.
    pub fn values(&self, ctx: &PyContext) -> (r: Result<crate::views::PyOrderedDictValues, PyErr>)
        requires
            ctx.wf(),
            obj_wf(self.spec_obj(), *ctx),
        ensures
            match r {
                Ok(v) => self.spec_obj() matches ObjRef::Dict(d) && v.dict == d,
                Err(e) => !(self.spec_obj() is Dict)
                    && (e matches PyErr::TypeError(m)
                        && m@ == missing_mapping_msg_str(*ctx, spec_type_of(self.spec_obj()))),
            },
    {
        match &self.obj {
            ObjRef::Dict(d) => Ok(crate::views::PyOrderedDictValues { dict: *d }),
            _ => {
                let tid = type_of(ctx, &self.obj);
                Err(PyErr::TypeError(missing_mapping_message(ctx, tid)))
            },
        }
    }

    /// The item view of a dictionary-backed mapping.
    pub fn items(&self, ctx: &PyContext) -> (r: Result<crate::views::PyOrderedDictItems, PyErr>)
        requires
            ctx.wf(),
            obj_wf(self.spec_obj(), *ctx),
        ensures
            match r {
                Ok(v) => self.spec_obj() matches ObjRef::Dict(d) && v.dict == d,
                Err(e) => !(self.spec_obj() is Dict)
                    && (e matches PyErr::TypeError(m)
                        && m@ == missing_mapping_msg_str(*ctx, spec_type_of(self.spec_obj()))),
            },
    {
        match &self.obj {
            ObjRef::Dict(d) => Ok(crate::views::PyOrderedDictItems { dict: *d }),
            _ => {
                let tid = type_of(ctx, &self.obj);
                Err(PyErr::TypeError(missing_mapping_message(ctx, tid)))
            },
        }
    }
}

/// Objects with the same identity dispatch identically: the generic
/// mapping operations read nothing else of a reference.
pub proof fn lemma_mapping_specs_abs(ctx: PyContext, a: ObjRef, b: ObjRef, k: AbsVal)
    requires
        crate::runtime::obj_abs(a) == crate::runtime::obj_abs(b),
    ensures
        spec_mapping_size(ctx, a) == spec_mapping_size(ctx, b),
        spec_mapping_subscript(ctx, a, k) == spec_mapping_subscript(ctx, b, k),
{
    assert(spec_type_of(a) == spec_type_of(b));
    match (a, b) {
        (ObjRef::Dict(d1), ObjRef::Dict(d2)) => {
            assert(d1 == d2);
        },
        _ => {},
    }
}

/// Whether an object passes the mapping-ness test: its type resolves
/// a table with a subscript slot.
pub open spec fn spec_mapping_check(ctx: PyContext, o: ObjRef) -> bool {
    match spec_mapping_methods_of(ctx, spec_type_of(o)) {
        Some(m) => m.subscript is Some,
        None => false,
    }
}

} // verus!
