//! The host-facing runtime context: the type registry with each type's
//! method-resolution order and protocol slots, and the stores that hold
//! the mutable containers iterators observe.
//!
//! Containers live in stores and are named by index, so an iterator can
//! hold a non-owning observation handle to its subject while the caller
//! keeps mutating the container between steps.

use vstd::prelude::*;
use crate::value::{Value, val_wf, AbsVal};
use crate::mapping::{PyMappingMethods, MappingImpl};
use crate::odict::OrderedDict;

verus! {

/// Typed, catchable error values, each with its user-visible message.
#[derive(Debug, Clone)]
pub enum PyErr {
    TypeError(String),
    ValueError(String),
    RuntimeError(String),
    IndexError(String),
    KeyError(String),
}

/// The mathematical shape of an error: its class and its message text.
pub enum AbsErr {
    Type(Seq<char>),
    Value(Seq<char>),
    Runtime(Seq<char>),
    Index(Seq<char>),
    Key(Seq<char>),
}

/// The shape of an error value.
pub open spec fn err_abs(e: PyErr) -> AbsErr {
    match e {
        PyErr::TypeError(m) => AbsErr::Type(m@),
        PyErr::ValueError(m) => AbsErr::Value(m@),
        PyErr::RuntimeError(m) => AbsErr::Runtime(m@),
        PyErr::IndexError(m) => AbsErr::Index(m@),
        PyErr::KeyError(m) => AbsErr::Key(m@),
    }
}

/// The comparison operation a rich-comparison site requests.
#[derive(Clone, Copy, Debug, PartialEq, Eq, Structural)]
pub enum PyComparisonOp {
    Eq,
    Ne,
    Lt,
    Le,
    Gt,
    Ge,
}

/// Which built-in implementation fills a type's sequence slots.
#[derive(Clone, Copy, Debug, PartialEq, Eq, Structural)]
pub enum SequenceImpl {
    List,
    Tuple,
}

/// A registered type: its name, its method-resolution order (itself
/// first, ancestors after, as the host linearized it), and its protocol
/// slots. Slots are filled once, when the type is set up, and only read
/// afterwards.
#[derive(Debug)]
pub struct TypeInfo {
    pub name: String,
    pub mro: Vec<usize>,
    pub as_mapping: Option<PyMappingMethods>,
    pub as_sequence: Option<SequenceImpl>,
    /// Whether values of the type can be handed to `iter`.
    pub iterable: bool,
}

/// A reference to an object: an immutable value carried inline, or a
/// mutable container named by its index in the context's store.
#[derive(Debug)]
pub enum ObjRef {
    Imm(Value),
    List(usize),
    Dict(usize),
}

/// The mathematical identity of an object reference: the value's shape
/// for an inline value, the store index for a container.
pub enum ObjAbs {
    Imm(AbsVal),
    List(int),
    Dict(int),
}

/// The identity an object reference stands for.
pub open spec fn obj_abs(o: ObjRef) -> ObjAbs {
    match o {
        ObjRef::Imm(v) => ObjAbs::Imm(crate::value::abs_of(v)),
        ObjRef::List(i) => ObjAbs::List(i as int),
        ObjRef::Dict(i) => ObjAbs::Dict(i as int),
    }
}

impl Clone for ObjRef {
    /// A clone refers to the same object: the same container, or an
    /// inline value of the same shape.
    fn clone(&self) -> (res: ObjRef)
        ensures
            obj_abs(res) == obj_abs(*self),
            forall|c: PyContext| obj_wf(*self, c) ==> #[trigger] obj_wf(res, c),
    {
        match self {
            ObjRef::Imm(v) => ObjRef::Imm(v.clone()),
            ObjRef::List(i) => ObjRef::List(*i),
            ObjRef::Dict(i) => ObjRef::Dict(*i),
        }
    }
}

pub const TYPE_OBJECT: usize = 0;
pub const TYPE_INT: usize = 1;
pub const TYPE_BOOL: usize = 2;
pub const TYPE_STR: usize = 3;
pub const TYPE_TUPLE: usize = 4;
pub const TYPE_LIST: usize = 5;
pub const TYPE_DICT: usize = 6;
pub const TYPE_ODICT: usize = 7;
pub const TYPE_ENUMERATE: usize = 8;
pub const TYPE_REVERSED: usize = 9;
pub const TYPE_MAP: usize = 10;
pub const TYPE_ZIP: usize = 11;
pub const TYPE_WARNING: usize = 12;
pub const TYPE_USER_WARNING: usize = 13;
pub const TYPE_NONE: usize = 14;

/// Number of types the fresh context starts with.
pub const BUILTIN_TYPE_COUNT: usize = 15;

/// The slot table the dictionary type is set up with: every mapping
/// operation backed by the stored ordered mapping.
pub open spec fn dict_mapping_methods() -> PyMappingMethods {
    PyMappingMethods {
        length: Some(MappingImpl::Dict),
        subscript: Some(MappingImpl::Dict),
        ass_subscript: Some(MappingImpl::Dict),
    }
}

/// The runtime context: type registry plus container stores.
#[derive(Debug)]
pub struct PyContext {
    pub types: Vec<TypeInfo>,
    pub lists: Vec<Vec<Value>>,
    pub dicts: Vec<OrderedDict>,
}

/// A single type entry is sound with respect to a registry of `n`
/// types at position `i`: the MRO starts with the type itself and every
/// ancestor is registered.
pub open spec fn type_wf(t: TypeInfo, i: int, n: int) -> bool {
    &&& t.mro@.len() > 0
    &&& t.mro@[0] == i
    &&& forall|j: int| 0 <= j < t.mro@.len() ==> #[trigger] t.mro@[j] < n
}

impl PyContext {
    /// Registry soundness: every type's MRO points at registered types,
    /// every built-in type exists, and every stored value is
    /// well-formed.
    pub open spec fn wf(self) -> bool {
        &&& self.types@.len() >= BUILTIN_TYPE_COUNT
        &&& forall|i: int| 0 <= i < self.types@.len()
                ==> type_wf(#[trigger] self.types@[i], i, self.types@.len() as int)
        &&& forall|i: int| 0 <= i < self.lists@.len()
                ==> list_wf(#[trigger] self.lists@[i])
        &&& forall|i: int| 0 <= i < self.dicts@.len()
                ==> (#[trigger] self.dicts@[i]).wf()
    }

    /// A fresh context with the built-in types registered and the
    /// container slots of the concrete built-ins filled.
    pub fn new() -> (r: PyContext)
        ensures
            r.wf(),
            r.types@.len() == BUILTIN_TYPE_COUNT,
            r.lists@.len() == 0,
            r.dicts@.len() == 0,
            r.types@[TYPE_DICT as int].as_mapping == Some(dict_mapping_methods()),
            r.types@[TYPE_LIST as int].as_sequence == Some(SequenceImpl::List),
            r.types@[TYPE_TUPLE as int].as_sequence == Some(SequenceImpl::Tuple),
            r.types@[TYPE_LIST as int].iterable,
            r.types@[TYPE_TUPLE as int].iterable,
            r.types@[TYPE_DICT as int].iterable,
            r.types@[TYPE_LIST as int].as_mapping is None,
            r.types@[TYPE_TUPLE as int].as_mapping is None,
            r.types@[TYPE_OBJECT as int].as_mapping is None,
            r.types@[TYPE_OBJECT as int].as_sequence is None,
            r.types@[TYPE_LIST as int].mro@ == seq![TYPE_LIST, TYPE_OBJECT],
            r.types@[TYPE_TUPLE as int].mro@ == seq![TYPE_TUPLE, TYPE_OBJECT],
            r.types@[TYPE_DICT as int].mro@ == seq![TYPE_DICT, TYPE_OBJECT],
            r.types@[TYPE_ODICT as int].mro@ == seq![TYPE_ODICT, TYPE_DICT, TYPE_OBJECT],
            r.types@[TYPE_USER_WARNING as int].mro@
                == seq![TYPE_USER_WARNING, TYPE_WARNING, TYPE_OBJECT],
            r.types@[TYPE_WARNING as int].mro@ == seq![TYPE_WARNING, TYPE_OBJECT],
    {
        let mut ctx = PyContext { types: Vec::new(), lists: Vec::new(), dicts: Vec::new() };
        let object = ctx.push_root_type("object");
        let int_t = ctx.push_type("int", object);
        let bool_t = ctx.push_type("bool", int_t);
        let str_t = ctx.push_type("str", object);
        let tuple_t = ctx.push_type("tuple", object);
        let list_t = ctx.push_type("list", object);
        let dict_t = ctx.push_type("dict", object);
        let odict_t = ctx.push_type("OrderedDict", dict_t);
        let enum_t = ctx.push_type("enumerate", object);
        let rev_t = ctx.push_type("reversed", object);
        let map_t = ctx.push_type("map", object);
        let zip_t = ctx.push_type("zip", object);
        let warning_t = ctx.push_type("Warning", object);
        let user_warning_t = ctx.push_type("UserWarning", warning_t);
        let none_t = ctx.push_type("NoneType", object);
        let dict_m = PyMappingMethods {
            length: Some(MappingImpl::Dict),
            subscript: Some(MappingImpl::Dict),
            ass_subscript: Some(MappingImpl::Dict),
        };
        ctx.set_slots(dict_t, Some(dict_m), None, true);
        ctx.set_slots(list_t, None, Some(SequenceImpl::List), true);
        ctx.set_slots(tuple_t, None, Some(SequenceImpl::Tuple), true);
        ctx
    }

    /// Fill a type's protocol slots; the one write a slot table gets,
    /// at type-definition time.
    pub fn set_slots(
        &mut self,
        tid: usize,
        as_mapping: Option<PyMappingMethods>,
        as_sequence: Option<SequenceImpl>,
        iterable: bool,
    )
        requires
            tid < old(self).types@.len(),
            forall|i: int| 0 <= i < old(self).types@.len()
                ==> type_wf(#[trigger] old(self).types@[i], i, old(self).types@.len() as int),
        ensures
            final(self).types@.len() == old(self).types@.len(),
            forall|i: int| 0 <= i < final(self).types@.len()
                ==> type_wf(#[trigger] final(self).types@[i], i, final(self).types@.len() as int),
            forall|i: int| 0 <= i < old(self).types@.len() && i != tid as int
                ==> final(self).types@[i] == old(self).types@[i],
            final(self).types@[tid as int].name@ == old(self).types@[tid as int].name@,
            final(self).types@[tid as int].mro@ == old(self).types@[tid as int].mro@,
            final(self).types@[tid as int].as_mapping == as_mapping,
            final(self).types@[tid as int].as_sequence == as_sequence,
            final(self).types@[tid as int].iterable == iterable,
            final(self).lists@ == old(self).lists@,
            final(self).dicts@ == old(self).dicts@,
    {
        self.types[tid].as_mapping = as_mapping;
        self.types[tid].as_sequence = as_sequence;
        self.types[tid].iterable = iterable;
    }

    /// Register a root type with no ancestors but itself.
    pub fn push_root_type(&mut self, name: &str) -> (id: usize)
        requires
            forall|i: int| 0 <= i < old(self).types@.len()
                ==> type_wf(#[trigger] old(self).types@[i], i, old(self).types@.len() as int),
        ensures
            id == old(self).types@.len(),
            final(self).types@.len() == id + 1,
            forall|i: int| 0 <= i < final(self).types@.len()
                ==> type_wf(#[trigger] final(self).types@[i], i, final(self).types@.len() as int),
            forall|i: int| 0 <= i < old(self).types@.len()
                ==> final(self).types@[i] == old(self).types@[i],
            final(self).types@[id as int].name@ == name@,
            final(self).types@[id as int].mro@ == seq![id],
            final(self).types@[id as int].as_mapping is None,
            final(self).types@[id as int].as_sequence is None,
            !final(self).types@[id as int].iterable,
            final(self).lists@ == old(self).lists@,
            final(self).dicts@ == old(self).dicts@,
    {
        let id = self.types.len();
        let mut mro: Vec<usize> = Vec::new();
        mro.push(id);
        proof {
            assert(mro@ =~= seq![id]);
        }
        let t = TypeInfo {
            name: name.to_owned(),
            mro,
            as_mapping: None,
            as_sequence: None,
            iterable: false,
        };
        self.types.push(t);
        id
    }

    /// Register a type under an existing base; the new MRO is the type
    /// itself followed by the base's MRO.
    pub fn push_type(&mut self, name: &str, base: usize) -> (id: usize)
        requires
            base < old(self).types@.len(),
            forall|i: int| 0 <= i < old(self).types@.len()
                ==> type_wf(#[trigger] old(self).types@[i], i, old(self).types@.len() as int),
        ensures
            id == old(self).types@.len(),
            final(self).types@.len() == id + 1,
            forall|i: int| 0 <= i < final(self).types@.len()
                ==> type_wf(#[trigger] final(self).types@[i], i, final(self).types@.len() as int),
            forall|i: int| 0 <= i < old(self).types@.len()
                ==> final(self).types@[i] == old(self).types@[i],
            final(self).types@[id as int].name@ == name@,
            final(self).types@[id as int].mro@
                == seq![id] + old(self).types@[base as int].mro@,
            final(self).types@[id as int].as_mapping is None,
            final(self).types@[id as int].as_sequence is None,
            !final(self).types@[id as int].iterable,
            final(self).lists@ == old(self).lists@,
            final(self).dicts@ == old(self).dicts@,
    {
        let id = self.types.len();
        let mut mro: Vec<usize> = Vec::new();
        mro.push(id);
        let mut rest = self.types[base].mro.clone();
        proof {
            assert(rest@ =~= self.types@[base as int].mro@);
        }
        mro.append(&mut rest);
        proof {
            assert(mro@ =~= seq![id] + self.types@[base as int].mro@);
        }
        let t = TypeInfo {
            name: name.to_owned(),
            mro,
            as_mapping: None,
            as_sequence: None,
            iterable: false,
        };
        self.types.push(t);
        id
    }

    /// Put a fresh list into the store and hand back its reference.
    pub fn add_list(&mut self, items: Vec<Value>) -> (r: ObjRef)
        requires
            old(self).wf(),
            list_wf(items),
        ensures
            final(self).wf(),
            r == ObjRef::List(old(self).lists@.len() as usize),
            final(self).lists@ == old(self).lists@.push(items),
            final(self).dicts@ == old(self).dicts@,
            final(self).types@ == old(self).types@,
    {
        let id = self.lists.len();
        self.lists.push(items);
        ObjRef::List(id)
    }

    /// Put a fresh ordered mapping into the store and hand back its
    /// reference.
    pub fn add_dict(&mut self, d: OrderedDict) -> (r: ObjRef)
        requires
            old(self).wf(),
            d.wf(),
        ensures
            final(self).wf(),
            r == ObjRef::Dict(old(self).dicts@.len() as usize),
            final(self).dicts@ == old(self).dicts@.push(d),
            final(self).lists@ == old(self).lists@,
            final(self).types@ == old(self).types@,
    {
        let id = self.dicts.len();
        self.dicts.push(d);
        ObjRef::Dict(id)
    }

    /// The registered name of a type.
    pub fn name_of(&self, tid: usize) -> (r: String)
        requires
            self.wf(),
            tid < self.types@.len(),
        ensures
            r@ == self.types@[tid as int].name@,
    {
        self.types[tid].name.clone()
    }
}

/// Every element of a stored list is a well-formed value.
pub open spec fn list_wf(items: Vec<Value>) -> bool {
    forall|i: int| 0 <= i < items@.len() ==> val_wf(#[trigger] items@[i])
}

/// An object reference is valid for a context: its store index exists
/// and what it carries is well-formed.
pub open spec fn obj_wf(o: ObjRef, ctx: PyContext) -> bool {
    match o {
        ObjRef::Imm(v) => val_wf(v) && inst_registered(v, ctx),
        ObjRef::List(i) => i < ctx.lists@.len(),
        ObjRef::Dict(i) => i < ctx.dicts@.len(),
    }
}

/// An instance value names a registered type.
pub open spec fn inst_registered(v: Value, ctx: PyContext) -> bool {
    v matches Value::Instance { type_id, uid } ==> type_id < ctx.types@.len()
}

/// The type of the object behind an abstract reference.
pub open spec fn abs_type_of(oa: ObjAbs) -> int {
    match oa {
        ObjAbs::Imm(v) => match v {
            AbsVal::Nil => TYPE_NONE as int,
            AbsVal::Bool(_) => TYPE_BOOL as int,
            AbsVal::Int(_) => TYPE_INT as int,
            AbsVal::Str(_) => TYPE_STR as int,
            AbsVal::Tuple(_) => TYPE_TUPLE as int,
            AbsVal::Inst(t, _) => t,
        },
        ObjAbs::List(_) => TYPE_LIST as int,
        ObjAbs::Dict(_) => TYPE_DICT as int,
    }
}

/// The type of the object behind a reference.
pub open spec fn spec_type_of(o: ObjRef) -> int {
    abs_type_of(obj_abs(o))
}

/// Resolve the type of an object, as the dispatch layer sees it.
pub fn type_of(ctx: &PyContext, o: &ObjRef) -> (r: usize)
    requires
        ctx.wf(),
        obj_wf(*o, *ctx),
    ensures
        r as int == spec_type_of(*o),
        r < ctx.types@.len(),
{
    match o {
        ObjRef::Imm(v) => match v {
            Value::Nil => TYPE_NONE,
            Value::Bool(_) => TYPE_BOOL,
            Value::Int(_) => TYPE_INT,
            Value::Str(_) => TYPE_STR,
            Value::Tuple(_) => TYPE_TUPLE,
            Value::Instance { type_id, uid: _ } => *type_id,
        },
        ObjRef::List(_) => TYPE_LIST,
        ObjRef::Dict(_) => TYPE_DICT,
    }
}

/// Whether type `t` is `u` or inherits from it: `u` appears in `t`'s
/// method-resolution order.
pub open spec fn spec_is_subclass(ctx: PyContext, t: int, u: int) -> bool {
    ctx.types@[t].mro@.contains(u as usize)
}

/// Walk `t`'s method-resolution order looking for `u`; the host's
/// subclass test.
pub fn is_subclass(ctx: &PyContext, t: usize, u: usize) -> (r: bool)
    requires
        ctx.wf(),
        t < ctx.types@.len(),
    ensures
        r == spec_is_subclass(*ctx, t as int, u as int),
{
    let mro = &ctx.types[t].mro;
    let n = mro.len();
    let mut i: usize = 0;
    while i < n
        invariant
            n == mro@.len(),
            i <= n,
            mro@ == ctx.types@[t as int].mro@,
            forall|j: int| 0 <= j < i ==> mro@[j] != u,
        decreases n - i,
    {
        if mro[i] == u {
            return true;
        }
        i += 1;
    }
    proof {
        assert(forall|j: int| 0 <= j < mro@.len() ==> mro@[j] != u);
        assert(!mro@.contains(u));
    }
    false
}

} // verus!
