//! Descriptor binding: the attribute-access path that turns a
//! type-level, unbound operation descriptor into a callable bound to a
//! receiver.
//!
//! Binding executes nothing; it only closes over the descriptor and
//! the receiver. Calling the unbound descriptor demands at least one
//! positional argument whose runtime type inherits from the
//! descriptor's declared owner. No bound method is ever cached; each
//! access builds a fresh one.

use vstd::prelude::*;
use vstd::string::StringExecFns;
use crate::bignum::BigNum;
use crate::value::{Value, AbsVal, val_wf};
use crate::runtime::{PyContext, ObjRef, PyErr, obj_wf, spec_type_of, type_of, is_subclass,
    spec_is_subclass};
use crate::mapping::{mapping_subscript, spec_mapping_subscript, spec_mapping_size, PyMapping};

verus! {

/// The raw per-type operation a descriptor dispatches to. The host
/// registers function pointers; the engine models the built-in ones it
/// ships: the generic length and subscript-read operations.
#[derive(Clone, Copy, Debug, PartialEq, Eq, Structural)]
pub enum WrapperFn {
    Length,
    GetItem,
}

/// An unbound slot-wrapper descriptor: operation name, owner type,
/// optional documentation, and the raw dispatch function.
#[derive(Debug)]
pub struct PyWrapperDescriptor {
    pub name: String,
    pub class: usize,
    pub doc: Option<String>,
    pub wrapper: WrapperFn,
}

impl Clone for PyWrapperDescriptor {
    /// A copy of the descriptor describes the same operation.
    fn clone(&self) -> (res: PyWrapperDescriptor)
        ensures
            res.name@ == self.name@,
            res.class == self.class,
            res.wrapper == self.wrapper,
    {
        PyWrapperDescriptor {
            name: self.name.clone(),
            class: self.class,
            doc: match &self.doc {
                Some(d) => Some(d.clone()),
                None => None,
            },
            wrapper: self.wrapper,
        }
    }
}

/// What the raw dispatch of a wrapper yields on a receiver: the
/// mapping length as an integer value, or the subscript read.
pub open spec fn spec_raw_call(ctx: PyContext, w: WrapperFn, zelf: ObjRef, args: Seq<AbsVal>)
    -> Option<AbsVal> {
    match w {
        WrapperFn::Length => match spec_mapping_size(ctx, zelf) {
            Some(n) => Some(AbsVal::Int(n)),
            None => None,
        },
        WrapperFn::GetItem => {
            if args.len() >= 1 {
                match spec_mapping_subscript(ctx, zelf, args[0]) {
                    Some(Some(v)) => Some(v),
                    _ => None,
                }
            } else {
                None
            }
        },
    }
}

/// The arity diagnostic of an unbound descriptor call.
pub open spec fn needs_arg_msg(name: Seq<char>, owner: Seq<char>) -> Seq<char> {
    "descriptor '"@ + name + "' of '"@ + owner + "' object needs an argument"@
}

/// The receiver-type diagnostic: the descriptor, its owner type, and
/// the type actually received.
pub open spec fn wrong_receiver_msg(name: Seq<char>, owner: Seq<char>, got: Seq<char>)
    -> Seq<char> {
    "descriptor '"@ + name + "' requires a '"@ + owner + "' object but received a '"@
        + got + "'"@
}

/// Identical identities see identical raw-call outcomes.
pub proof fn lemma_raw_call_abs(
    ctx: PyContext,
    w: WrapperFn,
    a: ObjRef,
    b: ObjRef,
    args: Seq<AbsVal>,
)
    requires
        crate::runtime::obj_abs(a) == crate::runtime::obj_abs(b),
    ensures
        spec_raw_call(ctx, w, a, args) == spec_raw_call(ctx, w, b, args),
{
    if args.len() >= 1 {
        crate::mapping::lemma_mapping_specs_abs(ctx, a, b, args[0]);
    } else {
        crate::mapping::lemma_mapping_specs_abs(ctx, a, b, AbsVal::Nil);
    }
}

impl PyWrapperDescriptor {
    /// A fresh descriptor for `name` on the owner type, with no
    /// documentation attached.
    pub fn new(name: String, class: usize, wrapper: WrapperFn) -> (r: PyWrapperDescriptor)
        ensures
            r.name@ == name@,
            r.class == class,
            r.doc is None,
            r.wrapper == wrapper,
    {
        PyWrapperDescriptor { name, class, doc: None, wrapper }
    }

    /// Dispatch the wrapped operation on a receiver, no checks
    /// applied; `args` are the operation arguments after the receiver.
    pub fn raw_call(&self, ctx: &PyContext, zelf: &ObjRef, args: &Vec<Value>)
        -> (r: Result<Value, PyErr>)
        requires
            ctx.wf(),
            obj_wf(*zelf, *ctx),
            forall|i: int| 0 <= i < args@.len() ==> val_wf(#[trigger] args@[i]),
        ensures
            match r {
                Ok(v) => spec_raw_call(
                    *ctx, self.wrapper, *zelf, crate::value::views_of(args@)) == Some(v@)
                    && v.wf(),
                Err(_) => spec_raw_call(
                    *ctx, self.wrapper, *zelf, crate::value::views_of(args@)) is None,
            },
    {
        match self.wrapper {
            WrapperFn::Length => {
                let m = PyMapping::new(zelf.clone());
                proof {
                    crate::mapping::lemma_mapping_specs_abs(
                        *ctx, *zelf, m.spec_obj(), AbsVal::Nil);
                }
                match m.size(ctx) {
                    Ok(n) => Ok(Value::Int(BigNum::from_u64(n as u64))),
                    Err(e) => Err(e),
                }
            },
            WrapperFn::GetItem => {
                if args.len() < 1 {
                    return Err(PyErr::TypeError(
                        "descriptor call needs a subscript argument".to_owned()));
                }
                let key = &args[0];
                proof {
                    assert(crate::value::views_of(args@)[0] == key@);
                }
                mapping_subscript(ctx, zelf, key)
            },
        }
    }

    /// The attribute-access path: bind the descriptor to a receiver,
    /// producing a fresh bound method; accessed on the class itself
    /// (no receiver), the descriptor comes back unbound.
    pub fn descr_get(&self, obj: Option<ObjRef>) -> (r: BindOutcome)
        ensures
            match r {
                BindOutcome::Bound(m) => {
                    &&& obj matches Some(o)
                        && crate::runtime::obj_abs(m.zelf) == crate::runtime::obj_abs(o)
                    &&& m.descr.name@ == self.name@
                    &&& m.descr.class == self.class
                    &&& m.descr.wrapper == self.wrapper
                },
                BindOutcome::Unbound(d) => {
                    &&& obj is None
                    &&& d.name@ == self.name@
                    &&& d.class == self.class
                    &&& d.wrapper == self.wrapper
                },
            },
    {
        match obj {
            Some(o) => BindOutcome::Bound(PyMethodWrapper::new(self.clone(), o)),
            None => BindOutcome::Unbound(self.clone()),
        }
    }

    /// Call the unbound descriptor: at least one positional argument
    /// is owed, and the first one's type must inherit from the owner;
    /// then the raw operation runs on that receiver with the remaining
    /// arguments.
    pub fn call(&self, ctx: &PyContext, args: &Vec<Value>) -> (r: Result<Value, PyErr>)
        requires
            ctx.wf(),
            self.class < ctx.types@.len(),
            forall|i: int| 0 <= i < args@.len() ==> val_wf(#[trigger] args@[i])
                && crate::runtime::inst_registered(args@[i], *ctx),
        ensures
            match r {
                Ok(v) => {
                    &&& args@.len() >= 1
                    &&& spec_is_subclass(
                        *ctx, spec_type_of(ObjRef::Imm(args@[0])), self.class as int)
                    &&& spec_raw_call(*ctx, self.wrapper, ObjRef::Imm(args@[0]),
                        crate::value::views_of(args@).skip(1)) == Some(v@)
                    &&& v.wf()
                },
                Err(e) => {
                    if args@.len() < 1 {
                        e matches PyErr::TypeError(m) && m@ == needs_arg_msg(
                            self.name@, ctx.types@[self.class as int].name@)
                    } else if !spec_is_subclass(
                        *ctx, spec_type_of(ObjRef::Imm(args@[0])), self.class as int) {
                        e matches PyErr::TypeError(m) && m@ == wrong_receiver_msg(
                            self.name@,
                            ctx.types@[self.class as int].name@,
                            ctx.types@[spec_type_of(ObjRef::Imm(args@[0]))].name@,
                        )
                    } else {
                        spec_raw_call(*ctx, self.wrapper, ObjRef::Imm(args@[0]),
                            crate::value::views_of(args@).skip(1)) is None
                    }
                },
            },
    {
        if args.len() < 1 {
            let mut m: String = "descriptor '".to_owned();
            m.append(self.name.as_str());
            m.append("' of '");
            m.append(ctx.types[self.class].name.as_str());
            m.append("' object needs an argument");
            return Err(PyErr::TypeError(m));
        }
        let receiver = ObjRef::Imm(args[0].clone());
        let tid = type_of(ctx, &receiver);
        if !is_subclass(ctx, tid, self.class) {
            let mut m: String = "descriptor '".to_owned();
            m.append(self.name.as_str());
            m.append("' requires a '");
            m.append(ctx.types[self.class].name.as_str());
            m.append("' object but received a '");
            m.append(ctx.types[tid].name.as_str());
            m.append("'");
            return Err(PyErr::TypeError(m));
        }
        let mut rest: Vec<Value> = Vec::new();
        let n = args.len();
        let mut i: usize = 1;
        while i < n
            invariant
                n == args@.len(),
                1 <= i <= n,
                forall|j: int| 0 <= j < n ==> val_wf(#[trigger] args@[j]),
                rest@.len() == i - 1,
                forall|j: int| 0 <= j < i - 1 ==> val_wf(#[trigger] rest@[j]),
                forall|j: int| 0 <= j < i - 1
                    ==> crate::value::abs_of(#[trigger] rest@[j]) == crate::value::abs_of(args@[j + 1]),
            decreases n - i,
        {
            rest.push(args[i].clone());
            i += 1;
        }
        proof {
            assert(crate::value::views_of(rest@)
                =~= crate::value::views_of(args@).skip(1));
        }
        self.raw_call(ctx, &receiver, &rest)
    }

    /// The descriptor's textual form.
    pub fn repr(&self, ctx: &PyContext) -> (r: String)
        requires
            ctx.wf(),
            self.class < ctx.types@.len(),
        ensures
            r@ == "<slot wrapper '"@ + self.name@ + "' of '"@
                + ctx.types@[self.class as int].name@ + "' objects>"@,
    {
        let mut m: String = "<slot wrapper '".to_owned();
        m.append(self.name.as_str());
        m.append("' of '");
        m.append(ctx.types[self.class].name.as_str());
        m.append("' objects>");
        m
    }

    /// The operation name.
    pub fn name(&self) -> (r: String)
        ensures
            r@ == self.name@,
    {
        self.name.clone()
    }

    /// The dotted name: owner type, then operation.
    pub fn qualname(&self, ctx: &PyContext) -> (r: String)
        requires
            ctx.wf(),
            self.class < ctx.types@.len(),
        ensures
            r@ == ctx.types@[self.class as int].name@ + "."@ + self.name@,
    {
        let mut m: String = ctx.types[self.class].name.clone();
        m.append(".");
        m.append(self.name.as_str());
        m
    }
}

/// What attribute access through a descriptor produces.
#[derive(Debug)]
pub enum BindOutcome {
    Bound(PyMethodWrapper),
    Unbound(PyWrapperDescriptor),
}

/// A bound method: a receiver paired with its descriptor, created
/// fresh on each attribute access.
#[derive(Debug)]
pub struct PyMethodWrapper {
    pub descr: PyWrapperDescriptor,
    pub zelf: ObjRef,
}

impl PyMethodWrapper {
    /// Pair a descriptor with its receiver.
    pub fn new(descr: PyWrapperDescriptor, zelf: ObjRef) -> (r: PyMethodWrapper)
        ensures
            r.descr == descr,
            r.zelf == zelf,
    {
        PyMethodWrapper { descr, zelf }
    }

    /// The bound receiver.
    pub fn get_self(&self) -> (r: ObjRef)
        ensures
            crate::runtime::obj_abs(r) == crate::runtime::obj_abs(self.zelf),
    {
        self.zelf.clone()
    }

    /// The dotted name of the underlying operation.
    pub fn qualname(&self, ctx: &PyContext) -> (r: String)
        requires
            ctx.wf(),
            self.descr.class < ctx.types@.len(),
        ensures
            r@ == ctx.types@[self.descr.class as int].name@ + "."@ + self.descr.name@,
    {
        self.descr.qualname(ctx)
    }

    /// Invoke the bound method: the receiver's type must still inherit
    /// from the descriptor's owner, then the raw operation runs.
    pub fn call(&self, ctx: &PyContext, args: &Vec<Value>) -> (r: Result<Value, PyErr>)
        requires
            ctx.wf(),
            obj_wf(self.zelf, *ctx),
            self.descr.class < ctx.types@.len(),
            forall|i: int| 0 <= i < args@.len() ==> val_wf(#[trigger] args@[i]),
        ensures
            match r {
                Ok(v) => {
                    &&& spec_is_subclass(
                        *ctx, spec_type_of(self.zelf), self.descr.class as int)
                    &&& spec_raw_call(*ctx, self.descr.wrapper, self.zelf,
                        crate::value::views_of(args@)) == Some(v@)
                    &&& v.wf()
                },
                Err(e) => {
                    if !spec_is_subclass(
                        *ctx, spec_type_of(self.zelf), self.descr.class as int) {
                        e matches PyErr::TypeError(m) && m@ == wrong_receiver_msg(
                            self.descr.name@,
                            ctx.types@[self.descr.class as int].name@,
                            ctx.types@[spec_type_of(self.zelf)].name@,
                        )
                    } else {
                        spec_raw_call(*ctx, self.descr.wrapper, self.zelf,
                            crate::value::views_of(args@)) is None
                    }
                },
            },
    {
        let receiver = self.zelf.clone();
        let tid = type_of(ctx, &receiver);
        if !is_subclass(ctx, tid, self.descr.class) {
            let mut m: String = "descriptor '".to_owned();
            m.append(self.descr.name.as_str());
            m.append("' requires a '");
            m.append(ctx.types[self.descr.class].name.as_str());
            m.append("' object but received a '");
            m.append(ctx.types[tid].name.as_str());
            m.append("'");
            return Err(PyErr::TypeError(m));
        }
        proof {
            lemma_raw_call_abs(*ctx, self.descr.wrapper, self.zelf, receiver,
                crate::value::views_of(args@));
        }
        self.descr.raw_call(ctx, &receiver, args)
    }
}

} // verus!
