//! Immutable object values that flow through the protocol layer.
//!
//! Containers (sequences and ordered mappings) live in the runtime's
//! store; the values they hold — booleans, integers, strings, tuples and
//! featureless instances of registered types — are self-contained and
//! compared structurally, the way the host's generic equality primitive
//! compares them.

use vstd::prelude::*;
use crate::bignum::BigNum;

verus! {

/// Mathematical shape of a value, used by every contract.
#[verifier::ext_equal]
pub enum AbsVal {
    /// The host's singleton none value.
    Nil,
    Bool(bool),
    Int(int),
    Str(Seq<char>),
    Tuple(Seq<AbsVal>),
    /// An instance of a registered type, identified by the type and an
    /// identity token, the way the host compares bare objects.
    Inst(int, int),
}

/// An immutable runtime value.
#[derive(Debug)]
pub enum Value {
    /// The host's singleton none value.
    Nil,
    Bool(bool),
    Int(BigNum),
    Str(String),
    Tuple(Vec<Value>),
    /// A featureless instance of the registered type `type_id`; `uid` is
    /// its identity.
    Instance { type_id: usize, uid: u64 },
}

/// The mathematical shape of a value.
pub open spec fn abs_of(v: Value) -> AbsVal
    decreases v,
{
    match v {
        Value::Nil => AbsVal::Nil,
        Value::Bool(b) => AbsVal::Bool(b),
        Value::Int(n) => AbsVal::Int(n.value()),
        Value::Str(s) => AbsVal::Str(s@),
        Value::Tuple(vs) => AbsVal::Tuple(views_of(vs@)),
        Value::Instance { type_id, uid } => AbsVal::Inst(type_id as int, uid as int),
    }
}

/// The views of a sequence of values, elementwise.
pub open spec fn views_of(vs: Seq<Value>) -> Seq<AbsVal>
    decreases vs,
{
    Seq::new(vs.len(), |i: int| if 0 <= i < vs.len() { abs_of(vs[i]) } else { arbitrary() })
}

impl View for Value {
    type V = AbsVal;

    open spec fn view(&self) -> AbsVal {
        abs_of(*self)
    }
}

/// Well-formedness of a value: every integer inside is canonical, so
/// that structural equality decides value equality.
pub open spec fn val_wf(v: Value) -> bool
    decreases v,
{
    match v {
        Value::Int(n) => n.wf(),
        Value::Tuple(vs) => forall|i: int| 0 <= i < vs@.len() ==> val_wf(#[trigger] vs@[i]),
        _ => true,
    }
}

impl Value {
    /// Every integer inside is canonical, so that structural equality
    /// decides value equality.
    pub open spec fn wf(self) -> bool {
        val_wf(self)
    }

    /// A machine integer as a value.
    pub fn int64(v: i64) -> (r: Value)
        ensures
            r.wf(),
            r@ == AbsVal::Int(v as int),
    {
        Value::Int(BigNum::from_i64(v))
    }

    /// A string as a value.
    pub fn string(s: &str) -> (r: Value)
        ensures
            r.wf(),
            r@ == AbsVal::Str(s@),
    {
        Value::Str(s.to_owned())
    }

    /// A tuple from its parts.
    pub fn tuple(vs: Vec<Value>) -> (r: Value)
        requires
            forall|i: int| 0 <= i < vs@.len() ==> val_wf(#[trigger] vs@[i]),
        ensures
            r.wf(),
            r@ == AbsVal::Tuple(views_of(vs@)),
    {
        Value::Tuple(vs)
    }

    /// A two-element pairing, as yielded by item views and zip.
    pub fn pair(a: Value, b: Value) -> (r: Value)
        requires
            a.wf(),
            b.wf(),
        ensures
            r.wf(),
            r@ == AbsVal::Tuple(seq![a@, b@]),
    {
        let ghost ga = a;
        let ghost gb = b;
        let mut vs: Vec<Value> = Vec::new();
        vs.push(a);
        vs.push(b);
        let ghost gvs = vs@;
        let r = Value::tuple(vs);
        proof {
            assert(gvs =~= seq![ga, gb]);
            assert(views_of(gvs) =~= seq![ga@, gb@]);
            assert(r@ =~= AbsVal::Tuple(seq![ga@, gb@]));
        }
        r
    }
}

impl Clone for Value {
    /// A clone has the same mathematical shape as the original.
    fn clone(&self) -> (res: Value)
        ensures
            res@ == self@,
            self.wf() ==> res.wf(),
            self matches Value::Instance { .. } ==> res == *self,
    {
        clone_value(self)
    }
}

fn clone_value(v: &Value) -> (res: Value)
    ensures
        res@ == v@,
        v.wf() ==> res.wf(),
        v matches Value::Instance { .. } ==> res == *v,
    decreases v,
{
    match v {
        Value::Nil => Value::Nil,
        Value::Bool(b) => Value::Bool(*b),
        Value::Int(n) => Value::Int(n.clone()),
        Value::Str(s) => Value::Str(s.clone()),
        Value::Tuple(vs) => {
            let mut out: Vec<Value> = Vec::new();
            let n = vs.len();
            let mut i: usize = 0;
            while i < n
                invariant
                    n == vs@.len(),
                    i <= n,
                    v == Value::Tuple(*vs),
                    out@.len() == i,
                    forall|j: int| 0 <= j < i ==> abs_of(#[trigger] out@[j]) == abs_of(vs@[j]),
                    forall|j: int| 0 <= j < i ==> (val_wf(vs@[j]) ==> val_wf(#[trigger] out@[j])),
                decreases n - i,
            {
                proof {
                    assert(*vs == v->Tuple_0);
                    assert(decreases_to!(*v => *vs));
                    assert(decreases_to!(*vs => vs@));
                    assert(decreases_to!(vs@ => vs@[i as int]));
                    assert(decreases_to!(*v => vs@[i as int]));
                }
                let e = clone_value(&vs[i]);
                out.push(e);
                i += 1;
            }
            let ghost gout = out@;
            let r = Value::Tuple(out);
            proof {
                assert forall|j: int| 0 <= j < n implies views_of(gout)[j] == views_of(vs@)[j] by {
                    assert(abs_of(gout[j]) == abs_of(vs@[j]));
                }
                assert(views_of(gout) =~= views_of(vs@));
                assert(r@ =~= v@);
                if v.wf() {
                    assert forall|j: int| 0 <= j < n implies val_wf(#[trigger] gout[j]) by {
                        assert(val_wf(vs@[j]));
                    }
                    assert(r.wf());
                }
            }
            r
        },
        Value::Instance { type_id, uid } => Value::Instance { type_id: *type_id, uid: *uid },
    }
}

/// Structural equality of two values; the host's generic equality
/// primitive for immutable objects.
pub fn value_eq(a: &Value, b: &Value) -> (r: bool)
    requires
        a.wf(),
        b.wf(),
    ensures
        r == (a@ == b@),
    decreases a,
{
    match (a, b) {
        (Value::Nil, Value::Nil) => true,
        (Value::Bool(x), Value::Bool(y)) => x == y,
        (Value::Int(x), Value::Int(y)) => x.eq_big(y),
        (Value::Str(x), Value::Str(y)) => x.eq(y),
        (Value::Tuple(xs), Value::Tuple(ys)) => {
            if xs.len() != ys.len() {
                proof {
                    assert(views_of(xs@).len() != views_of(ys@).len());
                }
                return false;
            }
            let n = xs.len();
            let mut i: usize = 0;
            while i < n
                invariant
                    n == xs@.len(),
                    n == ys@.len(),
                    i <= n,
                    a == Value::Tuple(*xs),
                    b == Value::Tuple(*ys),
                    forall|j: int| 0 <= j < n ==> val_wf(#[trigger] xs@[j]),
                    forall|j: int| 0 <= j < n ==> val_wf(#[trigger] ys@[j]),
                    forall|j: int| 0 <= j < i ==> abs_of(#[trigger] xs@[j]) == abs_of(ys@[j]),
                decreases n - i,
            {
                proof {
                    assert(*xs == a->Tuple_0);
                    assert(decreases_to!(*a => *xs));
                    assert(decreases_to!(*xs => xs@));
                    assert(decreases_to!(xs@ => xs@[i as int]));
                    assert(decreases_to!(*a => xs@[i as int]));
                }
                if !value_eq(&xs[i], &ys[i]) {
                    proof {
                        assert(views_of(xs@)[i as int] == abs_of(xs@[i as int]));
                        assert(views_of(ys@)[i as int] == abs_of(ys@[i as int]));
                        assert(!(views_of(xs@) =~= views_of(ys@)));
                    }
                    return false;
                }
                i += 1;
            }
            proof {
                assert forall|j: int| 0 <= j < n implies views_of(xs@)[j] == views_of(ys@)[j] by {
                    assert(abs_of(xs@[j]) == abs_of(ys@[j]));
                }
                assert(views_of(xs@) =~= views_of(ys@));
                assert(a@ =~= b@);
            }
            true
        },
        (Value::Instance { type_id: t1, uid: u1 }, Value::Instance { type_id: t2, uid: u2 }) => {
            t1 == t2 && u1 == u2
        },
        _ => false,
    }
}

} // verus!
