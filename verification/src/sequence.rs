//! The sequence protocol: per-type sequence slots resolved along the
//! MRO (an object that is a mapping never resolves as a sequence), the
//! generic length and item operations, elementwise comparison, and
//! sequence repetition.

use vstd::prelude::*;
use vstd::string::StringExecFns;
use crate::value::{Value, AbsVal, abs_of, val_wf, views_of};
use crate::runtime::{PyContext, ObjRef, ObjAbs, obj_abs, abs_type_of, PyErr, AbsErr, err_abs, TypeInfo, SequenceImpl, obj_wf, spec_type_of, type_of};
use crate::mapping::{spec_mapping_methods_of, try_mapping_methods};
use crate::runtime::PyComparisonOp;

verus! {

/// The message raised when no type in the MRO supplies sequence slots.
pub open spec fn missing_sequence_msg(name: Seq<char>) -> Seq<char> {
    "a bytes-like object is required, not '"@ + name + "'"@
}

/// First sequence slot along an MRO, front to back.
pub open spec fn first_as_sequence(types: Seq<TypeInfo>, mro: Seq<usize>)
    -> Option<SequenceImpl>
    decreases mro.len(),
{
    if mro.len() == 0 {
        None
    } else if 0 <= mro[0] < types.len() && types[mro[0] as int].as_sequence is Some {
        types[mro[0] as int].as_sequence
    } else {
        first_as_sequence(types, mro.skip(1))
    }
}

/// The sequence slot the dispatch layer resolves for a type: mappings
/// take precedence, so a type that resolves mapping slots never
/// resolves as a sequence.
pub open spec fn spec_sequence_impl_of(ctx: PyContext, tid: int) -> Option<SequenceImpl> {
    if spec_mapping_methods_of(ctx, tid) is Some {
        None
    } else {
        first_as_sequence(ctx.types@, ctx.types@[tid].mro@)
    }
}

/// Resolve the sequence slot of an object's type: objects that are
/// mappings are rejected, then the MRO is walked front to back.
pub fn try_sequence_impl(ctx: &PyContext, obj: &ObjRef) -> (r: Result<SequenceImpl, PyErr>)
    requires
        ctx.wf(),
        obj_wf(*obj, *ctx),
    ensures
        match r {
            Ok(s) => spec_sequence_impl_of(*ctx, spec_type_of(*obj)) == Some(s),
            Err(e) => spec_sequence_impl_of(*ctx, spec_type_of(*obj)) is None
                && (e matches PyErr::TypeError(m)
                    && m@ == missing_sequence_msg(
                        ctx.types@[spec_type_of(*obj)].name@)),
        },
{
    let tid = type_of(ctx, obj);
    let is_mapping = match try_mapping_methods(ctx, obj) {
        Ok(_) => true,
        Err(_) => false,
    };
    if !is_mapping {
        let mro = &ctx.types[tid].mro;
        let n = mro.len();
        let ghost types = ctx.types@;
        proof {
            assert(mro@.skip(0) =~= mro@);
        }
        let mut i: usize = 0;
        while i < n
            invariant
                ctx.wf(),
                obj_wf(*obj, *ctx),
                n == mro@.len(),
                i <= n,
                tid < ctx.types@.len(),
                tid as int == spec_type_of(*obj),
                spec_mapping_methods_of(*ctx, tid as int) is None,
                mro@ == ctx.types@[tid as int].mro@,
                types == ctx.types@,
                forall|j: int| 0 <= j < mro@.len() ==> #[trigger] mro@[j] < ctx.types@.len(),
                first_as_sequence(types, mro@) == first_as_sequence(types, mro@.skip(i as int)),
            decreases n - i,
        {
            let cls = mro[i];
            let found = ctx.types[cls].as_sequence;
            proof {
                assert(mro@.skip(i as int)[0] == mro@[i as int]);
                assert(mro@.skip(i as int).skip(1) =~= mro@.skip(i as int + 1));
            }
            if let Some(s) = found {
                return Ok(s);
            }
            i += 1;
        }
        proof {
            assert(mro@.skip(n as int) =~= Seq::<usize>::empty());
        }
    }
    let mut m: String = "a bytes-like object is required, not '".to_owned();
    m.append(ctx.types[tid].name.as_str());
    m.append("'");
    Err(PyErr::TypeError(m))
}

/// The element sequence a sequence-slotted object stands for, when its
/// payload matches the resolved slot.
pub open spec fn spec_seq_elems_abs(ctx: PyContext, oa: ObjAbs) -> Option<Seq<AbsVal>> {
    match spec_sequence_impl_of(ctx, abs_type_of(oa)) {
        Some(SequenceImpl::List) => match oa {
            ObjAbs::List(l) => Some(views_of(ctx.lists@[l]@)),
            _ => None,
        },
        Some(SequenceImpl::Tuple) => match oa {
            ObjAbs::Imm(v) => match v {
                AbsVal::Tuple(ts) => Some(ts),
                _ => None,
            },
            _ => None,
        },
        _ => None,
    }
}

/// The element sequence behind a concrete reference.
pub open spec fn spec_seq_elems(ctx: PyContext, o: ObjRef) -> Option<Seq<AbsVal>> {
    spec_seq_elems_abs(ctx, obj_abs(o))
}

/// What the generic item read, `obj[i]` through the sequence protocol,
/// yields: the element for an in-range index, an index error past the
/// end, a protocol error when the slots are missing or the payload does
/// not match them.
pub open spec fn spec_seq_item_abs(ctx: PyContext, oa: ObjAbs, i: int) -> Result<AbsVal, AbsErr> {
    match spec_seq_elems_abs(ctx, oa) {
        Some(elems) => {
            if 0 <= i < elems.len() {
                Ok(elems[i])
            } else {
                Err(AbsErr::Index("sequence index out of range"@))
            }
        },
        None => Err(AbsErr::Type(missing_sequence_msg(
            ctx.types@[abs_type_of(oa)].name@))),
    }
}

/// The item read behind a concrete reference.
pub open spec fn spec_seq_item(ctx: PyContext, o: ObjRef, i: int) -> Result<AbsVal, AbsErr> {
    spec_seq_item_abs(ctx, obj_abs(o), i)
}

/// Generic sequence length.
pub fn seq_len(ctx: &PyContext, o: &ObjRef) -> (r: Result<usize, PyErr>)
    requires
        ctx.wf(),
        obj_wf(*o, *ctx),
    ensures
        match r {
            Ok(n) => spec_seq_elems(*ctx, *o) matches Some(elems) && n == elems.len(),
            Err(e) => spec_seq_elems(*ctx, *o) is None && e is TypeError,
        },
{
    let s = match try_sequence_impl(ctx, o) {
        Ok(s) => s,
        Err(e) => {
            return Err(e);
        },
    };
    match (s, o) {
        (SequenceImpl::List, ObjRef::List(l)) => Ok(ctx.lists[*l].len()),
        (SequenceImpl::Tuple, ObjRef::Imm(Value::Tuple(vs))) => Ok(vs.len()),
        _ => {
            let tid = type_of(ctx, o);
            let mut m: String = "a bytes-like object is required, not '".to_owned();
            m.append(ctx.types[tid].name.as_str());
            m.append("'");
            Err(PyErr::TypeError(m))
        },
    }
}

/// Generic item read through the sequence protocol. The index is the
/// iterator cursor: non-negative positions only, as reverse iteration
/// supplies them.
pub fn seq_get_item(ctx: &PyContext, o: &ObjRef, i: usize) -> (r: Result<Value, PyErr>)
    requires
        ctx.wf(),
        obj_wf(*o, *ctx),
    ensures
        match r {
            Ok(v) => spec_seq_item(*ctx, *o, i as int) == Ok::<AbsVal, AbsErr>(v@) && v.wf()
                && i < usize::MAX,
            Err(e) => spec_seq_item(*ctx, *o, i as int) == Err::<AbsVal, AbsErr>(err_abs(e)),
        },
        spec_seq_elems(*ctx, *o) matches Some(elems) ==> elems.len() <= usize::MAX,
{
    let s = match try_sequence_impl(ctx, o) {
        Ok(s) => s,
        Err(e) => {
            return Err(e);
        },
    };
    match (s, o) {
        (SequenceImpl::List, ObjRef::List(l)) => {
            let items = &ctx.lists[*l];
            if i < items.len() {
                let v = items[i].clone();
                Ok(v)
            } else {
                Err(PyErr::IndexError("sequence index out of range".to_owned()))
            }
        },
        (SequenceImpl::Tuple, ObjRef::Imm(Value::Tuple(vs))) => {
            if i < vs.len() {
                let v = vs[i].clone();
                Ok(v)
            } else {
                Err(PyErr::IndexError("sequence index out of range".to_owned()))
            }
        },
        _ => {
            let tid = type_of(ctx, o);
            let mut m: String = "a bytes-like object is required, not '".to_owned();
            m.append(ctx.types[tid].name.as_str());
            m.append("'");
            Err(PyErr::TypeError(m))
        },
    }
}

/// Element order where the engine defines one: between integers. The
/// host's other orderable types collate in their own modules.
pub open spec fn spec_val_lt(a: AbsVal, b: AbsVal) -> Option<bool> {
    match (a, b) {
        (AbsVal::Int(x), AbsVal::Int(y)) => Some(x < y),
        _ => None,
    }
}

/// Lexicographic comparison of two rows: the first differing pair
/// decides, ties break by length; incomparable elements surface as an
/// error.
pub open spec fn spec_lex(a: Seq<AbsVal>, b: Seq<AbsVal>) -> Result<int, ()>
    decreases a.len(),
{
    if a.len() == 0 && b.len() == 0 {
        Ok(0)
    } else if a.len() == 0 {
        Ok(-1)
    } else if b.len() == 0 {
        Ok(1)
    } else if a[0] == b[0] {
        spec_lex(a.skip(1), b.skip(1))
    } else {
        match spec_val_lt(a[0], b[0]) {
            Some(true) => Ok(-1),
            Some(false) => Ok(1),
            None => Err(()),
        }
    }
}

/// Strict element order, where one is defined.
fn value_lt(a: &Value, b: &Value) -> (r: Result<bool, PyErr>)
    requires
        a.wf(),
        b.wf(),
    ensures
        match r {
            Ok(v) => spec_val_lt(a@, b@) == Some(v),
            Err(e) => spec_val_lt(a@, b@) is None && e is TypeError,
        },
{
    match (a, b) {
        (Value::Int(x), Value::Int(y)) => Ok(x.lt_big(y)),
        _ => Err(PyErr::TypeError(
            "ordering is not supported between these operands".to_owned())),
    }
}

/// Walk two rows from position `i` to the first deciding pair; the
/// exec twin of `spec_lex`.
fn lex_cmp(zelf: &Vec<Value>, other: &Vec<Value>, i: usize) -> (r: Result<i8, PyErr>)
    requires
        forall|k: int| 0 <= k < zelf@.len() ==> val_wf(#[trigger] zelf@[k]),
        forall|k: int| 0 <= k < other@.len() ==> val_wf(#[trigger] other@[k]),
        i <= zelf@.len(),
        i <= other@.len(),
    ensures
        match r {
            Ok(o) => spec_lex(views_of(zelf@).skip(i as int), views_of(other@).skip(i as int))
                == Ok::<int, ()>(o as int),
            Err(e) => spec_lex(views_of(zelf@).skip(i as int), views_of(other@).skip(i as int))
                is Err && e is TypeError,
        },
    decreases zelf@.len() - i,
{
    let ghost ga = views_of(zelf@).skip(i as int);
    let ghost gb = views_of(other@).skip(i as int);
    if i == zelf.len() && i == other.len() {
        return Ok(0);
    }
    if i == zelf.len() {
        proof {
            assert(gb.len() > 0);
        }
        return Ok(-1);
    }
    if i == other.len() {
        return Ok(1);
    }
    proof {
        assert(ga[0] == views_of(zelf@)[i as int]);
        assert(gb[0] == views_of(other@)[i as int]);
        assert(ga.skip(1) =~= views_of(zelf@).skip(i as int + 1));
        assert(gb.skip(1) =~= views_of(other@).skip(i as int + 1));
    }
    if crate::value::value_eq(&zelf[i], &other[i]) {
        lex_cmp(zelf, other, i + 1)
    } else {
        match value_lt(&zelf[i], &other[i]) {
            Ok(true) => Ok(-1),
            Ok(false) => Ok(1),
            Err(e) => Err(e),
        }
    }
}

/// Elementwise equality of two rows of values: equal lengths and
/// equal elements, the way the host compares sequences.
pub fn eq(zelf: &Vec<Value>, other: &Vec<Value>) -> (r: bool)
    requires
        forall|i: int| 0 <= i < zelf@.len() ==> val_wf(#[trigger] zelf@[i]),
        forall|i: int| 0 <= i < other@.len() ==> val_wf(#[trigger] other@[i]),
    ensures
        r == (views_of(zelf@) =~= views_of(other@)),
{
    if zelf.len() != other.len() {
        return false;
    }
    let n = zelf.len();
    let mut i: usize = 0;
    while i < n
        invariant
            n == zelf@.len(),
            n == other@.len(),
            i <= n,
            forall|j: int| 0 <= j < n ==> val_wf(#[trigger] zelf@[j]),
            forall|j: int| 0 <= j < n ==> val_wf(#[trigger] other@[j]),
            forall|j: int| 0 <= j < i ==> abs_of(#[trigger] zelf@[j]) == abs_of(other@[j]),
        decreases n - i,
    {
        if !crate::value::value_eq(&zelf[i], &other[i]) {
            proof {
                assert(views_of(zelf@)[i as int] != views_of(other@)[i as int]);
            }
            return false;
        }
        i += 1;
    }
    proof {
        assert forall|j: int| 0 <= j < n
            implies views_of(zelf@)[j] == views_of(other@)[j] by {
            assert(abs_of(zelf@[j]) == abs_of(other@[j]));
        }
        assert(views_of(zelf@) =~= views_of(other@));
    }
    true
}

/// Rich comparison of two rows: equality elementwise, order
/// lexicographically with the length as tiebreak, exactly the shape
/// the host's sequence comparison uses.
pub fn cmp(zelf: &Vec<Value>, other: &Vec<Value>, op: PyComparisonOp)
    -> (r: Result<bool, PyErr>)
    requires
        forall|i: int| 0 <= i < zelf@.len() ==> val_wf(#[trigger] zelf@[i]),
        forall|i: int| 0 <= i < other@.len() ==> val_wf(#[trigger] other@[i]),
    ensures
        match r {
            Ok(v) => match op {
                PyComparisonOp::Eq => v == (views_of(zelf@) =~= views_of(other@)),
                PyComparisonOp::Ne => v == !(views_of(zelf@) =~= views_of(other@)),
                PyComparisonOp::Lt => spec_lex(views_of(zelf@), views_of(other@))
                    matches Ok(o) && v == (o < 0),
                PyComparisonOp::Le => spec_lex(views_of(zelf@), views_of(other@))
                    matches Ok(o) && v == (o <= 0),
                PyComparisonOp::Gt => spec_lex(views_of(zelf@), views_of(other@))
                    matches Ok(o) && v == (o > 0),
                PyComparisonOp::Ge => spec_lex(views_of(zelf@), views_of(other@))
                    matches Ok(o) && v == (o >= 0),
            },
            Err(e) => spec_lex(views_of(zelf@), views_of(other@)) is Err
                && e is TypeError
                && !(op == PyComparisonOp::Eq) && !(op == PyComparisonOp::Ne),
        },
{
    match op {
        PyComparisonOp::Eq => {
            return Ok(eq(zelf, other));
        },
        PyComparisonOp::Ne => {
            let e = eq(zelf, other);
            return Ok(!e);
        },
        _ => {},
    }
    let o = match lex_cmp(zelf, other, 0) {
        Ok(o) => o,
        Err(e) => {
            proof {
                assert(views_of(zelf@).skip(0) =~= views_of(zelf@));
                assert(views_of(other@).skip(0) =~= views_of(other@));
            }
            return Err(e);
        },
    };
    proof {
        assert(views_of(zelf@).skip(0) =~= views_of(zelf@));
        assert(views_of(other@).skip(0) =~= views_of(other@));
    }
    match op {
        PyComparisonOp::Lt => Ok(o < 0),
        PyComparisonOp::Le => Ok(o <= 0),
        PyComparisonOp::Gt => Ok(o > 0),
        PyComparisonOp::Ge => Ok(o >= 0),
        _ => Ok(false),
    }
}

/// A row repeated a number of times, laid end to end.
pub open spec fn spec_repeat(s: Seq<AbsVal>, n: nat) -> Seq<AbsVal>
    decreases n,
{
    if n == 0 {
        Seq::<AbsVal>::empty()
    } else {
        spec_repeat(s, (n - 1) as nat) + s
    }
}

/// A lazy walk over a row repeated a fixed number of further rounds.
#[derive(Debug)]
pub struct SeqMul {
    pub seq: Vec<Value>,
    pub inner: usize,
    pub reps_left: usize,
}

impl SeqMul {
    /// Items still to come.
    pub open spec fn spec_remaining(self) -> int {
        (if self.inner < self.seq@.len() { self.seq@.len() - self.inner } else { 0int })
            + self.reps_left * self.seq@.len()
    }

    /// Well-formed contents.
    pub open spec fn wf(self) -> bool {
        forall|i: int| 0 <= i < self.seq@.len() ==> val_wf(#[trigger] self.seq@[i])
    }

    /// The next item of the repetition, or nothing when the rounds
    /// are used up.
    pub fn next_item(&mut self) -> (r: Option<Value>)
        requires
            old(self).wf(),
        ensures
            final(self).wf(),
            final(self).seq@ == old(self).seq@,
            match r {
                Some(v) => {
                    &&& old(self).spec_remaining() > 0
                    &&& v.wf()
                    &&& (if old(self).inner < old(self).seq@.len() {
                        v@ == abs_of(old(self).seq@[old(self).inner as int])
                            && final(self).inner == old(self).inner + 1
                            && final(self).reps_left == old(self).reps_left
                    } else {
                        v@ == abs_of(old(self).seq@[0])
                            && final(self).inner == 1
                            && final(self).reps_left == old(self).reps_left - 1
                    })
                },
                None => {
                    &&& old(self).spec_remaining() == 0
                    &&& *final(self) == *old(self)
                },
            },
    {
        if self.inner < self.seq.len() {
            let v = self.seq[self.inner].clone();
            self.inner = self.inner + 1;
            proof {
                vstd::arithmetic::mul::lemma_mul_nonnegative(
                    self.reps_left as int, self.seq@.len() as int);
            }
            return Some(v);
        }
        if self.reps_left > 0 && self.seq.len() > 0 {
            self.reps_left = self.reps_left - 1;
            let v = self.seq[0].clone();
            self.inner = 1;
            proof {
                vstd::arithmetic::mul::lemma_mul_strictly_positive(
                    old(self).reps_left as int, self.seq@.len() as int);
            }
            return Some(v);
        }
        proof {
            if self.seq@.len() == 0 || self.reps_left == 0 {
                assert(self.reps_left * self.seq@.len() == 0)
                    by (nonlinear_arith)
                    requires self.reps_left == 0 || self.seq@.len() == 0;
            }
        }
        None
    }

    /// How many items remain; exact for this walk.
    pub fn remaining(&self) -> (r: usize)
        requires
            self.spec_remaining() <= usize::MAX,
        ensures
            r == self.spec_remaining(),
    {
        proof {
            vstd::arithmetic::mul::lemma_mul_nonnegative(
                self.reps_left as int, self.seq@.len() as int);
        }
        let tail = if self.inner < self.seq.len() { self.seq.len() - self.inner } else { 0 };
        tail + self.reps_left * self.seq.len()
    }
}

/// Start a lazy repetition of a row: an empty row repeats zero times,
/// a negative count reads as zero, and the walk then yields the row
/// `repetitions` times over.
pub fn seq_mul(seq: Vec<Value>, repetitions: i64) -> (r: SeqMul)
    requires
        forall|i: int| 0 <= i < seq@.len() ==> val_wf(#[trigger] seq@[i]),
        0 <= repetitions <= usize::MAX,
    ensures
        r.wf(),
        r.seq@ == seq@,
        r.inner == seq@.len(),
        r.reps_left == (if seq@.len() > 0 { repetitions as int } else { 0int }),
{
    let reps = if seq.len() > 0 { repetitions as usize } else { 0 };
    let inner = seq.len();
    SeqMul { seq, inner, reps_left: reps }
}

/// Number of occurrences of a shape in a row.
pub open spec fn spec_count(s: Seq<AbsVal>, x: AbsVal) -> int
    decreases s.len(),
{
    if s.len() == 0 {
        0
    } else {
        spec_count(s.skip(1), x) + (if s[0] == x { 1int } else { 0int })
    }
}

/// The generic sequence operations a type's sequence slots supply.
/// The engine implements them for its own row of values; the host's
/// other sequence payloads plug in the same way.
pub trait PySequenceMethods {
    /// The elements, as shapes.
    spec fn sq_elems(&self) -> Seq<AbsVal>;

    /// Every element is well-formed.
    spec fn sq_wf(&self) -> bool;

    /// Number of elements.
    fn length(&self) -> (r: usize)
        requires
            self.sq_wf(),
        ensures
            r == self.sq_elems().len(),
    ;

    /// Number of elements, under the protocol's other name.
    fn size(&self) -> (r: usize)
        requires
            self.sq_wf(),
        ensures
            r == self.sq_elems().len(),
    {
        self.length()
    }

    /// The element at an index, or the index error past the end.
    fn get_item(&self, i: usize) -> (r: Result<Value, PyErr>)
        requires
            self.sq_wf(),
        ensures
            match r {
                Ok(v) => i < self.sq_elems().len() && v@ == self.sq_elems()[i as int] && v.wf(),
                Err(e) => i >= self.sq_elems().len() && e is IndexError,
            },
    ;

    /// Whether some element has the probed shape.
    fn contains(&self, v: &Value) -> (r: bool)
        requires
            self.sq_wf(),
            v.wf(),
        ensures
            r == self.sq_elems().contains(v@),
    ;

    /// How many elements have the probed shape.
    fn count(&self, v: &Value) -> (r: usize)
        requires
            self.sq_wf(),
            v.wf(),
        ensures
            r == spec_count(self.sq_elems(), v@),
    ;

    /// First position of the probed shape, or the lookup error.
    fn index(&self, v: &Value) -> (r: Result<usize, PyErr>)
        requires
            self.sq_wf(),
            v.wf(),
        ensures
            match r {
                Ok(i) => i < self.sq_elems().len() && self.sq_elems()[i as int] == v@
                    && (forall|j: int| 0 <= j < i ==> self.sq_elems()[j] != v@),
                Err(e) => !self.sq_elems().contains(v@) && e is ValueError,
            },
    ;

    /// The elements as a fresh row.
    fn to_vec(&self) -> (r: Vec<Value>)
        requires
            self.sq_wf(),
        ensures
            views_of(r@) =~= self.sq_elems(),
            forall|i: int| 0 <= i < r@.len() ==> val_wf(#[trigger] r@[i]),
    ;

    /// This row followed by another.
    fn concat(&self, other: &Vec<Value>) -> (r: Vec<Value>)
        requires
            self.sq_wf(),
            forall|i: int| 0 <= i < other@.len() ==> val_wf(#[trigger] other@[i]),
        ensures
            views_of(r@) =~= self.sq_elems() + views_of(other@),
            forall|i: int| 0 <= i < r@.len() ==> val_wf(#[trigger] r@[i]),
    ;

    /// The elements as a list value row.
    fn list(&self) -> (r: Vec<Value>)
        requires
            self.sq_wf(),
        ensures
            views_of(r@) =~= self.sq_elems(),
            forall|i: int| 0 <= i < r@.len() ==> val_wf(#[trigger] r@[i]),
    {
        self.to_vec()
    }

    /// The elements packed into a tuple value.
    fn tuple(&self) -> (r: Value)
        requires
            self.sq_wf(),
        ensures
            r.wf(),
            r@ matches AbsVal::Tuple(t) && t =~= self.sq_elems(),
    {
        let vs = self.to_vec();
        let ghost gvs = vs@;
        let r = Value::tuple(vs);
        proof {
            assert(r@ matches AbsVal::Tuple(t) && t == views_of(gvs));
        }
        r
    }
}

impl PySequenceMethods for Vec<Value> {
    open spec fn sq_elems(&self) -> Seq<AbsVal> {
        views_of(self@)
    }

    open spec fn sq_wf(&self) -> bool {
        forall|i: int| 0 <= i < self@.len() ==> val_wf(#[trigger] self@[i])
    }

    fn length(&self) -> (r: usize) {
        self.len()
    }

    fn get_item(&self, i: usize) -> (r: Result<Value, PyErr>) {
        if i < self.len() {
            Ok(self[i].clone())
        } else {
            Err(PyErr::IndexError("sequence index out of range".to_owned()))
        }
    }

    fn contains(&self, v: &Value) -> (r: bool) {
        let n = self.len();
        let mut i: usize = 0;
        while i < n
            invariant
                self.sq_wf(),
                v.wf(),
                n == self@.len(),
                i <= n,
                forall|j: int| 0 <= j < i ==> views_of(self@)[j] != v@,
            decreases n - i,
        {
            if crate::value::value_eq(&self[i], v) {
                proof {
                    assert(views_of(self@)[i as int] == v@);
                }
                return true;
            }
            proof {
                assert(views_of(self@)[i as int] == abs_of(self@[i as int]));
            }
            i += 1;
        }
        proof {
            if views_of(self@).contains(v@) {
                let k = choose|k: int|
                    0 <= k < views_of(self@).len() && views_of(self@)[k] == v@;
                assert(false);
            }
        }
        false
    }

    fn count(&self, v: &Value) -> (r: usize) {
        proof {
            lemma_count_prefix(views_of(self@), v@, 0);
        }
        let n = self.len();
        let mut c: usize = 0;
        let mut i: usize = 0;
        while i < n
            invariant
                self.sq_wf(),
                v.wf(),
                n == self@.len(),
                i <= n,
                c <= i,
                c == spec_count(views_of(self@).take(i as int), v@),
            decreases n - i,
        {
            let ghost pre = views_of(self@).take(i as int);
            if crate::value::value_eq(&self[i], v) {
                c = c + 1;
            }
            proof {
                lemma_count_snoc(views_of(self@), v@, i as int);
            }
            i += 1;
        }
        proof {
            assert(views_of(self@).take(n as int) =~= views_of(self@));
        }
        c
    }

    fn index(&self, v: &Value) -> (r: Result<usize, PyErr>) {
        let n = self.len();
        let mut i: usize = 0;
        while i < n
            invariant
                self.sq_wf(),
                v.wf(),
                n == self@.len(),
                i <= n,
                forall|j: int| 0 <= j < i ==> views_of(self@)[j] != v@,
            decreases n - i,
        {
            if crate::value::value_eq(&self[i], v) {
                proof {
                    assert(views_of(self@)[i as int] == v@);
                }
                return Ok(i);
            }
            proof {
                assert(views_of(self@)[i as int] == abs_of(self@[i as int]));
            }
            i += 1;
        }
        proof {
            if views_of(self@).contains(v@) {
                let k = choose|k: int|
                    0 <= k < views_of(self@).len() && views_of(self@)[k] == v@;
                assert(false);
            }
        }
        Err(PyErr::ValueError("value is not in the sequence".to_owned()))
    }

    fn to_vec(&self) -> (r: Vec<Value>) {
        let n = self.len();
        let mut out: Vec<Value> = Vec::new();
        let mut i: usize = 0;
        while i < n
            invariant
                self.sq_wf(),
                n == self@.len(),
                i <= n,
                out@.len() == i,
                forall|j: int| 0 <= j < i ==> val_wf(#[trigger] out@[j]),
                forall|j: int| 0 <= j < i ==> abs_of(#[trigger] out@[j]) == abs_of(self@[j]),
            decreases n - i,
        {
            out.push(self[i].clone());
            i += 1;
        }
        proof {
            assert forall|j: int| 0 <= j < n
                implies views_of(out@)[j] == views_of(self@)[j] by {
                assert(abs_of(out@[j]) == abs_of(self@[j]));
            }
            assert(views_of(out@) =~= views_of(self@));
        }
        out
    }

    fn concat(&self, other: &Vec<Value>) -> (r: Vec<Value>) {
        let mut out = self.to_vec();
        let ghost base = out@;
        let n = other.len();
        let mut i: usize = 0;
        while i < n
            invariant
                n == other@.len(),
                i <= n,
                forall|j: int| 0 <= j < n ==> val_wf(#[trigger] other@[j]),
                out@.len() == base.len() + i,
                forall|j: int| 0 <= j < base.len() ==> out@[j] == base[j],
                forall|j: int| 0 <= j < base.len() ==> val_wf(#[trigger] out@[j]),
                views_of(base) =~= views_of(self@),
                forall|j: int| base.len() <= j < out@.len()
                    ==> abs_of(#[trigger] out@[j]) == abs_of(other@[j - base.len()])
                        && val_wf(out@[j]),
            decreases n - i,
        {
            out.push(other[i].clone());
            i += 1;
        }
        proof {
            assert forall|j: int| 0 <= j < out@.len()
                implies views_of(out@)[j] == (views_of(self@) + views_of(other@))[j] by {
                if j < base.len() {
                    assert(abs_of(out@[j]) == abs_of(base[j]));
                    assert(views_of(base)[j] == abs_of(base[j]));
                } else {
                    assert(abs_of(out@[j]) == abs_of(other@[j - base.len()]));
                }
            }
            assert(views_of(out@) =~= views_of(self@) + views_of(other@));
        }
        out
    }
}

proof fn lemma_count_prefix(s: Seq<AbsVal>, x: AbsVal, i: int)
    requires
        0 <= i <= s.len(),
    ensures
        spec_count(s.take(i), x) <= i,
    decreases i,
{
    if i > 0 {
        lemma_count_prefix(s, x, i - 1);
        lemma_count_snoc(s, x, i - 1);
    } else {
        assert(s.take(0) =~= Seq::<AbsVal>::empty());
    }
}

/// Counting one more element extends the running count by whether it
/// matches.
proof fn lemma_count_snoc(s: Seq<AbsVal>, x: AbsVal, i: int)
    requires
        0 <= i < s.len(),
    ensures
        spec_count(s.take(i + 1), x)
            == spec_count(s.take(i), x) + (if s[i] == x { 1int } else { 0int }),
    decreases i,
{
    if i == 0 {
        assert(s.take(1).skip(1) =~= Seq::<AbsVal>::empty());
        assert(s.take(0) =~= Seq::<AbsVal>::empty());
        assert(s.take(1)[0] == s[0]);
    } else {
        lemma_count_snoc(s.skip(1), x, i - 1);
        assert(s.take(i + 1).skip(1) =~= s.skip(1).take(i));
        assert(s.take(i).skip(1) =~= s.skip(1).take(i - 1));
        assert(s.take(i + 1)[0] == s[0]);
        assert(s.take(i)[0] == s[0]);
        assert(s.skip(1)[i - 1] == s[i]);
    }
}

/// A by-value handle around a concrete sequence-methods payload, the
/// shape the slot table hands out.
#[derive(Debug)]
pub struct PySequenceMethodsRef<S: PySequenceMethods>(pub S);

impl<S: PySequenceMethods> PySequenceMethodsRef<S> {
    /// Wrap a payload.
    pub fn new(seq: S) -> (r: PySequenceMethodsRef<S>)
        ensures
            r.0 == seq,
    {
        PySequenceMethodsRef(seq)
    }

    /// Move the payload behind a shared reference-counted handle.
    pub fn into_rcbuf(self) -> (r: RcSequenceMethods<S>)
        ensures
            r.0 == self.0,
    {
        RcSequenceMethods(std::rc::Rc::new(self.0))
    }
}

/// A shared, reference-counted sequence-methods payload.
#[derive(Debug)]
pub struct RcSequenceMethods<S: PySequenceMethods>(pub std::rc::Rc<S>);

/// Relies on `Rc`'s `Deref`: borrowing through a reference-counted
/// handle reaches the shared value itself.
#[verifier::external_body]
fn rc_borrow<T>(rc: &std::rc::Rc<T>) -> (r: &T)
    ensures
        *r == **rc,
{
    &**rc
}

impl<S: PySequenceMethods> RcSequenceMethods<S> {
    /// Borrow the shared payload.
    pub fn get(&self) -> (r: &S)
        ensures
            *r == *self.0,
    {
        rc_borrow(&self.0)
    }
}

impl<S: PySequenceMethods> PySequenceMethods for RcSequenceMethods<S> {
    open spec fn sq_elems(&self) -> Seq<AbsVal> {
        (*self.0).sq_elems()
    }

    open spec fn sq_wf(&self) -> bool {
        (*self.0).sq_wf()
    }

    fn length(&self) -> (r: usize) {
        self.get().length()
    }

    fn get_item(&self, i: usize) -> (r: Result<Value, PyErr>) {
        self.get().get_item(i)
    }

    fn contains(&self, v: &Value) -> (r: bool) {
        self.get().contains(v)
    }

    fn count(&self, v: &Value) -> (r: usize) {
        self.get().count(v)
    }

    fn index(&self, v: &Value) -> (r: Result<usize, PyErr>) {
        self.get().index(v)
    }

    fn to_vec(&self) -> (r: Vec<Value>) {
        self.get().to_vec()
    }

    fn concat(&self, other: &Vec<Value>) -> (r: Vec<Value>) {
        self.get().concat(other)
    }
}

} // verus!
