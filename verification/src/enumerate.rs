//! The enumerate iterator and the reverse-sequence iterator.
//!
//! Enumerate pairs each item pulled from its sub-iterator with an
//! arbitrary-precision counter that grows without ceiling. The reverse
//! iterator walks a random-access subject from `length - 1` down to 0,
//! treating an out-of-range read as ordinary exhaustion, and exposes
//! the persistence hooks for pickling-style round trips.

use vstd::prelude::*;
use crate::IterStatus;
use crate::bignum::BigNum;
use crate::value::Value;
use crate::runtime::{PyContext, ObjRef, PyErr, obj_wf, TYPE_ENUMERATE, TYPE_REVERSED};
use crate::sequence::{seq_len, spec_seq_elems};
use crate::iter::{PyIterObj, iter_wf, get_iter, spec_get_iter, iter_abs, AbsIter};

verus! {

/// The enumerate iterator: a counter plus the iterator of the subject.
#[derive(Debug)]
pub struct PyEnumerate {
    pub counter: BigNum,
    pub iterator: Box<PyIterObj>,
}

impl PyEnumerate {
    /// Build an enumerate iterator over an iterable, counting from
    /// `start` (zero when absent).
    pub fn tp_new(ctx: &PyContext, iterable: &ObjRef, start: Option<i64>)
        -> (r: Result<PyEnumerate, PyErr>)
        requires
            ctx.wf(),
            obj_wf(*iterable, *ctx),
        ensures
            match r {
                Ok(e) => {
                    &&& iter_wf(PyIterObj::Enumerate(e), *ctx)
                    &&& spec_get_iter(*ctx, *iterable) matches Ok(sub)
                        && iter_abs(*e.iterator) == sub
                    &&& e.counter.value() == (match start {
                        Some(s) => s as int,
                        None => 0int,
                    })
                },
                Err(e) => spec_get_iter(*ctx, *iterable) matches Err(m)
                    && (e matches PyErr::TypeError(ms) && ms@ == m),
            },
    {
        let counter = match start {
            Some(s) => BigNum::from_i64(s),
            None => BigNum::zero(),
        };
        let sub = get_iter(ctx, iterable)?;
        Ok(PyEnumerate { counter, iterator: Box::new(sub) })
    }
}

/// The reverse-sequence iterator: a subject reference, a descending
/// cursor, and the sticky exhaustion flag.
#[derive(Debug)]
pub struct PyReverseSequenceIterator {
    pub position: i64,
    pub status: IterStatus,
    pub obj: ObjRef,
}

impl PyReverseSequenceIterator {
    /// Start a reverse traversal of a subject of the given length; a
    /// zero-length subject starts already exhausted.
    pub fn new(obj: ObjRef, len: i64) -> (r: PyReverseSequenceIterator)
        requires
            0 <= len < i64::MAX,
        ensures
            r.obj == obj,
            r.position == len - 1,
            r.status == (if len == 0 { IterStatus::Exhausted } else { IterStatus::Active }),
    {
        PyReverseSequenceIterator {
            position: len - 1,
            status: if len == 0 { IterStatus::Exhausted } else { IterStatus::Active },
            obj,
        }
    }

    /// One past the cursor: how many items are nominally left.
    pub fn length_hint(&self) -> (r: i64)
        requires
            self.position < i64::MAX,
        ensures
            r == self.position + 1,
    {
        self.position + 1
    }

    /// Restore a persisted cursor. The position is clamped to
    /// `[0, length - 1]` of the subject's current length; restoring an
    /// already-exhausted iterator changes nothing.
    pub fn setstate(&mut self, ctx: &PyContext, state: i64) -> (r: Result<(), PyErr>)
        requires
            ctx.wf(),
            obj_wf(old(self).obj, *ctx),
        ensures
            final(self).obj == old(self).obj,
            final(self).status == old(self).status,
            match r {
                Ok(()) => {
                    if old(self).status is Exhausted {
                        *final(self) == *old(self)
                    } else {
                        spec_seq_elems(*ctx, old(self).obj) matches Some(elems)
                            && final(self).position
                                == clamp_position(state as int, capped_len(elems.len() as int))
                            && final(self).position >= 0
                    }
                },
                Err(e) => {
                    &&& *final(self) == *old(self)
                    &&& !(old(self).status is Exhausted)
                    &&& spec_seq_elems(*ctx, old(self).obj) is None
                },
            },
    {
        if matches!(self.status, IterStatus::Exhausted) {
            return Ok(());
        }
        let len = seq_len(ctx, &self.obj)?;
        let len_i: i64 = if len as u64 > (i64::MAX - 1) as u64 {
            i64::MAX - 1
        } else {
            len as i64
        };
        let mut pos = state;
        if pos > len_i - 1 {
            pos = len_i - 1;
        }
        if pos < 0 {
            pos = 0;
        }
        self.position = pos;
        Ok(())
    }

    /// The persisted shape of the iterator: nothing but the
    /// reconstructor reference when exhausted, otherwise the subject
    /// and the cursor to restore.
    pub fn reduce(&self) -> (r: RevIterReduced)
        ensures
            match r {
                RevIterReduced::Exhausted => self.status is Exhausted,
                RevIterReduced::Active { obj, position } => {
                    &&& !(self.status is Exhausted)
                    &&& crate::runtime::obj_abs(obj) == crate::runtime::obj_abs(self.obj)
                    &&& position == self.position
                },
            },
    {
        match self.status {
            IterStatus::Exhausted => RevIterReduced::Exhausted,
            IterStatus::Active => RevIterReduced::Active {
                obj: self.obj.clone(),
                position: self.position,
            },
        }
    }
}

/// A persisted reverse-sequence iterator: the arguments that rebuild
/// an equivalent iterator, plus the cursor when one is needed.
#[derive(Debug)]
pub enum RevIterReduced {
    Exhausted,
    Active { obj: ObjRef, position: i64 },
}

/// Subject lengths beyond the cursor's range read as the largest
/// representable length.
pub open spec fn capped_len(n: int) -> int {
    if n > i64::MAX - 1 { i64::MAX - 1 } else { n }
}

/// A restored cursor lands inside the subject's current bounds.
pub open spec fn clamp_position(p: int, len: int) -> int {
    if p > len - 1 {
        if len - 1 < 0 { 0 } else { len - 1 }
    } else if p < 0 {
        0
    } else {
        p
    }
}

/// Round trip of a persisted reverse iterator: persisting an active
/// iterator mid-traversal and rebuilding it over an equal-length
/// subject, with the persisted cursor restored, reproduces the
/// original abstract state exactly. Since every step of an iterator is
/// a function of its abstract state and the context, the rebuilt
/// iterator goes on to yield precisely what the original would have.
pub proof fn lemma_reverse_roundtrip(it: PyReverseSequenceIterator, len: int)
    requires
        it.status is Active,
        0 <= it.position,
        it.position <= len - 1,
        len < i64::MAX,
    ensures
        len > 0,
        clamp_position(it.position as int, capped_len(len)) == it.position as int,
        ({
            let rebuilt = PyReverseSequenceIterator {
                position: it.position,
                status: if len == 0 { crate::IterStatus::Exhausted } else {
                    crate::IterStatus::Active
                },
                obj: it.obj,
            };
            crate::iter::iter_abs(PyIterObj::Reversed(rebuilt))
                == crate::iter::iter_abs(PyIterObj::Reversed(it))
        }),
{
}

/// Register the behavior of the enumerate and reversed types.
pub fn init(ctx: &mut PyContext)
    requires
        old(ctx).wf(),
    ensures
        final(ctx).wf(),
        final(ctx).types@.len() == old(ctx).types@.len(),
        final(ctx).lists@ == old(ctx).lists@,
        final(ctx).dicts@ == old(ctx).dicts@,
        final(ctx).types@[TYPE_ENUMERATE as int].iterable,
        final(ctx).types@[TYPE_REVERSED as int].iterable,
{
    ctx.set_slots(TYPE_ENUMERATE, None, None, true);
    ctx.set_slots(TYPE_REVERSED, None, None, true);
}

} // verus!
