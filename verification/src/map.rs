//! The map iterator: a transform applied across items pulled in
//! lockstep from any number of sub-iterators.
//!
//! Every sub-iterator is constructed from its source when the map is
//! built, not lazily. A step pulls one item from each sub-iterator in
//! order; the first exhausted one ends the whole map, without any
//! requirement that the others also be exhausted.

use vstd::prelude::*;
use crate::runtime::{PyContext, ObjRef, PyErr, obj_wf, TYPE_MAP};
use crate::iter::{PyIterObj, iter_wf, seq_iter_wf, get_iter, spec_get_iter, iter_abs, itseq_abs,
    iter_length_hint, spec_length_hint};

verus! {

/// The transform a map applies to each pulled row of items. The host's
/// callables are outside the engine; what the engine observes of a
/// transform is a value built from the row, or the stop signal a
/// transform may raise to end the traversal.
#[derive(Clone, Copy, Debug, PartialEq, Eq, Structural)]
pub enum Mapper {
    /// Pack the row into a tuple, one item per sub-iterator.
    PackTuple,
    /// Signal the end of the traversal, as a transform that raises the
    /// stop signal does.
    Stop,
}

/// The map iterator: the transform plus one iterator per iterable.
#[derive(Debug)]
pub struct PyMap {
    pub mapper: Mapper,
    pub iterators: Vec<PyIterObj>,
}

impl PyMap {
    /// Build a map from a transform and its iterables; each iterable
    /// is turned into an iterator now. The first non-iterable argument
    /// fails the construction.
    pub fn tp_new(ctx: &PyContext, mapper: Mapper, iterables: &Vec<ObjRef>)
        -> (r: Result<PyMap, PyErr>)
        requires
            ctx.wf(),
            forall|i: int| 0 <= i < iterables@.len() ==> obj_wf(#[trigger] iterables@[i], *ctx),
        ensures
            match r {
                Ok(m) => {
                    &&& m.mapper == mapper
                    &&& m.iterators@.len() == iterables@.len()
                    &&& seq_iter_wf(m.iterators@, *ctx)
                    &&& forall|i: int|
                        #![trigger spec_get_iter(*ctx, iterables@[i])]
                        0 <= i < iterables@.len()
                        ==> (spec_get_iter(*ctx, iterables@[i]) matches Ok(a)
                            && itseq_abs(m.iterators@)[i] == a)
                },
                Err(e) => exists|i: int| 0 <= i < iterables@.len()
                    && spec_get_iter(*ctx, #[trigger] iterables@[i]) is Err,
            },
    {
        let mut iterators: Vec<PyIterObj> = Vec::new();
        let n = iterables.len();
        let mut i: usize = 0;
        while i < n
            invariant
                ctx.wf(),
                n == iterables@.len(),
                i <= n,
                forall|j: int| 0 <= j < n ==> obj_wf(#[trigger] iterables@[j], *ctx),
                iterators@.len() == i,
                forall|j: int| 0 <= j < i ==> iter_wf(#[trigger] iterators@[j], *ctx),
                forall|j: int|
                    #![trigger spec_get_iter(*ctx, iterables@[j])]
                    0 <= j < i
                    ==> (spec_get_iter(*ctx, iterables@[j]) matches Ok(a)
                        && iter_abs(iterators@[j]) == a),
            decreases n - i,
        {
            let it = get_iter(ctx, &iterables[i])?;
            iterators.push(it);
            i += 1;
        }
        proof {
            assert forall|j: int| 0 <= j < n
                implies itseq_abs(iterators@)[j] == iter_abs(iterators@[j]) by {}
        }
        Ok(PyMap { mapper, iterators })
    }

    /// The larger of the sub-iterators' own estimates; an estimate
    /// only, not authoritative — iteration still stops at the first
    /// exhausted sub-iterator.
    pub fn length_hint(&self, ctx: &PyContext) -> (r: usize)
        requires
            ctx.wf(),
            seq_iter_wf(self.iterators@, *ctx),
        ensures
            r == spec_map_hint(itseq_abs(self.iterators@), *ctx, 0),
    {
        proof {
            crate::iter::lemma_map_hint_nonneg(itseq_abs(self.iterators@), *ctx, 0);
        }
        let n = self.iterators.len();
        let mut best: usize = 0;
        let mut i: usize = 0;
        while i < n
            invariant
                ctx.wf(),
                n == self.iterators@.len(),
                i <= n,
                seq_iter_wf(self.iterators@, *ctx),
                spec_map_hint(itseq_abs(self.iterators@), *ctx, 0)
                    == if best >= spec_map_hint(itseq_abs(self.iterators@), *ctx, i as int) {
                        best as int
                    } else {
                        spec_map_hint(itseq_abs(self.iterators@), *ctx, i as int)
                    },
            decreases n - i,
        {
            proof {
                crate::iter::lemma_map_hint_nonneg(
                    itseq_abs(self.iterators@), *ctx, i as int + 1);
            }
            let h = iter_length_hint(&self.iterators[i], ctx);
            if h > best {
                best = h;
            }
            i += 1;
        }
        best
    }
}

/// The map length-hint: the maximum of the sub-iterators' estimates
/// from position `i` on.
pub open spec fn spec_map_hint(subs: Seq<crate::iter::AbsIter>, ctx: PyContext, i: int) -> int
    decreases subs, subs.len() - i,
{
    if i < 0 || i >= subs.len() {
        0
    } else {
        let h = spec_length_hint(subs[i], ctx);
        let rest = spec_map_hint(subs, ctx, i + 1);
        if h >= rest { h } else { rest }
    }
}

/// Register the behavior of the map type.
pub fn init(ctx: &mut PyContext)
    requires
        old(ctx).wf(),
    ensures
        final(ctx).wf(),
        final(ctx).types@.len() == old(ctx).types@.len(),
        final(ctx).lists@ == old(ctx).lists@,
        final(ctx).dicts@ == old(ctx).dicts@,
        final(ctx).types@[TYPE_MAP as int].iterable,
{
    ctx.set_slots(TYPE_MAP, None, None, true);
}

} // verus!
