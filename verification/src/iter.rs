//! The iterator state machine shared by every concrete iterator:
//! `next` yields a tagged `Item`-or-`Done` result, exhaustion is
//! one-directional, and container-backed iterators re-check their
//! subject's structural signature before every step.
//!
//! The whole step relation is specified by `abs_step`, a mathematical
//! transition function over abstract iterator states; `iter_next` is
//! proved to implement it exactly.

use vstd::prelude::*;
use crate::IterStatus;
use crate::value::{Value, AbsVal, val_wf};
use crate::runtime::{PyContext, ObjRef, ObjAbs, obj_abs, PyErr, AbsErr, err_abs, obj_wf,
    spec_type_of, type_of};
use crate::sequence::{seq_get_item, spec_seq_item_abs, spec_seq_elems_abs};
use crate::views::{ViewKind, DictViewIterator, project_entry, project_entry_exec};
use crate::enumerate::{PyEnumerate, PyReverseSequenceIterator};
use crate::map::{PyMap, Mapper};
use crate::zip::{PyZip, zip_shorter_msg, zip_longer_msg, shorter_message, longer_message};

verus! {

/// What one `next` call hands back on success: an item, or the
/// terminal signal. Modelled as a tagged result, not as hidden
/// control flow.
#[derive(Debug)]
pub enum IterStep {
    Item(Value),
    Done,
}

/// A forward iterator over a random-access subject: reads positions
/// `0, 1, 2, ...` until one is out of range.
#[derive(Debug)]
pub struct SeqIter {
    pub obj: ObjRef,
    pub position: usize,
    pub status: IterStatus,
}

/// Any iterator the engine can drive.
#[derive(Debug)]
pub enum PyIterObj {
    Sequence(SeqIter),
    Reversed(PyReverseSequenceIterator),
    DictView(DictViewIterator),
    Enumerate(PyEnumerate),
    Mapped(PyMap),
    Zipped(PyZip),
}

/// Abstract iterator state: what the step relation is defined over.
pub enum AbsIter {
    Sequence { obj: ObjAbs, pos: int, done: bool },
    Reversed { obj: ObjAbs, pos: int, done: bool },
    DictView { dict: int, kind: ViewKind, reverse: bool, pos: int, size: int, done: bool },
    Enum { counter: int, sub: Box<AbsIter> },
    Mapped { mapper: Mapper, subs: Seq<AbsIter> },
    Zipped { subs: Seq<AbsIter>, strict: bool },
}

/// Abstract outcome of one step.
pub enum ResAbs {
    Item(AbsVal),
    Done,
    Fail(AbsErr),
}

/// The shape of a concrete step result.
pub open spec fn res_abs(r: Result<IterStep, PyErr>) -> ResAbs {
    match r {
        Ok(IterStep::Item(v)) => ResAbs::Item(v@),
        Ok(IterStep::Done) => ResAbs::Done,
        Err(e) => ResAbs::Fail(err_abs(e)),
    }
}

/// The abstract state of a concrete iterator.
pub open spec fn iter_abs(it: PyIterObj) -> AbsIter
    decreases it,
{
    match it {
        PyIterObj::Sequence(s) => AbsIter::Sequence {
            obj: obj_abs(s.obj),
            pos: s.position as int,
            done: s.status is Exhausted,
        },
        PyIterObj::Reversed(r) => AbsIter::Reversed {
            obj: obj_abs(r.obj),
            pos: r.position as int,
            done: r.status is Exhausted,
        },
        PyIterObj::DictView(d) => AbsIter::DictView {
            dict: d.dict as int,
            kind: d.kind,
            reverse: d.reverse,
            pos: d.position as int,
            size: d.size as int,
            done: d.status is Exhausted,
        },
        PyIterObj::Enumerate(e) => AbsIter::Enum {
            counter: e.counter.value(),
            sub: Box::new(iter_abs(*e.iterator)),
        },
        PyIterObj::Mapped(m) => AbsIter::Mapped { mapper: m.mapper, subs: itseq_abs(m.iterators@) },
        PyIterObj::Zipped(z) => AbsIter::Zipped { subs: itseq_abs(z.iterators@), strict: z.strict },
    }
}

/// The abstract states of a sequence of iterators, elementwise.
pub open spec fn itseq_abs(s: Seq<PyIterObj>) -> Seq<AbsIter>
    decreases s,
{
    Seq::new(s.len(), |i: int| if 0 <= i < s.len() { iter_abs(s[i]) } else { arbitrary() })
}

/// Validity of an iterator with respect to a context: subjects exist
/// in the stores, counters are canonical, cursors sit in the window
/// the step relation maintains.
pub open spec fn iter_wf(it: PyIterObj, ctx: PyContext) -> bool
    decreases it,
{
    match it {
        PyIterObj::Sequence(s) => obj_wf(s.obj, ctx),
        PyIterObj::Reversed(r) => obj_wf(r.obj, ctx) && -2 <= r.position < i64::MAX
            && (r.status is Active ==> r.position >= -1),
        PyIterObj::DictView(d) => d.dict < ctx.dicts@.len(),
        PyIterObj::Enumerate(e) => e.counter.wf() && iter_wf(*e.iterator, ctx),
        PyIterObj::Mapped(m) => forall|i: int|
            0 <= i < m.iterators@.len() ==> iter_wf(#[trigger] m.iterators@[i], ctx),
        PyIterObj::Zipped(z) => forall|i: int|
            0 <= i < z.iterators@.len() ==> iter_wf(#[trigger] z.iterators@[i], ctx),
    }
}

/// Validity of every iterator in a sequence.
pub open spec fn seq_iter_wf(s: Seq<PyIterObj>, ctx: PyContext) -> bool {
    forall|i: int| 0 <= i < s.len() ==> iter_wf(#[trigger] s[i], ctx)
}

/// Abstract outcome of pulling one item from each of several
/// iterators, left to right.
pub enum PullAbs {
    Items(Seq<AbsVal>),
    Stopped(int),
    Failed(AbsErr),
}

/// Abstract outcome of probing the remaining operands of a strict zip.
pub enum ProbeAbs {
    Longer(int),
    AllDone,
    Failed(AbsErr),
}

/// What a transform does with a pulled row.
pub open spec fn apply_mapper_abs(m: Mapper, items: Seq<AbsVal>) -> ResAbs {
    match m {
        Mapper::PackTuple => ResAbs::Item(AbsVal::Tuple(items)),
        Mapper::Stop => ResAbs::Done,
    }
}

/// One step of the iterator state machine, as a mathematical function
/// of the abstract state and the context.
pub open spec fn abs_step(a: AbsIter, ctx: PyContext) -> (AbsIter, ResAbs)
    decreases a,
{
    match a {
        AbsIter::Sequence { obj, pos, done } => {
            if done {
                (a, ResAbs::Done)
            } else {
                match spec_seq_item_abs(ctx, obj, pos) {
                    Ok(v) => (AbsIter::Sequence { obj, pos: pos + 1, done: false }, ResAbs::Item(v)),
                    Err(AbsErr::Index(_)) =>
                        (AbsIter::Sequence { obj, pos, done: true }, ResAbs::Done),
                    Err(e) => (a, ResAbs::Fail(e)),
                }
            }
        },
        AbsIter::Reversed { obj, pos, done } => {
            if done {
                (a, ResAbs::Done)
            } else if pos < 0 {
                (AbsIter::Reversed { obj, pos: pos - 1, done: true }, ResAbs::Done)
            } else {
                match spec_seq_item_abs(ctx, obj, pos) {
                    Ok(v) => (AbsIter::Reversed { obj, pos: pos - 1, done: false }, ResAbs::Item(v)),
                    Err(AbsErr::Index(_)) =>
                        (AbsIter::Reversed { obj, pos: pos - 1, done: true }, ResAbs::Done),
                    Err(e) => (AbsIter::Reversed { obj, pos: pos - 1, done: false }, ResAbs::Fail(e)),
                }
            }
        },
        AbsIter::DictView { dict, kind, reverse, pos, size, done } => {
            if done {
                (a, ResAbs::Done)
            } else {
                let entries = ctx.dicts@[dict].view_entries();
                if entries.len() != size {
                    (AbsIter::DictView { dict, kind, reverse, pos, size, done: true },
                        ResAbs::Fail(AbsErr::Runtime(
                            "dictionary changed size during iteration"@)))
                } else if !reverse {
                    if pos < size {
                        (AbsIter::DictView { dict, kind, reverse, pos: pos + 1, size, done: false },
                            ResAbs::Item(project_entry(kind, entries[pos])))
                    } else {
                        (AbsIter::DictView { dict, kind, reverse, pos, size, done: true },
                            ResAbs::Done)
                    }
                } else {
                    if 0 <= pos < size {
                        if pos == 0 {
                            (AbsIter::DictView { dict, kind, reverse, pos, size, done: true },
                                ResAbs::Item(project_entry(kind, entries[pos])))
                        } else {
                            (AbsIter::DictView {
                                dict, kind, reverse, pos: pos - 1, size, done: false,
                            }, ResAbs::Item(project_entry(kind, entries[pos])))
                        }
                    } else {
                        (AbsIter::DictView { dict, kind, reverse, pos, size, done: true },
                            ResAbs::Done)
                    }
                }
            }
        },
        AbsIter::Enum { counter, sub } => {
            let (s2, r) = abs_step(*sub, ctx);
            match r {
                ResAbs::Item(v) => (
                    AbsIter::Enum { counter: counter + 1, sub: Box::new(s2) },
                    ResAbs::Item(AbsVal::Tuple(seq![AbsVal::Int(counter), v])),
                ),
                ResAbs::Done => (AbsIter::Enum { counter, sub: Box::new(s2) }, ResAbs::Done),
                ResAbs::Fail(e) => (
                    AbsIter::Enum { counter, sub: Box::new(s2) },
                    ResAbs::Fail(e),
                ),
            }
        },
        AbsIter::Mapped { mapper, subs } => {
            let (sts, out) = pull_abs(subs, ctx);
            match out {
                PullAbs::Failed(e) => (AbsIter::Mapped { mapper, subs: sts }, ResAbs::Fail(e)),
                PullAbs::Stopped(_) => (AbsIter::Mapped { mapper, subs: sts }, ResAbs::Done),
                PullAbs::Items(items) => (
                    AbsIter::Mapped { mapper, subs: sts },
                    apply_mapper_abs(mapper, items),
                ),
            }
        },
        AbsIter::Zipped { subs, strict } => {
            if subs.len() == 0 {
                (a, ResAbs::Done)
            } else {
                let (sts, out) = pull_abs(subs, ctx);
                match out {
                    PullAbs::Failed(e) => (AbsIter::Zipped { subs: sts, strict }, ResAbs::Fail(e)),
                    PullAbs::Items(items) => (
                        AbsIter::Zipped { subs: sts, strict },
                        ResAbs::Item(AbsVal::Tuple(items)),
                    ),
                    PullAbs::Stopped(i) => {
                        if !strict {
                            (AbsIter::Zipped { subs: sts, strict }, ResAbs::Done)
                        } else if i > 0 {
                            (AbsIter::Zipped { subs: sts, strict },
                                ResAbs::Fail(AbsErr::Value(zip_shorter_msg(i))))
                        } else {
                            let (tail, pout) = probe_abs(subs.skip(1), ctx);
                            let sts2 = seq![sts[0]] + tail;
                            match pout {
                                ProbeAbs::Failed(e) => (
                                    AbsIter::Zipped { subs: sts2, strict },
                                    ResAbs::Fail(e),
                                ),
                                ProbeAbs::Longer(k) => (
                                    AbsIter::Zipped { subs: sts2, strict },
                                    ResAbs::Fail(AbsErr::Value(zip_longer_msg(k + 1))),
                                ),
                                ProbeAbs::AllDone => (
                                    AbsIter::Zipped { subs: sts2, strict },
                                    ResAbs::Done,
                                ),
                            }
                        }
                    },
                }
            }
        },
    }
}

/// Pull one item from each iterator in order. The first failure or
/// exhaustion wins; iterators after it are not touched, iterators
/// before it have already been consumed for this round.
pub open spec fn pull_abs(subs: Seq<AbsIter>, ctx: PyContext) -> (Seq<AbsIter>, PullAbs)
    decreases subs,
{
    if subs.len() == 0 {
        (subs, PullAbs::Items(Seq::<AbsVal>::empty()))
    } else {
        let (s0, r0) = abs_step(subs[0], ctx);
        match r0 {
            ResAbs::Fail(e) => (seq![s0] + subs.skip(1), PullAbs::Failed(e)),
            ResAbs::Done => (seq![s0] + subs.skip(1), PullAbs::Stopped(0)),
            ResAbs::Item(v) => {
                let (rest, out) = pull_abs(subs.skip(1), ctx);
                let sts = seq![s0] + rest;
                match out {
                    PullAbs::Items(vs) => (sts, PullAbs::Items(seq![v] + vs)),
                    PullAbs::Stopped(i) => (sts, PullAbs::Stopped(i + 1)),
                    PullAbs::Failed(e) => (sts, PullAbs::Failed(e)),
                }
            },
        }
    }
}

/// Step the remaining operands of a strict zip whose first operand
/// exhausted: find the first one still producing (the zip then reports
/// it longer), pass a failure through, or confirm all are exhausted.
pub open spec fn probe_abs(subs: Seq<AbsIter>, ctx: PyContext) -> (Seq<AbsIter>, ProbeAbs)
    decreases subs,
{
    if subs.len() == 0 {
        (subs, ProbeAbs::AllDone)
    } else {
        let (s0, r0) = abs_step(subs[0], ctx);
        match r0 {
            ResAbs::Item(_) => (seq![s0] + subs.skip(1), ProbeAbs::Longer(0)),
            ResAbs::Fail(e) => (seq![s0] + subs.skip(1), ProbeAbs::Failed(e)),
            ResAbs::Done => {
                let (rest, out) = probe_abs(subs.skip(1), ctx);
                let sts = seq![s0] + rest;
                match out {
                    ProbeAbs::Longer(k) => (sts, ProbeAbs::Longer(k + 1)),
                    other => (sts, other),
                }
            },
        }
    }
}

/// Exhaustion at the abstract level: the state from which an iterator
/// signals completion. A composite is exhausted when the operand the
/// pull order reaches first is, or, for a strict zip, when all are.
pub open spec fn spec_exhausted(a: AbsIter) -> bool
    decreases a, 1int,
{
    match a {
        AbsIter::Sequence { obj, pos, done } => done,
        AbsIter::Reversed { obj, pos, done } => done,
        AbsIter::DictView { dict, kind, reverse, pos, size, done } => done,
        AbsIter::Enum { counter, sub } => spec_exhausted(*sub),
        AbsIter::Mapped { mapper, subs } => mapper == Mapper::Stop || any_exhausted(subs),
        AbsIter::Zipped { subs, strict } => subs.len() == 0
            || (if strict { all_exhausted(subs) } else { any_exhausted(subs) }),
    }
}

/// Some operand is exhausted, scanning front to back.
pub open spec fn any_exhausted(subs: Seq<AbsIter>) -> bool
    decreases subs, 0int,
{
    if subs.len() == 0 {
        false
    } else {
        spec_exhausted(subs[0]) || any_exhausted(subs.skip(1))
    }
}

/// Every operand is exhausted, scanning front to back.
pub open spec fn all_exhausted(subs: Seq<AbsIter>) -> bool
    decreases subs, 0int,
{
    if subs.len() == 0 {
        true
    } else {
        spec_exhausted(subs[0]) && all_exhausted(subs.skip(1))
    }
}

/// The scans, elementwise: some position is exhausted; every position
/// is.
pub proof fn lemma_exhausted_scan(subs: Seq<AbsIter>)
    ensures
        any_exhausted(subs)
            <==> !(forall|i: int| 0 <= i < subs.len()
                ==> !spec_exhausted(#[trigger] subs[i])),
        all_exhausted(subs)
            <==> (forall|i: int| 0 <= i < subs.len()
                ==> spec_exhausted(#[trigger] subs[i])),
    decreases subs,
{
    if subs.len() == 0 {
    } else {
        lemma_exhausted_scan(subs.skip(1));
        assert(any_exhausted(subs)
            == (spec_exhausted(subs[0]) || any_exhausted(subs.skip(1))));
        assert(all_exhausted(subs)
            == (spec_exhausted(subs[0]) && all_exhausted(subs.skip(1))));
        if any_exhausted(subs) {
            if !spec_exhausted(subs[0]) {
                let w = choose|i: int|
                    0 <= i < subs.skip(1).len()
                        && spec_exhausted(#[trigger] subs.skip(1)[i]);
                assert(0 <= w < subs.skip(1).len() && spec_exhausted(subs.skip(1)[w])) by {
                    if forall|i: int| 0 <= i < subs.skip(1).len()
                        ==> !spec_exhausted(#[trigger] subs.skip(1)[i]) {
                        assert(false);
                    }
                }
                assert(subs[w + 1] == subs.skip(1)[w]);
                assert(!(forall|i: int| 0 <= i < subs.len()
                    ==> !spec_exhausted(#[trigger] subs[i])));
            } else {
                assert(!(forall|i: int| 0 <= i < subs.len()
                    ==> !spec_exhausted(#[trigger] subs[i])));
            }
        }
        if !(forall|i: int| 0 <= i < subs.len() ==> !spec_exhausted(#[trigger] subs[i])) {
            let w = choose|i: int| 0 <= i < subs.len() && spec_exhausted(#[trigger] subs[i]);
            assert(0 <= w < subs.len() && spec_exhausted(subs[w])) by {
                if forall|i: int| 0 <= i < subs.len()
                    ==> !spec_exhausted(#[trigger] subs[i]) {
                    assert(false);
                }
            }
            if w > 0 {
                assert(subs.skip(1)[w - 1] == subs[w]);
                assert(!(forall|i: int| 0 <= i < subs.skip(1).len()
                    ==> !spec_exhausted(#[trigger] subs.skip(1)[i])));
            }
        }
        if all_exhausted(subs) {
            assert forall|i: int| 0 <= i < subs.len()
                implies spec_exhausted(#[trigger] subs[i]) by {
                if i > 0 {
                    assert(subs[i] == subs.skip(1)[i - 1]);
                }
            }
        }
        if forall|i: int| 0 <= i < subs.len() ==> spec_exhausted(#[trigger] subs[i]) {
            assert forall|i: int| 0 <= i < subs.skip(1).len()
                implies spec_exhausted(#[trigger] subs.skip(1)[i]) by {
                assert(subs.skip(1)[i] == subs[i + 1]);
            }
        }
    }
}

/// Sticky exhaustion, first half: an exhausted iterator never yields
/// another item, and stepping it leaves it exhausted. With the second
/// half this is the one-directional exhaustion law: once `next`
/// signals completion, no later call produces an item.
#[verifier::spinoff_prover]
pub proof fn lemma_sticky_exhaustion(a: AbsIter, ctx: PyContext)
    requires
        spec_exhausted(a),
    ensures
        !(abs_step(a, ctx).1 is Item),
        spec_exhausted(abs_step(a, ctx).0),
    decreases a, 3int,
{
    match a {
        AbsIter::Enum { counter, sub } => {
            lemma_sticky_exhaustion(*sub, ctx);
            lemma_enum_state(counter, sub, ctx);
        },
        AbsIter::Mapped { mapper, subs } => {
            if mapper == Mapper::Stop {
                // The transform keeps signalling stop whatever the pull
                // does, and the stop mapper keeps the state exhausted.
                lemma_stop_mapper_state(subs, ctx);
            } else {
                lemma_pull_sticky(subs, ctx);
            }
        },
        AbsIter::Zipped { subs, strict } => {
            if subs.len() > 0 {
                if strict {
                    lemma_zip_strict_sticky(subs, ctx);
                } else {
                    lemma_pull_sticky(subs, ctx);
                }
            }
        },
        _ => {},
    }
}

/// An enumerate step passes its sub-iterator's outcome through,
/// pairing only items.
#[verifier::spinoff_prover]
proof fn lemma_enum_state(counter: int, sub: Box<AbsIter>, ctx: PyContext)
    ensures
        ({
            let a = AbsIter::Enum { counter, sub };
            &&& (abs_step(a, ctx).1 is Item) == (abs_step(*sub, ctx).1 is Item)
            &&& (abs_step(a, ctx).1 is Done) == (abs_step(*sub, ctx).1 is Done)
            &&& spec_exhausted(abs_step(a, ctx).0)
                == spec_exhausted(abs_step(*sub, ctx).0)
        }),
{
    let a = AbsIter::Enum { counter, sub };
    let (s2, r0) = abs_step(*sub, ctx);
    match r0 {
        ResAbs::Item(_) => {},
        ResAbs::Done => {},
        ResAbs::Fail(_) => {},
    }
}

/// A stop transform keeps its map exhausted whatever the pull did.
#[verifier::spinoff_prover]
proof fn lemma_stop_mapper_state(subs: Seq<AbsIter>, ctx: PyContext)
    ensures
        !(abs_step(AbsIter::Mapped { mapper: Mapper::Stop, subs }, ctx).1 is Item),
        spec_exhausted(abs_step(AbsIter::Mapped { mapper: Mapper::Stop, subs }, ctx).0),
{
    let a = AbsIter::Mapped { mapper: Mapper::Stop, subs };
    let (sts, out) = pull_abs(subs, ctx);
    assert(abs_step(a, ctx).0 == AbsIter::Mapped { mapper: Mapper::Stop, subs: sts });
    assert(spec_exhausted(AbsIter::Mapped { mapper: Mapper::Stop, subs: sts }));
    match out {
        PullAbs::Items(_) => {},
        _ => {},
    }
}

/// A strict zip whose operands are all exhausted steps to completion
/// or an error, never to an item, and stays all-exhausted.
#[verifier::spinoff_prover]
proof fn lemma_zip_strict_sticky(subs: Seq<AbsIter>, ctx: PyContext)
    requires
        subs.len() > 0,
        all_exhausted(subs),
    ensures
        !(abs_step(AbsIter::Zipped { subs, strict: true }, ctx).1 is Item),
        spec_exhausted(abs_step(AbsIter::Zipped { subs, strict: true }, ctx).0),
    decreases subs, 2int,
{
    let a = AbsIter::Zipped { subs, strict: true };
    lemma_exhausted_scan(subs);
    assert(spec_exhausted(subs[0]));
    lemma_sticky_exhaustion(subs[0], ctx);
    lemma_all_tail(subs);
    let (s0, r0) = abs_step(subs[0], ctx);
    match r0 {
        ResAbs::Fail(e) => {
            let sts = seq![s0] + subs.skip(1);
            assert(pull_abs(subs, ctx) == (sts, PullAbs::Failed(e)));
            lemma_exhausted_scan(sts);
            lemma_exhausted_scan(subs.skip(1));
            assert forall|i: int| 0 <= i < sts.len()
                implies spec_exhausted(#[trigger] sts[i]) by {
                if i > 0 {
                    assert(sts[i] == subs.skip(1)[i - 1]);
                }
            }
            assert(abs_step(a, ctx)
                == (AbsIter::Zipped { subs: sts, strict: true }, ResAbs::Fail(e)));
            assert(spec_exhausted(AbsIter::Zipped { subs: sts, strict: true }));
        },
        ResAbs::Done => {
            let sts = seq![s0] + subs.skip(1);
            assert(pull_abs(subs, ctx) == (sts, PullAbs::Stopped(0int)));
            lemma_probe_sticky(subs.skip(1), ctx);
            let (tail, pout) = probe_abs(subs.skip(1), ctx);
            let sts2 = seq![sts[0]] + tail;
            lemma_exhausted_scan(sts2);
            lemma_exhausted_scan(tail);
            assert forall|i: int| 0 <= i < sts2.len()
                implies spec_exhausted(#[trigger] sts2[i]) by {
                if i > 0 {
                    assert(sts2[i] == tail[i - 1]);
                }
            }
            assert(abs_step(a, ctx).0 == AbsIter::Zipped { subs: sts2, strict: true });
            assert(!(abs_step(a, ctx).1 is Item));
            assert(spec_exhausted(AbsIter::Zipped { subs: sts2, strict: true }));
        },
        ResAbs::Item(_) => {
            assert(false);
        },
    }
}

/// With an exhausted operand somewhere, a pull round never completes:
/// it stops or fails, and some operand stays exhausted.
#[verifier::spinoff_prover]
proof fn lemma_pull_sticky(subs: Seq<AbsIter>, ctx: PyContext)
    requires
        any_exhausted(subs),
    ensures
        !(pull_abs(subs, ctx).1 is Items),
        any_exhausted(pull_abs(subs, ctx).0),
    decreases subs, 2int,
{
    lemma_exhausted_scan(subs);
    let (s0, r0) = abs_step(subs[0], ctx);
    if spec_exhausted(subs[0]) {
        lemma_sticky_exhaustion(subs[0], ctx);
        match r0 {
            ResAbs::Item(_) => {
                assert(false);
            },
            _ => {
                let sts = seq![s0] + subs.skip(1);
                assert(sts[0] == s0);
                lemma_exhausted_scan(sts);
                assert(!(forall|i: int| 0 <= i < sts.len()
                    ==> !spec_exhausted(#[trigger] sts[i])));
            },
        }
    } else {
        let w = choose|i: int| 0 <= i < subs.len() && spec_exhausted(#[trigger] subs[i]);
        assert(0 <= w < subs.len() && spec_exhausted(subs[w])) by {
            if forall|i: int| 0 <= i < subs.len() ==> !spec_exhausted(#[trigger] subs[i]) {
                assert(false);
            }
        }
        assert(w > 0);
        assert(subs.skip(1)[w - 1] == subs[w]);
        lemma_exhausted_scan(subs.skip(1));
        assert(any_exhausted(subs.skip(1))) by {
            if forall|i: int| 0 <= i < subs.skip(1).len()
                ==> !spec_exhausted(#[trigger] subs.skip(1)[i]) {
                assert(!spec_exhausted(subs.skip(1)[w - 1]));
                assert(false);
            }
        }
        match r0 {
            ResAbs::Item(_) => {
                lemma_pull_sticky(subs.skip(1), ctx);
                let (rest, out) = pull_abs(subs.skip(1), ctx);
                lemma_exhausted_scan(rest);
                let sts = seq![s0] + rest;
                let w2 = choose|i: int|
                    0 <= i < rest.len() && spec_exhausted(#[trigger] rest[i]);
                assert(0 <= w2 < rest.len() && spec_exhausted(rest[w2])) by {
                    if forall|i: int| 0 <= i < rest.len()
                        ==> !spec_exhausted(#[trigger] rest[i]) {
                        assert(false);
                    }
                }
                assert(sts[w2 + 1] == rest[w2]);
                lemma_exhausted_scan(sts);
                assert(!(forall|i: int| 0 <= i < sts.len()
                    ==> !spec_exhausted(#[trigger] sts[i])));
            },
            _ => {
                let sts = seq![s0] + subs.skip(1);
                assert(sts[w] == subs[w]);
                lemma_exhausted_scan(sts);
                assert(!(forall|i: int| 0 <= i < sts.len()
                    ==> !spec_exhausted(#[trigger] sts[i])));
            },
        }
    }
}

/// Probing operands that are all exhausted finds no longer one, and
/// they all stay exhausted.
#[verifier::spinoff_prover]
proof fn lemma_probe_sticky(subs: Seq<AbsIter>, ctx: PyContext)
    requires
        all_exhausted(subs),
    ensures
        !(probe_abs(subs, ctx).1 is Longer),
        all_exhausted(probe_abs(subs, ctx).0),
    decreases subs, 2int,
{
    if subs.len() > 0 {
        lemma_exhausted_scan(subs);
        lemma_sticky_exhaustion(subs[0], ctx);
        lemma_all_tail(subs);
        let (s0, r0) = abs_step(subs[0], ctx);
        match r0 {
            ResAbs::Done => {
                lemma_probe_sticky(subs.skip(1), ctx);
                let (rest, out) = probe_abs(subs.skip(1), ctx);
                lemma_exhausted_scan(rest);
                let sts = seq![s0] + rest;
                lemma_exhausted_scan(sts);
                assert forall|i: int| 0 <= i < sts.len()
                    implies spec_exhausted(#[trigger] sts[i]) by {
                    if i > 0 {
                        assert(sts[i] == rest[i - 1]);
                    }
                }
            },
            ResAbs::Fail(_) => {
                let sts = seq![s0] + subs.skip(1);
                lemma_exhausted_scan(sts);
                lemma_exhausted_scan(subs.skip(1));
                assert forall|i: int| 0 <= i < sts.len()
                    implies spec_exhausted(#[trigger] sts[i]) by {
                    if i > 0 {
                        assert(sts[i] == subs.skip(1)[i - 1]);
                    }
                }
            },
            ResAbs::Item(_) => {
                assert(false);
            },
        }
    }
}

/// All-exhausted passes to the tail.
proof fn lemma_all_tail(subs: Seq<AbsIter>)
    requires
        all_exhausted(subs),
        subs.len() > 0,
    ensures
        all_exhausted(subs.skip(1)),
{
    lemma_exhausted_scan(subs);
    lemma_exhausted_scan(subs.skip(1));
    assert forall|i: int| 0 <= i < subs.skip(1).len()
        implies spec_exhausted(#[trigger] subs.skip(1)[i]) by {
        assert(subs.skip(1)[i] == subs[i + 1]);
    }
}

/// A pull's stop position names one of its operands.
proof fn lemma_pull_stopped_bounds(subs: Seq<AbsIter>, ctx: PyContext)
    ensures
        pull_abs(subs, ctx).1 matches PullAbs::Stopped(i) ==> 0 <= i < subs.len(),
    decreases subs,
{
    if subs.len() > 0 {
        let (s0, r0) = abs_step(subs[0], ctx);
        match r0 {
            ResAbs::Item(_) => {
                lemma_pull_stopped_bounds(subs.skip(1), ctx);
            },
            _ => {},
        }
    }
}

/// When a pull stops at the first operand, the others are untouched.
proof fn lemma_pull_first_only(subs: Seq<AbsIter>, ctx: PyContext)
    requires
        subs.len() > 0,
        pull_abs(subs, ctx).1 == PullAbs::Stopped(0int),
    ensures
        pull_abs(subs, ctx).0 =~= seq![abs_step(subs[0], ctx).0] + subs.skip(1),
{
    let (s0, r0) = abs_step(subs[0], ctx);
    match r0 {
        ResAbs::Item(_) => {
            lemma_pull_stopped_bounds(subs.skip(1), ctx);
            let (rest, out) = pull_abs(subs.skip(1), ctx);
            match out {
                PullAbs::Stopped(i) => {
                    assert(false);
                },
                _ => {
                    assert(false);
                },
            }
        },
        _ => {},
    }
}

/// Sticky exhaustion, second half: whenever a step signals
/// completion, the iterator it leaves behind is exhausted.
#[verifier::spinoff_prover]
pub proof fn lemma_done_is_exhausted(a: AbsIter, ctx: PyContext)
    requires
        abs_step(a, ctx).1 is Done,
    ensures
        spec_exhausted(abs_step(a, ctx).0),
    decreases a, 3int,
{
    match a {
        AbsIter::Enum { counter, sub } => {
            lemma_enum_state(counter, sub, ctx);
            if abs_step(*sub, ctx).1 is Done {
                lemma_done_is_exhausted(*sub, ctx);
            }
        },
        AbsIter::Mapped { mapper, subs } => {
            if mapper != Mapper::Stop {
                lemma_map_done(mapper, subs, ctx);
            } else {
                lemma_stop_mapper_state(subs, ctx);
            }
        },
        AbsIter::Zipped { subs, strict } => {
            if subs.len() > 0 {
                lemma_zip_done(subs, strict, ctx);
            }
        },
        _ => {},
    }
}

/// A map with a packing transform signals completion only out of a
/// stopped pull, which leaves an exhausted operand behind.
#[verifier::spinoff_prover]
proof fn lemma_map_done(mapper: Mapper, subs: Seq<AbsIter>, ctx: PyContext)
    requires
        mapper != Mapper::Stop,
        abs_step(AbsIter::Mapped { mapper, subs }, ctx).1 is Done,
    ensures
        spec_exhausted(abs_step(AbsIter::Mapped { mapper, subs }, ctx).0),
    decreases subs, 2int,
{
    let (sts, out) = pull_abs(subs, ctx);
    match out {
        PullAbs::Stopped(i) => {
            lemma_pull_stopped(subs, ctx);
            lemma_exhausted_scan(sts);
            assert(any_exhausted(sts)) by {
                if forall|k: int| 0 <= k < sts.len()
                    ==> !spec_exhausted(#[trigger] sts[k]) {
                    assert(!spec_exhausted(sts[i]));
                    assert(false);
                }
            }
            assert(abs_step(AbsIter::Mapped { mapper, subs }, ctx).0
                == AbsIter::Mapped { mapper, subs: sts });
            assert(spec_exhausted(AbsIter::Mapped { mapper, subs: sts }));
        },
        PullAbs::Items(items) => {},
        PullAbs::Failed(_) => {},
    }
}

/// A zip signals completion only when every operand turned out
/// exhausted (strict mode probes the rest to make sure).
#[verifier::spinoff_prover]
proof fn lemma_zip_done(subs: Seq<AbsIter>, strict: bool, ctx: PyContext)
    requires
        subs.len() > 0,
        abs_step(AbsIter::Zipped { subs, strict }, ctx).1 is Done,
    ensures
        spec_exhausted(abs_step(AbsIter::Zipped { subs, strict }, ctx).0),
    decreases subs, 2int,
{
    let (sts, out) = pull_abs(subs, ctx);
    match out {
        PullAbs::Stopped(i) => {
            lemma_pull_stopped(subs, ctx);
            if !strict {
                lemma_exhausted_scan(sts);
                assert(any_exhausted(sts)) by {
                    if forall|k: int| 0 <= k < sts.len()
                        ==> !spec_exhausted(#[trigger] sts[k]) {
                        assert(!spec_exhausted(sts[i]));
                        assert(false);
                    }
                }
                assert(abs_step(AbsIter::Zipped { subs, strict }, ctx).0
                    == AbsIter::Zipped { subs: sts, strict });
                assert(spec_exhausted(AbsIter::Zipped { subs: sts, strict }));
            } else {
                assert(i == 0);
                lemma_pull_first_only(subs, ctx);
                let (tail, pout) = probe_abs(subs.skip(1), ctx);
                lemma_probe_alldone(subs.skip(1), ctx);
                let sts2 = seq![sts[0]] + tail;
                assert(spec_exhausted(sts2[0]));
                lemma_exhausted_scan(tail);
                lemma_exhausted_scan(sts2);
                assert forall|k: int| 0 <= k < sts2.len()
                    implies spec_exhausted(#[trigger] sts2[k]) by {
                    if k > 0 {
                        assert(sts2[k] == tail[k - 1]);
                    }
                }
                assert(abs_step(AbsIter::Zipped { subs, strict }, ctx).0
                    == AbsIter::Zipped { subs: sts2, strict });
                assert(spec_exhausted(AbsIter::Zipped { subs: sts2, strict }));
            }
        },
        _ => {},
    }
}

/// A pull that stopped at operand `i` left that operand exhausted.
proof fn lemma_pull_stopped(subs: Seq<AbsIter>, ctx: PyContext)
    requires
        pull_abs(subs, ctx).1 is Stopped,
    ensures
        pull_abs(subs, ctx).1 matches PullAbs::Stopped(i)
            && 0 <= i < subs.len()
            && 0 <= i < pull_abs(subs, ctx).0.len()
            && spec_exhausted(pull_abs(subs, ctx).0[i]),
    decreases subs, 1int,
{
    let (s0, r0) = abs_step(subs[0], ctx);
    match r0 {
        ResAbs::Done => {
            lemma_done_is_exhausted(subs[0], ctx);
            assert((seq![s0] + subs.skip(1))[0] == s0);
        },
        ResAbs::Item(_) => {
            lemma_pull_stopped(subs.skip(1), ctx);
            let (rest, out) = pull_abs(subs.skip(1), ctx);
            let sts = seq![s0] + rest;
            match out {
                PullAbs::Stopped(i) => {
                    assert(sts[i + 1] == rest[i]);
                },
                _ => {},
            }
        },
        ResAbs::Fail(_) => {},
    }
}

/// A probe that confirmed completion left every operand exhausted.
proof fn lemma_probe_alldone(subs: Seq<AbsIter>, ctx: PyContext)
    requires
        probe_abs(subs, ctx).1 is AllDone,
    ensures
        all_exhausted(probe_abs(subs, ctx).0),
    decreases subs, 1int,
{
    if subs.len() > 0 {
        let (s0, r0) = abs_step(subs[0], ctx);
        match r0 {
            ResAbs::Done => {
                lemma_done_is_exhausted(subs[0], ctx);
                lemma_probe_alldone(subs.skip(1), ctx);
                let (rest, out) = probe_abs(subs.skip(1), ctx);
                lemma_exhausted_scan(rest);
                let sts = seq![s0] + rest;
                lemma_exhausted_scan(sts);
                assert forall|k: int| 0 <= k < sts.len()
                    implies spec_exhausted(#[trigger] sts[k]) by {
                    if k > 0 {
                        assert(sts[k] == rest[k - 1]);
                    }
                }
            },
            _ => {},
        }
    }
}

/// Concrete outcome of the pull phase.
pub enum Pulled {
    Items(Vec<Value>),
    Stopped(usize),
    Failed(PyErr),
}

/// The shape of a concrete pull outcome.
pub open spec fn pulled_abs(p: Pulled) -> PullAbs {
    match p {
        Pulled::Items(vs) => PullAbs::Items(crate::value::views_of(vs@)),
        Pulled::Stopped(i) => PullAbs::Stopped(i as int),
        Pulled::Failed(e) => PullAbs::Failed(err_abs(e)),
    }
}

/// Concrete outcome of the probe phase.
pub enum Probed {
    Longer(usize),
    AllDone,
    Failed(PyErr),
}

/// The shape of a concrete probe outcome.
pub open spec fn probed_abs(p: Probed) -> ProbeAbs {
    match p {
        Probed::Longer(k) => ProbeAbs::Longer(k as int),
        Probed::AllDone => ProbeAbs::AllDone,
        Probed::Failed(e) => ProbeAbs::Failed(err_abs(e)),
    }
}

/// Drive an iterator one step. This is the whole engine: the result
/// and the successor state are exactly what `abs_step` says for the
/// abstract state, for every iterator kind and every nesting.
pub fn iter_next(it: PyIterObj, ctx: &PyContext) -> (r: (PyIterObj, Result<IterStep, PyErr>))
    requires
        ctx.wf(),
        iter_wf(it, *ctx),
    ensures
        iter_wf(r.0, *ctx),
        iter_abs(r.0) == abs_step(iter_abs(it), *ctx).0,
        res_abs(r.1) == abs_step(iter_abs(it), *ctx).1,
        r.1 matches Ok(IterStep::Item(v)) ==> v.wf(),
    decreases it,
{
    match it {
        PyIterObj::Sequence(mut s) => {
            let ghost s0 = s;
            proof {
                assert(it == PyIterObj::Sequence(s0));
            }
            if matches!(s.status, IterStatus::Exhausted) {
                return (PyIterObj::Sequence(s), Ok(IterStep::Done));
            }
            match seq_get_item(ctx, &s.obj, s.position) {
                Ok(v) => {
                    s.position = s.position + 1;
                    (PyIterObj::Sequence(s), Ok(IterStep::Item(v)))
                },
                Err(PyErr::IndexError(_)) => {
                    s.status = IterStatus::Exhausted;
                    (PyIterObj::Sequence(s), Ok(IterStep::Done))
                },
                Err(e) => (PyIterObj::Sequence(s), Err(e)),
            }
        },
        PyIterObj::Reversed(mut rv) => {
            let ghost rv0 = rv;
            proof {
                assert(it == PyIterObj::Reversed(rv0));
            }
            if matches!(rv.status, IterStatus::Exhausted) {
                return (PyIterObj::Reversed(rv), Ok(IterStep::Done));
            }
            let pos = rv.position;
            rv.position = pos - 1;
            if pos < 0 {
                rv.status = IterStatus::Exhausted;
                return (PyIterObj::Reversed(rv), Ok(IterStep::Done));
            }
            // A cursor beyond any possible subject length reads as far
            // out of range as an index can get.
            let idx: usize = if pos as u64 <= usize::MAX as u64 {
                pos as usize
            } else {
                usize::MAX
            };
            match seq_get_item(ctx, &rv.obj, idx) {
                Ok(v) => {
                    proof {
                        assert(idx as int == pos as int);
                    }
                    (PyIterObj::Reversed(rv), Ok(IterStep::Item(v)))
                },
                Err(PyErr::IndexError(_)) => {
                    rv.status = IterStatus::Exhausted;
                    (PyIterObj::Reversed(rv), Ok(IterStep::Done))
                },
                Err(e) => (PyIterObj::Reversed(rv), Err(e)),
            }
        },
        PyIterObj::DictView(mut d) => {
            let ghost d0 = d;
            proof {
                assert(it == PyIterObj::DictView(d0));
            }
            if matches!(d.status, IterStatus::Exhausted) {
                return (PyIterObj::DictView(d), Ok(IterStep::Done));
            }
            let dict = &ctx.dicts[d.dict];
            if dict.len() != d.size {
                d.status = IterStatus::Exhausted;
                return (
                    PyIterObj::DictView(d),
                    Err(PyErr::RuntimeError(
                        "dictionary changed size during iteration".to_owned())),
                );
            }
            if d.position < d.size {
                let entry = dict.entry_at(d.position);
                let item = project_entry_exec(d.kind, entry);
                if !d.reverse {
                    d.position = d.position + 1;
                } else {
                    if d.position == 0 {
                        d.status = IterStatus::Exhausted;
                    } else {
                        d.position = d.position - 1;
                    }
                }
                (PyIterObj::DictView(d), Ok(IterStep::Item(item)))
            } else {
                d.status = IterStatus::Exhausted;
                (PyIterObj::DictView(d), Ok(IterStep::Done))
            }
        },
        PyIterObj::Enumerate(mut e) => {
            let ghost e0 = e;
            proof {
                assert(it == PyIterObj::Enumerate(e0));
            }
            let sub = *e.iterator;
            proof {
                assert(decreases_to!(it => e));
                assert(decreases_to!(e => sub));
            }
            let (sub2, r0) = iter_next(sub, ctx);
            e.iterator = Box::new(sub2);
            match r0 {
                Ok(IterStep::Item(v)) => {
                    let c = Value::Int(e.counter.clone());
                    e.counter.succ();
                    let pair = Value::pair(c, v);
                    (PyIterObj::Enumerate(e), Ok(IterStep::Item(pair)))
                },
                Ok(IterStep::Done) => (PyIterObj::Enumerate(e), Ok(IterStep::Done)),
                Err(err) => (PyIterObj::Enumerate(e), Err(err)),
            }
        },
        PyIterObj::Mapped(mut m) => {
            let ghost m0 = m;
            proof {
                assert(it == PyIterObj::Mapped(m0));
            }
            let subs = m.iterators;
            let ghost anchor = subs@;
            proof {
                assert(decreases_to!(it => m));
                assert(decreases_to!(m => anchor));
                assert(anchor.skip(0) =~= anchor);
            }
            let (subs2, pr) = pull_subs(subs, ctx, Ghost(anchor));
            m.iterators = subs2;
            match pr {
                Pulled::Failed(e) => (PyIterObj::Mapped(m), Err(e)),
                Pulled::Stopped(_) => (PyIterObj::Mapped(m), Ok(IterStep::Done)),
                Pulled::Items(vals) => {
                    match m.mapper {
                        Mapper::PackTuple => {
                            let t = Value::tuple(vals);
                            (PyIterObj::Mapped(m), Ok(IterStep::Item(t)))
                        },
                        Mapper::Stop => (PyIterObj::Mapped(m), Ok(IterStep::Done)),
                    }
                },
            }
        },
        PyIterObj::Zipped(mut z) => {
            let ghost z0 = z;
            proof {
                assert(it == PyIterObj::Zipped(z0));
                assert(iter_abs(it) == AbsIter::Zipped {
                    subs: itseq_abs(z0.iterators@),
                    strict: z0.strict,
                });
            }
            if z.iterators.len() == 0 {
                return (PyIterObj::Zipped(z), Ok(IterStep::Done));
            }
            let subs = z.iterators;
            let ghost anchor = subs@;
            proof {
                assert(decreases_to!(it => z));
                assert(decreases_to!(z => anchor));
                assert(anchor.skip(0) =~= anchor);
            }
            let (mut subs2, pr) = pull_subs(subs, ctx, Ghost(anchor));
            match pr {
                Pulled::Failed(e) => {
                    z.iterators = subs2;
                    (PyIterObj::Zipped(z), Err(e))
                },
                Pulled::Items(vals) => {
                    z.iterators = subs2;
                    let t = Value::tuple(vals);
                    (PyIterObj::Zipped(z), Ok(IterStep::Item(t)))
                },
                Pulled::Stopped(i) => {
                    if !z.strict {
                        z.iterators = subs2;
                        (PyIterObj::Zipped(z), Ok(IterStep::Done))
                    } else if i > 0 {
                        z.iterators = subs2;
                        let msg = shorter_message(i);
                        (PyIterObj::Zipped(z), Err(PyErr::ValueError(msg)))
                    } else {
                        let ghost gsub2 = subs2@;
                        let tail = subs2.split_off(1);
                        let ghost tail_anchor = anchor.skip(1);
                        proof {
                            // Only operand 0 was stepped by the pull, so
                            // the probed tail is the original operands.
                            assert forall|j: int| 0 <= j < tail_anchor.len()
                                implies tail@[j] == tail_anchor[j] by {
                                assert(tail@[j] == gsub2[j + 1]);
                                assert(gsub2[j + 1] == anchor[j + 1]);
                            }
                            assert(tail@ =~= tail_anchor);
                            assert(tail_anchor.skip(0) =~= tail_anchor);
                            assert(itseq_abs(tail@) =~= itseq_abs(anchor).skip(1));
                        }
                        let (mut tail2, pout) = probe_subs(tail, ctx, Ghost(tail_anchor));
                        let ghost gtail2 = tail2@;
                        subs2.append(&mut tail2);
                        z.iterators = subs2;
                        proof {
                            assert(z.iterators@ =~= seq![gsub2[0]] + gtail2);
                            assert(itseq_abs(z.iterators@)
                                =~= seq![iter_abs(gsub2[0])] + itseq_abs(gtail2));
                            assert(iter_abs(gsub2[0]) == itseq_abs(gsub2)[0]);
                            assert(itseq_abs(z.iterators@)
                                =~= seq![pull_abs(itseq_abs(anchor), *ctx).0[0]]
                                    + probe_abs(itseq_abs(anchor).skip(1), *ctx).0);
                            assert forall|j: int| 0 <= j < z.iterators@.len()
                                implies iter_wf(#[trigger] z.iterators@[j], *ctx) by {
                                if j == 0 {
                                    assert(z.iterators@[0] == gsub2[0]);
                                } else {
                                    assert(z.iterators@[j] == gtail2[j - 1]);
                                }
                            }
                        }
                        match pout {
                            Probed::Failed(e) => (PyIterObj::Zipped(z), Err(e)),
                            Probed::Longer(k) => {
                                let msg = longer_message(k + 1);
                                (PyIterObj::Zipped(z), Err(PyErr::ValueError(msg)))
                            },
                            Probed::AllDone => (PyIterObj::Zipped(z), Ok(IterStep::Done)),
                        }
                    }
                },
            }
        },
    }
}

/// Pull one item from each iterator, left to right, stopping at the
/// first exhaustion or failure; the exec twin of `pull_abs`.
#[verifier::rlimit(60)]
fn pull_subs(subs: Vec<PyIterObj>, ctx: &PyContext, Ghost(anchor): Ghost<Seq<PyIterObj>>)
    -> (r: (Vec<PyIterObj>, Pulled))
    requires
        ctx.wf(),
        seq_iter_wf(subs@, *ctx),
        subs@.len() <= anchor.len(),
        subs@ =~= anchor.skip(anchor.len() - subs@.len()),
    ensures
        r.0@.len() == subs@.len(),
        seq_iter_wf(r.0@, *ctx),
        (itseq_abs(r.0@), pulled_abs(r.1)) == pull_abs(itseq_abs(subs@), *ctx),
        r.1 matches Pulled::Stopped(i) ==> i < subs@.len()
            && (forall|j: int| i < j < subs@.len() ==> r.0@[j] == subs@[j]),
        r.1 matches Pulled::Items(vs) ==> vs@.len() == subs@.len()
            && forall|k: int| 0 <= k < vs@.len() ==> val_wf(#[trigger] vs@[k]),
    decreases anchor, subs@.len(),
{
    if subs.len() == 0 {
        proof {
            assert(itseq_abs(subs@) =~= Seq::<AbsIter>::empty());
            assert(crate::value::views_of(Seq::<Value>::empty()) =~= Seq::<AbsVal>::empty());
        }
        let empty: Vec<Value> = Vec::new();
        proof {
            assert(crate::value::views_of(empty@) =~= Seq::<AbsVal>::empty());
        }
        return (subs, Pulled::Items(empty));
    }
    let mut rest = subs;
    let first = rest.remove(0);
    proof {
        let k = anchor.len() - rest@.len() - 1;
        assert(first == anchor[k]);
        assert(decreases_to!(anchor => first));
        assert(rest@ =~= anchor.skip(anchor.len() - rest@.len()));
        assert(itseq_abs(rest@) =~= itseq_abs(subs@).skip(1));
    }
    let (f2, r0) = iter_next(first, ctx);
    match r0 {
        Err(e) => {
            rest.insert(0, f2);
            proof {
                assert(itseq_abs(rest@) =~= seq![iter_abs(f2)] + itseq_abs(subs@).skip(1));
            }
            (rest, Pulled::Failed(e))
        },
        Ok(IterStep::Done) => {
            rest.insert(0, f2);
            proof {
                assert(itseq_abs(rest@) =~= seq![iter_abs(f2)] + itseq_abs(subs@).skip(1));
            }
            (rest, Pulled::Stopped(0))
        },
        Ok(IterStep::Item(v)) => {
            let ghost grest = rest@;
            let (mut rest2, pr) = pull_subs(rest, ctx, Ghost(anchor));
            let ghost grr = rest2@;
            rest2.insert(0, f2);
            proof {
                assert(itseq_abs(grest) == itseq_abs(subs@).skip(1));
                assert(rest2@ =~= seq![f2] + grr);
                assert(itseq_abs(rest2@) =~= seq![iter_abs(f2)] + itseq_abs(grr));
                assert(itseq_abs(rest2@)
                    =~= seq![iter_abs(f2)] + pull_abs(itseq_abs(subs@).skip(1), *ctx).0);
            }
            match pr {
                Pulled::Items(vs0) => {
                    let ghost gvs = vs0@;
                    let mut vs = vs0;
                    vs.insert(0, v);
                    proof {
                        assert(vs@ =~= seq![v] + gvs);
                        assert(crate::value::views_of(vs@)
                            =~= seq![v@] + crate::value::views_of(gvs));
                    }
                    (rest2, Pulled::Items(vs))
                },
                Pulled::Stopped(i) => {
                    proof {
                        assert forall|j: int| (i + 1) < j < subs@.len()
                            implies rest2@[j] == subs@[j] by {
                            assert(rest2@[j] == grr[j - 1]);
                            assert(grr[j - 1] == grest[j - 1]);
                            assert(grest[j - 1] == subs@[j]);
                        }
                    }
                    (rest2, Pulled::Stopped(i + 1))
                },
                Pulled::Failed(e) => (rest2, Pulled::Failed(e)),
            }
        },
    }
}

/// Step the remaining strict-zip operands after the first exhausted,
/// looking for one still producing; the exec twin of `probe_abs`.
#[verifier::rlimit(60)]
fn probe_subs(subs: Vec<PyIterObj>, ctx: &PyContext, Ghost(anchor): Ghost<Seq<PyIterObj>>)
    -> (r: (Vec<PyIterObj>, Probed))
    requires
        ctx.wf(),
        seq_iter_wf(subs@, *ctx),
        subs@.len() <= anchor.len(),
        subs@ =~= anchor.skip(anchor.len() - subs@.len()),
    ensures
        r.0@.len() == subs@.len(),
        seq_iter_wf(r.0@, *ctx),
        (itseq_abs(r.0@), probed_abs(r.1)) == probe_abs(itseq_abs(subs@), *ctx),
        r.1 matches Probed::Longer(k) ==> k < subs@.len(),
    decreases anchor, subs@.len(),
{
    if subs.len() == 0 {
        proof {
            assert(itseq_abs(subs@) =~= Seq::<AbsIter>::empty());
        }
        return (subs, Probed::AllDone);
    }
    let mut rest = subs;
    let first = rest.remove(0);
    proof {
        let k = anchor.len() - rest@.len() - 1;
        assert(first == anchor[k]);
        assert(decreases_to!(anchor => first));
        assert(rest@ =~= anchor.skip(anchor.len() - rest@.len()));
        assert(itseq_abs(rest@) =~= itseq_abs(subs@).skip(1));
    }
    let (f2, r0) = iter_next(first, ctx);
    match r0 {
        Ok(IterStep::Item(_)) => {
            rest.insert(0, f2);
            proof {
                assert(itseq_abs(rest@) =~= seq![iter_abs(f2)] + itseq_abs(subs@).skip(1));
            }
            (rest, Probed::Longer(0))
        },
        Err(e) => {
            rest.insert(0, f2);
            proof {
                assert(itseq_abs(rest@) =~= seq![iter_abs(f2)] + itseq_abs(subs@).skip(1));
            }
            (rest, Probed::Failed(e))
        },
        Ok(IterStep::Done) => {
            let ghost grest = rest@;
            let (mut rest2, out) = probe_subs(rest, ctx, Ghost(anchor));
            let ghost grr = rest2@;
            rest2.insert(0, f2);
            proof {
                assert(itseq_abs(grest) == itseq_abs(subs@).skip(1));
                assert(rest2@ =~= seq![f2] + grr);
                assert(itseq_abs(rest2@) =~= seq![iter_abs(f2)] + itseq_abs(grr));
                assert(itseq_abs(rest2@)
                    =~= seq![iter_abs(f2)] + probe_abs(itseq_abs(subs@).skip(1), *ctx).0);
            }
            match out {
                Probed::Longer(k) => (rest2, Probed::Longer(k + 1)),
                Probed::AllDone => (rest2, Probed::AllDone),
                Probed::Failed(e) => (rest2, Probed::Failed(e)),
            }
        },
    }
}

/// The message raised when a type cannot be handed to `iter`.
pub open spec fn not_iterable_msg(name: Seq<char>) -> Seq<char> {
    "'"@ + name + "' object is not iterable"@
}

/// What `iter(x)` builds: a forward iterator for a sequence object, a
/// key iterator for a mapping, the protocol error otherwise.
pub open spec fn spec_get_iter(ctx: PyContext, o: ObjRef) -> Result<AbsIter, Seq<char>> {
    let tid = spec_type_of(o);
    let msg = not_iterable_msg(ctx.types@[tid].name@);
    if !ctx.types@[tid].iterable {
        Err(msg)
    } else {
        match o {
            ObjRef::List(_) => Ok(AbsIter::Sequence { obj: obj_abs(o), pos: 0, done: false }),
            ObjRef::Imm(v) => {
                if v is Tuple {
                    Ok(AbsIter::Sequence { obj: obj_abs(o), pos: 0, done: false })
                } else {
                    Err(msg)
                }
            },
            ObjRef::Dict(d) => Ok(AbsIter::DictView {
                dict: d as int,
                kind: ViewKind::Keys,
                reverse: false,
                pos: 0,
                size: ctx.dicts@[d as int].view_entries().len() as int,
                done: false,
            }),
        }
    }
}

/// The standard iterable capability: check the type's iterable flag,
/// then build the iterator the object's kind calls for.
pub fn get_iter(ctx: &PyContext, o: &ObjRef) -> (r: Result<PyIterObj, PyErr>)
    requires
        ctx.wf(),
        obj_wf(*o, *ctx),
    ensures
        match r {
            Ok(i) => {
                &&& spec_get_iter(*ctx, *o) == Ok::<AbsIter, Seq<char>>(iter_abs(i))
                &&& iter_wf(i, *ctx)
            },
            Err(e) => spec_get_iter(*ctx, *o) matches Err(m)
                && (e matches PyErr::TypeError(ms) && ms@ == m),
        },
{
    let tid = type_of(ctx, o);
    let iterable = ctx.types[tid].iterable;
    let make_err = !iterable || match o {
        ObjRef::List(_) => false,
        ObjRef::Imm(v) => !matches!(v, Value::Tuple(_)),
        ObjRef::Dict(_) => false,
    };
    if make_err {
        let mut m: String = "'".to_owned();
        m.append(ctx.types[tid].name.as_str());
        m.append("' object is not iterable");
        return Err(PyErr::TypeError(m));
    }
    match o {
        ObjRef::Dict(d) => {
            Ok(PyIterObj::DictView(DictViewIterator::new(ctx, *d, ViewKind::Keys)))
        },
        _ => {
            Ok(PyIterObj::Sequence(SeqIter {
                obj: o.clone(),
                position: 0,
                status: IterStatus::Active,
            }))
        },
    }
}

/// A structural copy of an iterator: same abstract state, same
/// subjects observed.
pub fn iter_clone(it: &PyIterObj, ctx: &PyContext) -> (r: PyIterObj)
    requires
        ctx.wf(),
        iter_wf(*it, *ctx),
    ensures
        iter_abs(r) == iter_abs(*it),
        iter_wf(r, *ctx),
    decreases it,
{
    match it {
        PyIterObj::Sequence(s) => PyIterObj::Sequence(SeqIter {
            obj: s.obj.clone(),
            position: s.position,
            status: s.status,
        }),
        PyIterObj::Reversed(rv) => PyIterObj::Reversed(PyReverseSequenceIterator {
            position: rv.position,
            status: rv.status,
            obj: rv.obj.clone(),
        }),
        PyIterObj::DictView(d) => PyIterObj::DictView(DictViewIterator {
            dict: d.dict,
            kind: d.kind,
            reverse: d.reverse,
            position: d.position,
            size: d.size,
            status: d.status,
        }),
        PyIterObj::Enumerate(e) => {
            proof {
                assert(decreases_to!(*it => *e));
                assert(decreases_to!(*e => *e.iterator));
            }
            let sub = iter_clone(&e.iterator, ctx);
            PyIterObj::Enumerate(PyEnumerate {
                counter: e.counter.clone(),
                iterator: Box::new(sub),
            })
        },
        PyIterObj::Mapped(m) => {
            let subs = clone_sub_iterators(it, &m.iterators, ctx);
            PyIterObj::Mapped(PyMap { mapper: m.mapper, iterators: subs })
        },
        PyIterObj::Zipped(z) => {
            let subs = clone_sub_iterators(it, &z.iterators, ctx);
            PyIterObj::Zipped(PyZip { iterators: subs, strict: z.strict })
        },
    }
}

/// Copy a composite's sub-iterators one by one; `parent` anchors the
/// termination argument.
fn clone_sub_iterators(parent: &PyIterObj, subs: &Vec<PyIterObj>, ctx: &PyContext)
    -> (r: Vec<PyIterObj>)
    requires
        ctx.wf(),
        seq_iter_wf(subs@, *ctx),
        decreases_to!(*parent => subs@),
    ensures
        itseq_abs(r@) == itseq_abs(subs@),
        seq_iter_wf(r@, *ctx),
        r@.len() == subs@.len(),
    decreases parent, 0int,
{
    let n = subs.len();
    let mut out: Vec<PyIterObj> = Vec::new();
    let mut i: usize = 0;
    while i < n
        invariant
            ctx.wf(),
            n == subs@.len(),
            i <= n,
            seq_iter_wf(subs@, *ctx),
            decreases_to!(*parent => subs@),
            out@.len() == i,
            seq_iter_wf(out@, *ctx),
            forall|j: int| 0 <= j < i ==> iter_abs(#[trigger] out@[j]) == iter_abs(subs@[j]),
        decreases n - i,
    {
        proof {
            assert(decreases_to!(subs@ => subs@[i as int]));
            assert(decreases_to!(*parent => subs@[i as int]));
        }
        let c = iter_clone(&subs[i], ctx);
        out.push(c);
        i += 1;
    }
    proof {
        assert(itseq_abs(out@) =~= itseq_abs(subs@));
    }
    out
}

/// Copy a row of iterators; what the zip persistence hook hands out.
pub fn clone_iterators(subs: &Vec<PyIterObj>, ctx: &PyContext) -> (r: Vec<PyIterObj>)
    requires
        ctx.wf(),
        seq_iter_wf(subs@, *ctx),
    ensures
        itseq_abs(r@) == itseq_abs(subs@),
        seq_iter_wf(r@, *ctx),
        r@.len() == subs@.len(),
{
    let n = subs.len();
    let mut out: Vec<PyIterObj> = Vec::new();
    let mut i: usize = 0;
    while i < n
        invariant
            ctx.wf(),
            n == subs@.len(),
            i <= n,
            seq_iter_wf(subs@, *ctx),
            out@.len() == i,
            seq_iter_wf(out@, *ctx),
            forall|j: int| 0 <= j < i ==> iter_abs(#[trigger] out@[j]) == iter_abs(subs@[j]),
        decreases n - i,
    {
        let c = iter_clone(&subs[i], ctx);
        out.push(c);
        i += 1;
    }
    proof {
        assert(itseq_abs(out@) =~= itseq_abs(subs@));
    }
    out
}

/// The remaining-item estimate of an iterator. An estimate only: the
/// map estimate in particular takes the largest operand estimate even
/// though iteration stops at the shortest operand.
pub open spec fn spec_length_hint(a: AbsIter, ctx: PyContext) -> int
    decreases a, 0int,
{
    match a {
        AbsIter::Sequence { obj, pos, done } => {
            if done {
                0
            } else {
                match spec_seq_elems_abs(ctx, obj) {
                    Some(elems) => if pos <= elems.len() { elems.len() - pos } else { 0 },
                    None => 0,
                }
            }
        },
        AbsIter::Reversed { obj, pos, done } => {
            if pos < 0 {
                0
            } else if pos + 1 > usize::MAX {
                usize::MAX as int
            } else {
                pos + 1
            }
        },
        AbsIter::DictView { dict, kind, reverse, pos, size, done } => {
            if done {
                0
            } else if reverse {
                if pos < 0 {
                    0
                } else if pos < usize::MAX {
                    pos + 1
                } else {
                    usize::MAX as int
                }
            } else {
                if pos <= size { size - pos } else { 0 }
            }
        },
        AbsIter::Enum { counter, sub } => spec_length_hint(*sub, ctx),
        AbsIter::Mapped { mapper, subs } => crate::map::spec_map_hint(subs, ctx, 0),
        AbsIter::Zipped { subs, strict } => 0,
    }
}

pub proof fn lemma_hint_nonneg(a: AbsIter, ctx: PyContext)
    ensures
        spec_length_hint(a, ctx) >= 0,
    decreases a, 0int,
{
    match a {
        AbsIter::Enum { counter, sub } => {
            lemma_hint_nonneg(*sub, ctx);
        },
        AbsIter::Mapped { mapper, subs } => {
            lemma_map_hint_nonneg(subs, ctx, 0);
        },
        _ => {},
    }
}

pub proof fn lemma_map_hint_nonneg(subs: Seq<AbsIter>, ctx: PyContext, i: int)
    ensures
        crate::map::spec_map_hint(subs, ctx, i) >= 0,
    decreases subs, subs.len() - i,
{
    if 0 <= i < subs.len() {
        lemma_hint_nonneg(subs[i], ctx);
        lemma_map_hint_nonneg(subs, ctx, i + 1);
    }
}

/// Compute the remaining-item estimate.
pub fn iter_length_hint(it: &PyIterObj, ctx: &PyContext) -> (r: usize)
    requires
        ctx.wf(),
        iter_wf(*it, *ctx),
    ensures
        r == spec_length_hint(iter_abs(*it), *ctx),
    decreases it, 0int,
{
    match it {
        PyIterObj::Sequence(s) => {
            if matches!(s.status, IterStatus::Exhausted) {
                return 0;
            }
            match crate::sequence::seq_len(ctx, &s.obj) {
                Ok(n) => if s.position <= n { n - s.position } else { 0 },
                Err(_) => 0,
            }
        },
        PyIterObj::Reversed(rv) => {
            if rv.position < 0 {
                0
            } else {
                let p1 = rv.position as u64 + 1;
                if p1 > usize::MAX as u64 { usize::MAX } else { p1 as usize }
            }
        },
        PyIterObj::DictView(d) => d.length_hint(),
        PyIterObj::Enumerate(e) => {
            proof {
                assert(decreases_to!(*it => *e));
                assert(decreases_to!(*e => *e.iterator));
            }
            iter_length_hint(&e.iterator, ctx)
        },
        PyIterObj::Mapped(m) => {
            let n = m.iterators.len();
            let mut best: usize = 0;
            let mut i: usize = 0;
            proof {
                assert(decreases_to!(*it => *m));
                assert(decreases_to!(*m => m.iterators@));
                lemma_map_hint_nonneg(itseq_abs(m.iterators@), *ctx, 0);
            }
            while i < n
                invariant
                    ctx.wf(),
                    n == m.iterators@.len(),
                    i <= n,
                    seq_iter_wf(m.iterators@, *ctx),
                    decreases_to!(*it => m.iterators@),
                    crate::map::spec_map_hint(itseq_abs(m.iterators@), *ctx, 0)
                        == if best >= crate::map::spec_map_hint(
                            itseq_abs(m.iterators@), *ctx, i as int) {
                            best as int
                        } else {
                            crate::map::spec_map_hint(itseq_abs(m.iterators@), *ctx, i as int)
                        },
                decreases n - i,
            {
                proof {
                    assert(decreases_to!(m.iterators@ => m.iterators@[i as int]));
                    lemma_map_hint_nonneg(itseq_abs(m.iterators@), *ctx, i as int + 1);
                }
                let h = iter_length_hint(&m.iterators[i], ctx);
                if h > best {
                    best = h;
                }
                i += 1;
            }
            best
        },
        PyIterObj::Zipped(_) => 0,
    }
}

} // verus!
