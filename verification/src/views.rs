//! Iterators over an ordered mapping's views.
//!
//! One iterator shape serves all six concrete view iterators: three
//! view kinds (keys, values, items), each walked forward or in
//! reverse. Every instance snapshots the mapping's structural
//! size at construction; a mismatch discovered on any later step is the
//! fatal mutation error, after which the iterator is exhausted for
//! good.

use vstd::prelude::*;
use crate::IterStatus;
use crate::value::{Value, AbsVal, abs_of, val_wf, value_eq, views_of};
use crate::runtime::{PyContext, PyComparisonOp};

verus! {

/// Which projection of an entry a view yields.
#[derive(Clone, Copy, Debug, PartialEq, Eq, Structural)]
pub enum ViewKind {
    Keys,
    Values,
    Items,
}

/// The projection a view kind applies to a traversed entry.
pub open spec fn project_entry(kind: ViewKind, e: (AbsVal, AbsVal)) -> AbsVal {
    match kind {
        ViewKind::Keys => e.0,
        ViewKind::Values => e.1,
        ViewKind::Items => AbsVal::Tuple(seq![e.0, e.1]),
    }
}

/// An iterator over one view of a stored ordered mapping. `size` is
/// the structural signature snapshot taken at construction.
#[derive(Debug)]
pub struct DictViewIterator {
    pub dict: usize,
    pub kind: ViewKind,
    pub reverse: bool,
    pub position: usize,
    pub size: usize,
    pub status: IterStatus,
}

impl DictViewIterator {
    /// A forward iterator over a view of the mapping stored at `dict`.
    pub fn new(ctx: &PyContext, dict: usize, kind: ViewKind) -> (r: DictViewIterator)
        requires
            ctx.wf(),
            dict < ctx.dicts@.len(),
        ensures
            r.dict == dict,
            r.kind == kind,
            !r.reverse,
            r.position == 0,
            r.size == ctx.dicts@[dict as int].view_entries().len(),
            r.status == IterStatus::Active,
    {
        let size = ctx.dicts[dict].len();
        DictViewIterator {
            dict,
            kind,
            reverse: false,
            position: 0,
            size,
            status: IterStatus::Active,
        }
    }

    /// A reverse iterator over a view of the mapping stored at `dict`;
    /// it starts at the last entry.
    pub fn new_reverse(ctx: &PyContext, dict: usize, kind: ViewKind) -> (r: DictViewIterator)
        requires
            ctx.wf(),
            dict < ctx.dicts@.len(),
        ensures
            r.dict == dict,
            r.kind == kind,
            r.reverse,
            r.position == if ctx.dicts@[dict as int].view_entries().len() == 0 { 0int } else {
                ctx.dicts@[dict as int].view_entries().len() - 1
            },
            r.size == ctx.dicts@[dict as int].view_entries().len(),
            r.status == IterStatus::Active,
    {
        let size = ctx.dicts[dict].len();
        let position = if size == 0 { 0 } else { size - 1 };
        DictViewIterator {
            dict,
            kind,
            reverse: true,
            position,
            size,
            status: IterStatus::Active,
        }
    }

    /// How many entries are left, going by the snapshot; an estimate,
    /// not a promise.
    pub fn length_hint(&self) -> (r: usize)
        ensures
            r == spec_dict_hint(*self),
    {
        if matches!(self.status, IterStatus::Exhausted) {
            0
        } else if self.reverse {
            if self.position < usize::MAX { self.position + 1 } else { usize::MAX }
        } else {
            if self.position <= self.size { self.size - self.position } else { 0 }
        }
    }
}

/// Build the item a view kind projects out of an entry.
pub(crate) fn project_entry_exec(kind: ViewKind, entry: (Value, Value)) -> (r: Value)
    requires
        entry.0.wf(),
        entry.1.wf(),
    ensures
        r.wf(),
        r@ == project_entry(kind, (entry.0@, entry.1@)),
{
    match kind {
        ViewKind::Keys => entry.0,
        ViewKind::Values => entry.1,
        ViewKind::Items => Value::pair(entry.0, entry.1),
    }
}

/// A generic set of values, as the set-algebra operations on views
/// materialize them. Insertion order is incidental; the contract is
/// the set of value shapes held.
#[derive(Debug)]
pub struct ValueSet {
    items: Vec<Value>,
}

impl View for ValueSet {
    type V = Set<AbsVal>;

    closed spec fn view(&self) -> Set<AbsVal> {
        views_of(self.items@).to_set()
    }
}

impl ValueSet {
    /// No shape occurs twice and every member is well-formed.
    pub closed spec fn wf(self) -> bool {
        &&& forall|i: int| 0 <= i < self.items@.len() ==> val_wf(#[trigger] self.items@[i])
        &&& forall|i: int, j: int|
            #![trigger views_of(self.items@)[i], views_of(self.items@)[j]]
            0 <= i < j < self.items@.len()
                ==> views_of(self.items@)[i] != views_of(self.items@)[j]
    }

    /// The empty set.
    pub fn new() -> (r: ValueSet)
        ensures
            r.wf(),
            r@ =~= Set::<AbsVal>::empty(),
    {
        let r = ValueSet { items: Vec::new() };
        proof {
            assert(views_of(r.items@) =~= Seq::<AbsVal>::empty());
            assert forall|x: AbsVal| !r@.contains(x) by {
                assert(!views_of(r.items@).contains(x));
            }
        }
        r
    }

    /// The members, in some order; each exactly once.
    pub fn members(&self) -> (r: &Vec<Value>)
        requires
            self.wf(),
        ensures
            views_of(r@).to_set() =~= self@,
            forall|i: int| 0 <= i < r@.len() ==> val_wf(#[trigger] r@[i]),
    {
        &self.items
    }

    /// Membership, by value shape.
    pub fn contains(&self, v: &Value) -> (r: bool)
        requires
            self.wf(),
            v.wf(),
        ensures
            r == self@.contains(v@),
    {
        let n = self.items.len();
        let mut i: usize = 0;
        while i < n
            invariant
                self.wf(),
                v.wf(),
                n == self.items@.len(),
                i <= n,
                forall|j: int| 0 <= j < i ==> views_of(self.items@)[j] != v@,
            decreases n - i,
        {
            if value_eq(&self.items[i], v) {
                proof {
                    assert(views_of(self.items@)[i as int] == v@);
                    assert(views_of(self.items@).contains(v@));
                }
                return true;
            }
            proof {
                assert(views_of(self.items@)[i as int] == abs_of(self.items@[i as int]));
            }
            i += 1;
        }
        proof {
            if views_of(self.items@).contains(v@) {
                let w = choose|k: int|
                    0 <= k < views_of(self.items@).len() && views_of(self.items@)[k] == v@;
                assert(false);
            }
        }
        false
    }

    /// Put a value in; nothing changes when its shape is already a
    /// member.
    pub fn insert(&mut self, v: Value)
        requires
            old(self).wf(),
            v.wf(),
        ensures
            final(self).wf(),
            final(self)@ =~= old(self)@.insert(v@),
    {
        if !self.contains(&v) {
            let ghost before = self.items@;
            self.items.push(v);
            proof {
                assert(views_of(self.items@) =~= views_of(before).push(v@));
                assert forall|x: AbsVal| self@.contains(x) <==> old(self)@.insert(v@).contains(x) by {
                    if views_of(self.items@).contains(x) {
                        let k = choose|k: int|
                            0 <= k < views_of(self.items@).len()
                                && views_of(self.items@)[k] == x;
                        if k < before.len() {
                            assert(views_of(before)[k] == x);
                            assert(views_of(before).contains(x));
                        }
                    }
                    if views_of(before).contains(x) {
                        let k = choose|k: int|
                            0 <= k < views_of(before).len() && views_of(before)[k] == x;
                        assert(views_of(self.items@)[k] == x);
                        assert(views_of(self.items@).contains(x));
                    }
                    if x == v@ {
                        assert(views_of(self.items@)[before.len() as int] == x);
                        assert(views_of(self.items@).contains(x));
                    }
                }
                assert forall|i: int, j: int|
                    #![trigger views_of(self.items@)[i], views_of(self.items@)[j]]
                    0 <= i < j < self.items@.len()
                    implies views_of(self.items@)[i] != views_of(self.items@)[j] by {
                    if j == self.items@.len() - 1 {
                        assert(views_of(self.items@)[i] == views_of(before)[i]);
                        if views_of(before)[i] == v@ {
                            assert(views_of(before).contains(v@));
                        }
                    }
                }
            }
        } else {
            proof {
                assert forall|x: AbsVal|
                    self@.contains(x) <==> old(self)@.insert(v@).contains(x) by {}
            }
        }
    }

    /// Gather the shapes of a row of values into a set.
    pub fn from_values(vs: &Vec<Value>) -> (r: ValueSet)
        requires
            forall|i: int| 0 <= i < vs@.len() ==> val_wf(#[trigger] vs@[i]),
        ensures
            r.wf(),
            r@ =~= views_of(vs@).to_set(),
    {
        let mut r = ValueSet::new();
        let n = vs.len();
        let mut i: usize = 0;
        while i < n
            invariant
                n == vs@.len(),
                i <= n,
                forall|j: int| 0 <= j < n ==> val_wf(#[trigger] vs@[j]),
                r.wf(),
                forall|x: AbsVal| r@.contains(x)
                    <==> exists|j: int| 0 <= j < i && views_of(vs@)[j] == x,
            decreases n - i,
        {
            let ghost rpre = r@;
            r.insert(vs[i].clone());
            proof {
                assert(r@ =~= rpre.insert(abs_of(vs@[i as int])));
                assert(views_of(vs@)[i as int] == abs_of(vs@[i as int]));
                assert forall|x: AbsVal| r@.contains(x)
                    <==> exists|j: int| 0 <= j < i + 1 && views_of(vs@)[j] == x by {
                    if r@.contains(x) {
                        if x == abs_of(vs@[i as int]) {
                            assert(views_of(vs@)[i as int] == x);
                        }
                    }
                }
            }
            i += 1;
        }
        proof {
            assert forall|x: AbsVal| r@.contains(x) <==> views_of(vs@).to_set().contains(x) by {
                if views_of(vs@).contains(x) {
                    let k = choose|k: int|
                        0 <= k < views_of(vs@).len() && views_of(vs@)[k] == x;
                }
            }
            assert(r@ =~= views_of(vs@).to_set());
        }
        r
    }

    /// Union of two sets.
    pub fn union(&self, other: &ValueSet) -> (r: ValueSet)
        requires
            self.wf(),
            other.wf(),
        ensures
            r.wf(),
            r@ =~= self@.union(other@),
    {
        let mut r = ValueSet::from_values(&self.items);
        proof {
            assert(r@ =~= self@);
        }
        let n = other.items.len();
        let mut i: usize = 0;
        while i < n
            invariant
                other.wf(),
                n == other.items@.len(),
                i <= n,
                r.wf(),
                forall|x: AbsVal| r@.contains(x) <==> self@.contains(x)
                    || exists|j: int| 0 <= j < i && views_of(other.items@)[j] == x,
            decreases n - i,
        {
            let ghost rpre = r@;
            r.insert(other.items[i].clone());
            proof {
                assert(r@ =~= rpre.insert(abs_of(other.items@[i as int])));
                assert(views_of(other.items@)[i as int] == abs_of(other.items@[i as int]));
            }
            i += 1;
        }
        proof {
            assert forall|x: AbsVal|
                r@.contains(x) <==> self@.union(other@).contains(x) by {
                if other@.contains(x) {
                    let k = choose|k: int|
                        0 <= k < views_of(other.items@).len()
                            && views_of(other.items@)[k] == x;
                }
            }
            assert(r@ =~= self@.union(other@));
        }
        r
    }

    /// Intersection of two sets.
    pub fn intersection(&self, other: &ValueSet) -> (r: ValueSet)
        requires
            self.wf(),
            other.wf(),
        ensures
            r.wf(),
            r@ =~= self@.intersect(other@),
    {
        let mut r = ValueSet::new();
        let n = self.items.len();
        let mut i: usize = 0;
        while i < n
            invariant
                self.wf(),
                other.wf(),
                n == self.items@.len(),
                i <= n,
                r.wf(),
                forall|x: AbsVal| r@.contains(x) <==> other@.contains(x)
                    && exists|j: int| 0 <= j < i && views_of(self.items@)[j] == x,
            decreases n - i,
        {
            let keep = other.contains(&self.items[i]);
            proof {
                assert(views_of(self.items@)[i as int] == abs_of(self.items@[i as int]));
            }
            if keep {
                let ghost rpre = r@;
                r.insert(self.items[i].clone());
                proof {
                    assert(r@ =~= rpre.insert(abs_of(self.items@[i as int])));
                }
            }
            i += 1;
        }
        proof {
            assert forall|x: AbsVal|
                r@.contains(x) <==> self@.intersect(other@).contains(x) by {
                if self@.contains(x) {
                    let k = choose|k: int|
                        0 <= k < views_of(self.items@).len()
                            && views_of(self.items@)[k] == x;
                }
            }
            assert(r@ =~= self@.intersect(other@));
        }
        r
    }

    /// Difference: the members of this set whose shapes the other
    /// lacks.
    pub fn difference(&self, other: &ValueSet) -> (r: ValueSet)
        requires
            self.wf(),
            other.wf(),
        ensures
            r.wf(),
            r@ =~= self@.difference(other@),
    {
        let mut r = ValueSet::new();
        let n = self.items.len();
        let mut i: usize = 0;
        while i < n
            invariant
                self.wf(),
                other.wf(),
                n == self.items@.len(),
                i <= n,
                r.wf(),
                forall|x: AbsVal| r@.contains(x) <==> !other@.contains(x)
                    && exists|j: int| 0 <= j < i && views_of(self.items@)[j] == x,
            decreases n - i,
        {
            let keep = !other.contains(&self.items[i]);
            proof {
                assert(views_of(self.items@)[i as int] == abs_of(self.items@[i as int]));
            }
            if keep {
                let ghost rpre = r@;
                r.insert(self.items[i].clone());
                proof {
                    assert(r@ =~= rpre.insert(abs_of(self.items@[i as int])));
                }
            }
            i += 1;
        }
        proof {
            assert forall|x: AbsVal|
                r@.contains(x) <==> self@.difference(other@).contains(x) by {
                if self@.contains(x) {
                    let k = choose|k: int|
                        0 <= k < views_of(self.items@).len()
                            && views_of(self.items@)[k] == x;
                }
            }
            assert(r@ =~= self@.difference(other@));
        }
        r
    }

    /// Symmetric difference: shapes in exactly one of the two sets.
    pub fn symmetric_difference(&self, other: &ValueSet) -> (r: ValueSet)
        requires
            self.wf(),
            other.wf(),
        ensures
            r.wf(),
            r@ =~= self@.difference(other@).union(other@.difference(self@)),
    {
        let left = self.difference(other);
        let right = other.difference(self);
        left.union(&right)
    }

    /// Whether every shape here is also in the other set.
    pub fn is_subset(&self, other: &ValueSet) -> (r: bool)
        requires
            self.wf(),
            other.wf(),
        ensures
            r == self@.subset_of(other@),
    {
        let n = self.items.len();
        let mut i: usize = 0;
        while i < n
            invariant
                self.wf(),
                other.wf(),
                n == self.items@.len(),
                i <= n,
                forall|j: int| 0 <= j < i ==> other@.contains(views_of(self.items@)[j]),
            decreases n - i,
        {
            let ok = other.contains(&self.items[i]);
            proof {
                assert(views_of(self.items@)[i as int] == abs_of(self.items@[i as int]));
            }
            if !ok {
                proof {
                    assert(views_of(self.items@).contains(views_of(self.items@)[i as int]));
                    assert(self@.contains(views_of(self.items@)[i as int]));
                }
                return false;
            }
            i += 1;
        }
        proof {
            assert forall|x: AbsVal| self@.contains(x) implies other@.contains(x) by {
                let k = choose|k: int|
                    0 <= k < views_of(self.items@).len() && views_of(self.items@)[k] == x;
            }
        }
        true
    }

    /// Whether the two sets hold the same shapes.
    pub fn set_eq(&self, other: &ValueSet) -> (r: bool)
        requires
            self.wf(),
            other.wf(),
        ensures
            r == (self@ =~= other@),
    {
        let fwd = self.is_subset(other);
        let bwd = other.is_subset(self);
        fwd && bwd
    }

    /// Decide a rich comparison between two sets: equality both ways,
    /// order operations as (proper) subset tests.
    pub fn compare(&self, other: &ValueSet, op: PyComparisonOp) -> (r: bool)
        requires
            self.wf(),
            other.wf(),
        ensures
            r == spec_set_compare(self@, other@, op),
    {
        match op {
            PyComparisonOp::Eq => self.set_eq(other),
            PyComparisonOp::Ne => !self.set_eq(other),
            PyComparisonOp::Le => self.is_subset(other),
            PyComparisonOp::Lt => self.is_subset(other) && !self.set_eq(other),
            PyComparisonOp::Ge => other.is_subset(self),
            PyComparisonOp::Gt => other.is_subset(self) && !other.set_eq(self),
        }
    }
}

/// What each comparison operation means on induced sets.
pub open spec fn spec_set_compare(a: Set<AbsVal>, b: Set<AbsVal>, op: PyComparisonOp) -> bool {
    match op {
        PyComparisonOp::Eq => a =~= b,
        PyComparisonOp::Ne => !(a =~= b),
        PyComparisonOp::Le => a.subset_of(b),
        PyComparisonOp::Lt => a.subset_of(b) && !(a =~= b),
        PyComparisonOp::Ge => b.subset_of(a),
        PyComparisonOp::Gt => b.subset_of(a) && !(b =~= a),
    }
}

/// The projected element sequence of a view over a stored mapping.
pub open spec fn view_proj(ctx: PyContext, dict: int, kind: ViewKind) -> Seq<AbsVal> {
    let entries = ctx.dicts@[dict].view_entries();
    Seq::new(
        entries.len(),
        |i: int| if 0 <= i < entries.len() { project_entry(kind, entries[i]) } else {
            arbitrary()
        },
    )
}

/// Materialize one view of a stored mapping into a set, the way the
/// set-algebra operations consume a view through its iterator.
pub fn view_to_set(ctx: &PyContext, dict: usize, kind: ViewKind) -> (r: ValueSet)
    requires
        ctx.wf(),
        dict < ctx.dicts@.len(),
    ensures
        r.wf(),
        r@ =~= view_proj(*ctx, dict as int, kind).to_set(),
{
    let d = &ctx.dicts[dict];
    let n = d.len();
    let mut r = ValueSet::new();
    let mut i: usize = 0;
    while i < n
        invariant
            ctx.wf(),
            dict < ctx.dicts@.len(),
            n == ctx.dicts@[dict as int].view_entries().len(),
            i <= n,
            r.wf(),
            forall|x: AbsVal| r@.contains(x)
                <==> exists|j: int| 0 <= j < i && view_proj(*ctx, dict as int, kind)[j] == x,
        decreases n - i,
    {
        let entry = ctx.dicts[dict].entry_at(i);
        let item = project_entry_exec(kind, entry);
        let ghost rpre = r@;
        r.insert(item);
        proof {
            assert(view_proj(*ctx, dict as int, kind)[i as int]
                == project_entry(kind, ctx.dicts@[dict as int].view_entries()[i as int]));
            assert(r@ =~= rpre.insert(item@));
        }
        i += 1;
    }
    proof {
        assert forall|x: AbsVal|
            r@.contains(x) <==> view_proj(*ctx, dict as int, kind).to_set().contains(x) by {
            if view_proj(*ctx, dict as int, kind).contains(x) {
                let k = choose|k: int|
                    0 <= k < view_proj(*ctx, dict as int, kind).len()
                        && view_proj(*ctx, dict as int, kind)[k] == x;
            }
        }
        assert(r@ =~= view_proj(*ctx, dict as int, kind).to_set());
    }
    r
}

/// The key view of a stored ordered mapping: a zero-copy, read-through
/// projection.
#[derive(Debug)]
pub struct PyOrderedDictKeys {
    pub dict: usize,
}

/// The value view of a stored ordered mapping.
#[derive(Debug)]
pub struct PyOrderedDictValues {
    pub dict: usize,
}

/// The item view of a stored ordered mapping: each entry as a pairing.
#[derive(Debug)]
pub struct PyOrderedDictItems {
    pub dict: usize,
}

impl PyOrderedDictKeys {
    /// A view's length is always the backing mapping's length.
    pub fn len(&self, ctx: &PyContext) -> (r: usize)
        requires
            ctx.wf(),
            self.dict < ctx.dicts@.len(),
        ensures
            r == ctx.dicts@[self.dict as int].view_entries().len(),
    {
        ctx.dicts[self.dict].len()
    }

    /// A forward iterator over the keys, with a fresh size snapshot.
    pub fn iter(&self, ctx: &PyContext) -> (r: DictViewIterator)
        requires
            ctx.wf(),
            self.dict < ctx.dicts@.len(),
        ensures
            r.dict == self.dict,
            r.kind == ViewKind::Keys,
            !r.reverse,
            r.position == 0,
            r.size == ctx.dicts@[self.dict as int].view_entries().len(),
            r.status == IterStatus::Active,
    {
        DictViewIterator::new(ctx, self.dict, ViewKind::Keys)
    }

    /// A reverse iterator over the keys, with its own snapshot.
    pub fn reversed(&self, ctx: &PyContext) -> (r: DictViewIterator)
        requires
            ctx.wf(),
            self.dict < ctx.dicts@.len(),
        ensures
            r.dict == self.dict,
            r.kind == ViewKind::Keys,
            r.reverse,
            r.position == (if ctx.dicts@[self.dict as int].view_entries().len() == 0 { 0int } else {
                ctx.dicts@[self.dict as int].view_entries().len() - 1
            }),
            r.size == ctx.dicts@[self.dict as int].view_entries().len(),
            r.status == IterStatus::Active,
    {
        DictViewIterator::new_reverse(ctx, self.dict, ViewKind::Keys)
    }

    /// Key membership goes straight to the backing mapping.
    pub fn contains(&self, ctx: &PyContext, key: &Value) -> (r: bool)
        requires
            ctx.wf(),
            self.dict < ctx.dicts@.len(),
            key.wf(),
        ensures
            r == ctx.dicts@[self.dict as int].spec_has_key(key@),
    {
        ctx.dicts[self.dict].contains_key(key)
    }

    /// The induced set of keys.
    pub fn to_set(&self, ctx: &PyContext) -> (r: ValueSet)
        requires
            ctx.wf(),
            self.dict < ctx.dicts@.len(),
        ensures
            r.wf(),
            r@ =~= view_proj(*ctx, self.dict as int, ViewKind::Keys).to_set(),
    {
        view_to_set(ctx, self.dict, ViewKind::Keys)
    }

    /// Symmetric difference with any other materialized operand.
    pub fn xor(&self, ctx: &PyContext, other: &ValueSet) -> (r: ValueSet)
        requires
            ctx.wf(),
            self.dict < ctx.dicts@.len(),
            other.wf(),
        ensures
            r.wf(),
            r@ =~= {
                let s = view_proj(*ctx, self.dict as int, ViewKind::Keys).to_set();
                s.difference(other@).union(other@.difference(s))
            },
    {
        let s = self.to_set(ctx);
        s.symmetric_difference(other)
    }

    /// Intersection with any other materialized operand.
    pub fn and(&self, ctx: &PyContext, other: &ValueSet) -> (r: ValueSet)
        requires
            ctx.wf(),
            self.dict < ctx.dicts@.len(),
            other.wf(),
        ensures
            r.wf(),
            r@ =~= view_proj(*ctx, self.dict as int, ViewKind::Keys).to_set()
                .intersect(other@),
    {
        let s = self.to_set(ctx);
        s.intersection(other)
    }

    /// Union with any other materialized operand.
    pub fn or(&self, ctx: &PyContext, other: &ValueSet) -> (r: ValueSet)
        requires
            ctx.wf(),
            self.dict < ctx.dicts@.len(),
            other.wf(),
        ensures
            r.wf(),
            r@ =~= view_proj(*ctx, self.dict as int, ViewKind::Keys).to_set().union(other@),
    {
        let s = self.to_set(ctx);
        s.union(other)
    }

    /// Difference, view on the left.
    pub fn sub(&self, ctx: &PyContext, other: &ValueSet) -> (r: ValueSet)
        requires
            ctx.wf(),
            self.dict < ctx.dicts@.len(),
            other.wf(),
        ensures
            r.wf(),
            r@ =~= view_proj(*ctx, self.dict as int, ViewKind::Keys).to_set()
                .difference(other@),
    {
        let s = self.to_set(ctx);
        s.difference(other)
    }

    /// Difference, view on the right (the reflected form).
    pub fn rsub(&self, ctx: &PyContext, other: &ValueSet) -> (r: ValueSet)
        requires
            ctx.wf(),
            self.dict < ctx.dicts@.len(),
            other.wf(),
        ensures
            r.wf(),
            r@ =~= other@.difference(
                view_proj(*ctx, self.dict as int, ViewKind::Keys).to_set()),
    {
        let s = self.to_set(ctx);
        other.difference(&s)
    }

    /// Rich comparison by the induced set.
    pub fn cmp(&self, ctx: &PyContext, other: &ValueSet, op: PyComparisonOp) -> (r: bool)
        requires
            ctx.wf(),
            self.dict < ctx.dicts@.len(),
            other.wf(),
        ensures
            r == spec_set_compare(
                view_proj(*ctx, self.dict as int, ViewKind::Keys).to_set(), other@, op),
    {
        let s = self.to_set(ctx);
        s.compare(other, op)
    }
}

impl PyOrderedDictValues {
    /// A view's length is always the backing mapping's length.
    pub fn len(&self, ctx: &PyContext) -> (r: usize)
        requires
            ctx.wf(),
            self.dict < ctx.dicts@.len(),
        ensures
            r == ctx.dicts@[self.dict as int].view_entries().len(),
    {
        ctx.dicts[self.dict].len()
    }

    /// A forward iterator over the values.
    pub fn iter(&self, ctx: &PyContext) -> (r: DictViewIterator)
        requires
            ctx.wf(),
            self.dict < ctx.dicts@.len(),
        ensures
            r.dict == self.dict,
            r.kind == ViewKind::Values,
            !r.reverse,
            r.position == 0,
            r.size == ctx.dicts@[self.dict as int].view_entries().len(),
            r.status == IterStatus::Active,
    {
        DictViewIterator::new(ctx, self.dict, ViewKind::Values)
    }

    /// A reverse iterator over the values.
    pub fn reversed(&self, ctx: &PyContext) -> (r: DictViewIterator)
        requires
            ctx.wf(),
            self.dict < ctx.dicts@.len(),
        ensures
            r.dict == self.dict,
            r.kind == ViewKind::Values,
            r.reverse,
            r.position == (if ctx.dicts@[self.dict as int].view_entries().len() == 0 { 0int } else {
                ctx.dicts@[self.dict as int].view_entries().len() - 1
            }),
            r.size == ctx.dicts@[self.dict as int].view_entries().len(),
            r.status == IterStatus::Active,
    {
        DictViewIterator::new_reverse(ctx, self.dict, ViewKind::Values)
    }
}

impl PyOrderedDictItems {
    /// A view's length is always the backing mapping's length.
    pub fn len(&self, ctx: &PyContext) -> (r: usize)
        requires
            ctx.wf(),
            self.dict < ctx.dicts@.len(),
        ensures
            r == ctx.dicts@[self.dict as int].view_entries().len(),
    {
        ctx.dicts[self.dict].len()
    }

    /// A forward iterator over the entries as pairings.
    pub fn iter(&self, ctx: &PyContext) -> (r: DictViewIterator)
        requires
            ctx.wf(),
            self.dict < ctx.dicts@.len(),
        ensures
            r.dict == self.dict,
            r.kind == ViewKind::Items,
            !r.reverse,
            r.position == 0,
            r.size == ctx.dicts@[self.dict as int].view_entries().len(),
            r.status == IterStatus::Active,
    {
        DictViewIterator::new(ctx, self.dict, ViewKind::Items)
    }

    /// A reverse iterator over the entries as pairings.
    pub fn reversed(&self, ctx: &PyContext) -> (r: DictViewIterator)
        requires
            ctx.wf(),
            self.dict < ctx.dicts@.len(),
        ensures
            r.dict == self.dict,
            r.kind == ViewKind::Items,
            r.reverse,
            r.position == (if ctx.dicts@[self.dict as int].view_entries().len() == 0 { 0int } else {
                ctx.dicts@[self.dict as int].view_entries().len() - 1
            }),
            r.size == ctx.dicts@[self.dict as int].view_entries().len(),
            r.status == IterStatus::Active,
    {
        DictViewIterator::new_reverse(ctx, self.dict, ViewKind::Items)
    }

    /// Membership in an item view asks for a two-element pairing whose
    /// first part is a present key and whose second part equals that
    /// key's stored value exactly.
    pub fn contains(&self, ctx: &PyContext, needle: &Value) -> (r: bool)
        requires
            ctx.wf(),
            self.dict < ctx.dicts@.len(),
            needle.wf(),
        ensures
            r == spec_items_contains(*ctx, self.dict as int, needle@),
    {
        let parts = match needle {
            Value::Tuple(vs) => vs,
            _ => {
                return false;
            },
        };
        if parts.len() != 2 {
            proof {
                assert(needle@ matches AbsVal::Tuple(t) && t.len() != 2);
            }
            return false;
        }
        let key = &parts[0];
        let value = &parts[1];
        proof {
            assert(needle@ matches AbsVal::Tuple(t)
                && t =~= seq![abs_of(parts@[0]), abs_of(parts@[1])]);
        }
        let dict = &ctx.dicts[self.dict];
        match dict.get(key) {
            Some(found) => value_eq(&found, value),
            None => false,
        }
    }

    /// The induced set of entry pairings.
    pub fn to_set(&self, ctx: &PyContext) -> (r: ValueSet)
        requires
            ctx.wf(),
            self.dict < ctx.dicts@.len(),
        ensures
            r.wf(),
            r@ =~= view_proj(*ctx, self.dict as int, ViewKind::Items).to_set(),
    {
        view_to_set(ctx, self.dict, ViewKind::Items)
    }

    /// Symmetric difference with any other materialized operand.
    pub fn xor(&self, ctx: &PyContext, other: &ValueSet) -> (r: ValueSet)
        requires
            ctx.wf(),
            self.dict < ctx.dicts@.len(),
            other.wf(),
        ensures
            r.wf(),
            r@ =~= {
                let s = view_proj(*ctx, self.dict as int, ViewKind::Items).to_set();
                s.difference(other@).union(other@.difference(s))
            },
    {
        let s = self.to_set(ctx);
        s.symmetric_difference(other)
    }

    /// Intersection with any other materialized operand.
    pub fn and(&self, ctx: &PyContext, other: &ValueSet) -> (r: ValueSet)
        requires
            ctx.wf(),
            self.dict < ctx.dicts@.len(),
            other.wf(),
        ensures
            r.wf(),
            r@ =~= view_proj(*ctx, self.dict as int, ViewKind::Items).to_set()
                .intersect(other@),
    {
        let s = self.to_set(ctx);
        s.intersection(other)
    }

    /// Union with any other materialized operand.
    pub fn or(&self, ctx: &PyContext, other: &ValueSet) -> (r: ValueSet)
        requires
            ctx.wf(),
            self.dict < ctx.dicts@.len(),
            other.wf(),
        ensures
            r.wf(),
            r@ =~= view_proj(*ctx, self.dict as int, ViewKind::Items).to_set().union(other@),
    {
        let s = self.to_set(ctx);
        s.union(other)
    }

    /// Difference, view on the left.
    pub fn sub(&self, ctx: &PyContext, other: &ValueSet) -> (r: ValueSet)
        requires
            ctx.wf(),
            self.dict < ctx.dicts@.len(),
            other.wf(),
        ensures
            r.wf(),
            r@ =~= view_proj(*ctx, self.dict as int, ViewKind::Items).to_set()
                .difference(other@),
    {
        let s = self.to_set(ctx);
        s.difference(other)
    }

    /// Difference, view on the right (the reflected form).
    pub fn rsub(&self, ctx: &PyContext, other: &ValueSet) -> (r: ValueSet)
        requires
            ctx.wf(),
            self.dict < ctx.dicts@.len(),
            other.wf(),
        ensures
            r.wf(),
            r@ =~= other@.difference(
                view_proj(*ctx, self.dict as int, ViewKind::Items).to_set()),
    {
        let s = self.to_set(ctx);
        other.difference(&s)
    }

    /// Rich comparison by the induced set, which for item views
    /// accounts for keys and values both.
    pub fn cmp(&self, ctx: &PyContext, other: &ValueSet, op: PyComparisonOp) -> (r: bool)
        requires
            ctx.wf(),
            self.dict < ctx.dicts@.len(),
            other.wf(),
        ensures
            r == spec_set_compare(
                view_proj(*ctx, self.dict as int, ViewKind::Items).to_set(), other@, op),
    {
        let s = self.to_set(ctx);
        s.compare(other, op)
    }
}

/// What item-view membership means: a two-element pairing of a
/// present key and exactly its stored value.
pub open spec fn spec_items_contains(ctx: PyContext, dict: int, needle: AbsVal) -> bool {
    match needle {
        AbsVal::Tuple(t) => t.len() == 2
            && ctx.dicts@[dict].spec_get(t[0]) == Some(t[1]),
        _ => false,
    }
}

/// The remaining-entry estimate of a view iterator.
pub open spec fn spec_dict_hint(d: DictViewIterator) -> int {
    if d.status is Exhausted {
        0
    } else if d.reverse {
        if d.position < usize::MAX { d.position + 1 } else { usize::MAX as int }
    } else {
        if d.position <= d.size { d.size - d.position } else { 0 }
    }
}

} // verus!
