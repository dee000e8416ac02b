//! The insertion-ordered mapping that backs dictionaries and their
//! views, remembering the order in which keys were first inserted.
//!
//! Updating an existing key replaces its value in place; deleting shifts
//! later entries down. The entry count doubles as the structural size
//! signature that iterators snapshot to detect concurrent mutation.

use vstd::prelude::*;
use crate::value::{Value, AbsVal, abs_of, val_wf, value_eq};
use crate::runtime::{PyContext, PyErr};

verus! {

/// First position of `k` in `keys`, or -1 when absent.
pub open spec fn first_idx(keys: Seq<AbsVal>, k: AbsVal) -> int
    decreases keys.len(),
{
    if keys.len() == 0 {
        -1
    } else if keys[0] == k {
        0
    } else {
        let r = first_idx(keys.skip(1), k);
        if r < 0 {
            -1
        } else {
            r + 1
        }
    }
}

pub proof fn lemma_first_idx(keys: Seq<AbsVal>, k: AbsVal)
    ensures
        first_idx(keys, k) == -1 <==> !keys.contains(k),
        first_idx(keys, k) >= 0 ==> first_idx(keys, k) < keys.len()
            && keys[first_idx(keys, k)] == k
            && forall|j: int| 0 <= j < first_idx(keys, k) ==> keys[j] != k,
    decreases keys.len(),
{
    if keys.len() > 0 {
        lemma_first_idx(keys.skip(1), k);
        let r1 = first_idx(keys.skip(1), k);
        if keys[0] == k {
        } else if r1 < 0 {
            assert forall|j: int| 0 <= j < keys.len() implies keys[j] != k by {
                if j > 0 {
                    assert(keys[j] == keys.skip(1)[j - 1]);
                }
            }
            assert(!keys.contains(k));
        } else {
            assert(keys[r1 + 1] == keys.skip(1)[r1]);
            assert forall|j: int| 0 <= j < r1 + 1 implies keys[j] != k by {
                if j > 0 {
                    assert(keys[j] == keys.skip(1)[j - 1]);
                }
            }
        }
    } else {
        assert(!keys.contains(k));
    }
}

/// What setting `k` to `v` does to an entry sequence: replace the value
/// in place when the key is present, append a fresh entry otherwise.
pub open spec fn dict_set(s: Seq<(AbsVal, AbsVal)>, k: AbsVal, v: AbsVal)
    -> Seq<(AbsVal, AbsVal)> {
    let i = first_idx(entry_keys(s), k);
    if i >= 0 {
        s.update(i, (s[i].0, v))
    } else {
        s.push((k, v))
    }
}

/// The keys of an entry sequence, in order.
pub open spec fn entry_keys(s: Seq<(AbsVal, AbsVal)>) -> Seq<AbsVal> {
    Seq::new(s.len(), |i: int| if 0 <= i < s.len() { s[i].0 } else { arbitrary() })
}

/// An insertion-ordered mapping from values to values.
#[derive(Debug)]
pub struct OrderedDict {
    entries: Vec<(Value, Value)>,
}

impl OrderedDict {
    /// The mathematical entry sequence.
    pub closed spec fn view_entries(self) -> Seq<(AbsVal, AbsVal)> {
        Seq::new(
            self.entries@.len(),
            |i: int| if 0 <= i < self.entries@.len() {
                (abs_of(self.entries@[i].0), abs_of(self.entries@[i].1))
            } else {
                arbitrary()
            },
        )
    }

    /// The key sequence, in insertion order.
    pub open spec fn keys_abs(self) -> Seq<AbsVal> {
        entry_keys(self.view_entries())
    }

    /// Whether some entry carries the key.
    pub open spec fn spec_has_key(self, k: AbsVal) -> bool {
        self.keys_abs().contains(k)
    }

    /// The value mapped under `k`, when present.
    pub open spec fn spec_get(self, k: AbsVal) -> Option<AbsVal> {
        let i = first_idx(self.keys_abs(), k);
        if i >= 0 {
            Some(self.view_entries()[i].1)
        } else {
            None
        }
    }

    /// Every stored value is well-formed and no key occurs twice.
    pub closed spec fn wf(self) -> bool {
        &&& forall|i: int| 0 <= i < self.entries@.len()
                ==> val_wf((#[trigger] self.entries@[i]).0) && val_wf(self.entries@[i].1)
        &&& forall|i: int, j: int|
                #![trigger self.keys_abs()[i], self.keys_abs()[j]]
                0 <= i < j < self.entries@.len() ==> self.keys_abs()[i] != self.keys_abs()[j]
    }

    /// An empty mapping.
    pub fn new() -> (r: OrderedDict)
        ensures
            r.wf(),
            r.view_entries() =~= Seq::<(AbsVal, AbsVal)>::empty(),
    {
        OrderedDict { entries: Vec::new() }
    }

    /// Number of entries; also the structural size signature that
    /// iterators snapshot (detection is limited to size, by design).
    pub fn len(&self) -> (r: usize)
        ensures
            r == self.view_entries().len(),
    {
        self.entries.len()
    }

    /// The entry at a position, for iterators walking the mapping.
    pub fn entry_at(&self, i: usize) -> (r: (Value, Value))
        requires
            self.wf(),
            i < self.view_entries().len(),
        ensures
            r.0.wf() && r.1.wf(),
            (r.0@, r.1@) == self.view_entries()[i as int],
    {
        let p = &self.entries[i];
        (p.0.clone(), p.1.clone())
    }

    /// Position of the entry carrying `k`, scanning front to back.
    fn find(&self, k: &Value) -> (r: Option<usize>)
        requires
            self.wf(),
            k.wf(),
        ensures
            match r {
                Some(i) => i as int == first_idx(self.keys_abs(), k@),
                None => first_idx(self.keys_abs(), k@) == -1,
            },
    {
        proof {
            lemma_first_idx(self.keys_abs(), k@);
        }
        let n = self.entries.len();
        let mut i: usize = 0;
        while i < n
            invariant
                self.wf(),
                k.wf(),
                n == self.entries@.len(),
                i <= n,
                forall|j: int| 0 <= j < i ==> self.keys_abs()[j] != k@,
                (first_idx(self.keys_abs(), k@) == -1 && !self.keys_abs().contains(k@))
                    || (0 <= first_idx(self.keys_abs(), k@) < n
                        && self.keys_abs()[first_idx(self.keys_abs(), k@)] == k@
                        && forall|j: int| 0 <= j < first_idx(self.keys_abs(), k@)
                            ==> self.keys_abs()[j] != k@),
            decreases n - i,
        {
            if value_eq(&self.entries[i].0, k) {
                proof {
                    assert(self.keys_abs()[i as int] == k@);
                    assert(self.keys_abs().contains(k@)) by {
                        assert(self.keys_abs()[i as int] == k@);
                    }
                    assert(first_idx(self.keys_abs(), k@) == i as int);
                }
                return Some(i);
            }
            proof {
                assert(self.keys_abs()[i as int] != k@);
            }
            i += 1;
        }
        proof {
            assert(first_idx(self.keys_abs(), k@) == -1);
        }
        None
    }

    /// Whether the mapping has an entry under `k`.
    pub fn contains_key(&self, k: &Value) -> (r: bool)
        requires
            self.wf(),
            k.wf(),
        ensures
            r == self.spec_has_key(k@),
    {
        proof {
            lemma_first_idx(self.keys_abs(), k@);
        }
        self.find(k).is_some()
    }

    /// Look the key up; a copy of the stored value comes back.
    pub fn get(&self, k: &Value) -> (r: Option<Value>)
        requires
            self.wf(),
            k.wf(),
        ensures
            match r {
                Some(v) => self.spec_get(k@) == Some(v@) && v.wf(),
                None => self.spec_get(k@) is None,
            },
    {
        proof {
            lemma_first_idx(self.keys_abs(), k@);
        }
        match self.find(k) {
            Some(i) => {
                let p = &self.entries[i];
                Some(p.1.clone())
            },
            None => None,
        }
    }

    /// Bind `k` to `v`: replace the value in place when the key exists,
    /// append the pair otherwise. Insertion order of old keys is kept.
    pub fn set_item(&mut self, k: Value, v: Value)
        requires
            old(self).wf(),
            k.wf(),
            v.wf(),
        ensures
            final(self).wf(),
            final(self).view_entries() =~= dict_set(old(self).view_entries(), k@, v@),
    {
        proof {
            lemma_first_idx(self.keys_abs(), k@);
        }
        let ghost olds = self.view_entries();
        match self.find(&k) {
            Some(i) => {
                let kept = self.entries[i].0.clone();
                self.entries[i] = (kept, v);
                proof {
                    let idx = first_idx(entry_keys(olds), k@);
                    assert(entry_keys(self.view_entries()) =~= entry_keys(olds));
                    assert(self.view_entries() =~= olds.update(idx, (olds[idx].0, v@)));
                }
            },
            None => {
                self.entries.push((k, v));
                proof {
                    assert(self.view_entries() =~= olds.push((k@, v@)));
                    assert(entry_keys(self.view_entries())
                        =~= entry_keys(olds).push(k@));
                    assert forall|i: int, j: int|
                        #![trigger self.keys_abs()[i], self.keys_abs()[j]]
                        0 <= i < j < self.view_entries().len()
                        implies self.keys_abs()[i] != self.keys_abs()[j] by {
                        if j == self.view_entries().len() - 1 {
                            lemma_first_idx(entry_keys(olds), k@);
                            assert(!entry_keys(olds).contains(k@));
                            assert(self.keys_abs()[i] == entry_keys(olds)[i]);
                            if entry_keys(olds)[i] == k@ {
                                assert(entry_keys(olds).contains(k@));
                            }
                        }
                    }
                }
            },
        }
    }

    /// Take the entry under `k` out, handing back its value; later
    /// entries shift down one place. `None` when the key is absent.
    pub fn remove(&mut self, k: &Value) -> (r: Option<Value>)
        requires
            old(self).wf(),
            k.wf(),
        ensures
            final(self).wf(),
            match r {
                Some(v) => {
                    let i = first_idx(old(self).keys_abs(), k@);
                    &&& i >= 0
                    &&& v@ == old(self).view_entries()[i].1
                    &&& v.wf()
                    &&& final(self).view_entries() =~= old(self).view_entries().remove(i)
                },
                None => {
                    &&& !old(self).spec_has_key(k@)
                    &&& *final(self) == *old(self)
                },
            },
    {
        proof {
            lemma_first_idx(self.keys_abs(), k@);
        }
        let ghost olds = self.view_entries();
        match self.find(k) {
            Some(i) => {
                let (_, v) = self.entries.remove(i);
                proof {
                    let idx = i as int;
                    assert(self.view_entries() =~= olds.remove(idx));
                    assert forall|a: int, b: int|
                        #![trigger self.keys_abs()[a], self.keys_abs()[b]]
                        0 <= a < b < self.view_entries().len()
                        implies self.keys_abs()[a] != self.keys_abs()[b] by {
                        let a0 = if a < idx { a } else { a + 1 };
                        let b0 = if b < idx { b } else { b + 1 };
                        assert(self.keys_abs()[a] == old(self).keys_abs()[a0]);
                        assert(self.keys_abs()[b] == old(self).keys_abs()[b0]);
                    }
                }
                Some(v)
            },
            None => None,
        }
    }
}

/// What binding every key of a row to one value leaves in an entry
/// sequence, processed left to right.
pub open spec fn dict_set_all(s: Seq<(AbsVal, AbsVal)>, keys: Seq<AbsVal>, v: AbsVal)
    -> Seq<(AbsVal, AbsVal)>
    decreases keys.len(),
{
    if keys.len() == 0 {
        s
    } else {
        dict_set_all(dict_set(s, keys[0], v), keys.skip(1), v)
    }
}

/// The dictionary that remembers insertion order, as an object: a
/// handle to a stored ordered mapping.
#[derive(Debug)]
pub struct PyOrderedDict {
    pub dict: usize,
}

impl PyOrderedDict {
    /// Initialize the freshly constructed mapping; forwards to
    /// `update`.
    pub fn init(&self) -> (r: Result<(), PyErr>)
        ensures
            r is Ok,
    {
        self.update()
    }

    /// Accept the update arguments and leave the mapping unchanged;
    /// the merge step is not part of this engine.
    pub fn update(&self) -> (r: Result<(), PyErr>)
        ensures
            r is Ok,
    {
        Ok(())
    }

    /// A fresh ordered mapping binding every key of the row to one
    /// value (the host's none when absent). A repeated key keeps its
    /// first position; the value is simply bound again.
    pub fn fromkeys(ctx: &mut PyContext, iterable: &Vec<Value>, value: Option<Value>)
        -> (r: PyOrderedDict)
        requires
            old(ctx).wf(),
            forall|i: int| 0 <= i < iterable@.len() ==> val_wf(#[trigger] iterable@[i]),
            value matches Some(v) ==> v.wf(),
        ensures
            final(ctx).wf(),
            final(ctx).types@ == old(ctx).types@,
            final(ctx).lists@ == old(ctx).lists@,
            r.dict == old(ctx).dicts@.len(),
            final(ctx).dicts@.len() == old(ctx).dicts@.len() + 1,
            forall|i: int| 0 <= i < old(ctx).dicts@.len()
                ==> final(ctx).dicts@[i] == old(ctx).dicts@[i],
            final(ctx).dicts@[r.dict as int].view_entries() =~= dict_set_all(
                Seq::<(AbsVal, AbsVal)>::empty(),
                crate::value::views_of(iterable@),
                match value {
                    Some(v) => v@,
                    None => AbsVal::Nil,
                },
            ),
    {
        let fill = match value {
            Some(v) => v,
            None => Value::Nil,
        };
        let mut d = OrderedDict::new();
        let ghost keys = crate::value::views_of(iterable@);
        let ghost target = dict_set_all(Seq::<(AbsVal, AbsVal)>::empty(), keys, fill@);
        proof {
            assert(keys.skip(0) =~= keys);
        }
        let n = iterable.len();
        let mut i: usize = 0;
        while i < n
            invariant
                n == iterable@.len(),
                i <= n,
                forall|j: int| 0 <= j < n ==> val_wf(#[trigger] iterable@[j]),
                fill.wf(),
                d.wf(),
                keys == crate::value::views_of(iterable@),
                target == dict_set_all(Seq::<(AbsVal, AbsVal)>::empty(), keys, fill@),
                dict_set_all(d.view_entries(), keys.skip(i as int), fill@) == target,
            decreases n - i,
        {
            let ghost pre = d.view_entries();
            d.set_item(iterable[i].clone(), fill.clone());
            proof {
                assert(keys.skip(i as int)[0] == keys[i as int]);
                assert(keys[i as int] == crate::value::abs_of(iterable@[i as int]));
                assert(keys.skip(i as int).skip(1) =~= keys.skip(i as int + 1));
                assert(d.view_entries() == dict_set(pre, keys[i as int], fill@));
            }
            i += 1;
        }
        proof {
            assert(keys.skip(n as int) =~= Seq::<AbsVal>::empty());
            assert(dict_set_all(d.view_entries(), keys.skip(n as int), fill@)
                == d.view_entries());
            assert(d.view_entries() == target);
        }
        proof {
            // The store is a vector, so its length fits the index type.
            assert(ctx.dicts.len() == ctx.dicts@.len());
        }
        let ghost gd = d;
        let handle = ctx.add_dict(d);
        let id = match handle {
            crate::runtime::ObjRef::Dict(id) => id,
            _ => 0,
        };
        proof {
            assert(ctx.dicts@[id as int] == gd);
        }
        PyOrderedDict { dict: id }
    }

    /// Iterating the mapping iterates its keys.
    pub fn iter(&self, ctx: &PyContext) -> (r: crate::views::DictViewIterator)
        requires
            ctx.wf(),
            self.dict < ctx.dicts@.len(),
        ensures
            r.dict == self.dict,
            r.kind == crate::views::ViewKind::Keys,
            !r.reverse,
            r.position == 0,
            r.size == ctx.dicts@[self.dict as int].view_entries().len(),
            r.status == crate::IterStatus::Active,
    {
        crate::views::DictViewIterator::new(ctx, self.dict, crate::views::ViewKind::Keys)
    }

    /// The key view of the mapping.
    pub fn keys(&self) -> (r: crate::views::PyOrderedDictKeys)
        ensures
            r.dict == self.dict,
    {
        crate::views::PyOrderedDictKeys { dict: self.dict }
    }

    /// The value view of the mapping.
    pub fn values(&self) -> (r: crate::views::PyOrderedDictValues)
        ensures
            r.dict == self.dict,
    {
        crate::views::PyOrderedDictValues { dict: self.dict }
    }

    /// The item view of the mapping.
    pub fn items(&self) -> (r: crate::views::PyOrderedDictItems)
        ensures
            r.dict == self.dict,
    {
        crate::views::PyOrderedDictItems { dict: self.dict }
    }
}

/// Register the behavior of the ordered-dictionary type and its view
/// types; the mapping slots come down the MRO from the base
/// dictionary type.
pub fn init(ctx: &mut PyContext)
    requires
        old(ctx).wf(),
    ensures
        final(ctx).wf(),
        final(ctx).types@.len() == old(ctx).types@.len(),
        final(ctx).lists@ == old(ctx).lists@,
        final(ctx).dicts@ == old(ctx).dicts@,
        final(ctx).types@[crate::runtime::TYPE_ODICT as int].iterable,
{
    ctx.set_slots(crate::runtime::TYPE_ODICT, None, None, true);
}

} // verus!
