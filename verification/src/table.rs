//! Small tables that remember the order their keys arrived in.

use vstd::prelude::*;

use crate::text;

verus! {

/// Something a table can be keyed by.
pub trait Key: Sized {
    /// What two keys that count as the same have in common.
    type Model;

    /// The key as the contracts see it.
    spec fn model(&self) -> Self::Model;

    /// Whether two keys count as the same.
    fn same(&self, other: &Self) -> (r: bool)
        ensures
            r == (self.model() == other.model()),
    ;
}

impl Key for u32 {
    type Model = u32;

    open spec fn model(&self) -> u32 {
        *self
    }

    fn same(&self, other: &u32) -> (r: bool) {
        *self == *other
    }
}

impl Key for String {
    type Model = Seq<char>;

    open spec fn model(&self) -> Seq<char> {
        self@
    }

    fn same(&self, other: &String) -> (r: bool) {
        text::same(self.as_str(), other.as_str())
    }
}

/// The keys of some entries.
pub open spec fn keys_of<K: Key, V>(entries: Seq<(K, V)>) -> Seq<K::Model> {
    entries.map_values(|entry: (K, V)| entry.0.model())
}

/// The entries with a key standing for a value: in place of what it stood
/// for before, or at the end.
pub open spec fn with_entry<K: Key, V>(entries: Seq<(K, V)>, key: K, value: V) -> Seq<(K, V)> {
    if keys_of(entries).contains(key.model()) {
        entries.update(keys_of(entries).index_of(key.model()), (key, value))
    } else {
        entries.push((key, value))
    }
}

/// The entries that are marked one way or the other.
pub open spec fn marked<K, V>(entries: Seq<(K, V)>, marks: Seq<bool>, way: bool) -> Seq<(K, V)>
    decreases entries.len(),
{
    if entries.len() == 0 {
        seq![]
    } else {
        let before = marked(entries.drop_last(), marks, way);
        if marks[entries.len() - 1] == way {
            before.push(entries.last())
        } else {
            before
        }
    }
}

/// Entries that are marked by a test are those that pass it.
pub proof fn marked_by<K, V>(
    entries: Seq<(K, V)>,
    marks: Seq<bool>,
    way: bool,
    test: spec_fn((K, V)) -> bool,
)
    requires
        marks.len() >= entries.len(),
        forall|i: int|
            #![trigger entries[i]]
            0 <= i < entries.len() ==> (marks[i] == way) == test(entries[i]),
    ensures
        marked(entries, marks, way) == entries.filter(test),
    decreases entries.len(),
{
    reveal(Seq::filter);
    if entries.len() > 0 {
        let shorter = entries.drop_last();
        assert forall|i: int| #![trigger shorter[i]] 0 <= i < shorter.len() implies (marks[i]
            == way) == test(shorter[i]) by {
            assert(shorter[i] == entries[i]);
        }
        marked_by(shorter, marks, way, test);
        assert((marks[entries.len() - 1] == way) == test(entries[entries.len() - 1]));
    }
}

/// Values by key, in the order the keys arrived.
#[derive(Debug)]
pub struct Table<K, V> {
    entries: Vec<(K, V)>,
}

impl<K: Key, V> Table<K, V> {
    /// Keys and values, in order.
    pub closed spec fn entries(&self) -> Seq<(K, V)> {
        self.entries@
    }

    /// The keys, in order.
    pub open spec fn keys(&self) -> Seq<K::Model> {
        keys_of(self.entries())
    }

    /// No key stands in the table twice.
    pub open spec fn wf(&self) -> bool {
        self.keys().no_duplicates()
    }

    /// The value a key stands for.
    pub open spec fn at(&self, key: K::Model) -> V {
        self.entries()[self.keys().index_of(key)].1
    }

    /// The table as a map.
    pub open spec fn view(&self) -> Map<K::Model, V> {
        Map::new(|key: K::Model| self.keys().contains(key), |key: K::Model| self.at(key))
    }

    /// In a table an entry's value is what its key stands for.
    pub proof fn entry_is_at(&self, i: int)
        requires
            self.wf(),
            0 <= i < self.entries().len(),
        ensures
            self@.contains_key(self.keys()[i]),
            self@[self.keys()[i]] == self.entries()[i].1,
    {
        let key = self.keys()[i];
        assert(self.keys().contains(key));
        let j = self.keys().index_of(key);
        assert(self.keys()[j] == key);
        assert(i == j);
    }

    /// A table has as many keys as it has entries.
    pub proof fn keys_are_counted_once(&self)
        requires
            self.wf(),
        ensures
            self@.dom().finite(),
            self@.dom().len() == self.entries().len(),
    {
        self.keys().unique_seq_to_set();
        assert(self@.dom() =~= self.keys().to_set());
    }

    /// A table with nothing in it.
    pub fn new() -> (table: Self)
        ensures
            table.wf(),
            table.entries() == Seq::<(K, V)>::empty(),
            table@ == Map::<K::Model, V>::empty(),
    {
        let table = Table { entries: Vec::new() };
        proof {
            assert(table@ =~= Map::<K::Model, V>::empty());
        }
        table
    }

    /// How many keys there are.
    pub fn len(&self) -> (n: usize)
        ensures
            n == self.entries().len(),
    {
        self.entries.len()
    }

    /// The entry at a place in the order.
    pub fn entry(&self, i: usize) -> (entry: &(K, V))
        requires
            i < self.entries().len(),
        ensures
            *entry == self.entries()[i as int],
    {
        &self.entries[i]
    }

    fn position(&self, key: &K) -> (at: Option<usize>)
        ensures
            match at {
                Some(i) => i < self.entries().len() && self.keys()[i as int] == key.model(),
                None => !self.keys().contains(key.model()),
            },
    {
        for i in 0..self.entries.len()
            invariant
                forall|j: int| 0 <= j < i ==> #[trigger] self.keys()[j] != key.model(),
        {
            if self.entries[i].0.same(key) {
                return Some(i);
            }
        }
        None
    }

    /// Whether a key is there.
    pub fn contains(&self, key: &K) -> (r: bool)
        ensures
            r == self.keys().contains(key.model()),
            r == self@.contains_key(key.model()),
    {
        match self.position(key) {
            Some(i) => {
                proof {
                    assert(self.keys()[i as int] == key.model());
                }
                true
            },
            None => false,
        }
    }

    /// The value a key stands for.
    pub fn get(&self, key: &K) -> (value: Option<&V>)
        requires
            self.wf(),
        ensures
            match value {
                Some(v) => self@.contains_key(key.model()) && *v == self@[key.model()],
                None => !self@.contains_key(key.model()),
            },
    {
        match self.position(key) {
            Some(i) => {
                proof {
                    self.entry_is_at(i as int);
                }
                Some(&self.entries[i].1)
            },
            None => None,
        }
    }

    /// Let a key stand for a value, in place of what it stood for before.
    pub fn insert(&mut self, key: K, value: V)
        requires
            old(self).wf(),
        ensures
            final(self).wf(),
            final(self)@ == old(self)@.insert(key.model(), value),
            final(self).keys() == (if old(self).keys().contains(key.model()) {
                old(self).keys()
            } else {
                old(self).keys().push(key.model())
            }),
            final(self).entries() == with_entry(old(self).entries(), key, value),
    {
        let ghost model = key.model();
        match self.position(&key) {
            Some(i) => {
                self.entries[i] = (key, value);
                proof {
                    assert(self.keys() =~= old(self).keys());
                    assert(old(self).keys()[i as int] == model);
                    let at = old(self).keys().index_of(model);
                    assert(old(self).keys()[at] == model);
                    assert(at == i);
                    assert forall|k: K::Model| self.keys().contains(k) implies self.at(k) == (
                    if k == model {
                        value
                    } else {
                        old(self).at(k)
                    }) by {
                        let j = self.keys().index_of(k);
                        assert(self.keys()[j] == k);
                    }
                    assert(self@ =~= old(self)@.insert(model, value));
                }
            },
            None => {
                self.entries.push((key, value));
                proof {
                    assert(self.keys() =~= old(self).keys().push(model));
                    assert forall|k: K::Model| #[trigger] old(self).keys().contains(
                        k,
                    ) implies self.keys().contains(k) && self.at(k) == old(self).at(k) by {
                        let i = old(self).keys().index_of(k);
                        assert(self.keys()[i] == k);
                        let j = self.keys().index_of(k);
                        assert(self.keys()[j] == k);
                        assert(i == j);
                    }
                    let last = self.keys().len() - 1;
                    assert(self.keys()[last] == model);
                    let j = self.keys().index_of(model);
                    assert(self.keys()[j] == model);
                    assert(j == last);
                    assert(self.keys().contains(model));
                    assert(self.at(model) == value);
                    assert(!old(self)@.contains_key(model));
                    assert forall|k: K::Model| #[trigger] self.keys().contains(k) implies k == model
                        || old(self).keys().contains(k) by {
                        let i = self.keys().index_of(k);
                        assert(self.keys()[i] == k);
                        if i < last {
                            assert(old(self).keys()[i] == k);
                        }
                    }
                    assert forall|k: K::Model| self@.contains_key(k) == old(self)@.insert(
                        model,
                        value,
                    ).contains_key(k) by {
                        if old(self)@.contains_key(k) {
                            assert(old(self).keys().contains(k));
                            assert(self.keys().contains(k));
                        }
                        if self@.contains_key(k) {
                            assert(self.keys().contains(k));
                        }
                    }
                    assert forall|k: K::Model| self@.contains_key(k) implies self@[k] == old(
                        self,
                    )@.insert(model, value)[k] by {}
                    assert(self@ =~= old(self)@.insert(model, value));
                }
            },
        }
    }

    proof fn removed(before: Self, after: Self, i: int)
        requires
            before.wf(),
            0 <= i < before.entries().len(),
            after.entries() == before.entries().remove(i),
        ensures
            after.wf(),
            after.keys() == before.keys().remove(i),
            after@ == before@.remove(before.keys()[i]),
    {
        let key = before.keys()[i];
        assert(after.keys() =~= before.keys().remove(i));
        assert forall|p: int, q: int|
            0 <= p < after.keys().len() && 0 <= q < after.keys().len() && p != q implies after.keys()[p]
            != after.keys()[q] by {
            let pp = if p < i { p } else { p + 1 };
            let qq = if q < i { q } else { q + 1 };
            assert(after.keys()[p] == before.keys()[pp]);
            assert(after.keys()[q] == before.keys()[qq]);
        }
        assert forall|k: K::Model| after.keys().contains(k) implies k != key
            && before.keys().contains(k) && after.at(k) == before.at(k) by {
            let p = after.keys().index_of(k);
            assert(after.keys()[p] == k);
            let pp = if p < i { p } else { p + 1 };
            assert(before.keys()[pp] == k);
            let q = before.keys().index_of(k);
            assert(before.keys()[q] == k);
            assert(q == pp);
        }
        assert forall|k: K::Model| k != key && before.keys().contains(k) implies after.keys().contains(
            k,
        ) by {
            let q = before.keys().index_of(k);
            assert(before.keys()[q] == k);
            let p = if q < i { q } else { q - 1 };
            assert(after.keys()[p] == k);
        }
        assert(after@ =~= before@.remove(key));
    }

    /// Take the entry at a place in the order out.
    pub fn remove_at(&mut self, i: usize) -> (entry: (K, V))
        requires
            old(self).wf(),
            i < old(self).entries().len(),
        ensures
            entry == old(self).entries()[i as int],
            final(self).wf(),
            final(self).entries() == old(self).entries().remove(i as int),
            final(self).keys() == old(self).keys().remove(i as int),
            final(self)@ == old(self)@.remove(old(self).keys()[i as int]),
    {
        let entry = self.entries.remove(i);
        proof {
            Self::removed(*old(self), *self, i as int);
        }
        entry
    }

    /// Take a key out.
    pub fn remove(&mut self, key: &K) -> (value: Option<V>)
        requires
            old(self).wf(),
        ensures
            final(self).wf(),
            final(self)@ == old(self)@.remove(key.model()),
            value == (if old(self)@.contains_key(key.model()) {
                Some(old(self)@[key.model()])
            } else {
                None
            }),
    {
        match self.position(key) {
            Some(i) => {
                proof {
                    self.entry_is_at(i as int);
                }
                let (_, value) = self.remove_at(i);
                Some(value)
            },
            None => {
                proof {
                    assert(self@ =~= self@.remove(key.model()));
                }
                None
            },
        }
    }

    /// Take the marked entries out and hand them over, in order.
    pub fn sift(&mut self, marks: &Vec<bool>) -> (out: Vec<(K, V)>)
        requires
            old(self).wf(),
            marks@.len() == old(self).entries().len(),
        ensures
            final(self).wf(),
            final(self).entries() == marked(old(self).entries(), marks@, false),
            out@ == marked(old(self).entries(), marks@, true),
    {
        let ghost all = self.entries@;
        let mut entries: Vec<(K, V)> = Vec::new();
        std::mem::swap(&mut entries, &mut self.entries);
        let mut out: Vec<(K, V)> = Vec::new();
        let mut i: usize = 0;
        let n = marks.len();
        for entry in it: entries
            invariant
                it.seq() == all,
                n == all.len(),
                i == it.index(),
                marks@.len() == all.len(),
                self.entries@ == marked(all.take(i as int), marks@, false),
                out@ == marked(all.take(i as int), marks@, true),
        {
            proof {
                assert(all.take(i + 1).drop_last() =~= all.take(i as int));
                assert(all.take(i + 1).last() == all[i as int]);
            }
            if marks[i] {
                out.push(entry);
            } else {
                self.entries.push(entry);
            }
            i = i + 1;
        }
        proof {
            assert(all.take(all.len() as int) =~= all);
            marks_keep_keys_apart(all, marks@, false);
        }
        out
    }

    /// Take everything out.
    pub fn clear(&mut self)
        ensures
            final(self).wf(),
            final(self).entries() == Seq::<(K, V)>::empty(),
            final(self)@ == Map::<K::Model, V>::empty(),
    {
        self.entries.clear();
        proof {
            assert(self@ =~= Map::<K::Model, V>::empty());
        }
    }
}

proof fn marked_are_entries<K, V>(entries: Seq<(K, V)>, marks: Seq<bool>, way: bool, i: int)
    requires
        0 <= i < marked(entries, marks, way).len(),
    ensures
        exists|j: int| 0 <= j < entries.len() && entries[j] == marked(entries, marks, way)[i],
    decreases entries.len(),
{
    let shorter = entries.drop_last();
    let before = marked(shorter, marks, way);
    if i < before.len() {
        marked_are_entries(shorter, marks, way, i);
        let j = choose|j: int| 0 <= j < shorter.len() && shorter[j] == before[i];
        assert(entries[j] == before[i]);
    } else {
        assert(entries[entries.len() - 1] == marked(entries, marks, way)[i]);
    }
}

/// Where no key stands twice, none does among those that are marked.
proof fn marks_keep_keys_apart<K: Key, V>(entries: Seq<(K, V)>, marks: Seq<bool>, way: bool)
    requires
        keys_of(entries).no_duplicates(),
    ensures
        keys_of(marked(entries, marks, way)).no_duplicates(),
    decreases entries.len(),
{
    if entries.len() > 0 {
        let shorter = entries.drop_last();
        let keys = keys_of(entries);
        assert forall|p: int, q: int|
            0 <= p < shorter.len() && 0 <= q < shorter.len() && p != q implies keys_of(shorter)[p]
            != keys_of(shorter)[q] by {
            assert(keys[p] != keys[q]);
        }
        marks_keep_keys_apart(shorter, marks, way);
        let before = marked(shorter, marks, way);
        let now = keys_of(marked(entries, marks, way));
        assert forall|p: int, q: int|
            0 <= p < now.len() && 0 <= q < now.len() && p != q implies now[p] != now[q] by {
            let lo = if p < q { p } else { q };
            let hi = if p < q { q } else { p };
            assert(keys_of(before)[lo] == now[lo]);
            if hi < before.len() {
                assert(keys_of(before)[hi] == now[hi]);
            } else {
                marked_are_entries(shorter, marks, way, lo);
                let j = choose|j: int| 0 <= j < shorter.len() && shorter[j] == before[lo];
                assert(keys[j] == now[lo]);
                assert(keys[entries.len() - 1] == now[hi]);
            }
        }
    }
}

} // verus!
