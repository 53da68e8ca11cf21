//! A small map: a list of entries in which no key occurs twice.

use vstd::prelude::*;

use crate::text::same;

verus! {

/// What can be the key of a table: a value that stands for a mathematical one.
pub trait TableKey: Sized {
    type Model;

    spec fn model(&self) -> Self::Model;

    fn same_key(&self, other: &Self) -> (r: bool)
        ensures
            r == (self.model() == other.model()),
    ;
}

impl TableKey for String {
    type Model = Seq<char>;

    open spec fn model(&self) -> Seq<char> {
        self@
    }

    fn same_key(&self, other: &Self) -> (r: bool) {
        same(self.as_str(), other.as_str())
    }
}

/// The map that a list of entries stands for.
pub open spec fn table_of<K: TableKey, V>(entries: Seq<(K, V)>) -> Map<K::Model, V>
    decreases entries.len(),
{
    if entries.len() == 0 {
        Map::empty()
    } else {
        table_of(entries.drop_last()).insert(entries.last().0.model(), entries.last().1)
    }
}

pub open spec fn distinct_keys<K: TableKey, V>(entries: Seq<(K, V)>) -> bool {
    forall|i: int, j: int|
        0 <= i < j < entries.len() ==> (#[trigger] entries[i]).0.model() != (
        #[trigger] entries[j]).0.model()
}

pub proof fn lemma_table<K: TableKey, V>(entries: Seq<(K, V)>)
    requires
        distinct_keys(entries),
    ensures
        forall|i: int|
            0 <= i < entries.len() ==> table_of(entries).contains_key(
                (#[trigger] entries[i]).0.model(),
            ) && table_of(entries)[entries[i].0.model()] == entries[i].1,
        forall|k: K::Model|
            #[trigger] table_of(entries).contains_key(k) ==> exists|i: int|
                0 <= i < entries.len() && (#[trigger] entries[i]).0.model() == k,
        table_of(entries).dom().finite(),
        table_of(entries).dom().len() == entries.len(),
    decreases entries.len(),
{
    if entries.len() > 0 {
        let front = entries.drop_last();
        let last = entries.last();
        assert forall|i: int, j: int| 0 <= i < j < front.len() implies (
        #[trigger] front[i]).0.model() != (#[trigger] front[j]).0.model() by {
            assert(front[i] == entries[i] && front[j] == entries[j]);
        }
        lemma_table(front);
        let m = table_of(front);
        let whole = table_of(entries);
        if m.contains_key(last.0.model()) {
            let i = choose|i: int| 0 <= i < front.len() && (#[trigger] front[i]).0.model()
                == last.0.model();
            assert(entries[i].0.model() != entries[entries.len() - 1].0.model());
        }
        assert(whole.dom() =~= m.dom().insert(last.0.model()));
        assert forall|i: int| 0 <= i < entries.len() implies whole.contains_key(
            (#[trigger] entries[i]).0.model(),
        ) && whole[entries[i].0.model()] == entries[i].1 by {
            if i < front.len() {
                assert(front[i] == entries[i]);
                assert(entries[i].0.model() != entries[entries.len() - 1].0.model());
            }
        }
        assert forall|k: K::Model| #[trigger] whole.contains_key(k) implies exists|i: int|
            0 <= i < entries.len() && (#[trigger] entries[i]).0.model() == k by {
            if m.contains_key(k) {
                let i = choose|i: int|
                    0 <= i < front.len() && (#[trigger] front[i]).0.model() == k;
                assert(entries[i].0.model() == k);
            } else {
                assert(entries[entries.len() - 1].0.model() == k);
            }
        }
    } else {
        assert(table_of(entries).dom() =~= Set::<K::Model>::empty());
    }
}

/// A map whose entries are found by going through the list.
pub struct Table<K, V> {
    pub entries: Vec<(K, V)>,
}

impl<K: TableKey, V> View for Table<K, V> {
    type V = Map<K::Model, V>;

    open spec fn view(&self) -> Map<K::Model, V> {
        table_of(self.entries@)
    }
}

impl<K: TableKey, V> Table<K, V> {
    pub open spec fn well_formed(self) -> bool {
        distinct_keys(self.entries@)
    }

    pub fn new() -> (r: Self)
        ensures
            r.well_formed(),
            r@ == Map::<K::Model, V>::empty(),
            r.entries@.len() == 0,
    {
        Table { entries: Vec::new() }
    }

    pub fn len(&self) -> (r: usize)
        requires
            self.well_formed(),
        ensures
            r == self@.dom().len(),
            r == self.entries@.len(),
    {
        proof {
            lemma_table(self.entries@);
        }
        self.entries.len()
    }

    /// Where a key stands in the list.
    pub fn find(&self, key: &K) -> (r: Option<usize>)
        requires
            self.well_formed(),
        ensures
            match r {
                Some(i) => {
                    &&& i < self.entries@.len()
                    &&& self.entries@[i as int].0.model() == key.model()
                    &&& self@.contains_key(key.model())
                    &&& self@[key.model()] == self.entries@[i as int].1
                },
                None => !self@.contains_key(key.model()),
            },
    {
        proof {
            lemma_table(self.entries@);
        }
        let mut i: usize = 0;
        while i < self.entries.len()
            invariant
                i <= self.entries.len(),
                forall|j: int|
                    0 <= j < i ==> (#[trigger] self.entries@[j]).0.model() != key.model(),
                forall|j: int|
                    0 <= j < self.entries@.len() ==> table_of(self.entries@).contains_key(
                        (#[trigger] self.entries@[j]).0.model(),
                    ) && table_of(self.entries@)[self.entries@[j].0.model()]
                        == self.entries@[j].1,
            decreases self.entries.len() - i,
        {
            if self.entries[i].0.same_key(key) {
                return Some(i);
            }
            i += 1;
        }
        None
    }

    pub fn get(&self, key: &K) -> (r: Option<&V>)
        requires
            self.well_formed(),
        ensures
            match r {
                Some(v) => self@.contains_key(key.model()) && *v == self@[key.model()],
                None => !self@.contains_key(key.model()),
            },
    {
        match self.find(key) {
            Some(i) => Some(&self.entries[i].1),
            None => None,
        }
    }

    /// Puts a value under a key, in the place of the one that was there.
    pub fn set(&mut self, key: K, value: V)
        requires
            old(self).well_formed(),
        ensures
            final(self).well_formed(),
            final(self)@ == old(self)@.insert(key.model(), value),
    {
        let ghost before = self.entries@;
        let ghost m = self@;
        proof {
            lemma_table(before);
        }
        match self.find(&key) {
            Some(i) => {
                let ghost changed = before.update(i as int, (key, value));
                self.entries.set(i, (key, value));
                proof {
                    lemma_table(changed);
                    assert(table_of(changed) =~= m.insert(key.model(), value)) by {
                        assert forall|k: K::Model| table_of(changed).contains_key(k) == m.insert(
                            key.model(),
                            value,
                        ).contains_key(k) by {
                            lemma_same_domain(before, changed, i as int, k);
                        }
                        assert forall|k: K::Model| #[trigger]
                            table_of(changed).contains_key(k) implies table_of(changed)[k]
                            == m.insert(key.model(), value)[k] by {
                            let j = choose|j: int|
                                0 <= j < changed.len() && (#[trigger] changed[j]).0.model() == k;
                            if j != i {
                                assert(changed[j] == before[j]);
                                assert(j < i || i < j);
                                assert(before[j].0.model() != before[i as int].0.model());
                            }
                        }
                    }
                }
            },
            None => {
                let ghost longer = before.push((key, value));
                self.entries.push((key, value));
                proof {
                    assert(longer.drop_last() =~= before);
                    assert forall|i: int, j: int| 0 <= i < j < longer.len() implies (
                    #[trigger] longer[i]).0.model() != (#[trigger] longer[j]).0.model() by {
                        assert(longer[i] == before[i]);
                        if j < before.len() {
                            assert(longer[j] == before[j]);
                        }
                    }
                }
            },
        }
    }

    /// Takes the entry at a place of the list out.
    pub fn remove_at(&mut self, at: usize) -> (r: (K, V))
        requires
            old(self).well_formed(),
            at < old(self).entries@.len(),
        ensures
            final(self).well_formed(),
            final(self).entries@ == old(self).entries@.remove(at as int),
            r == old(self).entries@[at as int],
            final(self)@ == old(self)@.remove(old(self).entries@[at as int].0.model()),
    {
        let ghost before = self.entries@;
        let ghost m = self@;
        let ghost shorter = before.remove(at as int);
        let ghost gone = before[at as int].0.model();
        let r = self.entries.remove(at);
        proof {
            assert forall|i: int, j: int| 0 <= i < j < shorter.len() implies (
            #[trigger] shorter[i]).0.model() != (#[trigger] shorter[j]).0.model() by {
                let a = if i < at {
                    i
                } else {
                    i + 1
                };
                let b = if j < at {
                    j
                } else {
                    j + 1
                };
                assert(shorter[i] == before[a] && shorter[j] == before[b]);
            }
            lemma_table(before);
            lemma_table(shorter);
            assert forall|k: K::Model| table_of(shorter).contains_key(k) == m.remove(
                gone,
            ).contains_key(k) by {
                if table_of(shorter).contains_key(k) {
                    let i = choose|i: int|
                        0 <= i < shorter.len() && (#[trigger] shorter[i]).0.model() == k;
                    let a = if i < at {
                        i
                    } else {
                        i + 1
                    };
                    assert(shorter[i] == before[a]);
                    assert(a < at || at < a);
                    assert(before[a].0.model() != before[at as int].0.model());
                } else if m.contains_key(k) && k != gone {
                    let a = choose|a: int|
                        0 <= a < before.len() && (#[trigger] before[a]).0.model() == k;
                    let i = if a < at {
                        a
                    } else {
                        a - 1
                    };
                    assert(shorter[i] == before[a]);
                }
            }
            assert forall|k: K::Model| #[trigger]
                table_of(shorter).contains_key(k) implies table_of(shorter)[k] == m.remove(
                gone,
            )[k] by {
                let i = choose|i: int|
                    0 <= i < shorter.len() && (#[trigger] shorter[i]).0.model() == k;
                let a = if i < at {
                    i
                } else {
                    i + 1
                };
                assert(shorter[i] == before[a]);
                assert(a < at || at < a);
                assert(before[a].0.model() != before[at as int].0.model());
            }
            assert(table_of(shorter) =~= m.remove(gone));
        }
        r
    }

    pub fn remove(&mut self, key: &K) -> (r: bool)
        requires
            old(self).well_formed(),
        ensures
            final(self).well_formed(),
            r == old(self)@.contains_key(key.model()),
            final(self)@ == old(self)@.remove(key.model()),
    {
        match self.find(key) {
            Some(i) => {
                let gone = self.remove_at(i);
                true
            },
            None => {
                assert(self@.remove(key.model()) =~= self@);
                false
            },
        }
    }
}

proof fn lemma_same_domain<K: TableKey, V>(
    before: Seq<(K, V)>,
    changed: Seq<(K, V)>,
    at: int,
    k: K::Model,
)
    requires
        distinct_keys(before),
        distinct_keys(changed),
        0 <= at < before.len(),
        changed == before.update(at, changed[at]),
        changed[at].0.model() == before[at].0.model(),
    ensures
        table_of(changed).contains_key(k) == table_of(before).contains_key(k),
{
    lemma_table(before);
    lemma_table(changed);
    if table_of(changed).contains_key(k) {
        let j = choose|j: int| 0 <= j < changed.len() && (#[trigger] changed[j]).0.model() == k;
        assert(before[j].0.model() == k);
    }
    if table_of(before).contains_key(k) {
        let j = choose|j: int| 0 <= j < before.len() && (#[trigger] before[j]).0.model() == k;
        assert(changed[j].0.model() == k);
    }
}

} // verus!
