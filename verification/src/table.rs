//! A small map from texts to values that keeps the order in which keys first came.

use vstd::prelude::*;
#[allow(unused_imports)]
use crate::text::{listed, same, texts};

verus! {

/// One key with its value.
#[derive(Debug, Clone)]
pub struct Entry<V> {
    pub key: String,
    pub value: V,
}

/// A map from texts to values. No key occurs twice.
#[derive(Debug, Clone)]
pub struct Table<V> {
    entries: Vec<Entry<V>>,
}

/// The map that a list of keys and values stands for, where no key occurs twice.
pub open spec fn map_of<V>(list: Seq<(Seq<char>, V)>) -> Map<Seq<char>, V> {
    Map::new(
        |k: Seq<char>| exists|i: int| 0 <= i < list.len() && (#[trigger] list[i]).0 == k,
        |k: Seq<char>|
            list[choose|i: int| 0 <= i < list.len() && (#[trigger] list[i]).0 == k].1,
    )
}

/// Whether no key occurs twice.
pub open spec fn keys_differ<V>(list: Seq<(Seq<char>, V)>) -> bool {
    forall|i: int, j: int|
        0 <= i < list.len() && 0 <= j < list.len() && i != j ==> (#[trigger] list[i]).0 != (
        #[trigger] list[j]).0
}

/// With distinct keys, the entry at `i` is what the map holds for its key.
pub proof fn lemma_map_of_entry<V>(list: Seq<(Seq<char>, V)>, i: int)
    requires
        keys_differ(list),
        0 <= i < list.len(),
    ensures
        map_of(list).contains_key(list[i].0),
        map_of(list)[list[i].0] == list[i].1,
{
}

impl<V> Table<V> {
    /// Keys and values in order.
    pub closed spec fn list(self) -> Seq<(Seq<char>, V)> {
        self.entries@.map_values(|e: Entry<V>| (e.key@, e.value))
    }

    /// No key occurs twice.
    pub open spec fn wf(self) -> bool {
        keys_differ(self.list())
    }

    /// The map this table stands for.
    pub open spec fn view(self) -> Map<Seq<char>, V> {
        map_of(self.list())
    }

    pub fn new() -> (r: Table<V>)
        ensures
            r.list() == Seq::<(Seq<char>, V)>::empty(),
            r.wf(),
            r@ == Map::<Seq<char>, V>::empty(),
    {
        let r = Table { entries: Vec::new() };
        assert(r.list() =~= Seq::<(Seq<char>, V)>::empty());
        assert(r@ =~= Map::<Seq<char>, V>::empty());
        r
    }

    /// How many keys there are.
    pub fn len(&self) -> (r: usize)
        ensures
            r == self.list().len(),
    {
        self.entries.len()
    }

    /// The value of the `i`th key.
    pub fn value_at(&self, i: usize) -> (r: &V)
        requires
            i < self.list().len(),
        ensures
            *r == self.list()[i as int].1,
    {
        &self.entries[i].value
    }

    /// The `i`th key.
    pub fn key_at(&self, i: usize) -> (r: &String)
        requires
            i < self.list().len(),
        ensures
            r@ == self.list()[i as int].0,
    {
        &self.entries[i].key
    }

    /// Where a key stands.
    fn position(&self, key: &str) -> (r: Option<usize>)
        requires
            self.wf(),
        ensures
            r is Some <==> self@.contains_key(key@),
            r matches Some(i) ==> i < self.list().len() && self.list()[i as int].0 == key@
                && self@[key@] == self.list()[i as int].1,
    {
        let mut i: usize = 0;
        while i < self.entries.len()
            invariant
                i <= self.entries@.len(),
                self.wf(),
                forall|k: int| 0 <= k < i ==> (#[trigger] self.list()[k]).0 != key@,
            decreases self.entries@.len() - i,
        {
            assert(self.list()[i as int].0 == self.entries@[i as int].key@);
            if same(self.entries[i].key.as_str(), key) {
                proof {
                    lemma_map_of_entry(self.list(), i as int);
                }
                return Some(i);
            }
            i += 1;
        }
        None
    }

    /// What is held for a key.
    pub fn get(&self, key: &str) -> (r: Option<&V>)
        requires
            self.wf(),
        ensures
            r is Some <==> self@.contains_key(key@),
            r matches Some(v) ==> *v == self@[key@],
    {
        match self.position(key) {
            Some(i) => Some(&self.entries[i].value),
            None => None,
        }
    }

    /// Whether a key is held.
    pub fn has(&self, key: &str) -> (r: bool)
        requires
            self.wf(),
        ensures
            r == self@.contains_key(key@),
    {
        self.position(key).is_some()
    }

    /// Sets the value of a key.
    pub fn insert(&mut self, key: String, value: V)
        requires
            old(self).wf(),
        ensures
            final(self).wf(),
            final(self)@ == old(self)@.insert(key@, value),
    {
        let ghost before = self.list();
        let ghost k = key@;
        match self.position(key.as_str()) {
            Some(i) => {
                self.entries[i] = Entry { key, value };
                assert(self.list() =~= before.update(i as int, (k, value)));
                proof {
                    lemma_map_of_update(before, i as int, value);
                }
            },
            None => {
                self.entries.push(Entry { key, value });
                assert(self.list() =~= before.push((k, value)));
                proof {
                    lemma_map_of_push(before, k, value);
                }
            },
        }
    }

    fn remove_at(&mut self, i: usize)
        requires
            old(self).wf(),
            i < old(self).list().len(),
        ensures
            final(self).wf(),
            final(self).list() == old(self).list().remove(i as int),
            final(self)@ == old(self)@.remove(old(self).list()[i as int].0),
    {
        let ghost before = self.list();
        self.entries.remove(i);
        assert(self.list() =~= before.remove(i as int));
        proof {
            lemma_map_of_remove(before, i as int);
        }
    }

    /// Forgets a key.
    pub fn remove(&mut self, key: &str)
        requires
            old(self).wf(),
        ensures
            final(self).wf(),
            final(self)@ == old(self)@.remove(key@),
    {
        match self.position(key) {
            Some(i) => {
                self.remove_at(i);
            },
            None => {
                assert(self@.remove(key@) =~= self@);
            },
        }
    }

    /// Forgets every key that is not in `keys`.
    pub fn retain_listed(&mut self, keys: &Vec<String>)
        requires
            old(self).wf(),
        ensures
            final(self).wf(),
            final(self)@ == old(self)@.restrict(texts(keys@).to_set()),
    {
        let ghost start = self@;
        let mut i: usize = 0;
        while i < self.entries.len()
            invariant
                self.wf(),
                i <= self.list().len(),
                self.list().len() == self.entries@.len(),
                forall|j: int|
                    0 <= j < i ==> texts(keys@).contains((#[trigger] self.list()[j]).0),
                forall|k: Seq<char>| #[trigger]
                    self@.contains_key(k) ==> start.contains_key(k) && start[k] == self@[k],
                forall|k: Seq<char>|
                    start.contains_key(k) && texts(keys@).contains(k)
                        ==> #[trigger] self@.contains_key(k),
            decreases self.list().len() - i,
        {
            let ghost before = self.list();
            let ghost was = self@;
            assert(before[i as int].0 == self.entries@[i as int].key@);
            if listed(keys, self.entries[i].key.as_str()) {
                i += 1;
            } else {
                self.remove_at(i);
                assert forall|j: int| 0 <= j < i implies texts(keys@).contains(
                    (#[trigger] self.list()[j]).0,
                ) by {
                    assert(self.list()[j] == before[j]);
                }
            }
        }
        assert(self@ =~= start.restrict(texts(keys@).to_set())) by {
            assert forall|k: Seq<char>| self@.contains_key(k) implies texts(keys@).contains(k) by {
                let j = choose|j: int| 0 <= j < self.list().len() && (#[trigger] self.list()[j]).0
                    == k;
                assert(texts(keys@).contains(self.list()[j].0));
            }
        }
    }
}

/// The keys of a list.
pub open spec fn keys_of<V>(list: Seq<(Seq<char>, V)>) -> Seq<Seq<char>> {
    list.map_values(|e: (Seq<char>, V)| e.0)
}

/// A table holds as many keys as its list is long.
pub proof fn lemma_map_of_len<V>(list: Seq<(Seq<char>, V)>)
    requires
        keys_differ(list),
    ensures
        map_of(list).dom().finite(),
        map_of(list).dom().len() == list.len(),
{
    let keys = keys_of(list);
    assert(keys.no_duplicates());
    keys.unique_seq_to_set();
    vstd::seq_lib::seq_to_set_is_finite(keys);
    assert forall|k: Seq<char>| keys.to_set().contains(k) <==> map_of(list).dom().contains(k) by {
        if keys.contains(k) {
            let i = keys.index_of(k);
            assert(list[i].0 == k);
        }
        if map_of(list).contains_key(k) {
            let i = choose|i: int| 0 <= i < list.len() && (#[trigger] list[i]).0 == k;
            assert(keys[i] == k);
        }
    }
    assert(keys.to_set() =~= map_of(list).dom());
}

/// Replacing the value at one position replaces it in the map.
proof fn lemma_map_of_update<V>(list: Seq<(Seq<char>, V)>, i: int, value: V)
    requires
        keys_differ(list),
        0 <= i < list.len(),
    ensures
        keys_differ(list.update(i, (list[i].0, value))),
        map_of(list.update(i, (list[i].0, value))) == map_of(list).insert(list[i].0, value),
{
    let new = list.update(i, (list[i].0, value));
    assert(keys_differ(new)) by {
        assert forall|a: int, b: int|
            0 <= a < new.len() && 0 <= b < new.len() && a != b implies (#[trigger] new[a]).0 != (
        #[trigger] new[b]).0 by {
            assert(new[a].0 == list[a].0);
            assert(new[b].0 == list[b].0);
        }
    }
    assert forall|k: Seq<char>| #[trigger]
        map_of(new).contains_key(k) <==> map_of(list).insert(list[i].0, value).contains_key(k) by {
        if map_of(new).contains_key(k) {
            let a = choose|a: int| 0 <= a < new.len() && (#[trigger] new[a]).0 == k;
            assert(list[a].0 == k);
        }
        if map_of(list).contains_key(k) {
            let a = choose|a: int| 0 <= a < list.len() && (#[trigger] list[a]).0 == k;
            assert(new[a].0 == k);
        }
        assert(new[i].0 == list[i].0);
    }
    assert forall|k: Seq<char>| #[trigger] map_of(new).contains_key(k) implies map_of(new)[k]
        == map_of(list).insert(list[i].0, value)[k] by {
        let a = choose|a: int| 0 <= a < new.len() && (#[trigger] new[a]).0 == k;
        lemma_map_of_entry(new, a);
        assert(list[a].0 == k);
        lemma_map_of_entry(list, a);
    }
    assert(map_of(new) =~= map_of(list).insert(list[i].0, value));
}

/// Appending a new key adds it to the map.
proof fn lemma_map_of_push<V>(list: Seq<(Seq<char>, V)>, k: Seq<char>, value: V)
    requires
        keys_differ(list),
        !map_of(list).contains_key(k),
    ensures
        keys_differ(list.push((k, value))),
        map_of(list.push((k, value))) == map_of(list).insert(k, value),
{
    let new = list.push((k, value));
    let n = list.len() as int;
    assert forall|a: int| 0 <= a < n implies (#[trigger] new[a]) == list[a] && list[a].0 != k by {
        assert(map_of(list).contains_key(list[a].0));
    }
    assert(new[n] == (k, value));
    assert forall|x: Seq<char>| #[trigger]
        map_of(new).contains_key(x) <==> map_of(list).insert(k, value).contains_key(x) by {
        if map_of(new).contains_key(x) && x != k {
            let a = choose|a: int| 0 <= a < new.len() && (#[trigger] new[a]).0 == x;
            assert(list[a].0 == x);
        }
        if map_of(list).contains_key(x) {
            let a = choose|a: int| 0 <= a < list.len() && (#[trigger] list[a]).0 == x;
            assert(new[a].0 == x);
        }
        if x == k {
            assert(new[n].0 == x);
        }
    }
    assert forall|x: Seq<char>| #[trigger] map_of(new).contains_key(x) implies map_of(new)[x]
        == map_of(list).insert(k, value)[x] by {
        let a = choose|a: int| 0 <= a < new.len() && (#[trigger] new[a]).0 == x;
        lemma_map_of_entry(new, a);
        if a < n {
            lemma_map_of_entry(list, a);
        }
    }
    assert(map_of(new) =~= map_of(list).insert(k, value));
}

/// Taking an entry out takes its key out of the map.
proof fn lemma_map_of_remove<V>(list: Seq<(Seq<char>, V)>, i: int)
    requires
        keys_differ(list),
        0 <= i < list.len(),
    ensures
        keys_differ(list.remove(i)),
        map_of(list.remove(i)) == map_of(list).remove(list[i].0),
{
    let new = list.remove(i);
    assert forall|a: int| 0 <= a < new.len() implies (#[trigger] new[a]) == list[if a < i {
        a
    } else {
        a + 1
    }] by {}
    assert(keys_differ(new));
    assert forall|x: Seq<char>| #[trigger]
        map_of(new).contains_key(x) <==> map_of(list).remove(list[i].0).contains_key(x) by {
        if map_of(new).contains_key(x) {
            let a = choose|a: int| 0 <= a < new.len() && (#[trigger] new[a]).0 == x;
            let b = if a < i { a } else { a + 1 };
            assert(list[b].0 == x);
            assert(b != i);
        }
        if map_of(list).contains_key(x) && x != list[i].0 {
            let b = choose|b: int| 0 <= b < list.len() && (#[trigger] list[b]).0 == x;
            let a = if b < i { b } else { b - 1 };
            assert(new[a].0 == x);
        }
    }
    assert forall|x: Seq<char>| #[trigger] map_of(new).contains_key(x) implies map_of(new)[x]
        == map_of(list).remove(list[i].0)[x] by {
        let a = choose|a: int| 0 <= a < new.len() && (#[trigger] new[a]).0 == x;
        lemma_map_of_entry(new, a);
        lemma_map_of_entry(list, if a < i { a } else { a + 1 });
    }
    assert(map_of(new) =~= map_of(list).remove(list[i].0));
}

} // verus!
