//! A small keyed table: the shape in which the contract's persistent entries
//! are held. Its view is a mathematical map from keys to the views of values.

use vstd::prelude::*;

verus! {

/// A plain value that can serve as a key of a [`Table`].
pub trait Key: Copy {
    /// Whether two keys are the same value.
    fn same(&self, other: &Self) -> (r: bool)
        ensures
            r == (*self == *other),
    ;
}

impl Key for u64 {
    fn same(&self, other: &Self) -> (r: bool) {
        *self == *other
    }
}

/// A value that can be copied so that the copy has the same view.
pub trait Duplicate: View + Sized {
    /// A copy of `self`.
    fn duplicate(&self) -> (r: Self)
        ensures
            r@ == self@,
    ;
}

/// Values of type `V` under keys of type `K`, at most one per key.
pub struct Table<K: Key, V: View> {
    entries: Vec<(K, V)>,
}

/// The entry at position `i` has key `key`.
spec fn at<K: Key, V: View>(entries: Seq<(K, V)>, key: K, i: int) -> bool {
    0 <= i < entries.len() && entries[i].0 == key
}

/// The map that a list of entries stands for.
spec fn contents<K: Key, V: View>(entries: Seq<(K, V)>) -> Map<K, V::V> {
    Map::new(
        |key: K| exists|i: int| at(entries, key, i),
        |key: K| entries[choose|i: int| at(entries, key, i)].1@,
    )
}

/// No key occurs at two positions.
spec fn distinct<K: Key, V: View>(entries: Seq<(K, V)>) -> bool {
    forall|i: int, j: int|
        0 <= i < entries.len() && 0 <= j < entries.len() && i != j ==> entries[i].0
            != entries[j].0
}

/// In a list without repeated keys, the entry at `i` is what its key maps to.
proof fn lemma_contents_at<K: Key, V: View>(entries: Seq<(K, V)>, i: int)
    requires
        distinct(entries),
        0 <= i < entries.len(),
    ensures
        contents(entries).contains_key(entries[i].0),
        contents(entries)[entries[i].0] == entries[i].1@,
{
    let key = entries[i].0;
    assert(at(entries, key, i));
    let j = choose|j: int| at(entries, key, j);
    assert(at(entries, key, j));
    assert(i == j);
}

impl<K: Key, V: View> View for Table<K, V> {
    type V = Map<K, V::V>;

    closed spec fn view(&self) -> Map<K, V::V> {
        contents(self.entries@)
    }
}

impl<K: Key, V: View> Table<K, V> {
    #[verifier::type_invariant]
    spec fn keys_are_distinct(self) -> bool {
        distinct(self.entries@)
    }

    /// A table without entries.
    pub fn new() -> (r: Self)
        ensures
            r@ == Map::<K, V::V>::empty(),
    {
        let r = Table { entries: Vec::new() };
        assert(r@ =~= Map::<K, V::V>::empty());
        r
    }

    /// The position of `key`, if it is present.
    fn position(&self, key: &K) -> (r: Option<usize>)
        ensures
            match r {
                Some(i) => at(self.entries@, *key, i as int),
                None => !self@.contains_key(*key),
            },
    {
        let mut i: usize = 0;
        while i < self.entries.len()
            invariant
                i <= self.entries@.len(),
                forall|j: int| 0 <= j < i ==> self.entries@[j].0 != *key,
            decreases self.entries@.len() - i,
        {
            if self.entries[i].0.same(key) {
                return Some(i);
            }
            i += 1;
        }
        None
    }

    /// The value under `key`, if there is one.
    pub fn get(&self, key: &K) -> (r: Option<&V>)
        ensures
            r is Some <==> self@.contains_key(*key),
            r matches Some(v) ==> v@ == self@[*key],
    {
        proof {
            use_type_invariant(self);
        }
        match self.position(key) {
            Some(i) => {
                proof {
                    lemma_contents_at(self.entries@, i as int);
                }
                Some(&self.entries[i].1)
            },
            None => None,
        }
    }

    /// Puts `value` under `key`, in place of what was there.
    pub fn set(&mut self, key: K, value: V)
        ensures
            final(self)@ == old(self)@.insert(key, value@),
    {
        proof {
            use_type_invariant(&*self);
        }
        let ghost before = self.entries@;
        let position = self.position(&key);
        let mut entries: Vec<(K, V)> = Vec::new();
        std::mem::swap(&mut entries, &mut self.entries);
        match position {
            Some(i) => {
                entries.set(i, (key, value));
                assert(entries@ == before.update(i as int, (key, value)));
            },
            None => {
                assert forall|i: int| 0 <= i < before.len() implies before[i].0 != key by {
                    lemma_contents_at(before, i);
                }
                entries.push((key, value));
            },
        }
        let ghost after = entries@;
        proof {
            assert(distinct(after));
            assert forall|k: K|
                contents(after).contains_key(k) <==> contents(before).insert(
                    key,
                    value@,
                ).contains_key(k) by {
                if contents(before).contains_key(k) {
                    let i = choose|i: int| at(before, k, i);
                    assert(at(before, k, i));
                    assert(at(after, k, i));
                }
                if k == key {
                    let i = if position is Some {
                        position->Some_0 as int
                    } else {
                        before.len() as int
                    };
                    assert(at(after, k, i));
                }
                if contents(after).contains_key(k) {
                    let i = choose|i: int| at(after, k, i);
                    assert(at(after, k, i));
                    assert(k == key || at(before, k, i));
                }
            }
            assert forall|k: K| contents(after).contains_key(k) implies contents(after)[k]
                == contents(before).insert(key, value@)[k] by {
                let i = choose|i: int| at(after, k, i);
                assert(at(after, k, i));
                lemma_contents_at(after, i);
                if k != key {
                    assert(at(before, k, i));
                    lemma_contents_at(before, i);
                }
            }
            assert(contents(after) =~= contents(before).insert(key, value@));
        }
        self.entries = entries;
    }

    /// Takes out what is under `key`, if anything.
    pub fn remove(&mut self, key: &K)
        ensures
            final(self)@ == old(self)@.remove(*key),
    {
        proof {
            use_type_invariant(&*self);
        }
        let ghost before = self.entries@;
        let position = self.position(key);
        match position {
            Some(at_index) => {
                let mut entries: Vec<(K, V)> = Vec::new();
                std::mem::swap(&mut entries, &mut self.entries);
                let _removed = entries.remove(at_index);
                let ghost after = entries@;
                proof {
                    let p = at_index as int;
                    assert forall|i: int, j: int|
                        0 <= i < after.len() && 0 <= j < after.len() && i != j implies after[i].0
                        != after[j].0 by {
                        let oi = if i < p { i } else { i + 1 };
                        let oj = if j < p { j } else { j + 1 };
                        assert(after[i] == before[oi]);
                        assert(after[j] == before[oj]);
                    }
                    assert forall|k: K|
                        contents(after).contains_key(k) <==> contents(before).remove(
                            *key,
                        ).contains_key(k) by {
                        if contents(before).contains_key(k) && k != *key {
                            let i = choose|i: int| at(before, k, i);
                            assert(at(before, k, i));
                            assert(at(after, k, if i < p { i } else { i - 1 }));
                        }
                        if contents(after).contains_key(k) {
                            let i = choose|i: int| at(after, k, i);
                            assert(at(after, k, i));
                            assert(at(before, k, if i < p { i } else { i + 1 }));
                        }
                    }
                    assert forall|k: K| contents(after).contains_key(k) implies contents(after)[k]
                        == contents(before)[k] by {
                        let i = choose|i: int| at(after, k, i);
                        assert(at(after, k, i));
                        lemma_contents_at(after, i);
                        let o = if i < p { i } else { i + 1 };
                        assert(after[i] == before[o]);
                        lemma_contents_at(before, o);
                    }
                    assert(contents(after) =~= contents(before).remove(*key));
                }
                self.entries = entries;
            },
            None => {
                assert(old(self)@.remove(*key) =~= old(self)@);
            },
        }
    }
}

impl<K: Key, V: Duplicate> Duplicate for Table<K, V> {
    fn duplicate(&self) -> (r: Self) {
        proof {
            use_type_invariant(self);
        }
        let mut entries: Vec<(K, V)> = Vec::new();
        let mut i: usize = 0;
        while i < self.entries.len()
            invariant
                i <= self.entries@.len(),
                entries@.len() == i,
                forall|j: int|
                    0 <= j < i ==> #[trigger] entries@[j].0 == self.entries@[j].0 && entries@[j].1@
                        == self.entries@[j].1@,
            decreases self.entries@.len() - i,
        {
            entries.push((self.entries[i].0, self.entries[i].1.duplicate()));
            i += 1;
        }
        proof {
            let source = self.entries@;
            assert forall|k: K, j: int| at(entries@, k, j) <==> #[trigger] at(source, k, j) by {}
            assert forall|k: K| contents(source).contains_key(k) implies contents(
                entries@,
            ).contains_key(k) && contents(entries@)[k] == contents(source)[k] by {
                let j = choose|j: int| at(source, k, j);
                assert(at(source, k, j));
                assert(at(entries@, k, j));
                lemma_contents_at(source, j);
                lemma_contents_at(entries@, j);
            }
            assert forall|k: K| contents(entries@).contains_key(k) implies contents(
                source,
            ).contains_key(k) by {
                let j = choose|j: int| at(entries@, k, j);
                assert(at(entries@, k, j));
                assert(at(source, k, j));
            }
            assert(contents(entries@) =~= contents(source));
        }
        Table { entries }
    }
}

impl<T: Copy> Duplicate for Vec<T> {
    fn duplicate(&self) -> (r: Self) {
        let mut r: Vec<T> = Vec::new();
        let mut i: usize = 0;
        while i < self.len()
            invariant
                i <= self@.len(),
                r@ == self@.take(i as int),
            decreases self@.len() - i,
        {
            r.push(self[i]);
            assert(self@.take(i + 1) =~= self@.take(i as int).push(self@[i as int]));
            i += 1;
        }
        assert(self@.take(i as int) =~= self@);
        r
    }
}

} // verus!
