//! A small map from strings to values, kept as a list without repeated keys.
use vstd::prelude::*;

verus! {

/// One key with its value in a [`KeyedList`].
#[derive(Debug, Clone)]
pub struct Entry<V> {
    pub key: String,
    pub value: V,
}

/// A map from strings to values, kept as a list in which no key occurs twice.
#[derive(Debug, Clone)]
pub struct KeyedList<V> {
    entries: Vec<Entry<V>>,
}

/// Whether no key occurs twice among `e`.
pub open spec fn distinct_keys<V>(e: Seq<Entry<V>>) -> bool {
    forall|i: int, j: int|
        0 <= i < e.len() && 0 <= j < e.len() && i != j ==> e[i].key@ != e[j].key@
}

/// Whether `k` is the key of some entry of `e`.
pub open spec fn has_key<V>(e: Seq<Entry<V>>, k: Seq<char>) -> bool {
    exists|i: int| 0 <= i < e.len() && e[i].key@ == k
}

/// The map that a list of entries stands for.
pub open spec fn entries_map<V>(e: Seq<Entry<V>>) -> Map<Seq<char>, V> {
    Map::new(
        |k: Seq<char>| has_key(e, k),
        |k: Seq<char>| e[choose|i: int| 0 <= i < e.len() && e[i].key@ == k].value,
    )
}

/// In a list without repeated keys, each entry gives the value of its key.
pub proof fn lemma_entries_map_at<V>(e: Seq<Entry<V>>, i: int)
    requires
        distinct_keys(e),
        0 <= i < e.len(),
    ensures
        entries_map(e).contains_key(e[i].key@),
        entries_map(e)[e[i].key@] == e[i].value,
{
    let k = e[i].key@;
    assert(has_key(e, k));
    let j = choose|j: int| 0 <= j < e.len() && e[j].key@ == k;
    assert(j == i);
}

/// Appending an entry whose key is new inserts it into the map.
proof fn lemma_push<V>(e: Seq<Entry<V>>, x: Entry<V>)
    requires
        distinct_keys(e),
        !has_key(e, x.key@),
    ensures
        distinct_keys(e.push(x)),
        entries_map(e.push(x)) =~= entries_map(e).insert(x.key@, x.value),
{
    let e2 = e.push(x);
    assert(distinct_keys(e2)) by {
        assert forall|i: int, j: int|
            0 <= i < e2.len() && 0 <= j < e2.len() && i != j implies e2[i].key@ != e2[j].key@ by {
            if i == e.len() as int {
                assert(e2[j] == e[j]);
            } else if j == e.len() as int {
                assert(e2[i] == e[i]);
            } else {
                assert(e2[i] == e[i] && e2[j] == e[j]);
            }
        }
    }
    let m2 = entries_map(e2);
    let m = entries_map(e).insert(x.key@, x.value);
    assert forall|k: Seq<char>| #[trigger] m2.contains_key(k) == m.contains_key(k) by {
        if has_key(e2, k) && k != x.key@ {
            let i = choose|i: int| 0 <= i < e2.len() && e2[i].key@ == k;
            assert(e[i].key@ == k);
        }
        if has_key(e, k) {
            let i = choose|i: int| 0 <= i < e.len() && e[i].key@ == k;
            assert(e2[i].key@ == k);
        }
        if k == x.key@ {
            assert(e2[e.len() as int].key@ == k);
        }
    }
    assert forall|k: Seq<char>| m2.contains_key(k) implies #[trigger] m2[k] == m[k] by {
        let i = choose|i: int| 0 <= i < e2.len() && e2[i].key@ == k;
        lemma_entries_map_at(e2, i);
        if i < e.len() {
            assert(e2[i] == e[i]);
            lemma_entries_map_at(e, i);
        }
    }
}

/// Removing the entry at `i` by moving the last entry into its place removes its key.
proof fn lemma_swap_remove<V>(e: Seq<Entry<V>>, i: int)
    requires
        distinct_keys(e),
        0 <= i < e.len(),
    ensures
        distinct_keys(e.update(i, e.last()).drop_last()),
        entries_map(e.update(i, e.last()).drop_last()) =~= entries_map(e).remove(e[i].key@),
{
    let e2 = e.update(i, e.last()).drop_last();
    let last = e.len() - 1;
    // position in e of the entry at position j of e2
    assert forall|j: int| 0 <= j < e2.len() implies #[trigger] e2[j] == e[if j == i { last } else { j }] by {}
    assert(distinct_keys(e2)) by {
        assert forall|a: int, b: int|
            0 <= a < e2.len() && 0 <= b < e2.len() && a != b implies e2[a].key@ != e2[b].key@ by {
            let a0 = if a == i { last } else { a };
            let b0 = if b == i { last } else { b };
            assert(e2[a] == e[a0] && e2[b] == e[b0]);
        }
    }
    let k0 = e[i].key@;
    let m2 = entries_map(e2);
    let m = entries_map(e).remove(k0);
    assert forall|k: Seq<char>| #[trigger] m2.contains_key(k) == m.contains_key(k) by {
        if has_key(e2, k) {
            let j = choose|j: int| 0 <= j < e2.len() && e2[j].key@ == k;
            let j0 = if j == i { last } else { j };
            assert(e2[j] == e[j0]);
            assert(j0 != i);
        }
        if has_key(e, k) && k != k0 {
            let j = choose|j: int| 0 <= j < e.len() && e[j].key@ == k;
            if j == last {
                assert(e2[i].key@ == k);
            } else {
                assert(j != i);
                assert(e2[j].key@ == k);
            }
        }
    }
    assert forall|k: Seq<char>| m2.contains_key(k) implies #[trigger] m2[k] == m[k] by {
        let j = choose|j: int| 0 <= j < e2.len() && e2[j].key@ == k;
        let j0 = if j == i { last } else { j };
        lemma_entries_map_at(e2, j);
        lemma_entries_map_at(e, j0);
    }
}

impl<V> KeyedList<V> {
    /// The map this list stands for.
    pub closed spec fn view(&self) -> Map<Seq<char>, V> {
        entries_map(self.entries@)
    }

    /// No key occurs twice.
    pub closed spec fn wf(&self) -> bool {
        distinct_keys(self.entries@)
    }

    /// The entries, in the list's order.
    pub closed spec fn entries_seq(&self) -> Seq<Entry<V>> {
        self.entries@
    }

    /// The view is the map of the entries.
    pub proof fn lemma_view(&self)
        ensures
            self@ == entries_map(self.entries_seq()),
            self.wf() == distinct_keys(self.entries_seq()),
    {
    }

    /// An empty list.
    pub fn new() -> (res: Self)
        ensures
            res.wf(),
            res@ == Map::<Seq<char>, V>::empty(),
    {
        let res = KeyedList { entries: Vec::new() };
        assert(res@ =~= Map::<Seq<char>, V>::empty());
        res
    }

    /// The position of `key` in the list, if it occurs.
    fn index_of(&self, key: &String) -> (res: Option<usize>)
        requires
            self.wf(),
        ensures
            match res {
                Some(i) => i < self.entries@.len() && self.entries@[i as int].key@ == key@,
                None => !self@.contains_key(key@),
            },
    {
        let mut i: usize = 0;
        while i < self.entries.len()
            invariant
                i <= self.entries@.len(),
                forall|j: int| 0 <= j < i ==> self.entries@[j].key@ != key@,
            decreases self.entries@.len() - i,
        {
            if self.entries[i].key == *key {
                return Some(i);
            }
            i = i + 1;
        }
        None
    }

    /// The value of `key`, if it has one.
    pub fn get(&self, key: &String) -> (res: Option<&V>)
        requires
            self.wf(),
        ensures
            match res {
                Some(v) => self@.contains_key(key@) && *v == self@[key@],
                None => !self@.contains_key(key@),
            },
    {
        match self.index_of(key) {
            Some(i) => {
                proof {
                    lemma_entries_map_at(self.entries@, i as int);
                }
                Some(&self.entries[i].value)
            },
            None => None,
        }
    }

    /// Removes `key` and hands back its value, if it had one.
    pub fn take(&mut self, key: &String) -> (res: Option<V>)
        requires
            old(self).wf(),
        ensures
            final(self).wf(),
            final(self)@ == old(self)@.remove(key@),
            match res {
                Some(v) => old(self)@.contains_key(key@) && v == old(self)@[key@],
                None => !old(self)@.contains_key(key@),
            },
    {
        match self.index_of(key) {
            Some(i) => {
                proof {
                    lemma_entries_map_at(self.entries@, i as int);
                    lemma_swap_remove(self.entries@, i as int);
                }
                let e = self.entries.swap_remove(i);
                Some(e.value)
            },
            None => {
                assert(self@.remove(key@) =~= self@);
                None
            },
        }
    }

    /// Sets the value of `key`, replacing the one it had.
    pub fn insert(&mut self, key: String, value: V)
        requires
            old(self).wf(),
        ensures
            final(self).wf(),
            final(self)@ == old(self)@.insert(key@, value),
    {
        let _ = self.take(&key);
        proof {
            if has_key(self.entries@, key@) {
                assert(self@.contains_key(key@));
            }
            lemma_push(self.entries@, Entry { key, value });
        }
        let ghost before = self@;
        self.entries.push(Entry { key, value });
        assert(self@ =~= old(self)@.insert(key@, value)) by {
            assert(before.insert(key@, value) =~= old(self)@.insert(key@, value));
        }
    }

    /// The entries, in the list's order.
    pub fn entries(&self) -> (res: &Vec<Entry<V>>)
        ensures
            res@ == self.entries_seq(),
    {
        &self.entries
    }
}

} // verus!
