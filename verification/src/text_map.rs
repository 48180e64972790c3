//! A finite map keyed by strings that keeps its entries in insertion order.

use vstd::prelude::*;

use crate::text::str_eq;

verus! {

/// A value that can be copied into one with the same model.
pub trait Duplicate: View + Sized {
    fn duplicate(&self) -> (r: Self)
        ensures
            r@ == self@,
    ;
}

impl Duplicate for String {
    fn duplicate(&self) -> (r: String) {
        self.clone()
    }
}

impl Duplicate for usize {
    fn duplicate(&self) -> (r: usize) {
        *self
    }
}

/// A finite map from strings to values. Entries are kept in the order in
/// which their keys were first inserted, so walking the map is repeatable.
#[derive(Debug)]
pub struct TextMap<V> {
    entries: Vec<(String, V)>,
}

/// The keys of a list of entries, in order.
pub open spec fn entry_keys<V>(entries: Seq<(String, V)>) -> Seq<Seq<char>> {
    Seq::new(entries.len(), |i: int| entries[i].0@)
}

/// The map that a list of entries with distinct keys stands for.
pub open spec fn entry_map<V: View>(entries: Seq<(String, V)>) -> Map<Seq<char>, V::V> {
    Map::new(
        |k: Seq<char>| entry_keys(entries).contains(k),
        |k: Seq<char>| entries[entry_keys(entries).index_of(k)].1@,
    )
}

/// Entry `i` of a list with distinct keys is what the map holds under its
/// key.
pub proof fn lemma_entry_map<V: View>(entries: Seq<(String, V)>, i: int)
    requires
        entry_keys(entries).no_duplicates(),
        0 <= i < entries.len(),
    ensures
        entry_map(entries).dom().contains(entries[i].0@),
        entry_map(entries)[entries[i].0@] == entries[i].1@,
{
    let keys = entry_keys(entries);
    assert(keys[i] == entries[i].0@);
    let j = keys.index_of(entries[i].0@);
    assert(keys[j] == keys[i]);
}

/// A list of entries with distinct keys stands for a finite map with as many
/// keys as entries.
pub proof fn lemma_entry_map_len<V: View>(entries: Seq<(String, V)>)
    requires
        entry_keys(entries).no_duplicates(),
    ensures
        entry_map(entries).dom().finite(),
        entry_map(entries).dom().len() == entries.len(),
{
    let keys = entry_keys(entries);
    assert(entry_map(entries).dom() =~= keys.to_set());
    keys.unique_seq_to_set();
    vstd::seq_lib::seq_to_set_is_finite(keys);
}

/// The keys `a` followed by those of the first `n` of `b` that are not
/// among the keys before them.
pub open spec fn merged_keys(a: Seq<Seq<char>>, b: Seq<Seq<char>>, n: nat) -> Seq<Seq<char>>
    decreases n,
{
    if n == 0 || n > b.len() {
        a
    } else {
        let earlier = merged_keys(a, b, (n - 1) as nat);
        if earlier.contains(b[n - 1]) {
            earlier
        } else {
            earlier.push(b[n - 1])
        }
    }
}

/// Keys without repetition that join no keys are those keys.
pub proof fn lemma_merged_keys_of_none(b: Seq<Seq<char>>, n: nat)
    requires
        n <= b.len(),
        b.no_duplicates(),
    ensures
        merged_keys(Seq::empty(), b, n) == b.take(n as int),
    decreases n,
{
    if n == 0 {
        assert(b.take(0) =~= Seq::<Seq<char>>::empty());
    } else {
        lemma_merged_keys_of_none(b, (n - 1) as nat);
        let earlier = b.take(n - 1);
        if earlier.contains(b[n - 1]) {
            let j = choose|j: int| 0 <= j < earlier.len() && earlier[j] == b[n - 1];
            assert(b[j] == b[n - 1]);
        }
        assert(b.take(n as int) =~= earlier.push(b[n - 1]));
    }
}

/// The position of `key` among the entries.
fn position<V>(entries: &Vec<(String, V)>, key: &str) -> (r: Option<usize>)
    ensures
        match r {
            Some(i) => i < entries.len() && entries[i as int].0@ == key@,
            None => !entry_keys(entries@).contains(key@),
        },
{
    let mut i: usize = 0;
    while i < entries.len()
        invariant
            i <= entries.len(),
            forall|j: int| 0 <= j < i ==> entries[j].0@ != key@,
        decreases entries.len() - i,
    {
        if str_eq(entries[i].0.as_str(), key) {
            return Some(i);
        }
        i += 1;
    }
    proof {
        let keys = entry_keys(entries@);
        if keys.contains(key@) {
            let j = choose|j: int| 0 <= j < keys.len() && keys[j] == key@;
            assert(entries[j].0@ == key@);
        }
    }
    None
}

impl<V: View> View for TextMap<V> {
    type V = Map<Seq<char>, V::V>;

    closed spec fn view(&self) -> Map<Seq<char>, V::V> {
        entry_map(self.entries@)
    }
}

impl<V> TextMap<V> {
    #[verifier::type_invariant]
    spec fn distinct_keys(self) -> bool {
        entry_keys(self.entries@).no_duplicates()
    }

    /// The keys in the order in which they were first inserted.
    pub closed spec fn spec_keys(self) -> Seq<Seq<char>> {
        entry_keys(self.entries@)
    }
}

impl<V: View> TextMap<V> {

    /// The empty map.
    pub fn new() -> (m: TextMap<V>)
        ensures
            m@ == Map::<Seq<char>, V::V>::empty(),
            m.spec_keys() == Seq::<Seq<char>>::empty(),
    {
        let m = TextMap { entries: Vec::new() };
        assert(m@ =~= Map::<Seq<char>, V::V>::empty());
        assert(m.spec_keys() =~= Seq::<Seq<char>>::empty());
        m
    }

    /// Binds `key` to `value`, in place of what `key` was bound to before.
    pub fn insert(&mut self, key: String, value: V)
        ensures
            final(self)@ == old(self)@.insert(key@, value@),
            final(self).spec_keys() == if old(self).spec_keys().contains(key@) {
                old(self).spec_keys()
            } else {
                old(self).spec_keys().push(key@)
            },
    {
        proof {
            use_type_invariant(&*self);
        }
        let ghost before = self.entries@;
        let ghost k = key@;
        let ghost v = value@;
        let mut taken = TextMap { entries: Vec::new() };
        core::mem::swap(self, &mut taken);
        let mut entries = taken.entries;
        match position(&entries, key.as_str()) {
            Some(i) => {
                entries.set(i, (key, value));
                proof {
                    let after = entries@;
                    assert(entry_keys(after) =~= entry_keys(before));
                    assert forall|x: Seq<char>| #[trigger]
                        entry_map(after).dom().contains(x) implies entry_map(after)[x] == entry_map(
                        before,
                    ).insert(k, v)[x] by {
                        let j = entry_keys(after).index_of(x);
                        if j != i {
                            assert(after[j] == before[j]);
                            assert(entry_keys(before)[j] == x);
                            assert(entry_keys(before)[i as int] == k);
                        }
                    }
                    assert(entry_keys(before)[i as int] == k);
                    assert(entry_map(after) =~= entry_map(before).insert(k, v));
                }
                *self = TextMap { entries };
            },
            None => {
                entries.push((key, value));
                proof {
                    let after = entries@;
                    assert(entry_keys(after) =~= entry_keys(before).push(k));
                    assert forall|x: Seq<char>| #[trigger]
                        entry_map(after).dom().contains(x) implies entry_map(after)[x] == entry_map(
                        before,
                    ).insert(k, v)[x] by {
                        let j = entry_keys(after).index_of(x);
                        if j < before.len() {
                            assert(entry_keys(before)[j] == x);
                            lemma_entry_map(before, j);
                        }
                    }
                    assert forall|x: Seq<char>| #[trigger]
                        entry_map(before).insert(k, v).dom().contains(x) implies entry_map(
                        after,
                    ).dom().contains(x) by {
                        if x == k {
                            assert(entry_keys(after)[before.len() as int] == k);
                        } else {
                            let j = entry_keys(before).index_of(x);
                            assert(entry_keys(after)[j] == x);
                        }
                    }
                    assert(entry_map(after) =~= entry_map(before).insert(k, v));
                }
                *self = TextMap { entries };
            },
        }
    }

    /// What `key` is bound to.
    pub fn get(&self, key: &str) -> (r: Option<&V>)
        ensures
            match r {
                Some(e) => self@.dom().contains(key@) && self@[key@] == e@,
                None => !self@.dom().contains(key@),
            },
    {
        proof {
            use_type_invariant(self);
        }
        match position(&self.entries, key) {
            Some(i) => {
                proof {
                    lemma_entry_map(self.entries@, i as int);
                }
                Some(&self.entries[i].1)
            },
            None => None,
        }
    }

    /// Whether `key` is bound.
    pub fn contains_key(&self, key: &str) -> (r: bool)
        ensures
            r == self@.dom().contains(key@),
    {
        self.get(key).is_some()
    }

    /// The number of bound keys.
    pub fn len(&self) -> (n: usize)
        ensures
            n == self@.dom().len(),
            n == self.spec_keys().len(),
            self@.dom().finite(),
            self.spec_keys().no_duplicates(),
            forall|k: Seq<char>| #[trigger] self@.dom().contains(k) <==> self.spec_keys().contains(k),
    {
        proof {
            use_type_invariant(self);
            lemma_entry_map_len(self.entries@);
        }
        self.entries.len()
    }

    pub fn is_empty(&self) -> (r: bool)
        ensures
            r == (self@.dom().len() == 0),
            self@.dom().finite(),
    {
        self.len() == 0
    }

    /// Removes every binding.
    pub fn clear(&mut self)
        ensures
            final(self)@ == Map::<Seq<char>, V::V>::empty(),
            final(self).spec_keys() == Seq::<Seq<char>>::empty(),
    {
        *self = TextMap::new();
    }

    /// The key at position `i` in insertion order.
    pub fn key_at(&self, i: usize) -> (k: &String)
        requires
            i < self.spec_keys().len(),
        ensures
            k@ == self.spec_keys()[i as int],
            self@.dom().contains(k@),
    {
        proof {
            use_type_invariant(self);
            lemma_entry_map(self.entries@, i as int);
        }
        &self.entries[i].0
    }

    /// The value bound to the key at position `i` in insertion order.
    pub fn value_at(&self, i: usize) -> (e: &V)
        requires
            i < self.spec_keys().len(),
        ensures
            self@.dom().contains(self.spec_keys()[i as int]),
            e@ == self@[self.spec_keys()[i as int]],
    {
        proof {
            use_type_invariant(self);
            lemma_entry_map(self.entries@, i as int);
        }
        &self.entries[i].1
    }

    /// The keys in the order in which they were first inserted.
    pub fn keys(&self) -> (out: Vec<String>)
        ensures
            out@.len() == self.spec_keys().len(),
            forall|i: int| 0 <= i < out@.len() ==> (#[trigger] out@[i])@ == self.spec_keys()[i],
    {
        let n = self.len();
        let mut out: Vec<String> = Vec::new();
        let mut i: usize = 0;
        while i < n
            invariant
                i <= n,
                n == self.spec_keys().len(),
                out@.len() == i,
                forall|j: int| 0 <= j < i ==> (#[trigger] out@[j])@ == self.spec_keys()[j],
            decreases n - i,
        {
            out.push(self.key_at(i).clone());
            i += 1;
        }
        out
    }
}

impl<V: Duplicate> TextMap<V> {
    /// Adds every binding of `other`, in place of what this map held under
    /// the same key.
    pub fn absorb(&mut self, other: &TextMap<V>)
        ensures
            final(self)@ == old(self)@.union_prefer_right(other@),
            final(self).spec_keys() == merged_keys(
                old(self).spec_keys(),
                other.spec_keys(),
                other.spec_keys().len(),
            ),
    {
        let n = other.len();
        let ghost start = self@;
        let ghost start_keys = self.spec_keys();
        let ghost keys = other.spec_keys();
        let mut i: usize = 0;
        while i < n
            invariant
                i <= n,
                n == keys.len(),
                keys == other.spec_keys(),
                keys.no_duplicates(),
                forall|k: Seq<char>| #[trigger] other@.dom().contains(k) <==> keys.contains(k),
                self.spec_keys() == merged_keys(start_keys, keys, i as nat),
                forall|k: Seq<char>| #[trigger]
                    self@.dom().contains(k) <==> start.dom().contains(k) || keys.take(i as int).contains(k),
                forall|k: Seq<char>| #[trigger]
                    self@.dom().contains(k) ==> self@[k] == if keys.take(i as int).contains(k) {
                        other@[k]
                    } else {
                        start[k]
                    },
            decreases n - i,
        {
            let key = other.key_at(i).clone();
            let value = other.value_at(i).duplicate();
            let ghost before = self@;
            self.insert(key, value);
            proof {
                let done = keys.take(i as int);
                let next = keys.take(i + 1);
                assert(next =~= done.push(keys[i as int]));
                assert forall|k: Seq<char>| next.contains(k) <==> done.contains(k) || k == keys[i as int] by {
                    if done.contains(k) {
                        let j = choose|j: int| 0 <= j < done.len() && done[j] == k;
                        assert(next[j] == k);
                    }
                    if k == keys[i as int] {
                        assert(next[i as int] == k);
                    }
                    if next.contains(k) {
                        let j = choose|j: int| 0 <= j < next.len() && next[j] == k;
                        if j < i {
                            assert(done[j] == k);
                        }
                    }
                }
            }
            i += 1;
        }
        proof {
            assert(keys.take(n as int) =~= keys);
            assert(self@ =~= start.union_prefer_right(other@));
        }
    }
}

impl<V: Duplicate> Clone for TextMap<V> {
    fn clone(&self) -> (res: Self)
        ensures
            res@ == self@,
            res.spec_keys() == self.spec_keys(),
    {
        let _count = self.len();
        let mut res = TextMap::new();
        res.absorb(self);
        proof {
            lemma_merged_keys_of_none(self.spec_keys(), self.spec_keys().len());
            assert(self.spec_keys().take(self.spec_keys().len() as int) =~= self.spec_keys());
        }
        assert(res@ =~= self@);
        res
    }
}

impl<V: Duplicate> Duplicate for TextMap<V> {
    fn duplicate(&self) -> (r: Self) {
        self.clone()
    }
}

} // verus!
