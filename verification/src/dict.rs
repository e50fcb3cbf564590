//! Keyed tables and sets, kept in the order in which their keys came.
//!
//! No key stands twice in either. A `Dict` is modelled by a map, a `Pool` by a
//! set; the order of the keys is kept beside the model.

use vstd::prelude::*;

use crate::order::views;
use crate::text::{copy_texts, same_texts};

verus! {

/// Values that a table can be keyed by: they are told apart by their views.
pub trait Key: View + Sized {
    /// Whether two keys are the same.
    fn same(&self, other: &Self) -> (r: bool)
        ensures
            r == (self@ == other@),
    ;

    /// A copy of the key.
    fn copy(&self) -> (r: Self)
        ensures
            r@ == self@,
    ;
}

impl Key for String {
    fn same(&self, other: &Self) -> (r: bool) {
        *self == *other
    }

    fn copy(&self) -> (r: Self) {
        self.clone()
    }
}

/// A list of parameter names, compared name by name.
#[derive(Debug)]
pub struct ParamKeys {
    pub keys: Vec<String>,
}

impl View for ParamKeys {
    type V = Seq<Seq<char>>;

    open spec fn view(&self) -> Seq<Seq<char>> {
        views(self.keys@)
    }
}

impl Key for ParamKeys {
    fn same(&self, other: &Self) -> (r: bool) {
        same_texts(&self.keys, &other.keys)
    }

    fn copy(&self) -> (r: Self) {
        ParamKeys { keys: copy_texts(&self.keys) }
    }
}

/// Values that can be copied with their views.
pub trait Duplicate: View + Sized {
    /// A copy of the value.
    fn duplicate(&self) -> (r: Self)
        ensures
            r@ == self@,
    ;
}

impl Duplicate for u32 {
    fn duplicate(&self) -> (r: Self) {
        *self
    }
}

impl Duplicate for u64 {
    fn duplicate(&self) -> (r: Self) {
        *self
    }
}

/// A table from keys to values.
#[derive(Debug)]
pub struct Dict<K: Key, T: View> {
    entries: Vec<(K, T)>,
}

/// The keys of a row of entries.
spec fn keys_of<K: Key, T: View>(entries: Seq<(K, T)>) -> Seq<K::V> {
    Seq::new(entries.len(), |i: int| entries[i].0@)
}

/// What a row of entries maps its keys to.
spec fn map_of<K: Key, T: View>(entries: Seq<(K, T)>) -> Map<K::V, T::V> {
    Map::new(
        |k: K::V| keys_of(entries).contains(k),
        |k: K::V| entries[keys_of(entries).index_of(k)].1@,
    )
}

impl<K: Key, T: View> View for Dict<K, T> {
    type V = Map<K::V, T::V>;

    closed spec fn view(&self) -> Map<K::V, T::V> {
        map_of(self.entries@)
    }
}

proof fn lemma_map_at<K: Key, T: View>(entries: Seq<(K, T)>, i: int)
    requires
        keys_of(entries).no_duplicates(),
        0 <= i < entries.len(),
    ensures
        map_of(entries).contains_key(entries[i].0@),
        map_of(entries)[entries[i].0@] == entries[i].1@,
{
    let keys = keys_of(entries);
    assert(keys[i] == entries[i].0@);
    assert(keys.contains(keys[i]));
    assert(keys.index_of(keys[i]) == i);
}

proof fn lemma_push<K: Key, T: View>(entries: Seq<(K, T)>, key: K, value: T)
    requires
        keys_of(entries).no_duplicates(),
        !map_of(entries).contains_key(key@),
    ensures
        keys_of(entries.push((key, value))) == keys_of(entries).push(key@),
        keys_of(entries.push((key, value))).no_duplicates(),
        map_of(entries.push((key, value))) == map_of(entries).insert(key@, value@),
{
    let longer = entries.push((key, value));
    let keys = keys_of(entries);
    assert(keys_of(longer) =~= keys.push(key@));
    assert(!keys.contains(key@));
    assert forall|i: int, j: int| 0 <= i < longer.len() && 0 <= j < longer.len() && i != j implies keys_of(
        longer,
    )[i] != keys_of(longer)[j] by {
        if i < entries.len() {
            assert(keys.contains(keys[i]));
        }
        if j < entries.len() {
            assert(keys.contains(keys[j]));
        }
    }
    assert forall|k: K::V| #[trigger] map_of(longer).contains_key(k) <==> map_of(entries).insert(
        key@,
        value@,
    ).contains_key(k) by {
        if keys.contains(k) {
            let i = keys.index_of(k);
            assert(keys_of(longer)[i] == k);
        }
        if k == key@ {
            assert(keys_of(longer)[entries.len() as int] == k);
        }
    }
    assert forall|k: K::V| #[trigger] map_of(longer).contains_key(k) implies map_of(longer)[k]
        == map_of(entries).insert(key@, value@)[k] by {
        if k == key@ {
            lemma_map_at(longer, entries.len() as int);
        } else {
            let i = keys.index_of(k);
            assert(keys.contains(k));
            lemma_map_at(longer, i);
            lemma_map_at(entries, i);
        }
    }
    assert(map_of(longer) =~= map_of(entries).insert(key@, value@));
}

proof fn lemma_replace<K: Key, T: View>(entries: Seq<(K, T)>, at: int, key: K, value: T)
    requires
        keys_of(entries).no_duplicates(),
        0 <= at < entries.len(),
        entries[at].0@ == key@,
    ensures
        keys_of(entries.update(at, (key, value))) == keys_of(entries),
        map_of(entries.update(at, (key, value))) == map_of(entries).insert(key@, value@),
{
    let changed = entries.update(at, (key, value));
    let keys = keys_of(entries);
    assert(keys_of(changed) =~= keys);
    lemma_map_at(entries, at);
    assert forall|k: K::V| #[trigger] map_of(changed).contains_key(k) implies map_of(changed)[k]
        == map_of(entries).insert(key@, value@)[k] by {
        let i = keys.index_of(k);
        assert(keys.contains(k));
        lemma_map_at(changed, i);
        lemma_map_at(entries, i);
        if k == key@ {
            assert(keys[at] == keys[i]);
        }
    }
    assert(map_of(changed) =~= map_of(entries).insert(key@, value@));
}

impl<K: Key, T: View> Dict<K, T> {
    #[verifier::type_invariant]
    spec fn distinct(self) -> bool {
        keys_of(self.entries@).no_duplicates()
    }

    /// The keys, in the order in which they came.
    pub closed spec fn keys(&self) -> Seq<K::V> {
        keys_of(self.entries@)
    }

    /// An empty table.
    pub fn new() -> (r: Self)
        ensures
            r@ == Map::<K::V, T::V>::empty(),
            r.keys() == Seq::<K::V>::empty(),
    {
        let r = Dict { entries: Vec::new() };
        proof {
            assert(r@ =~= Map::<K::V, T::V>::empty());
        }
        r
    }

    /// How many keys there are.
    pub fn len(&self) -> (r: usize)
        ensures
            r == self.keys().len(),
            self.keys().no_duplicates(),
            self@.dom() == self.keys().to_set(),
            self@.dom().finite(),
            r == self@.dom().len(),
    {
        proof {
            use_type_invariant(self);
            assert(self@.dom() =~= self.keys().to_set());
            self.keys().unique_seq_to_set();
        }
        self.entries.len()
    }

    /// Where `key` stands among the entries.
    fn position(&self, key: &K) -> (r: Option<usize>)
        ensures
            match r {
                Some(i) => i < self.entries@.len() && self.entries@[i as int].0@ == key@,
                None => !self@.contains_key(key@),
            },
    {
        let mut i: usize = 0;
        while i < self.entries.len()
            invariant
                i <= self.entries.len(),
                forall|j: int| 0 <= j < i ==> (#[trigger] self.entries@[j]).0@ != key@,
            decreases self.entries.len() - i,
        {
            if self.entries[i].0.same(key) {
                return Some(i);
            }
            i = i + 1;
        }
        proof {
            if self@.contains_key(key@) {
                let j = self.keys().index_of(key@);
                assert(self.keys()[j] == key@);
                assert(self.entries@[j].0@ != key@);
            }
        }
        None
    }

    /// The value under `key`.
    pub fn get(&self, key: &K) -> (r: Option<&T>)
        ensures
            match r {
                Some(v) => self@.contains_key(key@) && v@ == self@[key@],
                None => !self@.contains_key(key@),
            },
    {
        proof {
            use_type_invariant(self);
        }
        match self.position(key) {
            Some(i) => {
                proof {
                    lemma_map_at(self.entries@, i as int);
                }
                Some(&self.entries[i].1)
            },
            None => None,
        }
    }

    /// Whether there is a value under `key`.
    pub fn contains_key(&self, key: &K) -> (r: bool)
        ensures
            r == self@.contains_key(key@),
            self@.dom() == self.keys().to_set(),
    {
        proof {
            use_type_invariant(self);
            assert(self@.dom() =~= self.keys().to_set());
        }
        match self.get(key) {
            Some(_) => true,
            None => false,
        }
    }

    /// Puts `value` under `key`, in place of what stood there.
    pub fn set(&mut self, key: K, value: T)
        ensures
            final(self)@ == old(self)@.insert(key@, value@),
            final(self).keys() == (if old(self)@.contains_key(key@) {
                old(self).keys()
            } else {
                old(self).keys().push(key@)
            }),
    {
        proof {
            use_type_invariant(&*self);
        }
        let at = self.position(&key);
        let mut entries: Vec<(K, T)> = Vec::new();
        std::mem::swap(&mut entries, &mut self.entries);
        match at {
            Some(i) => {
                proof {
                    lemma_map_at(entries@, i as int);
                    lemma_replace(entries@, i as int, key, value);
                }
                entries.set(i, (key, value));
            },
            None => {
                proof {
                    lemma_push(entries@, key, value);
                }
                entries.push((key, value));
            },
        }
        self.entries = entries;
    }

    /// The key at position `i`.
    pub fn key_at(&self, i: usize) -> (r: &K)
        requires
            i < self.keys().len(),
        ensures
            r@ == self.keys()[i as int],
            self@.contains_key(r@),
    {
        proof {
            use_type_invariant(self);
            lemma_map_at(self.entries@, i as int);
        }
        &self.entries[i].0
    }

    /// The value of the key at position `i`.
    pub fn value_at(&self, i: usize) -> (r: &T)
        requires
            i < self.keys().len(),
        ensures
            self@.contains_key(self.keys()[i as int]),
            r@ == self@[self.keys()[i as int]],
    {
        proof {
            use_type_invariant(self);
            lemma_map_at(self.entries@, i as int);
        }
        &self.entries[i].1
    }
}

impl<K: Key, T: Duplicate> Dict<K, T> {
    /// A copy of the table.
    pub fn copy(&self) -> (r: Self)
        ensures
            r@ == self@,
            r.keys() == self.keys(),
    {
        proof {
            use_type_invariant(self);
        }
        let mut entries: Vec<(K, T)> = Vec::new();
        let mut i: usize = 0;
        while i < self.entries.len()
            invariant
                i <= self.entries.len(),
                entries@.len() == i,
                forall|j: int|
                    0 <= j < i ==> (#[trigger] entries@[j]).0@ == self.entries@[j].0@
                        && entries@[j].1@ == self.entries@[j].1@,
            decreases self.entries.len() - i,
        {
            entries.push((self.entries[i].0.copy(), self.entries[i].1.duplicate()));
            i = i + 1;
        }
        proof {
            assert(keys_of(entries@) =~= keys_of(self.entries@));
            assert forall|k: K::V| #[trigger] map_of(entries@).contains_key(k) implies map_of(
                entries@,
            )[k] == map_of(self.entries@)[k] by {
                let at = keys_of(entries@).index_of(k);
                assert(keys_of(entries@).contains(k));
                assert(entries@[at].1@ == self.entries@[at].1@);
            }
            assert(map_of(entries@) =~= map_of(self.entries@));
        }
        Dict { entries }
    }
}

/// A set of keys.
#[derive(Debug)]
pub struct Pool<K: Key> {
    items: Vec<K>,
}

impl<K: Key> View for Pool<K> {
    type V = Set<K::V>;

    closed spec fn view(&self) -> Set<K::V> {
        views(self.items@).to_set()
    }
}

impl<K: Key> Pool<K> {
    #[verifier::type_invariant]
    spec fn distinct(self) -> bool {
        views(self.items@).no_duplicates()
    }

    /// The members, in the order in which they came.
    pub closed spec fn items(&self) -> Seq<K::V> {
        views(self.items@)
    }

    /// An empty set.
    pub fn new() -> (r: Self)
        ensures
            r@ == Set::<K::V>::empty(),
            r.items() == Seq::<K::V>::empty(),
    {
        let r = Pool { items: Vec::new() };
        proof {
            assert(r@ =~= Set::<K::V>::empty());
        }
        r
    }

    /// How many members there are.
    pub fn len(&self) -> (r: usize)
        ensures
            r == self.items().len(),
            self.items().no_duplicates(),
            self@ == self.items().to_set(),
            self@.finite(),
            r == self@.len(),
    {
        proof {
            use_type_invariant(self);
            self.items().unique_seq_to_set();
        }
        self.items.len()
    }

    /// Whether `key` is a member.
    pub fn contains(&self, key: &K) -> (r: bool)
        ensures
            r == self@.contains(key@),
    {
        let mut i: usize = 0;
        while i < self.items.len()
            invariant
                i <= self.items.len(),
                forall|j: int| 0 <= j < i ==> (#[trigger] self.items@[j])@ != key@,
            decreases self.items.len() - i,
        {
            if self.items[i].same(key) {
                proof {
                    assert(self.items()[i as int] == key@);
                }
                return true;
            }
            i = i + 1;
        }
        proof {
            if self@.contains(key@) {
                let j = self.items().index_of(key@);
                assert(self.items()[j] == key@);
                assert(self.items@[j]@ != key@);
            }
        }
        false
    }

    /// Makes `key` a member.
    pub fn insert(&mut self, key: K)
        ensures
            final(self)@ == old(self)@.insert(key@),
            final(self).items() == (if old(self)@.contains(key@) {
                old(self).items()
            } else {
                old(self).items().push(key@)
            }),
    {
        proof {
            use_type_invariant(&*self);
        }
        if self.contains(&key) {
            proof {
                assert(self@ =~= self@.insert(key@));
            }
            return ;
        }
        let ghost before = views(self.items@);
        let mut items: Vec<K> = Vec::new();
        std::mem::swap(&mut items, &mut self.items);
        items.push(key);
        proof {
            let after = views(items@);
            assert(after =~= before.push(key@));
            assert(!before.contains(key@));
            assert forall|i: int, j: int| 0 <= i < after.len() && 0 <= j < after.len() && i != j implies after[i]
                != after[j] by {
                if i < before.len() {
                    assert(before.contains(before[i]));
                }
                if j < before.len() {
                    assert(before.contains(before[j]));
                }
            }
            assert forall|k: K::V| #[trigger] after.to_set().contains(k) <==> before.to_set().insert(
                key@,
            ).contains(k) by {
                if before.contains(k) {
                    assert(after[before.index_of(k)] == k);
                }
                assert(after[before.len() as int] == key@);
            }
            assert(after.to_set() =~= before.to_set().insert(key@));
        }
        self.items = items;
    }

    /// A copy of the set.
    pub fn copy(&self) -> (r: Self)
        ensures
            r@ == self@,
            r.items() == self.items(),
    {
        let mut items: Vec<K> = Vec::new();
        let mut i: usize = 0;
        while i < self.items.len()
            invariant
                i <= self.items.len(),
                views(items@) == views(self.items@).take(i as int),
            decreases self.items.len() - i,
        {
            let ghost before = items@;
            items.push(self.items[i].copy());
            proof {
                assert(views(items@) =~= views(before).push(self.items@[i as int]@));
                assert(views(self.items@).take(i + 1) =~= views(self.items@).take(i as int).push(
                    self.items@[i as int]@,
                ));
            }
            i = i + 1;
        }
        proof {
            use_type_invariant(self);
            assert(views(self.items@).take(self.items@.len() as int) =~= views(self.items@));
        }
        Pool { items }
    }

    /// The member at position `i`.
    pub fn item_at(&self, i: usize) -> (r: &K)
        requires
            i < self.items().len(),
        ensures
            r@ == self.items()[i as int],
            self@.contains(r@),
    {
        proof {
            assert(self.items().contains(self.items()[i as int]));
        }
        &self.items[i]
    }
}

} // verus!
