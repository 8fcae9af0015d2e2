//! A small map keyed by strings that keeps its entries in the order in which
//! their keys were first inserted.

use vstd::prelude::*;
use crate::text::{has_string, string_views};

verus! {

/// Whether `i` is the first place where `s` stands in `list`.
pub open spec fn is_first_index(list: Seq<Seq<char>>, s: Seq<char>, i: int) -> bool {
    &&& 0 <= i < list.len()
    &&& list[i] == s
    &&& forall|j: int| 0 <= j < i ==> list[j] != s
}

/// The first place where `s` stands in `list`.
pub open spec fn index_of_string(list: Seq<Seq<char>>, s: Seq<char>) -> Option<int> {
    if exists|i: int| is_first_index(list, s, i) {
        Some(choose|i: int| is_first_index(list, s, i))
    } else {
        None
    }
}

/// A first place is the first place.
pub proof fn lemma_index_of_string_found(list: Seq<Seq<char>>, s: Seq<char>, i: int)
    requires
        is_first_index(list, s, i),
    ensures
        index_of_string(list, s) == Some(i),
{
    let k = choose|k: int| is_first_index(list, s, k);
    if k < i {
        assert(list[k] == s);
    } else if i < k {
        assert(list[i] == s);
    }
}

/// A string that stands nowhere has no first place.
pub proof fn lemma_index_of_string_absent(list: Seq<Seq<char>>, s: Seq<char>)
    requires
        !has_string(list, s),
    ensures
        index_of_string(list, s) is None,
{
    if exists|i: int| is_first_index(list, s, i) {
        let k = choose|k: int| is_first_index(list, s, k);
        assert(list[k] == s);
    }
}

/// What `index_of_string` answers, said without it.
pub proof fn lemma_index_of_string(list: Seq<Seq<char>>, s: Seq<char>)
    ensures
        match index_of_string(list, s) {
            Some(i) => is_first_index(list, s, i),
            None => !has_string(list, s),
        },
{
    if exists|i: int| is_first_index(list, s, i) {
    } else {
        if has_string(list, s) {
            let k = choose|k: int| 0 <= k < list.len() && list[k] == s;
            lemma_first_occurrence(list, s, k);
        }
    }
}

proof fn lemma_first_occurrence(list: Seq<Seq<char>>, s: Seq<char>, k: int)
    requires
        0 <= k < list.len(),
        list[k] == s,
    ensures
        exists|i: int| is_first_index(list, s, i),
    decreases k,
{
    if forall|j: int| 0 <= j < k ==> list[j] != s {
        assert(is_first_index(list, s, k));
    } else {
        let j = choose|j: int| 0 <= j < k && list[j] == s;
        lemma_first_occurrence(list, s, j);
    }
}

/// The first place where `s` stands in `list`.
pub fn find_string(list: &Vec<String>, s: &String) -> (r: Option<usize>)
    ensures
        match r {
            Some(i) => index_of_string(string_views(list@), s@) == Some(i as int) && i < list.len()
                && list[i as int]@ == s@,
            None => index_of_string(string_views(list@), s@) is None && !has_string(
                string_views(list@),
                s@,
            ),
        },
{
    let ghost keys = string_views(list@);
    let mut i: usize = 0;
    while i < list.len()
        invariant
            0 <= i <= list.len(),
            keys == string_views(list@),
            forall|j: int| 0 <= j < i ==> keys[j] != s@,
        decreases list.len() - i,
    {
        if list[i] == *s {
            proof {
                assert(keys[i as int] == s@);
                lemma_index_of_string_found(keys, s@, i as int);
            }
            return Some(i);
        }
        i = i + 1;
    }
    proof {
        lemma_index_of_string_absent(keys, s@);
    }
    None
}

/// The keys of a list of entries.
pub open spec fn keys_of<T>(entries: Seq<(Seq<char>, T)>) -> Seq<Seq<char>> {
    Seq::new(entries.len(), |i: int| entries[i].0)
}

/// Whether an entry stands under `key`.
pub open spec fn has_key<T>(entries: Seq<(Seq<char>, T)>, key: Seq<char>) -> bool {
    has_string(keys_of(entries), key)
}

/// The value of the first entry under `key`.
pub open spec fn lookup<T>(entries: Seq<(Seq<char>, T)>, key: Seq<char>) -> Option<T> {
    match index_of_string(keys_of(entries), key) {
        Some(i) => Some(entries[i].1),
        None => None,
    }
}

/// The entries after `value` was put under `key`: in the place of the entry
/// that stood under `key`, or at the end where none did.
pub open spec fn put<T>(entries: Seq<(Seq<char>, T)>, key: Seq<char>, value: T) -> Seq<
    (Seq<char>, T),
> {
    match index_of_string(keys_of(entries), key) {
        Some(i) => entries.update(i, (key, value)),
        None => entries.push((key, value)),
    }
}

/// The entries after `value` was put under `key` unless an entry stood
/// there already.
pub open spec fn put_new<T>(entries: Seq<(Seq<char>, T)>, key: Seq<char>, value: T) -> Seq<
    (Seq<char>, T),
> {
    if has_key(entries, key) {
        entries
    } else {
        entries.push((key, value))
    }
}

/// No two entries share a key.
pub open spec fn distinct_keys<T>(entries: Seq<(Seq<char>, T)>) -> bool {
    forall|i: int, j: int| 0 <= i < j < entries.len() ==> entries[i].0 != entries[j].0
}

/// After `put`, the key leads to the value, and every other key leads
/// where it led before.
pub proof fn lemma_put_lookup<T>(entries: Seq<(Seq<char>, T)>, key: Seq<char>, value: T, other: Seq<char>)
    ensures
        lookup(put(entries, key, value), key) == Some(value),
        other != key ==> lookup(put(entries, key, value), other) == lookup(entries, other),
        has_key(put(entries, key, value), other) == (other == key || has_key(entries, other)),
        distinct_keys(entries) ==> distinct_keys(put(entries, key, value)),
{
    let keys = keys_of(entries);
    let after = put(entries, key, value);
    let keys_after = keys_of(after);
    lemma_index_of_string(keys, key);
    lemma_index_of_string(keys, other);
    match index_of_string(keys, key) {
        Some(i) => {
            assert(keys_after =~= keys);
            assert(after[i].1 == value);
        },
        None => {
            assert(keys_after =~= keys.push(key));
            assert forall|j: int| 0 <= j < keys.len() implies keys_after[j] != key by {
                assert(keys[j] != key);
            }
            assert(is_first_index(keys_after, key, keys.len() as int));
            lemma_index_of_string_found(keys_after, key, keys.len() as int);
            if other != key {
                match index_of_string(keys, other) {
                    Some(k) => {
                        assert(is_first_index(keys_after, other, k));
                        lemma_index_of_string_found(keys_after, other, k);
                    },
                    None => {
                        assert forall|j: int| 0 <= j < keys_after.len() implies keys_after[j]
                            != other by {
                            if j < keys.len() {
                                assert(keys[j] != other);
                            }
                        }
                        lemma_index_of_string_absent(keys_after, other);
                    },
                }
            }
            if has_key(entries, other) {
                let k = choose|k: int| 0 <= k < keys.len() && keys[k] == other;
                assert(keys_after[k] == other);
            }
            if has_key(after, other) && other != key {
                let k = choose|k: int| 0 <= k < keys_after.len() && keys_after[k] == other;
                assert(keys[k] == other);
            }
        },
    }
    if has_key(entries, key) {
    }
    assert(has_key(after, key)) by {
        lemma_index_of_string(keys_after, key);
    }
    if distinct_keys(entries) {
        assert forall|i: int, j: int| 0 <= i < j < after.len() implies after[i].0 != after[j].0 by {
            assert(keys_after[i] == after[i].0);
            assert(keys_after[j] == after[j].0);
            if j < keys.len() {
                assert(keys[i] == entries[i].0);
                assert(keys[j] == entries[j].0);
            } else {
                assert(keys[i] == entries[i].0);
            }
        }
    }
}

/// A map from strings to values of `V`.
#[derive(Debug, PartialEq, Eq)]
pub struct StringMap<V> {
    pub keys: Vec<String>,
    pub values: Vec<V>,
}

impl<V: View> View for StringMap<V> {
    type V = Seq<(Seq<char>, V::V)>;

    open spec fn view(&self) -> Seq<(Seq<char>, V::V)> {
        Seq::new(self.keys@.len(), |i: int| (self.keys@[i]@, self.values@[i]@))
    }
}

impl<V: View> StringMap<V> {
    /// Every key has its value, and no key stands twice.
    pub open spec fn wf(&self) -> bool {
        &&& self.keys@.len() == self.values@.len()
        &&& distinct_keys(self@)
    }

    /// An empty map.
    pub fn new() -> (r: Self)
        ensures
            r.wf(),
            r@ == Seq::<(Seq<char>, V::V)>::empty(),
    {
        let r = StringMap { keys: Vec::new(), values: Vec::new() };
        assert(r@ =~= Seq::<(Seq<char>, V::V)>::empty());
        r
    }

    /// The number of entries.
    pub fn len(&self) -> (r: usize)
        requires
            self.wf(),
        ensures
            r == self@.len(),
    {
        self.keys.len()
    }

    /// The key of the entry at `i`.
    pub fn key_at(&self, i: usize) -> (r: &String)
        requires
            self.wf(),
            i < self@.len(),
        ensures
            r@ == self@[i as int].0,
    {
        &self.keys[i]
    }

    /// The value of the entry at `i`.
    pub fn value_at(&self, i: usize) -> (r: &V)
        requires
            self.wf(),
            i < self@.len(),
        ensures
            r@ == self@[i as int].1,
    {
        &self.values[i]
    }

    /// Whether an entry stands under `key`.
    pub fn contains_key(&self, key: &String) -> (r: bool)
        requires
            self.wf(),
        ensures
            r == has_key(self@, key@),
    {
        assert(keys_of(self@) =~= string_views(self.keys@));
        find_string(&self.keys, key).is_some()
    }

    /// The value under `key`.
    pub fn get(&self, key: &String) -> (r: Option<&V>)
        requires
            self.wf(),
        ensures
            match r {
                Some(value) => lookup(self@, key@) == Some(value@),
                None => lookup(self@, key@) is None && !has_key(self@, key@),
            },
    {
        assert(keys_of(self@) =~= string_views(self.keys@));
        match find_string(&self.keys, key) {
            Some(i) => Some(&self.values[i]),
            None => None,
        }
    }

    /// Puts `value` under `key`, in the place of the value that stood there.
    pub fn insert(&mut self, key: String, value: V)
        requires
            old(self).wf(),
        ensures
            final(self).wf(),
            final(self)@ == put(old(self)@, key@, value@),
    {
        assert(keys_of(self@) =~= string_views(self.keys@));
        proof {
            lemma_put_lookup(self@, key@, value@, key@);
        }
        match find_string(&self.keys, &key) {
            Some(i) => {
                self.keys.set(i, key);
                self.values.set(i, value);
                assert(self@ =~= put(old(self)@, key@, value@));
            },
            None => {
                self.keys.push(key);
                self.values.push(value);
                assert(self@ =~= put(old(self)@, key@, value@));
            },
        }
    }

    /// Puts `value` under `key` unless the key is taken.
    pub fn insert_new(&mut self, key: String, value: V)
        requires
            old(self).wf(),
        ensures
            final(self).wf(),
            final(self)@ == put_new(old(self)@, key@, value@),
    {
        assert(keys_of(self@) =~= string_views(self.keys@));
        proof {
            lemma_put_lookup(self@, key@, value@, key@);
            lemma_index_of_string(keys_of(self@), key@);
        }
        match find_string(&self.keys, &key) {
            Some(_) => {},
            None => {
                self.keys.push(key);
                self.values.push(value);
                assert(self@ =~= put(old(self)@, key@, value@));
            },
        }
    }
}

} // verus!
