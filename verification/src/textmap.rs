//! A map from texts to values that also remembers the order in which its keys came.

use vstd::hash_map::StringHashMap;
use vstd::prelude::*;
use vstd::string::*;

verus! {

/// The position of `key`, or the length of the list where it does not occur.
pub open spec fn position<T>(list: Seq<(Seq<char>, T)>, key: Seq<char>) -> nat
    decreases list.len(),
{
    if list.len() == 0 || list[0].0 == key {
        0
    } else {
        1 + position(list.skip(1), key)
    }
}

/// The value that stands under `key`.
pub open spec fn value_of<T>(list: Seq<(Seq<char>, T)>, key: Seq<char>) -> Option<T> {
    let at = position(list, key);
    if at < list.len() {
        Some(list[at as int].1)
    } else {
        None
    }
}

/// The list with `value` under `key`: in the place of what stood there, or at the end.
pub open spec fn with_value<T>(list: Seq<(Seq<char>, T)>, key: Seq<char>, value: T) -> Seq<
    (Seq<char>, T),
> {
    let at = position(list, key);
    if at < list.len() {
        list.update(at as int, (key, value))
    } else {
        list.push((key, value))
    }
}

/// No key stands in the list twice.
pub open spec fn keys_distinct<T>(list: Seq<(Seq<char>, T)>) -> bool {
    forall|i: int, j: int|
        #![trigger list[i], list[j]]
        0 <= i < j < list.len() ==> list[i].0 != list[j].0
}

pub proof fn lemma_position<T>(list: Seq<(Seq<char>, T)>, key: Seq<char>)
    ensures
        position(list, key) <= list.len(),
        position(list, key) < list.len() ==> list[position(list, key) as int].0 == key,
        forall|i: int| 0 <= i < position(list, key) ==> (#[trigger] list[i]).0 != key,
    decreases list.len(),
{
    if list.len() == 0 || list[0].0 == key {
    } else {
        let rest = list.skip(1);
        lemma_position(rest, key);
        assert forall|i: int| 0 <= i < position(list, key) implies (#[trigger] list[i]).0 != key by {
            if i > 0 {
                assert(rest[i - 1] == list[i]);
            }
        }
    }
}

pub proof fn lemma_position_is<T>(list: Seq<(Seq<char>, T)>, key: Seq<char>, at: int)
    requires
        0 <= at <= list.len(),
        at < list.len() ==> list[at].0 == key,
        forall|i: int| 0 <= i < at ==> (#[trigger] list[i]).0 != key,
    ensures
        position(list, key) == at,
{
    lemma_position(list, key);
}

/// What was put under a key is found under it, and nothing else changes.
pub proof fn put_then_get<T>(list: Seq<(Seq<char>, T)>, key: Seq<char>, value: T, other: Seq<char>)
    ensures
        value_of(with_value(list, key, value), other) == if other == key {
            Some(value)
        } else {
            value_of(list, other)
        },
        keys_distinct(list) ==> keys_distinct(with_value(list, key, value)),
{
    lemma_position(list, key);
    lemma_position(list, other);
    let changed = with_value(list, key, value);
    lemma_position(changed, other);
    let at = position(list, key) as int;
    let before = position(list, other) as int;
    if other == key {
        assert forall|i: int| 0 <= i < at implies (#[trigger] changed[i]).0 != key by {
            assert(changed[i] == list[i]);
        }
        lemma_position_is(changed, key, at);
    } else if before < list.len() {
        assert forall|i: int| 0 <= i < before implies (#[trigger] changed[i]).0 != other by {
            assert(list[i].0 != other);
        }
        assert(changed[before] == list[before]);
        lemma_position_is(changed, other, before);
    } else {
        assert forall|i: int| 0 <= i < changed.len() implies (#[trigger] changed[i]).0 != other by {
            if i < list.len() {
                assert(list[i].0 != other);
            }
        }
        lemma_position_is(changed, other, changed.len() as int);
    }
    if keys_distinct(list) {
        assert forall|i: int, j: int|
            #![trigger changed[i], changed[j]]
            0 <= i < j < changed.len() implies changed[i].0 != changed[j].0 by {
            assert(i < list.len());
            if j < list.len() {
                assert(list[i].0 != list[j].0);
            } else {
                assert(list[i].0 != key);
            }
        }
    }
}

/// A map from texts to values, in the order in which its keys first came.
pub struct TextMap<V> {
    entries: Vec<(String, V)>,
    index: StringHashMap<usize>,
}

impl<V: View> View for TextMap<V> {
    type V = Seq<(Seq<char>, V::V)>;

    closed spec fn view(&self) -> Seq<(Seq<char>, V::V)> {
        self.entries@.map_values(|e: (String, V)| (e.0@, e.1@))
    }
}

impl<V: View> TextMap<V> {
    /// The index names the place of every entry, and no key stands twice.
    pub closed spec fn wf(&self) -> bool {
        &&& keys_distinct(self@)
        &&& forall|i: int|
            0 <= i < self@.len() ==> self.index@.contains_key((#[trigger] self@[i]).0)
                && self.index@[self@[i].0] == i
        &&& forall|key: Seq<char>| #[trigger]
            self.index@.contains_key(key) ==> self.index@[key] < self@.len()
                && self@[self.index@[key] as int].0 == key
    }

    /// Keys are distinct in every map that is well formed.
    pub proof fn lemma_distinct(&self)
        requires
            self.wf(),
        ensures
            keys_distinct(self@),
    {
    }

    pub fn new() -> (map: Self)
        ensures
            map.wf(),
            map@ == Seq::<(Seq<char>, V::V)>::empty(),
    {
        let map = TextMap { entries: Vec::new(), index: StringHashMap::new() };
        proof {
            assert(map@ =~= Seq::<(Seq<char>, V::V)>::empty());
        }
        map
    }

    pub fn len(&self) -> (len: usize)
        ensures
            len == self@.len(),
    {
        self.entries.len()
    }

    /// The place of `key`.
    pub fn find(&self, key: &str) -> (at: Option<usize>)
        requires
            self.wf(),
        ensures
            match at {
                Some(i) => i < self@.len() && i == position(self@, key@),
                None => position(self@, key@) == self@.len(),
            },
    {
        proof {
            lemma_position(self@, key@);
        }
        match self.index.get(key) {
            Some(i) => {
                proof {
                    let at = *i as int;
                    assert(self@[at].0 == key@);
                    assert forall|k: int| 0 <= k < at implies (#[trigger] self@[k]).0 != key@ by {
                        assert(self@[k].0 != self@[at].0);
                    }
                    lemma_position_is(self@, key@, at);
                }
                Some(*i)
            },
            None => {
                proof {
                    assert forall|k: int| 0 <= k < self@.len() implies (#[trigger] self@[k]).0
                        != key@ by {
                        assert(self.index@.contains_key(self@[k].0));
                    }
                    lemma_position_is(self@, key@, self@.len() as int);
                }
                None
            },
        }
    }

    /// The value under `key`.
    pub fn get(&self, key: &str) -> (value: Option<&V>)
        requires
            self.wf(),
        ensures
            match value {
                Some(v) => value_of(self@, key@) == Some(v@),
                None => value_of(self@, key@) is None,
            },
    {
        match self.find(key) {
            Some(i) => Some(&self.entries[i].1),
            None => None,
        }
    }

    /// The key at place `i`.
    pub fn key_at(&self, i: usize) -> (key: &String)
        requires
            i < self@.len(),
        ensures
            key@ == self@[i as int].0,
    {
        &self.entries[i].0
    }

    /// The value at place `i`.
    pub fn value_at(&self, i: usize) -> (value: &V)
        requires
            i < self@.len(),
        ensures
            value@ == self@[i as int].1,
    {
        &self.entries[i].1
    }

    /// Puts `value` under `key`.
    pub fn insert(&mut self, key: String, value: V)
        requires
            old(self).wf(),
        ensures
            final(self).wf(),
            final(self)@ == with_value(old(self)@, key@, value@),
    {
        let ghost before = self@;
        let ghost index = self.index@;
        proof {
            put_then_get(before, key@, value@, key@);
            lemma_position(before, key@);
        }
        match self.find(key.as_str()) {
            Some(i) => {
                self.entries.set(i, (key, value));
                proof {
                    assert(self@ =~= before.update(i as int, (key@, value@)));
                    assert forall|k: int| 0 <= k < self@.len() implies self.index@.contains_key(
                        (#[trigger] self@[k]).0,
                    ) && self.index@[self@[k].0] == k by {
                        assert(index.contains_key(before[k].0));
                    }
                    assert forall|name: Seq<char>| #[trigger]
                        self.index@.contains_key(name) implies self.index@[name] < self@.len()
                        && self@[self.index@[name] as int].0 == name by {
                        assert(before[index[name] as int].0 == name);
                    }
                }
            },
            None => {
                let at: usize = self.entries.len();
                self.index.insert(key.clone(), at);
                self.entries.push((key, value));
                proof {
                    assert(self@ =~= before.push((key@, value@)));
                    assert forall|k: int| 0 <= k < self@.len() implies self.index@.contains_key(
                        (#[trigger] self@[k]).0,
                    ) && self.index@[self@[k].0] == k by {
                        if k < before.len() {
                            assert(index.contains_key(before[k].0));
                            assert(before[k].0 != key@);
                        }
                    }
                    assert forall|name: Seq<char>| #[trigger]
                        self.index@.contains_key(name) implies self.index@[name] < self@.len()
                        && self@[self.index@[name] as int].0 == name by {
                        if name != key@ {
                            assert(index.contains_key(name));
                            assert(before[index[name] as int].0 == name);
                        }
                    }
                }
            },
        }
    }
}

} // verus!
