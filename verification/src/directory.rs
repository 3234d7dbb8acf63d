//! A table of values under text keys, in the order in which they were added.
//!
//! The values stand in a vector; a `dashmap::DashMap` finds the place of a key. The
//! map hands its values out behind lock guards only, so the values that callers
//! borrow and change in place stand beside it.
use dashmap::DashMap;
use vstd::prelude::*;

verus! {

/// A concurrent hash map of the `dashmap` crate.
#[verifier::external_type_specification]
#[verifier::external_body]
#[verifier::reject_recursive_types(K)]
#[verifier::reject_recursive_types(V)]
#[verifier::reject_recursive_types(S)]
pub struct ExDashMap<K, V, S>(DashMap<K, V, S>);

/// The entries of a map from texts to places.
pub uninterp spec fn places(m: DashMap<String, usize>) -> Map<Seq<char>, usize>;

/// `DashMap::new` makes an empty map.
#[verifier::external_body]
fn places_new() -> (r: DashMap<String, usize>)
    ensures
        forall|key: Seq<char>| !#[trigger] places(r).contains_key(key),
{
    DashMap::new()
}

/// `DashMap::get` finds the value of a key.
#[verifier::external_body]
fn places_get(m: &DashMap<String, usize>, key: &str) -> (r: Option<usize>)
    ensures
        match r {
            Some(i) => places(*m).contains_key(key@) && places(*m)[key@] == i,
            None => !places(*m).contains_key(key@),
        },
{
    m.get(key).map(|i| *i)
}

/// `DashMap::insert` sets the value of a key.
#[verifier::external_body]
fn places_insert(m: &mut DashMap<String, usize>, key: String, i: usize)
    ensures
        places(*final(m)) == places(*old(m)).insert(key@, i),
{
    m.insert(key, i);
}

/// `DashMap::remove` takes a key out.
#[verifier::external_body]
fn places_remove(m: &mut DashMap<String, usize>, key: &str)
    ensures
        places(*final(m)) == places(*old(m)).remove(key@),
{
    m.remove(key);
}

/// Values under text keys, in the order in which they were added.
#[derive(Debug)]
#[verifier::reject_recursive_types(V)]
pub struct Directory<V> {
    index: DashMap<String, usize>,
    entries: Vec<(String, V)>,
}

/// Whether `entries` holds a value under `key`.
pub open spec fn holds<V>(entries: Seq<(Seq<char>, V)>, key: Seq<char>) -> bool {
    exists|i: int| 0 <= i < entries.len() && (#[trigger] entries[i]).0 == key
}

/// Whether no key occurs twice.
pub open spec fn keys_differ<V>(entries: Seq<(Seq<char>, V)>) -> bool {
    forall|i: int, j: int|
        0 <= i < j < entries.len() ==> (#[trigger] entries[i]).0 != (#[trigger] entries[j]).0
}

/// The place of `key`.
pub open spec fn place<V>(entries: Seq<(Seq<char>, V)>, key: Seq<char>) -> int {
    choose|i: int| 0 <= i < entries.len() && (#[trigger] entries[i]).0 == key
}

/// The entries as a map.
pub open spec fn to_map<V>(entries: Seq<(Seq<char>, V)>) -> Map<Seq<char>, V> {
    Map::new(
        |key: Seq<char>| holds(entries, key),
        |key: Seq<char>| entries[place(entries, key)].1,
    )
}

/// Each entry stands in the map under its key.
pub proof fn lemma_entry<V>(entries: Seq<(Seq<char>, V)>, i: int)
    requires
        keys_differ(entries),
        0 <= i < entries.len(),
    ensures
        holds(entries, entries[i].0),
        to_map(entries).contains_key(entries[i].0),
        to_map(entries)[entries[i].0] == entries[i].1,
{
    let key = entries[i].0;
    assert(holds(entries, key));
    let j = place(entries, key);
    assert(0 <= j < entries.len() && entries[j].0 == key);
    assert(i == j);
}

/// An entry put in anywhere under a new key is an entry more in the map.
pub proof fn lemma_insert<V>(entries: Seq<(Seq<char>, V)>, i: int, key: Seq<char>, value: V)
    requires
        keys_differ(entries),
        !holds(entries, key),
        0 <= i <= entries.len(),
    ensures
        keys_differ(entries.insert(i, (key, value))),
        to_map(entries.insert(i, (key, value))) == to_map(entries).insert(key, value),
{
    let more = entries.insert(i, (key, value));
    assert forall|a: int, b: int| 0 <= a < b < more.len() implies (#[trigger] more[a]).0 != (
    #[trigger] more[b]).0 by {
        let was_a = if a < i {
            a
        } else {
            a - 1
        };
        let was_b = if b < i {
            b
        } else {
            b - 1
        };
        if a != i {
            assert(more[a] == entries[was_a]);
        }
        if b != i {
            assert(more[b] == entries[was_b]);
        }
    }
    let wanted = to_map(entries).insert(key, value);
    assert forall|text: Seq<char>|
        #![trigger to_map(more).contains_key(text)]
        #![trigger to_map(more)[text]]
        to_map(more).contains_key(text) == wanted.contains_key(text) && (to_map(
            more,
        ).contains_key(text) ==> to_map(more)[text] == wanted[text]) by {
        if holds(more, text) {
            let a = place(more, text);
            lemma_entry(more, a);
            if a != i {
                let was = if a < i {
                    a
                } else {
                    a - 1
                };
                assert(more[a] == entries[was]);
                lemma_entry(entries, was);
            }
        }
        if text == key {
            assert(more[i].0 == key);
        } else if holds(entries, text) {
            let a = place(entries, text);
            if a < i {
                assert(more[a] == entries[a]);
            } else {
                assert(more[a + 1] == entries[a]);
            }
        }
    }
    assert(to_map(more) =~= wanted);
}

/// A changed value is changed in the map.
pub proof fn lemma_update<V>(entries: Seq<(Seq<char>, V)>, i: int, value: V)
    requires
        keys_differ(entries),
        0 <= i < entries.len(),
    ensures
        keys_differ(entries.update(i, (entries[i].0, value))),
        to_map(entries.update(i, (entries[i].0, value))) == to_map(entries).insert(
            entries[i].0,
            value,
        ),
{
    let changed = entries.update(i, (entries[i].0, value));
    assert forall|a: int| 0 <= a < entries.len() implies (#[trigger] changed[a]).0
        == entries[a].0 by {}
    assert forall|a: int, b: int| 0 <= a < b < changed.len() implies (#[trigger] changed[a]).0 != (
    #[trigger] changed[b]).0 by {
        assert(entries[a].0 != entries[b].0);
    }
    let wanted = to_map(entries).insert(entries[i].0, value);
    assert forall|text: Seq<char>|
        #![trigger to_map(changed).contains_key(text)]
        #![trigger to_map(changed)[text]]
        to_map(changed).contains_key(text) == wanted.contains_key(text) && (to_map(
            changed,
        ).contains_key(text) ==> to_map(changed)[text] == wanted[text]) by {
        if holds(changed, text) {
            let a = place(changed, text);
            lemma_entry(changed, a);
            lemma_entry(entries, a);
        }
        if holds(entries, text) {
            let a = place(entries, text);
            assert(changed[a].0 == text);
        }
    }
    assert(to_map(changed) =~= wanted);
}

/// Whether `index` gives the place of every key, and of no key but those.
spec fn indexed<V>(index: Map<Seq<char>, usize>, entries: Seq<(Seq<char>, V)>) -> bool {
    &&& forall|i: int|
        0 <= i < entries.len() ==> index.contains_key((#[trigger] entries[i]).0)
            && index[entries[i].0] == i
    &&& forall|key: Seq<char>| #[trigger]
        index.contains_key(key) ==> index[key] < entries.len() && entries[index[key] as int].0
            == key
}

impl<V> View for Directory<V> {
    type V = Seq<(Seq<char>, V)>;

    closed spec fn view(&self) -> Seq<(Seq<char>, V)> {
        Seq::new(self.entries@.len(), |i: int| (self.entries@[i].0@, self.entries@[i].1))
    }
}

impl<V> Directory<V> {
    /// The index knows the place of every key, and no key but those.
    pub closed spec fn wf(&self) -> bool {
        indexed(places(self.index), self@)
    }

    /// No key of a well-formed directory occurs twice.
    pub proof fn lemma_keys_differ(&self)
        requires
            self.wf(),
        ensures
            keys_differ(self@),
    {
    }

    /// A directory without entries.
    pub fn new() -> (r: Self)
        ensures
            r.wf(),
            r@ == Seq::<(Seq<char>, V)>::empty(),
    {
        Directory { index: places_new(), entries: Vec::new() }
    }

    /// The number of entries.
    pub fn len(&self) -> (r: usize)
        ensures
            r == self@.len(),
    {
        self.entries.len()
    }

    /// The place of `key`.
    pub fn find(&self, key: &str) -> (r: Option<usize>)
        requires
            self.wf(),
        ensures
            match r {
                Some(i) => i < self@.len() && self@[i as int].0 == key@,
                None => !holds(self@, key@),
            },
    {
        places_get(&self.index, key)
    }

    /// The key at place `i`.
    pub fn key(&self, i: usize) -> (r: &str)
        requires
            i < self@.len(),
        ensures
            r@ == self@[i as int].0,
    {
        self.entries[i].0.as_str()
    }

    /// The value at place `i`.
    pub fn get(&self, i: usize) -> (r: &V)
        requires
            i < self@.len(),
        ensures
            *r == self@[i as int].1,
    {
        &self.entries[i].1
    }

    /// The value at place `i`, to change.
    pub fn get_mut(&mut self, i: usize) -> (r: &mut V)
        requires
            old(self).wf(),
            i < old(self)@.len(),
        ensures
            *r == old(self)@[i as int].1,
            final(self)@ == old(self)@.update(i as int, (old(self)@[i as int].0, *final(r))),
            final(self).wf(),
    {
        let ghost s = self@;
        assert forall|v: V| #[trigger]
            indexed(places(self.index), s.update(i as int, (s[i as int].0, v))) by {
            let t = s.update(i as int, (s[i as int].0, v));
            assert forall|j: int| 0 <= j < t.len() implies (#[trigger] t[j]).0 == s[j].0 by {}
        }
        let entry = &mut self.entries[i];
        &mut entry.1
    }

    /// Adds a value under a new key.
    pub fn push(&mut self, key: &str, value: V)
        requires
            old(self).wf(),
            !holds(old(self)@, key@),
        ensures
            final(self).wf(),
            final(self)@ == old(self)@.push((key@, value)),
    {
        let i: usize = self.entries.len();
        places_insert(&mut self.index, String::from(key), i);
        self.entries.push((String::from(key), value));
        assert(self@ == old(self)@.push((key@, value)));
    }

    /// Takes the entry at place `i` out; the ones after it move up.
    pub fn remove(&mut self, i: usize) -> (r: V)
        requires
            old(self).wf(),
            i < old(self)@.len(),
        ensures
            final(self).wf(),
            final(self)@ == old(self)@.remove(i as int),
            r == old(self)@[i as int].1,
    {
        let (key, value) = self.entries.remove(i);
        assert(self@ == old(self)@.remove(i as int));
        places_remove(&mut self.index, &key);
        let ghost all = self@;
        let n: usize = self.entries.len();
        assert forall|k: int| 0 <= k < n implies places(self.index).contains_key(
            (#[trigger] all[k]).0,
        ) && places(self.index)[all[k].0] == if k < i {
            k
        } else {
            k + 1
        } by {
            let was = if k < i {
                k
            } else {
                k + 1
            };
            assert(all[k] == old(self)@[was]);
            assert(places(old(self).index)[old(self)@[was].0] == was);
            assert(places(old(self).index)[old(self)@[i as int].0] == i);
            assert(old(self)@[i as int].0 == key@);
        }
        assert forall|text: Seq<char>| #[trigger]
            places(self.index).contains_key(text) implies holds(all, text) by {
            let was = places(old(self).index)[text] as int;
            assert(old(self)@[was].0 == text);
            if was < i {
                assert(all[was].0 == text);
            } else {
                assert(all[was - 1].0 == text);
            }
        }
        for j in i..n
            invariant
                n == all.len(),
                self@ == all,
                all == old(self)@.remove(i as int),
                old(self).wf(),
                i < old(self)@.len(),
                forall|k: int|
                    0 <= k < j ==> places(self.index).contains_key((#[trigger] all[k]).0)
                        && places(self.index)[all[k].0] == k,
                forall|k: int|
                    j <= k < n ==> places(self.index).contains_key((#[trigger] all[k]).0)
                        && places(self.index)[all[k].0] == k + 1,
                forall|text: Seq<char>| #[trigger]
                    places(self.index).contains_key(text) ==> holds(all, text),
        {
            let text = self.entries[j].0.clone();
            assert(text@ == all[j as int].0);
            places_insert(&mut self.index, text, j);
        }
        value
    }
}

} // verus!
