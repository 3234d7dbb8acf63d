//! Participants of a room by connection id.
use dashmap::DashMap;
use vstd::prelude::*;

verus! {

/// The entries of a map from connection ids to display names.
pub uninterp spec fn names(m: DashMap<u32, String>) -> Map<u32, Seq<char>>;

/// `DashMap::new` makes an empty map.
#[verifier::external_body]
fn names_new() -> (r: DashMap<u32, String>)
    ensures
        forall|id: u32| !#[trigger] names(r).contains_key(id),
{
    DashMap::new()
}

/// `DashMap::insert` sets the value of a key.
#[verifier::external_body]
fn names_insert(m: &mut DashMap<u32, String>, id: u32, name: String)
    ensures
        names(*final(m)) == names(*old(m)).insert(id, name@),
{
    m.insert(id, name);
}

/// `DashMap::remove` takes a key out and returns what stood under it.
#[verifier::external_body]
fn names_remove(m: &mut DashMap<u32, String>, id: u32) -> (r: Option<(u32, String)>)
    ensures
        names(*final(m)) == names(*old(m)).remove(id),
        match r {
            Some(entry) => names(*old(m)).contains_key(id) && entry.0 == id && entry.1@ == names(
                *old(m),
            )[id],
            None => !names(*old(m)).contains_key(id),
        },
{
    m.remove(&id)
}

/// `DashMap::contains_key` tells whether a key stands in the map.
#[verifier::external_body]
fn names_contains(m: &DashMap<u32, String>, id: u32) -> (r: bool)
    ensures
        r == names(*m).contains_key(id),
{
    m.contains_key(&id)
}

/// `DashMap::len` counts the keys.
#[verifier::external_body]
fn names_len(m: &DashMap<u32, String>) -> (r: usize)
    ensures
        r == names(*m).dom().len(),
{
    m.len()
}

/// `DashMap::iter` hands every entry out once, in no stated order.
#[verifier::external_body]
fn names_entries(m: &DashMap<u32, String>) -> (r: Vec<(u32, String)>)
    ensures
        forall|i: int|
            0 <= i < r@.len() ==> names(*m).contains_key((#[trigger] r@[i]).0) && names(
                *m,
            )[r@[i].0] == r@[i].1@,
        forall|i: int, j: int|
            0 <= i < j < r@.len() ==> (#[trigger] r@[i]).0 != (#[trigger] r@[j]).0,
        forall|id: u32| #[trigger]
            names(*m).contains_key(id) ==> exists|i: int|
                0 <= i < r@.len() && (#[trigger] r@[i]).0 == id,
{
    m.iter().map(|e| (*e.key(), e.value().clone())).collect()
}

/// Display names by connection id.
#[derive(Debug)]
pub struct Roster {
    members: DashMap<u32, String>,
}

impl View for Roster {
    type V = Map<u32, Seq<char>>;

    closed spec fn view(&self) -> Map<u32, Seq<char>> {
        names(self.members)
    }
}

/// Whether `entries` lists `roster`: each member once, and no one else.
pub open spec fn lists(entries: Seq<(u32, String)>, roster: Map<u32, Seq<char>>) -> bool {
    &&& forall|i: int|
        0 <= i < entries.len() ==> roster.contains_key((#[trigger] entries[i]).0)
            && roster[entries[i].0] == entries[i].1@
    &&& forall|i: int, j: int|
        0 <= i < j < entries.len() ==> (#[trigger] entries[i]).0 != (#[trigger] entries[j]).0
    &&& forall|id: u32| #[trigger]
        roster.contains_key(id) ==> exists|i: int|
            0 <= i < entries.len() && (#[trigger] entries[i]).0 == id
}

impl Roster {
    /// There are finitely many members.
    pub open spec fn wf(&self) -> bool {
        self@.dom().finite()
    }

    /// A roster without members.
    pub fn new() -> (r: Self)
        ensures
            r.wf(),
            r@ == Map::<u32, Seq<char>>::empty(),
    {
        let r = Roster { members: names_new() };
        assert(r@ == Map::<u32, Seq<char>>::empty());
        r
    }

    /// Adds a member, or sets the name of one.
    pub fn insert(&mut self, id: u32, name: String)
        ensures
            final(self)@ == old(self)@.insert(id, name@),
    {
        names_insert(&mut self.members, id, name);
    }

    /// Takes a member out. Returns whether it was there.
    pub fn remove(&mut self, id: u32) -> (r: bool)
        ensures
            final(self)@ == old(self)@.remove(id),
            r == old(self)@.contains_key(id),
    {
        names_remove(&mut self.members, id).is_some()
    }

    /// Whether a member is there.
    pub fn contains(&self, id: u32) -> (r: bool)
        ensures
            r == self@.contains_key(id),
    {
        names_contains(&self.members, id)
    }

    /// The number of members.
    pub fn len(&self) -> (r: usize)
        ensures
            r == self@.dom().len(),
    {
        names_len(&self.members)
    }

    /// The members with their names, in no stated order.
    pub fn entries(&self) -> (r: Vec<(u32, String)>)
        ensures
            lists(r@, self@),
    {
        names_entries(&self.members)
    }
}

} // verus!
