//! Looking up, inserting and removing properties in an ordered bag. Entries
//! keep their order: an insert of a new key goes to the end, a removal closes
//! the gap, and a lookup returns the first entry that matches.

use crate::model::{FStr, Properties, Property, PropertyKey};
use vstd::prelude::*;
use vstd::string::StringSliceAdditionalSpecFns;

verus! {

/// Two keys name the same slot: the same array index and the same name.
pub open spec fn key_same(a: PropertyKey, b: PropertyKey) -> bool {
    a.0 == b.0 && a.1.same(&b.1)
}

/// Entry `i` is the first whose key is `k`.
pub open spec fn is_first_key(s: Seq<(PropertyKey, Property)>, k: PropertyKey, i: int) -> bool {
    &&& 0 <= i < s.len()
    &&& key_same(s[i].0, k)
    &&& forall|j: int| 0 <= j < i ==> !key_same(#[trigger] s[j].0, k)
}

pub open spec fn has_key(s: Seq<(PropertyKey, Property)>, k: PropertyKey) -> bool {
    exists|i: int| 0 <= i < s.len() && key_same(#[trigger] s[i].0, k)
}

/// The name of the narrow string of `name`, whatever the array index.
pub open spec fn name_is(k: PropertyKey, name: Seq<u8>) -> bool {
    !k.1.wide && k.1.body@ == name.push(0u8)
}

/// Entry `i` is the first whose key has the given name, whatever its array index.
pub open spec fn is_first_named(s: Seq<(PropertyKey, Property)>, name: Seq<u8>, i: int) -> bool {
    &&& 0 <= i < s.len()
    &&& name_is(s[i].0, name)
    &&& forall|j: int| 0 <= j < i ==> !name_is(#[trigger] s[j].0, name)
}

pub open spec fn has_named(s: Seq<(PropertyKey, Property)>, name: Seq<u8>) -> bool {
    exists|i: int| 0 <= i < s.len() && name_is(#[trigger] s[i].0, name)
}

impl PropertyKey {
    /// The key with array index `index` and the narrow name `name`.
    pub fn named(index: u32, name: &str) -> (r: PropertyKey)
        ensures
            r.0 == index,
            name_is(r, name.spec_bytes()),
            name.spec_bytes().len() < crate::model::NARROW_MAX ==> r.1.wf(),
    {
        PropertyKey(index, FStr::narrow(name))
    }

    pub fn same_as(&self, other: &PropertyKey) -> (r: bool)
        ensures
            r == key_same(*self, *other),
    {
        self.0 == other.0 && self.1.same_as(&other.1)
    }
}

impl Properties {
    pub fn new() -> (r: Properties)
        ensures
            r.0@.len() == 0,
    {
        Properties(Vec::new())
    }

    pub fn len(&self) -> (r: usize)
        ensures
            r == self.0@.len(),
    {
        self.0.len()
    }

    /// The position of the first entry with key `k`.
    pub fn index_of(&self, k: &PropertyKey) -> (r: Option<usize>)
        ensures
            r matches Some(i) ==> is_first_key(self.0@, *k, i as int),
            r is None <==> !has_key(self.0@, *k),
    {
        let mut i: usize = 0;
        while i < self.0.len()
            invariant
                i <= self.0@.len(),
                forall|j: int| 0 <= j < i ==> !key_same(#[trigger] self.0@[j].0, *k),
            decreases self.0@.len() - i,
        {
            if self.0[i].0.same_as(k) {
                return Some(i);
            }
            i += 1;
        }
        None
    }

    pub fn contains_key(&self, k: &PropertyKey) -> (r: bool)
        ensures
            r == has_key(self.0@, *k),
    {
        self.index_of(k).is_some()
    }

    /// The property of the first entry with key `k`.
    pub fn get(&self, k: &PropertyKey) -> (r: Option<&Property>)
        ensures
            forall|i: int| is_first_key(self.0@, *k, i) ==> r == Some(&self.0@[i].1),
            !has_key(self.0@, *k) ==> r is None,
    {
        match self.index_of(k) {
            Some(i) => Some(&self.0[i].1),
            None => None,
        }
    }

    /// The position of the first entry named `name`, whatever its array index.
    pub fn position_by_name(&self, name: &str) -> (r: Option<usize>)
        ensures
            r matches Some(i) ==> is_first_named(self.0@, name.spec_bytes(), i as int),
            r is None <==> !has_named(self.0@, name.spec_bytes()),
    {
        let mut i: usize = 0;
        while i < self.0.len()
            invariant
                i <= self.0@.len(),
                forall|j: int| 0 <= j < i ==> !name_is(#[trigger] self.0@[j].0, name.spec_bytes()),
            decreases self.0@.len() - i,
        {
            if self.0[i].0.1.is(name) {
                return Some(i);
            }
            i += 1;
        }
        None
    }

    /// The property of the first entry named `name`, whatever its array index.
    pub fn get_by_name(&self, name: &str) -> (r: Option<&Property>)
        ensures
            forall|i: int| is_first_named(self.0@, name.spec_bytes(), i) ==> r == Some(
                &self.0@[i].1,
            ),
            !has_named(self.0@, name.spec_bytes()) ==> r is None,
    {
        match self.position_by_name(name) {
            Some(i) => Some(&self.0[i].1),
            None => None,
        }
    }

    /// Sets the property of key `k`: in place, keeping its position, if the key
    /// is there (the old property is returned), else at the end.
    pub fn insert(&mut self, k: PropertyKey, p: Property) -> (r: Option<Property>)
        ensures
            forall|i: int|
                is_first_key(old(self).0@, k, i) ==> final(self).0@ == old(self).0@.update(
                    i,
                    (old(self).0@[i].0, p),
                ) && r == Some(old(self).0@[i].1),
            !has_key(old(self).0@, k) ==> final(self).0@ == old(self).0@.push((k, p)) && r is None,
    {
        match self.index_of(&k) {
            Some(i) => {
                let (old_key, old_prop) = self.0.remove(i);
                self.0.insert(i, (old_key, p));
                proof {
                    assert(self.0@ =~= old(self).0@.update(i as int, (old(self).0@[i as int].0, p)));
                }
                Some(old_prop)
            },
            None => {
                self.0.push((k, p));
                None
            },
        }
    }

    /// Removes the first entry with key `k`, closing the gap, and returns its property.
    pub fn shift_remove(&mut self, k: &PropertyKey) -> (r: Option<Property>)
        ensures
            forall|i: int|
                is_first_key(old(self).0@, *k, i) ==> final(self).0@ == old(self).0@.remove(i)
                    && r == Some(old(self).0@[i].1),
            !has_key(old(self).0@, *k) ==> final(self).0@ == old(self).0@ && r is None,
    {
        match self.index_of(k) {
            Some(i) => {
                let (_key, prop) = self.0.remove(i);
                Some(prop)
            },
            None => None,
        }
    }
}

} // verus!
