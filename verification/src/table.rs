//! What was last seen under each name.
use vstd::hash_map::StringHashMap;
use vstd::prelude::*;

use crate::text::owned;

verus! {

/// One value under each of some names.
#[verifier::reject_recursive_types(V)]
pub struct Table<V> {
    entries: StringHashMap<V>,
}

impl<V: Copy> View for Table<V> {
    type V = Map<Seq<char>, V>;

    closed spec fn view(&self) -> Map<Seq<char>, V> {
        self.entries@
    }
}

impl<V: Copy> Table<V> {
    pub fn new() -> (r: Self)
        ensures
            r@ == Map::<Seq<char>, V>::empty(),
    {
        Table { entries: StringHashMap::new() }
    }

    /// What stands under the name.
    pub fn get(&self, name: &String) -> (r: Option<V>)
        ensures
            match r {
                Some(v) => self@.dom().contains(name@) && self@[name@] == v,
                None => !self@.dom().contains(name@),
            },
    {
        match self.entries.get(name.as_str()) {
            Some(v) => Some(*v),
            None => None,
        }
    }

    /// Puts a value under the name, in place of what stood there.
    pub fn insert(&mut self, name: &String, v: V)
        ensures
            final(self)@ == old(self)@.insert(name@, v),
    {
        self.entries.insert(owned(name.as_str()), v);
    }
}

} // verus!
