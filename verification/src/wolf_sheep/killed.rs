//! The sheep killed during a step, kept by id in a `hashbrown` set.

use vstd::prelude::*;
use hashbrown::HashSet;

verus! {

/// A `hashbrown::HashSet` of sheep ids, held in a private field and reached
/// only through the methods below.
#[verifier::external_body]
pub struct KilledSheep {
    set: HashSet<u32>,
}

/// The ids that the set holds.
pub uninterp spec fn killed_ids(k: KilledSheep) -> Set<u32>;

impl KilledSheep {
    /// `HashSet::new`: an empty set.
    #[verifier::external_body]
    pub(crate) fn new() -> (k: KilledSheep)
        ensures
            killed_ids(k) == Set::<u32>::empty(),
    {
        KilledSheep { set: HashSet::new() }
    }

    /// `HashSet::get`: the held id equal to `id`, if any.
    #[verifier::external_body]
    pub(crate) fn get(&self, id: u32) -> (r: Option<u32>)
        ensures
            r == (if killed_ids(*self).contains(id) { Some(id) } else { None::<u32> }),
    {
        self.set.get(&id).copied()
    }

    /// `HashSet::insert`: `id` joins the set; `true` when it was not there.
    #[verifier::external_body]
    pub(crate) fn insert(&mut self, id: u32) -> (r: bool)
        ensures
            killed_ids(*final(self)) == killed_ids(*old(self)).insert(id),
            r == !killed_ids(*old(self)).contains(id),
    {
        self.set.insert(id)
    }

    /// `HashSet::clear`: the set is emptied.
    #[verifier::external_body]
    pub(crate) fn clear(&mut self)
        ensures
            killed_ids(*final(self)) == Set::<u32>::empty(),
    {
        self.set.clear()
    }

    /// `HashSet::iter`, collected: each held id once, in the order of the
    /// set's hash table.
    #[verifier::external_body]
    pub(crate) fn ids(&self) -> (r: Vec<u32>)
        ensures
            r@.to_set() == killed_ids(*self),
            r@.no_duplicates(),
    {
        self.set.iter().copied().collect()
    }
}

} // verus!
