//! A free-list allocator for reusable stable identifiers: released raw ids
//! are handed out again before fresh ones are drawn from a monotonic
//! counter, so freed slots can be reused without breaking an id-to-slot
//! bijection.

use vstd::prelude::*;

verus! {

use std::collections::VecDeque;
use std::marker::PhantomData;
use vstd::std_specs::convert::FromSpec;

/// A generic ID allocator for stable IDs, parameterised by the caller's id
/// type, built from the raw `u32` value it wraps.
#[derive(Debug)]
pub struct StableIdAllocator<Id> where Id: From<u32> {
    free_ids: VecDeque<u32>,
    next_id: u32,
    _phantom: PhantomData<Id>,
}

impl<Id> StableIdAllocator<Id> where Id: From<u32> {
    /// The queue of released raw ids awaiting reuse, oldest first.
    pub closed spec fn free_list(self) -> Seq<u32> {
        self.free_ids@
    }

    /// The next fresh raw id.
    pub closed spec fn next(self) -> u32 {
        self.next_id
    }

    /// Creates an allocator with no released ids and a fresh counter.
    pub fn new() -> (a: Self)
        ensures
            a.free_list().len() == 0,
            a.next() == 0,
    {
        StableIdAllocator { free_ids: VecDeque::new(), next_id: 0, _phantom: PhantomData }
    }

    /// Acquires an id: the oldest released raw id if any is waiting,
    /// otherwise the next fresh counter value.
    pub fn acquire_id(&mut self) -> (id: Id)
        requires
            old(self).free_list().len() > 0 || old(self).next() < u32::MAX,
        ensures
            old(self).free_list().len() > 0 ==> {
                &&& final(self).free_list() == old(self).free_list().drop_first()
                &&& final(self).next() == old(self).next()
                &&& (<Id as FromSpec<u32>>::obeys_from_spec() ==> id == <Id as FromSpec<
                    u32,
                >>::from_spec(old(self).free_list()[0]))
            },
            old(self).free_list().len() == 0 ==> {
                &&& final(self).free_list() == old(self).free_list()
                &&& final(self).next() == old(self).next() + 1
                &&& (<Id as FromSpec<u32>>::obeys_from_spec() ==> id == <Id as FromSpec<
                    u32,
                >>::from_spec(old(self).next()))
            },
    {
        match self.free_ids.pop_front() {
            Some(reused_id) => From::from(reused_id),
            None => {
                let new_id_value = self.next_id;
                self.next_id = self.next_id + 1;
                From::from(new_id_value)
            },
        }
    }

    /// Releases a raw id, making it available for reuse after all earlier
    /// released ids.
    pub fn release_id(&mut self, id_value: u32)
        ensures
            final(self).free_list() == old(self).free_list().push(id_value),
            final(self).next() == old(self).next(),
    {
        self.free_ids.push_back(id_value);
    }
}

} // verus!
