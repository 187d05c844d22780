//! The entity directory: generational handles and their storage locations.
//!
//! Ids are reused after an entity is freed, but each reuse bumps the
//! slot's generation, so a stale handle can be told apart from the live
//! one. A handle is live exactly while its slot records a storage
//! location.

use vstd::prelude::*;

verus! {

/// An opaque handle to an entity: a reusable id plus the generation that
/// was current when the handle was made.
#[derive(Clone, Copy, PartialEq, Eq, Structural, Debug, Hash)]
pub struct Entity {
    pub id: u32,
    pub generation: u32,
}

/// Where a live entity's components are stored.
#[derive(Clone, Copy, PartialEq, Eq, Structural, Debug)]
pub struct Location {
    pub archetype: usize,
    pub index: usize,
}

/// One directory slot, indexed by entity id.
#[derive(Clone, Copy, PartialEq, Eq, Structural, Debug)]
pub struct EntityMeta {
    pub generation: u32,
    pub location: Option<Location>,
}

/// The directory: a dense slot array indexed by id, plus the free list of
/// reusable ids.
pub struct Entities {
    pub meta: Vec<EntityMeta>,
    pub free: Vec<u32>,
}

impl Entities {
    /// Free-list entries point at unoccupied slots and are distinct, so
    /// no id can be handed out twice.
    pub open spec fn well_formed(self) -> bool {
        &&& forall|i: int|
            0 <= i < self.free@.len() ==> self.free@[i] < self.meta@.len()
                && self.meta@[#[trigger] self.free@[i] as int].location is None
        &&& forall|i: int, j: int|
            0 <= i < j < self.free@.len() ==> self.free@[i] != self.free@[j]
    }

    /// The handle is live: its id is in range, its generation is current,
    /// and the slot records a location.
    pub open spec fn live(self, e: Entity) -> bool {
        &&& e.id < self.meta@.len()
        &&& self.meta@[e.id as int].generation == e.generation
        &&& self.meta@[e.id as int].location is Some
    }

    /// The location of a live handle.
    pub open spec fn location_of(self, e: Entity) -> Location {
        self.meta@[e.id as int].location->Some_0
    }

    pub fn new() -> (r: Entities)
        ensures
            r.meta@ =~= Seq::<EntityMeta>::empty(),
            r.free@ =~= Seq::<u32>::empty(),
            r.well_formed(),
    {
        Entities { meta: Vec::new(), free: Vec::new() }
    }

    /// Hand out a fresh handle: pop the free list if it has an id, else
    /// extend the slot array. The handle is not live until a location is
    /// recorded for it.
    pub fn reserve(&mut self) -> (e: Entity)
        requires
            old(self).well_formed(),
            old(self).free@.len() == 0 ==> old(self).meta@.len() < u32::MAX,
        ensures
            final(self).well_formed(),
            e.id < final(self).meta@.len(),
            final(self).meta@[e.id as int].generation == e.generation,
            final(self).meta@[e.id as int].location is None,
            !old(self).live(e),
            forall|e2: Entity| old(self).live(e2) ==> final(self).live(e2) && e2.id != e.id,
            forall|e2: Entity| final(self).live(e2) ==> old(self).live(e2),
            forall|id: int|
                0 <= id < old(self).meta@.len() && id != e.id ==> final(self).meta@[id] == old(
                    self,
                ).meta@[id],
            final(self).meta@.len() >= old(self).meta@.len(),
            old(self).free@.len() > 0 ==> {
                &&& e.id == old(self).free@.last()
                &&& e.generation == old(self).meta@[e.id as int].generation
                &&& final(self).free@ == old(self).free@.drop_last()
                &&& final(self).meta@ == old(self).meta@
            },
            old(self).free@.len() == 0 ==> {
                &&& e.id == old(self).meta@.len()
                &&& e.generation == 0
                &&& final(self).meta@ == old(self).meta@.push(
                    EntityMeta { generation: 0, location: None },
                )
                &&& final(self).free@ == old(self).free@
            },
    {
        if self.free.len() > 0 {
            let id = self.free[self.free.len() - 1];
            self.free.pop();
            let generation = self.meta[id as usize].generation;
            Entity { id, generation }
        } else {
            let id = self.meta.len() as u32;
            self.meta.push(EntityMeta { generation: 0, location: None });
            Entity { id, generation: 0 }
        }
    }

    /// Record where a reserved or live entity's components are stored.
    pub fn set_location(&mut self, id: u32, location: Location)
        requires
            old(self).well_formed(),
            id < old(self).meta@.len(),
        ensures
            final(self).well_formed(),
            final(self).meta@ == old(self).meta@.update(
                id as int,
                EntityMeta {
                    generation: old(self).meta@[id as int].generation,
                    location: Some(location),
                },
            ),
            final(self).free@.len() <= old(self).free@.len(),
            (forall|i: int| 0 <= i < old(self).free@.len() ==> old(self).free@[i] != id)
                ==> final(self).free@ == old(self).free@,
    {
        let generation = self.meta[id as usize].generation;
        self.meta.set(id as usize, EntityMeta { generation, location: Some(location) });
        // If the slot sat on the free list, drop it: the slot is occupied now.
        let mut k: usize = 0;
        let ghost free0 = self.free@;
        while k < self.free.len()
            invariant
                self.meta@ == old(self).meta@.update(
                    id as int,
                    EntityMeta {
                        generation: old(self).meta@[id as int].generation,
                        location: Some(location),
                    },
                ),
                k <= self.free@.len(),
                forall|i: int, j: int|
                    0 <= i < j < self.free@.len() ==> self.free@[i] != self.free@[j],
                forall|i: int|
                    0 <= i < self.free@.len() ==> self.free@[i] < self.meta@.len() && old(
                        self,
                    ).meta@[self.free@[i] as int].location is None,
                forall|i: int| 0 <= i < k ==> self.free@[i] != id,
                self.free@.len() <= free0.len(),
                (forall|i: int| 0 <= i < free0.len() ==> free0[i] != id) ==> self.free@ == free0,
            decreases self.free@.len() - k,
        {
            if self.free[k] == id {
                self.free.remove(k);
            } else {
                k += 1;
            }
        }
    }

    /// Return a live handle's id to the free list, bumping the slot's
    /// generation so the stale handle is detectable. Freeing a handle
    /// that is not live is a program bug, excluded by the precondition;
    /// the generation bound is a machine limit.
    pub fn free(&mut self, e: Entity)
        requires
            old(self).well_formed(),
            old(self).live(e),
            e.generation < u32::MAX,
        ensures
            final(self).well_formed(),
            final(self).meta@ == old(self).meta@.update(
                e.id as int,
                EntityMeta { generation: (e.generation + 1) as u32, location: None },
            ),
            final(self).free@ == old(self).free@.push(e.id),
            !final(self).live(e),
            forall|e2: Entity| e2.id != e.id ==> final(self).live(e2) == old(self).live(e2),
    {
        let generation = e.generation + 1;
        self.meta.set(e.id as usize, EntityMeta { generation, location: None });
        self.free.push(e.id);
        proof {
            assert forall|i: int, j: int|
                0 <= i < j < self.free@.len() implies self.free@[i] != self.free@[j] by {
                if j == self.free@.len() - 1 {
                    assert(old(self).meta@[self.free@[i] as int].location is None);
                }
            }
        }
    }

    /// The current generation of an id slot.
    pub fn generation_of(&self, id: u32) -> (r: u32)
        requires
            id < self.meta@.len(),
        ensures
            r == self.meta@[id as int].generation,
    {
        self.meta[id as usize].generation
    }

    /// Confirm the generation and return the location, or nothing for a
    /// dead handle.
    pub fn resolve(&self, e: Entity) -> (r: Option<Location>)
        ensures
            self.live(e) ==> r == Some(self.location_of(e)),
            !self.live(e) ==> r is None,
    {
        if (e.id as usize) < self.meta.len() {
            let m = self.meta[e.id as usize];
            if m.generation == e.generation {
                m.location
            } else {
                None
            }
        } else {
            None
        }
    }
}

} // verus!
