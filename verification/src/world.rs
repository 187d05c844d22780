//! The world: archetypes plus the entity directory.
//!
//! `spawn` finds or creates the archetype for a bundle's component set,
//! appends a row and records the location; `despawn` swap-removes the
//! row and returns the id to the free list with a bumped generation.
//! What a world holds is specified entity by entity: a live handle maps
//! to the component map of its row, the same map its spawning bundle had.

use vstd::prelude::*;

use crate::archetype::Archetype;
use crate::bundle::Bundle;
use crate::entity::{Entities, Entity, Location};
use crate::error::{ComponentError, NoSuchEntity};
use crate::type_info::{find_type, find_type_index, lemma_find_type, TypeInfo};

verus! {

pub struct World {
    pub archetypes: Vec<Archetype>,
    pub entities: Entities,
}

impl Default for World {
    /// An empty world.
    fn default() -> (r: World)
        ensures
            r.well_formed(),
            r.archetypes@.len() == 0,
            forall|e: Entity| !r.live(e),
    {
        World::new()
    }
}

impl World {
    /// The directory and the archetypes agree: a live slot points at a
    /// row holding its id, and every row's id points back at exactly
    /// that row.
    pub open spec fn well_formed(self) -> bool {
        &&& self.entities.well_formed()
        &&& forall|a: int|
            0 <= a < self.archetypes@.len() ==> (#[trigger] self.archetypes@[a]).well_formed()
        &&& forall|id: int|
            0 <= id < self.entities.meta@.len() && (#[trigger] self.entities.meta@[id]).location is Some
                ==> {
                let loc = self.entities.meta@[id].location->Some_0;
                &&& loc.archetype < self.archetypes@.len()
                &&& loc.index < self.archetypes@[loc.archetype as int].len
                &&& self.archetypes@[loc.archetype as int].entities@[loc.index as int] == id
            }
        &&& forall|a: int, r: int|
            0 <= a < self.archetypes@.len() && 0 <= r < self.archetypes@[a].len ==> {
                let id = #[trigger] self.archetypes@[a].entities@[r];
                &&& id < self.entities.meta@.len()
                &&& self.entities.meta@[id as int].location is Some
                &&& self.entities.meta@[id as int].location->Some_0.archetype == a
                &&& self.entities.meta@[id as int].location->Some_0.index == r
            }
    }

    /// The handle refers to a live entity.
    pub open spec fn live(self, e: Entity) -> bool {
        self.entities.live(e)
    }

    /// The components of a live entity: type identity to bytes.
    pub open spec fn components_of(self, e: Entity) -> Map<u64, Seq<u8>> {
        let loc = self.entities.location_of(e);
        self.archetypes@[loc.archetype as int].row_map(loc.index as int)
    }

    /// The current generation of an id slot.
    pub open spec fn gen_of(self, id: u32) -> u32 {
        self.entities.meta@[id as int].generation
    }

    pub fn new() -> (r: World)
        ensures
            r.well_formed(),
            r.entities.meta@ =~= Seq::<crate::entity::EntityMeta>::empty(),
            r.entities.free@ =~= Seq::<u32>::empty(),
            r.archetypes@.len() == 0,
            forall|e: Entity| !r.live(e),
    {
        World { archetypes: Vec::new(), entities: Entities::new() }
    }

    /// Find an archetype storing exactly the bundle's component set.
    fn find_archetype(&self, bundle: &Bundle) -> (r: Option<usize>)
        requires
            self.well_formed(),
            bundle.well_formed(),
        ensures
            r matches Some(a) ==> a < self.archetypes@.len() && self.archetypes@[
                a as int
            ].matches_bundle(*bundle),
    {
        let mut a: usize = 0;
        let n = self.archetypes.len();
        while a < n
            invariant
                n == self.archetypes@.len(),
                self.well_formed(),
                bundle.well_formed(),
            decreases n - a,
        {
            if self.archetype_matches(a, bundle) {
                return Some(a);
            }
            a += 1;
        }
        None
    }

    /// Check both inclusions between an archetype's component set and a
    /// bundle's, sizes included.
    fn archetype_matches(&self, a: usize, bundle: &Bundle) -> (r: bool)
        requires
            self.well_formed(),
            bundle.well_formed(),
            a < self.archetypes@.len(),
        ensures
            r ==> self.archetypes@[a as int].matches_bundle(*bundle),
    {
        let arch = &self.archetypes[a];
        let n = arch.types.len();
        let mut k: usize = 0;
        while k < n
            invariant
                n == arch.types@.len(),
                arch.well_formed(),
                bundle.well_formed(),
                forall|i: int|
                    0 <= i < k ==> bundle.comp_map().dom().contains((#[trigger] arch.types@[i]).id)
                        && bundle.comp_map()[arch.types@[i].id].len() == arch.types@[i].size,
            decreases n - k,
        {
            let info = arch.types[k];
            match bundle.get(info.id) {
                Some(v) => {
                    if v.len() != info.size {
                        return false;
                    }
                },
                None => {
                    return false;
                },
            }
            k += 1;
        }
        let m = bundle.len();
        let mut j: usize = 0;
        while j < m
            invariant
                m == bundle.types_s().len(),
                arch.well_formed(),
                bundle.well_formed(),
                forall|i: int|
                    0 <= i < j ==> find_type(
                        arch.types@,
                        (#[trigger] bundle.types_s()[i]).id,
                    ) is Some,
            decreases m - j,
        {
            let info = bundle.type_at(j);
            match find_type_index(&arch.types, info.id) {
                Some(_) => {},
                None => {
                    return false;
                },
            }
            j += 1;
        }
        true
    }

    /// What `spawn` does, stated over the world model: `e` is fresh, it
    /// now holds exactly the bundle's contents, everything else is
    /// untouched, and the id came off the free list if one was there.
    pub open spec fn spawn_step(w0: World, b: Bundle, w1: World, e: Entity) -> bool {
        &&& !w0.directory_full()
        &&& !w0.live(e)
        &&& w1.live(e)
        &&& w1.components_of(e) == b.comp_map()
        &&& forall|e2: Entity|
            w0.live(e2) ==> w1.live(e2) && e2.id != e.id && w1.components_of(e2)
                == w0.components_of(e2)
        &&& forall|e2: Entity| w1.live(e2) && e2 != e ==> w0.live(e2)
        &&& w0.entities.free@.len() > 0 ==> {
            &&& e.id == w0.entities.free@.last()
            &&& e.generation == w0.gen_of(e.id)
            &&& w1.entities.free@ == w0.entities.free@.drop_last()
            &&& w1.entities.meta@.len() == w0.entities.meta@.len()
        }
        &&& w0.entities.free@.len() == 0 ==> {
            &&& e.id == w0.entities.meta@.len()
            &&& e.generation == 0
            &&& w1.entities.meta@.len() == w0.entities.meta@.len() + 1
        }
        &&& forall|id: u32| id < w0.entities.meta@.len() ==> w1.gen_of(id) == w0.gen_of(id)
    }

    /// What `despawn` does, stated over the world model: `e` is gone,
    /// everything else is untouched, the slot's generation is bumped and
    /// the id sits at the end of the free list.
    pub open spec fn despawn_step(w0: World, e: Entity, w1: World) -> bool {
        &&& w0.live(e)
        &&& !w1.live(e)
        &&& forall|e2: Entity| e2 != e ==> (w1.live(e2) <==> w0.live(e2))
        &&& forall|e2: Entity|
            e2 != e && w0.live(e2) ==> w1.components_of(e2) == w0.components_of(e2)
        &&& w1.entities.meta@.len() == w0.entities.meta@.len()
        &&& w1.gen_of(e.id) == e.generation + 1
        &&& w1.entities.meta@[e.id as int].location is None
        &&& w1.entities.free@ == w0.entities.free@.push(e.id)
        &&& forall|id: u32|
            id < w0.entities.meta@.len() && id != e.id ==> w1.gen_of(id) == w0.gen_of(id)
    }

    /// Spawn one entity with the bundle's components and return its
    /// fresh handle. The id bound is a machine limit.
    pub fn spawn(&mut self, bundle: Bundle) -> (e: Entity)
        requires
            old(self).well_formed(),
            bundle.well_formed(),
            old(self).entities.free@.len() == 0 ==> old(self).entities.meta@.len() < u32::MAX,
        ensures
            final(self).well_formed(),
            World::spawn_step(*old(self), bundle, *final(self), e),
    {
        let ghost w0 = *old(self);
        let e = self.entities.reserve();
        let ghost wr = *self;
        let a_idx = match self.find_archetype(&bundle) {
            Some(a) => a,
            None => {
                let arch = Archetype::new(clone_types(&bundle.types));
                proof {
                    lemma_new_matches(arch, bundle);
                }
                self.archetypes.push(arch);
                self.archetypes.len() - 1
            },
        };
        let ghost wa = *self;
        proof {
            // Either branch: the archetype list kept all old archetypes
            // and gained at most one empty one.
            assert(wa.entities == wr.entities);
            assert(a_idx < wa.archetypes@.len());
            assert(wa.archetypes@[a_idx as int].matches_bundle(bundle));
            assert(forall|a: int|
                0 <= a < w0.archetypes@.len() ==> wa.archetypes@[a] == w0.archetypes@[a]);
            assert(forall|a: int|
                w0.archetypes@.len() <= a < wa.archetypes@.len() ==> (
                #[trigger] wa.archetypes@[a]).len == 0 && wa.archetypes@[a].well_formed());
        }
        let row = self.archetypes[a_idx].length();
        self.archetypes[a_idx].push_row(&bundle, e.id);
        let ghost wp = *self;
        self.entities.set_location(e.id, Location { archetype: a_idx, index: row });
        proof {
            let w1 = *self;
            let ai = a_idx as int;
            // The fresh id was not on the free list any more, so the
            // location update left the free list alone.
            assert forall|i: int| 0 <= i < wr.entities.free@.len() implies wr.entities.free@[i]
                != e.id by {
                if w0.entities.free@.len() > 0 {
                    assert(wr.entities.free@[i] == w0.entities.free@[i]);
                    assert(w0.entities.free@[w0.entities.free@.len() - 1] == e.id);
                } else {
                    assert(wr.entities.free@[i] < w0.entities.meta@.len());
                }
            }
            assert(w1.entities.free@ == wr.entities.free@);
            // No old row holds the fresh id: its slot had no location.
            assert forall|a: int, r: int|
                0 <= a < wa.archetypes@.len() && 0 <= r < wa.archetypes@[a].len
                implies #[trigger] wa.archetypes@[a].entities@[r] != e.id by {
                if a < w0.archetypes@.len() {
                    assert(w0.archetypes@[a].entities@[r] == wa.archetypes@[a].entities@[r]);
                    if w0.archetypes@[a].entities@[r] == e.id {
                        assert(w0.entities.meta@[e.id as int].location is Some);
                        assert(wr.entities.meta@[e.id as int].location is None);
                        if w0.entities.free@.len() > 0 {
                            assert(wr.entities.meta@[e.id as int] == w0.entities.meta@[e.id
                                as int]);
                        } else {
                            assert(e.id == w0.entities.meta@.len());
                        }
                        assert(false);
                    }
                }
            }
            // Well-formedness of the result.
            assert forall|id: int|
                0 <= id < w1.entities.meta@.len() && (
                #[trigger] w1.entities.meta@[id]).location is Some implies {
                let loc = w1.entities.meta@[id].location->Some_0;
                &&& loc.archetype < w1.archetypes@.len()
                &&& loc.index < w1.archetypes@[loc.archetype as int].len
                &&& w1.archetypes@[loc.archetype as int].entities@[loc.index as int] == id
            } by {
                if id == e.id as int {
                    assert(w1.archetypes@[ai].entities@ == wa.archetypes@[ai].entities@.push(
                        e.id,
                    ));
                } else {
                    assert(w1.entities.meta@[id] == wr.entities.meta@[id]);
                    if id < w0.entities.meta@.len() {
                        assert(wr.entities.meta@[id] == w0.entities.meta@[id]);
                        let loc = w0.entities.meta@[id].location->Some_0;
                        assert(w0.archetypes@[loc.archetype as int].entities@[loc.index as int]
                            == id);
                        if loc.archetype as int == ai {
                            assert(w1.archetypes@[ai].entities@[loc.index as int] == id);
                        }
                    }
                }
            }
            assert forall|a: int, r: int|
                0 <= a < w1.archetypes@.len() && 0 <= r < w1.archetypes@[a].len implies {
                let id = #[trigger] w1.archetypes@[a].entities@[r];
                &&& id < w1.entities.meta@.len()
                &&& w1.entities.meta@[id as int].location is Some
                &&& w1.entities.meta@[id as int].location->Some_0.archetype == a
                &&& w1.entities.meta@[id as int].location->Some_0.index == r
            } by {
                if a == ai && r == wa.archetypes@[ai].len as int {
                    assert(w1.archetypes@[a].entities@[r] == e.id);
                } else {
                    assert(w1.archetypes@[a].entities@[r] == wa.archetypes@[a].entities@[r]);
                    assert(wa.archetypes@[a].entities@[r] != e.id);
                    if a < w0.archetypes@.len() {
                        let id = w0.archetypes@[a].entities@[r];
                        assert(w0.entities.meta@[id as int].location is Some);
                        assert(w1.entities.meta@[id as int] == w0.entities.meta@[id as int]);
                    } else {
                        assert(wa.archetypes@[a].len == 0);
                        assert(false);
                    }
                }
            }
            assert(w1.well_formed());
            // The spawn step itself.
            assert(w1.live(e));
            assert(w1.components_of(e) =~= bundle.comp_map());
            assert forall|e2: Entity| w0.live(e2) implies w1.live(e2) && e2.id != e.id
                && w1.components_of(e2) == w0.components_of(e2) by {
                assert(w1.entities.meta@[e2.id as int] == w0.entities.meta@[e2.id as int]);
                let loc = w0.entities.location_of(e2);
                assert(w0.archetypes@[loc.archetype as int].entities@[loc.index as int] == e2.id);
                if loc.archetype as int == ai {
                    assert(w1.archetypes@[ai].row_map(loc.index as int) == wa.archetypes@[
                        ai
                    ].row_map(loc.index as int));
                    assert(wa.archetypes@[ai] == w0.archetypes@[ai]);
                } else {
                    assert(w1.archetypes@[loc.archetype as int] == w0.archetypes@[
                        loc.archetype as int
                    ]);
                }
            }
            assert forall|e2: Entity| w1.live(e2) && e2 != e implies w0.live(e2) by {
                if e2.id == e.id {
                    assert(w1.entities.meta@[e.id as int].generation == e.generation);
                } else {
                    assert(w1.entities.meta@[e2.id as int] == wr.entities.meta@[e2.id as int]);
                    if !(e2.id < w0.entities.meta@.len()) {
                        assert(wr.entities.meta@[e2.id as int].location is None);
                    }
                }
            }
            assert(World::spawn_step(w0, bundle, w1, e));
        }
        e
    }

    /// The directory cannot hand out another id: every id is taken and
    /// none is free.
    pub open spec fn directory_full(self) -> bool {
        self.entities.free@.len() == 0 && self.entities.meta@.len() >= u32::MAX
    }

    /// Spawn, unless the directory has no id left; a full directory
    /// leaves the world untouched.
    pub fn try_spawn(&mut self, bundle: Bundle) -> (r: Option<Entity>)
        requires
            old(self).well_formed(),
            bundle.well_formed(),
        ensures
            final(self).well_formed(),
            old(self).directory_full() ==> r is None && *final(self) == *old(self),
            !old(self).directory_full() ==> (r matches Some(e) && World::spawn_step(
                *old(self),
                bundle,
                *final(self),
                e,
            )),
    {
        if self.entities.free.len() == 0 && self.entities.meta.len() >= u32::MAX as usize {
            return None;
        }
        Some(self.spawn(bundle))
    }

    /// Remove a live entity, or report a dead handle. The generation
    /// bound is a machine limit.
    pub fn despawn(&mut self, e: Entity) -> (r: Result<(), NoSuchEntity>)
        requires
            old(self).well_formed(),
            old(self).live(e) ==> e.generation < u32::MAX,
        ensures
            final(self).well_formed(),
            r is Ok <==> old(self).live(e),
            !old(self).live(e) ==> *final(self) == *old(self),
            old(self).live(e) ==> World::despawn_step(*old(self), e, *final(self)),
    {
        let loc = match self.entities.resolve(e) {
            Some(loc) => loc,
            None => {
                return Err(NoSuchEntity);
            },
        };
        let ghost w0 = *old(self);
        let ghost ai = loc.archetype as int;
        let ghost ri = loc.index as int;
        let ghost olen = w0.archetypes@[ai].len as int;
        proof {
            assert(w0.archetypes@[ai].entities@[ri] == e.id);
        }
        let moved = self.archetypes[loc.archetype].swap_remove_row(loc.index);
        let ghost wm = *self;
        match moved {
            Some(mid) => {
                proof {
                    // The moved row belonged to another live entity.
                    assert(w0.entities.meta@[w0.archetypes@[ai].entities@[olen - 1] as int].location->Some_0.index
                        == olen - 1);
                    assert(w0.entities.meta@[e.id as int].location->Some_0.index == ri);
                    assert(mid != e.id);
                    assert(mid < w0.entities.meta@.len());
                }
                self.entities.set_location(
                    mid,
                    Location { archetype: loc.archetype, index: loc.index },
                );
            },
            None => {},
        }
        let ghost wm2 = *self;
        proof {
            assert(wm2.entities.live(e)) by {
                if moved is Some {
                    assert(wm2.entities.meta@[e.id as int] == w0.entities.meta@[e.id as int]);
                }
            }
        }
        self.entities.free(e);
        proof {
            let w1 = *self;
            let ghost mid_id = w0.archetypes@[ai].entities@[olen - 1];
            // Where each id sits afterwards.
            assert(w1.archetypes@[ai].entities@ == w0.archetypes@[ai].entities@.update(
                ri,
                mid_id,
            ).drop_last());
            // Ids other than the despawned one kept their slots, except
            // the moved id.
            assert forall|id: int|
                0 <= id < w1.entities.meta@.len() && id != e.id && id != mid_id implies
                w1.entities.meta@[id] == w0.entities.meta@[id] by {}
            // Directory to storage.
            assert forall|id: int|
                0 <= id < w1.entities.meta@.len() && (
                #[trigger] w1.entities.meta@[id]).location is Some implies {
                let l2 = w1.entities.meta@[id].location->Some_0;
                &&& l2.archetype < w1.archetypes@.len()
                &&& l2.index < w1.archetypes@[l2.archetype as int].len
                &&& w1.archetypes@[l2.archetype as int].entities@[l2.index as int] == id
            } by {
                if id == mid_id as int && moved is Some {
                    assert(w1.entities.meta@[id].location == Some(loc));
                } else {
                    assert(id != e.id);
                    assert(w1.entities.meta@[id] == w0.entities.meta@[id]);
                    let l2 = w0.entities.meta@[id].location->Some_0;
                    assert(w0.archetypes@[l2.archetype as int].entities@[l2.index as int] == id);
                    if l2.archetype as int == ai {
                        // Not the removed row, not the last row.
                        assert(l2.index as int != ri);
                        if l2.index as int == olen - 1 {
                            assert(id == mid_id as int);
                            assert(moved is None ==> olen - 1 == ri);
                        }
                        assert((l2.index as int) < olen - 1);
                        assert(w1.archetypes@[ai].entities@[l2.index as int] == id);
                    }
                }
            }
            // Storage to directory.
            assert forall|a: int, r: int|
                0 <= a < w1.archetypes@.len() && 0 <= r < w1.archetypes@[a].len implies {
                let id = #[trigger] w1.archetypes@[a].entities@[r];
                &&& id < w1.entities.meta@.len()
                &&& w1.entities.meta@[id as int].location is Some
                &&& w1.entities.meta@[id as int].location->Some_0.archetype == a
                &&& w1.entities.meta@[id as int].location->Some_0.index == r
            } by {
                if a == ai && r == ri && moved is Some {
                    assert(w1.archetypes@[a].entities@[r] == mid_id);
                } else {
                    assert(w1.archetypes@[a].entities@[r] == w0.archetypes@[a].entities@[r]);
                    let id = w0.archetypes@[a].entities@[r];
                    assert(w0.entities.meta@[id as int].location is Some);
                    assert(w0.entities.meta@[id as int].location->Some_0.archetype == a);
                    assert(w0.entities.meta@[id as int].location->Some_0.index == r);
                    assert(id != e.id) by {
                        if id == e.id {
                            assert(a == ai && r == ri);
                            assert(moved is None);
                            assert(ri == olen - 1);
                            assert(r < olen - 1);
                        }
                    }
                    assert(id != mid_id || a != ai) by {
                        if id == mid_id && a == ai {
                            assert(r == olen - 1);
                            assert(r < olen - 1);
                        }
                    }
                    assert(w1.entities.meta@[id as int] == w0.entities.meta@[id as int]);
                }
            }
            assert(w1.well_formed());
            // The despawn step itself.
            assert forall|e2: Entity| e2 != e implies (w1.live(e2) <==> w0.live(e2)) by {
                if e2.id == e.id {
                    assert(!w0.live(e2));
                    assert(!w1.live(e2));
                } else if e2.id == mid_id && moved is Some {
                    assert(w1.entities.meta@[e2.id as int].generation == w0.entities.meta@[e2.id
                        as int].generation);
                }
            }
            assert forall|e2: Entity| e2 != e && w0.live(e2) implies w1.components_of(e2)
                == w0.components_of(e2) by {
                let l0 = w0.entities.location_of(e2);
                assert(w0.archetypes@[l0.archetype as int].entities@[l0.index as int] == e2.id);
                if e2.id == mid_id && moved is Some {
                    assert(l0.archetype as int == ai && l0.index as int == olen - 1);
                    assert(w1.entities.location_of(e2) == loc);
                    assert(w1.archetypes@[ai].row_map(ri) == w0.archetypes@[ai].row_map(
                        olen - 1,
                    ));
                } else {
                    assert(e2.id != e.id);
                    assert(w1.entities.meta@[e2.id as int] == w0.entities.meta@[e2.id as int]);
                    if l0.archetype as int == ai {
                        assert(l0.index as int != ri);
                        if l0.index as int == olen - 1 {
                            assert(e2.id == mid_id);
                            assert(moved is None ==> olen - 1 == ri);
                            assert(false);
                        }
                        assert(w1.archetypes@[ai].row_map(l0.index as int) == w0.archetypes@[
                            ai
                        ].row_map(l0.index as int));
                    } else {
                        assert(w1.archetypes@[l0.archetype as int] == w0.archetypes@[l0.archetype
                            as int]);
                    }
                }
            }
            assert(World::despawn_step(w0, e, w1));
        }
        Ok(())
    }

    /// Copy one component of a live entity out of its row.
    pub fn get(&self, e: Entity, id: u64) -> (r: Result<Vec<u8>, ComponentError>)
        requires
            self.well_formed(),
        ensures
            !self.live(e) ==> r == Err::<Vec<u8>, ComponentError>(ComponentError::NoSuchEntity),
            self.live(e) && !self.components_of(e).dom().contains(id) ==> r == Err::<
                Vec<u8>,
                ComponentError,
            >(ComponentError::MissingComponent(id)),
            self.live(e) && self.components_of(e).dom().contains(id) ==> (r matches Ok(v) && v@
                == self.components_of(e)[id]),
    {
        let loc = match self.entities.resolve(e) {
            Some(loc) => loc,
            None => {
                return Err(ComponentError::NoSuchEntity);
            },
        };
        match self.archetypes[loc.archetype].read_component(id, loc.index) {
            Some(v) => Ok(v),
            None => Err(ComponentError::MissingComponent(id)),
        }
    }

    /// Copy one component out, like `get`. The original hands back a
    /// uniquely borrowing reference instead; here writes go through
    /// [`World::set`].
    pub fn get_mut(&self, e: Entity, id: u64) -> (r: Result<Vec<u8>, ComponentError>)
        requires
            self.well_formed(),
        ensures
            !self.live(e) ==> r == Err::<Vec<u8>, ComponentError>(ComponentError::NoSuchEntity),
            self.live(e) && !self.components_of(e).dom().contains(id) ==> r == Err::<
                Vec<u8>,
                ComponentError,
            >(ComponentError::MissingComponent(id)),
            self.live(e) && self.components_of(e).dom().contains(id) ==> (r matches Ok(v) && v@
                == self.components_of(e)[id]),
    {
        self.get(e, id)
    }

    /// Overwrite one component of a live entity. Only that cell changes.
    pub fn set(&mut self, e: Entity, id: u64, bytes: &Vec<u8>) -> (r: Result<(), ComponentError>)
        requires
            old(self).well_formed(),
            old(self).live(e) && old(self).components_of(e).dom().contains(id) ==> bytes@.len()
                == old(self).components_of(e)[id].len(),
        ensures
            final(self).well_formed(),
            !old(self).live(e) ==> r == Err::<(), ComponentError>(ComponentError::NoSuchEntity)
                && *final(self) == *old(self),
            old(self).live(e) && !old(self).components_of(e).dom().contains(id) ==> r == Err::<
                (),
                ComponentError,
            >(ComponentError::MissingComponent(id)) && *final(self) == *old(self),
            old(self).live(e) && old(self).components_of(e).dom().contains(id) ==> {
                &&& r is Ok
                &&& final(self).components_of(e) == old(self).components_of(e).insert(id, bytes@)
                &&& forall|e2: Entity| final(self).live(e2) == old(self).live(e2)
                &&& forall|e2: Entity|
                    old(self).live(e2) && e2.id != e.id ==> final(self).components_of(e2) == old(
                        self,
                    ).components_of(e2)
                &&& final(self).entities == old(self).entities
            },
    {
        let loc = match self.entities.resolve(e) {
            Some(loc) => loc,
            None => {
                return Err(ComponentError::NoSuchEntity);
            },
        };
        let ghost w0 = *old(self);
        let ghost ai = loc.archetype as int;
        let found = find_type_index(&self.archetypes[loc.archetype].types, id);
        if found.is_none() {
            return Err(ComponentError::MissingComponent(id));
        }
        proof {
            lemma_find_type(w0.archetypes@[ai].types@, id);
            assert(w0.archetypes@[ai].entities@[loc.index as int] == e.id);
            let j = find_type(w0.archetypes@[ai].types@, id)->Some_0;
            crate::column::lemma_row_in_bounds(
                w0.archetypes@[ai].len as int,
                w0.archetypes@[ai].types@[j].size as int,
                loc.index as int,
            );
            assert(w0.components_of(e)[id].len() == w0.archetypes@[ai].size_of(id));
        }
        self.archetypes[loc.archetype].put_dynamic(id, loc.index, bytes);
        proof {
            let w1 = *self;
            assert(w1.well_formed()) by {
                assert forall|a: int, r: int|
                    0 <= a < w1.archetypes@.len() && 0 <= r < w1.archetypes@[a].len implies {
                    let id2 = #[trigger] w1.archetypes@[a].entities@[r];
                    &&& id2 < w1.entities.meta@.len()
                    &&& w1.entities.meta@[id2 as int].location is Some
                    &&& w1.entities.meta@[id2 as int].location->Some_0.archetype == a
                    &&& w1.entities.meta@[id2 as int].location->Some_0.index == r
                } by {
                    assert(w1.archetypes@[a].entities@ == w0.archetypes@[a].entities@);
                }
            }
            assert forall|e2: Entity|
                w0.live(e2) && e2.id != e.id implies w1.components_of(e2) == w0.components_of(
                e2,
            ) by {
                let l2 = w0.entities.location_of(e2);
                assert(w0.archetypes@[l2.archetype as int].entities@[l2.index as int] == e2.id);
                if l2.archetype as int == ai {
                    assert(l2.index != loc.index);
                }
            }
        }
        Ok(())
    }
}

/// Clone a type list. Descriptors are plain copyable values.
fn clone_types(types: &Vec<TypeInfo>) -> (r: Vec<TypeInfo>)
    ensures
        r@ == types@,
{
    let mut out: Vec<TypeInfo> = Vec::new();
    let mut k: usize = 0;
    while k < types.len()
        invariant
            k <= types@.len(),
            out@ == types@.subrange(0, k as int),
        decreases types@.len() - k,
    {
        out.push(types[k]);
        assert(out@ =~= types@.subrange(0, k + 1));
        k += 1;
    }
    assert(out@ =~= types@);
    out
}

/// After spawning a bundle, every component of the bundle reads back
/// from the fresh entity as exactly the value that was passed in.
pub proof fn lemma_spawn_then_get(w0: World, b: Bundle, w1: World, e: Entity, id: u64)
    requires
        World::spawn_step(w0, b, w1, e),
        b.comp_map().dom().contains(id),
    ensures
        w1.live(e),
        w1.components_of(e).dom().contains(id),
        w1.components_of(e)[id] == b.comp_map()[id],
{
}

/// After a despawn, the handle is dead in every later world reached only
/// by spawns: a spawn never revives it, because the slot's generation
/// moved past the handle's.
pub proof fn lemma_despawn_stays_dead(w0: World, e: Entity, w1: World, b: Bundle, w2: World, e2: Entity)
    requires
        World::despawn_step(w0, e, w1),
        World::spawn_step(w1, b, w2, e2),
    ensures
        !w1.live(e),
        !w2.live(e),
{
    if w2.live(e) {
        assert(e != e2) by {
            if e == e2 {
                assert(e2.generation == w1.gen_of(e2.id));
            }
        }
    }
}

/// A spawn right after a despawn reuses the freed id, and the new handle
/// carries a strictly greater generation than the despawned one.
pub proof fn lemma_despawn_then_spawn_reuses_id(
    w0: World,
    e: Entity,
    w1: World,
    b: Bundle,
    w2: World,
    e2: Entity,
)
    requires
        World::despawn_step(w0, e, w1),
        World::spawn_step(w1, b, w2, e2),
    ensures
        e2.id == e.id,
        e2.generation > e.generation,
{
    assert(w1.entities.free@.len() > 0);
    assert(w1.entities.free@.last() == e.id);
}

/// A fresh archetype built from a bundle's own type list matches the
/// bundle.
proof fn lemma_new_matches(arch: Archetype, bundle: Bundle)
    requires
        bundle.well_formed(),
        arch.types@ == bundle.types_s(),
    ensures
        arch.matches_bundle(bundle),
{
    assert forall|k: int| 0 <= k < arch.types@.len() implies bundle.comp_map().dom().contains(
        (#[trigger] arch.types@[k]).id,
    ) && bundle.comp_map()[arch.types@[k].id].len() == arch.types@[k].size by {
        assert(bundle.types_s()[k].id == arch.types@[k].id);
        lemma_find_type(bundle.types_s(), arch.types@[k].id);
    }
}

} // verus!
