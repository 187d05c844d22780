//! Resources: world-scope singleton values addressed by type identity.
//!
//! Each resource lives in a degenerate archetype of one row and one
//! column, so the same storage and borrow machinery serves components
//! and resources alike. An index keyed by type identity finds the
//! archetype; the index is a `hashbrown` map held behind trusted
//! wrappers whose contracts speak of its entries.

use vstd::prelude::*;

use hashbrown::hash_map::DefaultHashBuilder;
use hashbrown::HashMap;

use crate::archetype::Archetype;
use crate::bundle::Bundle;
use crate::error::ComponentError;
use crate::query::Access;
use crate::type_info::TypeInfo;

verus! {

#[verifier::external_type_specification]
#[verifier::external_body]
#[verifier::reject_recursive_types(K)]
#[verifier::reject_recursive_types(V)]
#[verifier::reject_recursive_types(S)]
pub struct ExHashMap<K, V, S>(HashMap<K, V, S>);

#[verifier::external_type_specification]
#[verifier::external_body]
pub struct ExDefaultHashBuilder(DefaultHashBuilder);

/// The index from type identity to archetype slot.
pub type ResourceIndex = HashMap<u64, usize, DefaultHashBuilder>;

/// What a resource index holds: its key-value pairs.
pub uninterp spec fn index_entries(m: ResourceIndex) -> Map<u64, usize>;

/// The entries of an empty index.
pub open spec fn no_entries() -> Map<u64, usize> {
    Map::empty()
}

/// Relies on hashbrown's `HashMap::new`: the fresh map holds nothing.
#[verifier::external_body]
fn index_new() -> (m: ResourceIndex)
    ensures
        index_entries(m) == no_entries(),
{
    HashMap::new()
}

/// Relies on hashbrown's `HashMap::insert`: afterwards the map holds the
/// old entries plus this key bound to this value.
#[verifier::external_body]
fn index_insert(m: &mut ResourceIndex, k: u64, v: usize)
    ensures
        index_entries(*final(m)) == index_entries(*old(m)).insert(k, v),
{
    m.insert(k, v);
}

/// Relies on hashbrown's `HashMap::get`: the value bound to the key, if
/// the map holds the key.
#[verifier::external_body]
fn index_get(m: &ResourceIndex, k: u64) -> (r: Option<usize>)
    ensures
        r == if index_entries(*m).dom().contains(k) {
            Some(index_entries(*m)[k])
        } else {
            None::<usize>
        },
{
    m.get(&k).copied()
}

pub struct Resources {
    pub index: ResourceIndex,
    pub archetypes: Vec<Archetype>,
}

impl Resources {
    /// Every indexed identity names a distinct one-row, one-column
    /// archetype storing exactly that type.
    pub open spec fn well_formed(self) -> bool {
        &&& forall|ty: u64|
            index_entries(self.index).dom().contains(ty) ==> {
                let i = #[trigger] index_entries(self.index)[ty];
                &&& i < self.archetypes@.len()
                &&& self.archetypes@[i as int].well_formed()
                &&& self.archetypes@[i as int].types@.len() == 1
                &&& self.archetypes@[i as int].types@[0].id == ty
                &&& self.archetypes@[i as int].len == 1
            }
        &&& forall|t1: u64, t2: u64|
            index_entries(self.index).dom().contains(t1) && index_entries(
                self.index,
            ).dom().contains(t2) && t1 != t2 ==> #[trigger] index_entries(self.index)[t1]
                != #[trigger] index_entries(self.index)[t2]
    }

    /// What the store holds: type identity to resource bytes.
    pub open spec fn res_map(self) -> Map<u64, Seq<u8>> {
        Map::new(
            |ty: u64| index_entries(self.index).dom().contains(ty),
            |ty: u64| self.archetypes@[index_entries(self.index)[ty] as int].row_map(0)[ty],
        )
    }

    /// The shared-borrow count on a stored resource.
    pub open spec fn shared_of(self, ty: u64) -> u32 {
        self.archetypes@[index_entries(self.index)[ty] as int].shared_of(ty)
    }

    /// Whether an exclusive borrow is held on a stored resource.
    pub open spec fn exclusive_of(self, ty: u64) -> bool {
        self.archetypes@[index_entries(self.index)[ty] as int].exclusive_of(ty)
    }

    pub fn new() -> (r: Resources)
        ensures
            r.well_formed(),
            r.res_map() =~= Map::<u64, Seq<u8>>::empty(),
    {
        Resources { index: index_new(), archetypes: Vec::new() }
    }

    /// Create or overwrite the singleton value for this type. A
    /// re-insert must keep the type's size, as the identity names one
    /// concrete type.
    pub fn insert(&mut self, info: TypeInfo, value: Vec<u8>)
        requires
            old(self).well_formed(),
            value@.len() == info.size,
            old(self).res_map().dom().contains(info.id) ==> old(self).res_map()[info.id].len()
                == info.size,
        ensures
            final(self).well_formed(),
            final(self).res_map() == old(self).res_map().insert(info.id, value@),
            forall|ty: u64|
                old(self).res_map().dom().contains(ty) && ty != info.id ==> final(self).shared_of(
                    ty,
                ) == old(self).shared_of(ty) && final(self).exclusive_of(ty) == old(self).exclusive_of(ty),
            old(self).res_map().dom().contains(info.id) ==> final(self).shared_of(info.id) == old(
                self,
            ).shared_of(info.id) && final(self).exclusive_of(info.id) == old(self).exclusive_of(
                info.id,
            ),
            !old(self).res_map().dom().contains(info.id) ==> final(self).shared_of(info.id) == 0
                && !final(self).exclusive_of(info.id),
    {
        let ghost r0 = *old(self);
        let slot = index_get(&self.index, info.id);
        match slot {
            Some(i) => {
                proof {
                    crate::type_info::lemma_find_type(self.archetypes@[i as int].types@, info.id);
                }
                self.archetypes[i].put_dynamic(info.id, 0, &value);
                proof {
                    let r1 = *self;
                    assert forall|ty: u64| #[trigger]
                        r1.res_map().dom().contains(ty) implies r1.res_map()[ty] == r0.res_map(
                    ).insert(info.id, value@)[ty] by {
                        let j = index_entries(r1.index)[ty];
                        if ty == info.id {
                            assert(r1.archetypes@[j as int].row_map(0) == r0.archetypes@[
                                j as int
                            ].row_map(0).insert(info.id, value@));
                        } else {
                            assert(j != i);
                            assert(r1.archetypes@[j as int] == r0.archetypes@[j as int]);
                        }
                    }
                    assert(r1.res_map() =~= r0.res_map().insert(info.id, value@));
                }
            },
            None => {
                let mut parts: Vec<(TypeInfo, Vec<u8>)> = Vec::new();
                parts.push((info, value));
                let bundle = match Bundle::new(parts) {
                    Ok(b) => b,
                    Err(_) => {
                        // Unreachable: one part, its size checked above.
                        proof {
                            assert(false);
                        }
                        return ;
                    },
                };
                let mut arch = Archetype::new(clone_info_list(&bundle.types));
                proof {
                    assert(arch.types@[0] == info);
                    assert(arch.matches_bundle(bundle)) by {
                        crate::type_info::lemma_find_type(bundle.types_s(), info.id);
                    }
                }
                arch.push_row(&bundle, 0);
                let i = self.archetypes.len();
                self.archetypes.push(arch);
                index_insert(&mut self.index, info.id, i);
                proof {
                    let r1 = *self;
                    assert(index_entries(r1.index) == index_entries(r0.index).insert(
                        info.id,
                        i as usize,
                    ));
                    assert forall|ty: u64| #[trigger]
                        r1.res_map().dom().contains(ty) implies r1.res_map()[ty] == r0.res_map(
                    ).insert(info.id, value@)[ty] by {
                        if ty == info.id {
                            crate::type_info::lemma_find_type(bundle.types_s(), info.id);
                        } else {
                            let j = index_entries(r0.index)[ty];
                            assert(r1.archetypes@[j as int] == r0.archetypes@[j as int]);
                        }
                    }
                    assert(r1.res_map() =~= r0.res_map().insert(info.id, value@));
                }
            },
        }
    }

    /// Copy the singleton value for this type out, or report that none
    /// was inserted. Reading takes a transient shared borrow, so reading
    /// while the exclusive borrow is held is a program bug, excluded by
    /// the precondition.
    pub fn get(&self, ty: u64) -> (r: Result<Vec<u8>, ComponentError>)
        requires
            self.well_formed(),
            self.res_map().dom().contains(ty) ==> !self.exclusive_of(ty),
        ensures
            self.res_map().dom().contains(ty) ==> (r matches Ok(v) && v@ == self.res_map()[ty]),
            !self.res_map().dom().contains(ty) ==> r == Err::<Vec<u8>, ComponentError>(
                ComponentError::NoSuchEntity,
            ),
    {
        self.read_value(ty)
    }

    /// Read a stored value without touching borrow state: the caller
    /// either holds the borrow already (the fetches) or models the
    /// transient borrow in its own precondition (`get`, `get_mut`).
    fn read_value(&self, ty: u64) -> (r: Result<Vec<u8>, ComponentError>)
        requires
            self.well_formed(),
        ensures
            self.res_map().dom().contains(ty) ==> (r matches Ok(v) && v@ == self.res_map()[ty]),
            !self.res_map().dom().contains(ty) ==> r == Err::<Vec<u8>, ComponentError>(
                ComponentError::NoSuchEntity,
            ),
    {
        let slot = match index_get(&self.index, ty) {
            Some(i) => i,
            None => {
                return Err(ComponentError::NoSuchEntity);
            },
        };
        proof {
            crate::type_info::lemma_find_type(self.archetypes@[slot as int].types@, ty);
        }
        match self.archetypes[slot].read_component(ty, 0) {
            Some(v) => Ok(v),
            None => {
                proof {
                    assert(false);
                }
                Err(ComponentError::NoSuchEntity)
            },
        }
    }

    /// Copy the singleton value out, like `get`. The original hands back
    /// a uniquely borrowing reference; here writes go through `insert`.
    /// The transient exclusive borrow it stands for tolerates no other
    /// borrow at all, shared or exclusive: holding one is a program
    /// bug, excluded by the precondition.
    pub fn get_mut(&self, ty: u64) -> (r: Result<Vec<u8>, ComponentError>)
        requires
            self.well_formed(),
            self.res_map().dom().contains(ty) ==> !self.exclusive_of(ty) && self.shared_of(ty)
                == 0,
        ensures
            self.res_map().dom().contains(ty) ==> (r matches Ok(v) && v@ == self.res_map()[ty]),
            !self.res_map().dom().contains(ty) ==> r == Err::<Vec<u8>, ComponentError>(
                ComponentError::NoSuchEntity,
            ),
    {
        self.read_value(ty)
    }
}

/// A shared handle to a resource value, held while a shared borrow is
/// taken on its column.
pub struct Res {
    pub value: Vec<u8>,
}

impl Res {
    pub fn new(value: Vec<u8>) -> (r: Res)
        ensures
            r.value == value,
    {
        Res { value }
    }

    /// Derive a view of the resource by applying `f` to the held bytes.
    pub fn map<F: Fn(&Vec<u8>) -> Vec<u8>>(&self, f: F) -> (r: Res)
        requires
            call_requires(f, (&self.value,)),
        ensures
            call_ensures(f, (&self.value,), r.value),
    {
        Res { value: f(&self.value) }
    }
}

/// An exclusive handle to a resource value, held while an exclusive
/// borrow is taken on its column. Writes go back through
/// [`Resources::insert`].
pub struct ResMut {
    pub value: Vec<u8>,
}

impl ResMut {
    pub fn new(value: Vec<u8>) -> (r: ResMut)
        ensures
            r.value == value,
    {
        ResMut { value }
    }

    /// Derive a value from the resource by applying `f` to the held
    /// bytes.
    pub fn map_into<F: Fn(&Vec<u8>) -> Vec<u8>>(self, f: F) -> (r: ResMut)
        requires
            call_requires(f, (&self.value,)),
        ensures
            call_ensures(f, (&self.value,), r.value),
    {
        ResMut { value: f(&self.value) }
    }
}

/// Shared access to the resource of one type identity.
pub struct FetchResourceRead {
    pub ty: u64,
}

impl FetchResourceRead {
    /// Take a shared borrow on the resource's column, if the resource
    /// exists. Taking one under an exclusive borrow is a program bug,
    /// excluded by the precondition.
    pub fn borrow(&self, res: &mut Resources)
        requires
            old(res).well_formed(),
            old(res).res_map().dom().contains(self.ty) ==> !old(res).exclusive_of(self.ty) && old(res).shared_of(self.ty) < u32::MAX,
        ensures
            final(res).well_formed(),
            final(res).res_map() == old(res).res_map(),
            old(res).res_map().dom().contains(self.ty) ==> final(res).shared_of(self.ty) == old(res).shared_of(self.ty) + 1 && final(res).exclusive_of(self.ty) == old(res).exclusive_of(
                self.ty,
            ),
            !old(res).res_map().dom().contains(self.ty) ==> *final(res) == *old(res),
            forall|t2: u64|
                old(res).res_map().dom().contains(t2) && t2 != self.ty ==> final(res).shared_of(t2)
                    == old(res).shared_of(t2) && final(res).exclusive_of(t2) == old(res).exclusive_of(t2),
    {
        res.borrow_one(self.ty, false);
    }

    /// Release one shared borrow, if the resource exists.
    pub fn release(&self, res: &mut Resources)
        requires
            old(res).well_formed(),
            old(res).res_map().dom().contains(self.ty) ==> old(res).shared_of(self.ty) > 0,
        ensures
            final(res).well_formed(),
            final(res).res_map() == old(res).res_map(),
            old(res).res_map().dom().contains(self.ty) ==> final(res).shared_of(self.ty) == old(res).shared_of(self.ty) - 1 && final(res).exclusive_of(self.ty) == old(res).exclusive_of(
                self.ty,
            ),
            !old(res).res_map().dom().contains(self.ty) ==> *final(res) == *old(res),
            forall|t2: u64|
                old(res).res_map().dom().contains(t2) && t2 != self.ty ==> final(res).shared_of(t2)
                    == old(res).shared_of(t2) && final(res).exclusive_of(t2) == old(res).exclusive_of(t2),
    {
        res.release_one(self.ty, false);
    }

    /// The resource value, read under the shared borrow this fetch
    /// holds. The resource must exist; a missing one is a program bug
    /// in the original as well.
    pub fn get(&self, res: &Resources) -> (r: Res)
        requires
            res.well_formed(),
            res.res_map().dom().contains(self.ty),
        ensures
            r.value@ == res.res_map()[self.ty],
    {
        let v = match res.read_value(self.ty) {
            Ok(v) => v,
            Err(_) => {
                proof {
                    assert(false);
                }
                Vec::new()
            },
        };
        Res::new(v)
    }
}

/// Exclusive access to the resource of one type identity.
pub struct FetchResourceWrite {
    pub ty: u64,
}

impl FetchResourceWrite {
    /// Take the exclusive borrow on the resource's column, if the
    /// resource exists. Taking it while any borrow is held is a program
    /// bug, excluded by the precondition.
    pub fn borrow(&self, res: &mut Resources)
        requires
            old(res).well_formed(),
            old(res).res_map().dom().contains(self.ty) ==> !old(res).exclusive_of(self.ty) && old(res).shared_of(self.ty) == 0,
        ensures
            final(res).well_formed(),
            final(res).res_map() == old(res).res_map(),
            old(res).res_map().dom().contains(self.ty) ==> final(res).exclusive_of(self.ty)
                && final(res).shared_of(self.ty) == old(res).shared_of(self.ty),
            !old(res).res_map().dom().contains(self.ty) ==> *final(res) == *old(res),
            forall|t2: u64|
                old(res).res_map().dom().contains(t2) && t2 != self.ty ==> final(res).shared_of(t2)
                    == old(res).shared_of(t2) && final(res).exclusive_of(t2) == old(res).exclusive_of(t2),
    {
        res.borrow_one(self.ty, true);
    }

    /// Release the exclusive borrow, if the resource exists.
    pub fn release(&self, res: &mut Resources)
        requires
            old(res).well_formed(),
            old(res).res_map().dom().contains(self.ty) ==> old(res).exclusive_of(self.ty),
        ensures
            final(res).well_formed(),
            final(res).res_map() == old(res).res_map(),
            old(res).res_map().dom().contains(self.ty) ==> !final(res).exclusive_of(self.ty)
                && final(res).shared_of(self.ty) == old(res).shared_of(self.ty),
            !old(res).res_map().dom().contains(self.ty) ==> *final(res) == *old(res),
            forall|t2: u64|
                old(res).res_map().dom().contains(t2) && t2 != self.ty ==> final(res).shared_of(t2)
                    == old(res).shared_of(t2) && final(res).exclusive_of(t2) == old(res).exclusive_of(t2),
    {
        res.release_one(self.ty, true);
    }

    /// The resource value, read under the exclusive borrow this fetch
    /// holds. The resource must exist; a missing one is a program bug
    /// in the original as well.
    pub fn get(&self, res: &Resources) -> (r: ResMut)
        requires
            res.well_formed(),
            res.res_map().dom().contains(self.ty),
        ensures
            r.value@ == res.res_map()[self.ty],
    {
        let v = match res.read_value(self.ty) {
            Ok(v) => v,
            Err(_) => {
                proof {
                    assert(false);
                }
                Vec::new()
            },
        };
        ResMut::new(v)
    }
}

impl Resources {
    /// Shift the borrow state of one resource's column: take a shared or
    /// the exclusive borrow.
    fn borrow_one(&mut self, ty: u64, exclusive: bool)
        requires
            old(self).well_formed(),
            old(self).res_map().dom().contains(ty) && !exclusive ==> !old(self).exclusive_of(ty)
                && old(self).shared_of(ty) < u32::MAX,
            old(self).res_map().dom().contains(ty) && exclusive ==> !old(self).exclusive_of(ty)
                && old(self).shared_of(ty) == 0,
        ensures
            final(self).well_formed(),
            final(self).res_map() == old(self).res_map(),
            old(self).res_map().dom().contains(ty) && !exclusive ==> final(self).shared_of(ty)
                == old(self).shared_of(ty) + 1 && final(self).exclusive_of(ty) == old(self).exclusive_of(ty),
            old(self).res_map().dom().contains(ty) && exclusive ==> final(self).exclusive_of(ty)
                && final(self).shared_of(ty) == old(self).shared_of(ty),
            !old(self).res_map().dom().contains(ty) ==> *final(self) == *old(self),
            forall|t2: u64|
                old(self).res_map().dom().contains(t2) && t2 != ty ==> final(self).shared_of(t2)
                    == old(self).shared_of(t2) && final(self).exclusive_of(t2) == old(self).exclusive_of(t2),
    {
        let ghost r0 = *old(self);
        let i = match index_get(&self.index, ty) {
            Some(i) => i,
            None => {
                return ;
            },
        };
        proof {
            crate::type_info::lemma_find_type(self.archetypes@[i as int].types@, ty);
        }
        if exclusive {
            self.archetypes[i].borrow_mut(ty);
        } else {
            self.archetypes[i].borrow(ty);
        }
        proof {
            self.lemma_borrow_frame(r0, ty, i as int);
        }
    }

    /// Shift the borrow state back: release a shared or the exclusive
    /// borrow.
    fn release_one(&mut self, ty: u64, exclusive: bool)
        requires
            old(self).well_formed(),
            old(self).res_map().dom().contains(ty) && !exclusive ==> old(self).shared_of(ty) > 0,
            old(self).res_map().dom().contains(ty) && exclusive ==> old(self).exclusive_of(ty),
        ensures
            final(self).well_formed(),
            final(self).res_map() == old(self).res_map(),
            old(self).res_map().dom().contains(ty) && !exclusive ==> final(self).shared_of(ty)
                == old(self).shared_of(ty) - 1 && final(self).exclusive_of(ty) == old(self).exclusive_of(ty),
            old(self).res_map().dom().contains(ty) && exclusive ==> !final(self).exclusive_of(ty)
                && final(self).shared_of(ty) == old(self).shared_of(ty),
            !old(self).res_map().dom().contains(ty) ==> *final(self) == *old(self),
            forall|t2: u64|
                old(self).res_map().dom().contains(t2) && t2 != ty ==> final(self).shared_of(t2)
                    == old(self).shared_of(t2) && final(self).exclusive_of(t2) == old(self).exclusive_of(t2),
    {
        let ghost r0 = *old(self);
        let i = match index_get(&self.index, ty) {
            Some(i) => i,
            None => {
                return ;
            },
        };
        proof {
            crate::type_info::lemma_find_type(self.archetypes@[i as int].types@, ty);
        }
        if exclusive {
            self.archetypes[i].release_mut(ty);
        } else {
            self.archetypes[i].release(ty);
        }
        proof {
            self.lemma_borrow_frame(r0, ty, i as int);
        }
    }

    /// A borrow operation on the column of `ty` (archetype slot `i`)
    /// leaves the stored values and every other resource's borrow state
    /// alone.
    proof fn lemma_borrow_frame(self, before: Resources, ty: u64, i: int)
        requires
            before.well_formed(),
            index_entries(before.index).dom().contains(ty),
            index_entries(before.index)[ty] == i,
            index_entries(self.index) == index_entries(before.index),
            self.archetypes@.len() == before.archetypes@.len(),
            forall|j: int|
                0 <= j < before.archetypes@.len() && j != i ==> self.archetypes@[j]
                    == before.archetypes@[j],
            before.archetypes@[i].storage_eq(self.archetypes@[i]),
            self.archetypes@[i].well_formed(),
        ensures
            self.well_formed(),
            self.res_map() == before.res_map(),
            forall|t2: u64|
                before.res_map().dom().contains(t2) && t2 != ty ==> self.shared_of(t2)
                    == before.shared_of(t2) && self.exclusive_of(t2) == before.exclusive_of(t2),
    {
        assert forall|t2: u64| #[trigger]
            self.res_map().dom().contains(t2) implies self.res_map()[t2] == before.res_map()[
            t2
        ] by {
            let j = index_entries(before.index)[t2];
            if j == i {
                before.archetypes@[i].lemma_storage_eq_row_map(self.archetypes@[i], 0);
            }
        }
        assert(self.res_map() =~= before.res_map());
        assert forall|t2: u64|
            before.res_map().dom().contains(t2) && t2 != ty implies self.shared_of(t2)
            == before.shared_of(t2) && self.exclusive_of(t2) == before.exclusive_of(t2) by {
            let j = index_entries(before.index)[t2];
            assert(j != i);
        }
    }
}

impl Default for Resources {
    /// An empty store.
    fn default() -> (r: Resources)
        ensures
            r.well_formed(),
            r.res_map() == Map::<u64, Seq<u8>>::empty(),
    {
        Resources::new()
    }
}

/// What a resource query yields per access: a shared or an exclusive
/// handle.
pub enum ResItem {
    Shared(Res),
    Exclusive(ResMut),
}

/// The yielded item carries the stored value in the handle the access
/// asked for.
pub open spec fn res_item_ok(m: Map<u64, Seq<u8>>, a: Access, it: ResItem) -> bool {
    match a {
        Access::Read(id) => match it {
            ResItem::Shared(r) => r.value@ == m[id],
            ResItem::Exclusive(_) => false,
        },
        Access::Write(id) => match it {
            ResItem::Exclusive(r) => r.value@ == m[id],
            ResItem::Shared(_) => false,
        },
        Access::EntityHandle => false,
    }
}

impl Resources {
    /// Acquire every access of the tuple up front — shared borrows for
    /// reads, exclusive for writes — and hand back the values. The
    /// borrows stay held until [`Resources::release_query`]; a conflict,
    /// a missing resource or a doubly named type is a program bug,
    /// excluded by the preconditions.
    pub fn query(&mut self, q: &Vec<Access>) -> (items: Vec<ResItem>)
        requires
            old(self).well_formed(),
            forall|k: int|
                0 <= k < q@.len() ==> (#[trigger] q@[k]).needs() is Some && old(self).res_map().dom().contains(q@[k].needs()->Some_0),
            forall|i: int, j: int| 0 <= i < j < q@.len() ==> q@[i].needs() != q@[j].needs(),
            forall|k: int|
                0 <= k < q@.len() ==> match #[trigger] q@[k] {
                    Access::Read(id) => !old(self).exclusive_of(id) && old(self).shared_of(id)
                        < u32::MAX,
                    Access::Write(id) => !old(self).exclusive_of(id) && old(self).shared_of(id)
                        == 0,
                    Access::EntityHandle => false,
                },
        ensures
            final(self).well_formed(),
            final(self).res_map() == old(self).res_map(),
            items@.len() == q@.len(),
            forall|k: int|
                0 <= k < q@.len() ==> res_item_ok(
                    old(self).res_map(),
                    #[trigger] q@[k],
                    items@[k],
                ),
            forall|k: int|
                0 <= k < q@.len() ==> match #[trigger] q@[k] {
                    Access::Read(id) => final(self).shared_of(id) == old(self).shared_of(id) + 1
                        && final(self).exclusive_of(id) == old(self).exclusive_of(id),
                    Access::Write(id) => final(self).exclusive_of(id) && final(self).shared_of(id)
                        == old(self).shared_of(id),
                    Access::EntityHandle => true,
                },
            forall|ty: u64|
                old(self).res_map().dom().contains(ty) && (forall|k: int|
                    0 <= k < q@.len() ==> (#[trigger] q@[k]).needs() != Some(ty)) ==> final(self).shared_of(ty) == old(self).shared_of(ty) && final(self).exclusive_of(ty) == old(self).exclusive_of(ty),
    {
        let ghost r0 = *old(self);
        let mut items: Vec<ResItem> = Vec::new();
        let n = q.len();
        let mut k: usize = 0;
        while k < n
            invariant
                n == q@.len(),
                k <= n,
                items@.len() == k,
                self.well_formed(),
                self.res_map() == r0.res_map(),
                forall|m: int|
                    0 <= m < q@.len() ==> (#[trigger] q@[m]).needs() is Some && r0.res_map(
                    ).dom().contains(q@[m].needs()->Some_0),
                forall|i: int, j: int| 0 <= i < j < q@.len() ==> q@[i].needs() != q@[j].needs(),
                forall|m: int|
                    0 <= m < q@.len() ==> match #[trigger] q@[m] {
                        Access::Read(id) => !r0.exclusive_of(id) && r0.shared_of(id) < u32::MAX,
                        Access::Write(id) => !r0.exclusive_of(id) && r0.shared_of(id) == 0,
                        Access::EntityHandle => false,
                    },
                forall|m: int|
                    0 <= m < k ==> res_item_ok(r0.res_map(), #[trigger] q@[m], items@[m]),
                forall|m: int|
                    0 <= m < k ==> match #[trigger] q@[m] {
                        Access::Read(id) => self.shared_of(id) == r0.shared_of(id) + 1
                            && self.exclusive_of(id) == r0.exclusive_of(id),
                        Access::Write(id) => self.exclusive_of(id) && self.shared_of(id)
                            == r0.shared_of(id),
                        Access::EntityHandle => true,
                    },
                forall|ty: u64|
                    r0.res_map().dom().contains(ty) && (forall|m: int|
                        0 <= m < k ==> (#[trigger] q@[m]).needs() != Some(ty)) ==> self.shared_of(
                        ty,
                    ) == r0.shared_of(ty) && self.exclusive_of(ty) == r0.exclusive_of(ty),
            decreases n - k,
        {
            match q[k] {
                Access::Read(id) => {
                    let fetch = FetchResourceRead { ty: id };
                    proof {
                        assert(q@[k as int].needs() == Some(id));
                    }
                    fetch.borrow(self);
                    let item = fetch.get(self);
                    items.push(ResItem::Shared(item));
                },
                Access::Write(id) => {
                    let fetch = FetchResourceWrite { ty: id };
                    proof {
                        assert(q@[k as int].needs() == Some(id));
                    }
                    fetch.borrow(self);
                    let item = fetch.get(self);
                    items.push(ResItem::Exclusive(item));
                },
                Access::EntityHandle => {
                    proof {
                        assert(false);
                    }
                },
            }
            k += 1;
        }
        items
    }

    /// Release every borrow a query acquired, in the same order.
    pub fn release_query(&mut self, q: &Vec<Access>)
        requires
            old(self).well_formed(),
            forall|k: int|
                0 <= k < q@.len() ==> (#[trigger] q@[k]).needs() is Some && old(self).res_map().dom().contains(q@[k].needs()->Some_0),
            forall|i: int, j: int| 0 <= i < j < q@.len() ==> q@[i].needs() != q@[j].needs(),
            forall|k: int|
                0 <= k < q@.len() ==> match #[trigger] q@[k] {
                    Access::Read(id) => old(self).shared_of(id) > 0,
                    Access::Write(id) => old(self).exclusive_of(id),
                    Access::EntityHandle => false,
                },
        ensures
            final(self).well_formed(),
            final(self).res_map() == old(self).res_map(),
            forall|k: int|
                0 <= k < q@.len() ==> match #[trigger] q@[k] {
                    Access::Read(id) => final(self).shared_of(id) == old(self).shared_of(id) - 1
                        && final(self).exclusive_of(id) == old(self).exclusive_of(id),
                    Access::Write(id) => !final(self).exclusive_of(id) && final(self).shared_of(id)
                        == old(self).shared_of(id),
                    Access::EntityHandle => true,
                },
            forall|ty: u64|
                old(self).res_map().dom().contains(ty) && (forall|k: int|
                    0 <= k < q@.len() ==> (#[trigger] q@[k]).needs() != Some(ty)) ==> final(self).shared_of(ty) == old(self).shared_of(ty) && final(self).exclusive_of(ty) == old(self).exclusive_of(ty),
    {
        let ghost r0 = *old(self);
        let n = q.len();
        let mut k: usize = 0;
        while k < n
            invariant
                n == q@.len(),
                k <= n,
                self.well_formed(),
                self.res_map() == r0.res_map(),
                forall|m: int|
                    0 <= m < q@.len() ==> (#[trigger] q@[m]).needs() is Some && r0.res_map(
                    ).dom().contains(q@[m].needs()->Some_0),
                forall|i: int, j: int| 0 <= i < j < q@.len() ==> q@[i].needs() != q@[j].needs(),
                forall|m: int|
                    0 <= m < q@.len() ==> match #[trigger] q@[m] {
                        Access::Read(id) => r0.shared_of(id) > 0,
                        Access::Write(id) => r0.exclusive_of(id),
                        Access::EntityHandle => false,
                    },
                forall|m: int|
                    0 <= m < k ==> match #[trigger] q@[m] {
                        Access::Read(id) => self.shared_of(id) == r0.shared_of(id) - 1
                            && self.exclusive_of(id) == r0.exclusive_of(id),
                        Access::Write(id) => !self.exclusive_of(id) && self.shared_of(id)
                            == r0.shared_of(id),
                        Access::EntityHandle => true,
                    },
                forall|ty: u64|
                    r0.res_map().dom().contains(ty) && (forall|m: int|
                        0 <= m < k ==> (#[trigger] q@[m]).needs() != Some(ty)) ==> self.shared_of(
                        ty,
                    ) == r0.shared_of(ty) && self.exclusive_of(ty) == r0.exclusive_of(ty),
            decreases n - k,
        {
            match q[k] {
                Access::Read(id) => {
                    let fetch = FetchResourceRead { ty: id };
                    proof {
                        assert(q@[k as int].needs() == Some(id));
                    }
                    fetch.release(self);
                },
                Access::Write(id) => {
                    let fetch = FetchResourceWrite { ty: id };
                    proof {
                        assert(q@[k as int].needs() == Some(id));
                    }
                    fetch.release(self);
                },
                Access::EntityHandle => {
                    proof {
                        assert(false);
                    }
                },
            }
            k += 1;
        }
    }
}

/// Copy a type list; descriptors are plain values.
fn clone_info_list(types: &Vec<TypeInfo>) -> (r: Vec<TypeInfo>)
    ensures
        r@ == types@,
{
    let mut out: Vec<TypeInfo> = Vec::new();
    let mut k: usize = 0;
    while k < types.len()
        invariant
            k <= types@.len(),
            out@ == types@.subrange(0, k as int),
        decreases types@.len() - k,
    {
        out.push(types[k]);
        assert(out@ =~= types@.subrange(0, k + 1));
        k += 1;
    }
    assert(out@ =~= types@);
    out
}

/// Round trip: after inserting a resource value, a lookup of that type
/// yields exactly the inserted value; re-inserting overwrites it; other
/// resources are untouched.
pub proof fn lemma_resource_round_trip(m0: Map<u64, Seq<u8>>, ty: u64, v1: Seq<u8>, v2: Seq<u8>)
    ensures
        m0.insert(ty, v1).dom().contains(ty),
        m0.insert(ty, v1)[ty] == v1,
        m0.insert(ty, v1).insert(ty, v2)[ty] == v2,
        forall|t2: u64| t2 != ty && m0.dom().contains(t2) ==> m0.insert(ty, v1)[t2] == m0[t2],
{
}

} // verus!
