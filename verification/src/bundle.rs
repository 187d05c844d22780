//! Bundles: the type-erased argument of `spawn`.
//!
//! A bundle enumerates the component types of one entity together with
//! the byte value of each component. Two bundles holding the same
//! component set in different orders describe the same entity contents:
//! the contents of a bundle are a map from type identity to bytes, and
//! everything downstream is specified over that map.

use vstd::prelude::*;

use crate::error::BundleError;
use crate::type_info::{find_type, lemma_find_type, types_distinct, TypeInfo};

verus! {

/// A set of components for one entity: distinct type descriptors, and
/// one byte value per descriptor.
pub struct Bundle {
    pub types: Vec<TypeInfo>,
    pub values: Vec<Vec<u8>>,
}

impl Bundle {
    /// The type descriptors, in the order the bundle was written down.
    pub open spec fn types_s(self) -> Seq<TypeInfo> {
        self.types@
    }

    pub open spec fn values_s(self) -> Seq<Vec<u8>> {
        self.values@
    }

    /// Distinct identities, one value per type, sizes respected.
    pub open spec fn well_formed(self) -> bool {
        &&& types_distinct(self.types@)
        &&& self.values@.len() == self.types@.len()
        &&& forall|k: int|
            0 <= k < self.types@.len() ==> (#[trigger] self.values@[k])@.len()
                == self.types@[k].size
    }

    /// What the bundle holds: type identity to component bytes. The
    /// order in which the components were written down does not show up
    /// here.
    pub open spec fn comp_map(self) -> Map<u64, Seq<u8>> {
        Map::new(
            |id: u64| find_type(self.types@, id) is Some,
            |id: u64| self.values@[find_type(self.types@, id)->Some_0]@,
        )
    }

    /// Build a bundle from `(descriptor, bytes)` pairs. Rejects a
    /// duplicate component type and a value whose length does not match
    /// its descriptor; otherwise the bundle holds exactly the given
    /// pairs.
    pub fn new(parts: Vec<(TypeInfo, Vec<u8>)>) -> (r: Result<Bundle, BundleError>)
        ensures
            r is Ok <==> (forall|i: int, j: int|
                0 <= i < j < parts@.len() ==> parts@[i].0.id != parts@[j].0.id) && (forall|k: int|
                0 <= k < parts@.len() ==> (#[trigger] parts@[k]).1@.len() == parts@[k].0.size),
            r matches Ok(b) ==> {
                &&& b.well_formed()
                &&& b.types_s() == parts@.map_values(|p: (TypeInfo, Vec<u8>)| p.0)
                &&& b.comp_map().dom() =~= Set::new(
                    |id: u64| exists|k: int| 0 <= k < parts@.len() && (#[trigger] parts@[k]).0.id == id,
                )
                &&& forall|k: int|
                    0 <= k < parts@.len() ==> b.comp_map()[(#[trigger] parts@[k]).0.id]
                        == parts@[k].1@
            },
            r matches Err(BundleError::DuplicateComponent(id)) ==> exists|i: int, j: int|
                0 <= i < j < parts@.len() && parts@[i].0.id == id && parts@[j].0.id == id,
            r matches Err(BundleError::SizeMismatch(id)) ==> exists|k: int|
                0 <= k < parts@.len() && (#[trigger] parts@[k]).0.id == id && parts@[k].1@.len()
                    != parts@[k].0.size,
    {
        let mut types: Vec<TypeInfo> = Vec::new();
        let mut values: Vec<Vec<u8>> = Vec::new();
        let mut k: usize = 0;
        while k < parts.len()
            invariant
                k <= parts@.len(),
                types@.len() == k,
                values@.len() == k,
                forall|m: int| 0 <= m < k ==> types@[m] == (#[trigger] parts@[m]).0,
                forall|m: int| 0 <= m < k ==> (#[trigger] values@[m])@ == parts@[m].1@,
                forall|i: int, j: int| 0 <= i < j < k ==> parts@[i].0.id != parts@[j].0.id,
                forall|m: int|
                    0 <= m < k ==> (#[trigger] parts@[m]).1@.len() == parts@[m].0.size,
            decreases parts@.len() - k,
        {
            let (info, value) = &parts[k];
            if value.len() != info.size {
                return Err(BundleError::SizeMismatch(info.id));
            }
            let mut m: usize = 0;
            while m < types.len()
                invariant
                    m <= types@.len(),
                    types@.len() == k,
                    k < parts@.len(),
                    *info == parts@[k as int].0,
                    forall|j: int| 0 <= j < m ==> types@[j].id != parts@[k as int].0.id,
                    forall|j: int| 0 <= j < k ==> types@[j] == (#[trigger] parts@[j]).0,
                decreases types@.len() - m,
            {
                if types[m].id == info.id {
                    proof {
                        assert(parts@[m as int].0.id == info.id);
                        assert(parts@[k as int].0.id == info.id);
                    }
                    return Err(BundleError::DuplicateComponent(info.id));
                }
                m += 1;
            }
            types.push(*info);
            values.push(value.clone());
            k += 1;
        }
        let b = Bundle { types, values };
        proof {
            assert(b.types@ =~= parts@.map_values(|p: (TypeInfo, Vec<u8>)| p.0));
            assert forall|k2: int| 0 <= k2 < parts@.len() implies b.comp_map()[(
            #[trigger] parts@[k2]).0.id] == parts@[k2].1@ by {
                lemma_find_type(b.types@, parts@[k2].0.id);
            }
            assert forall|id: u64| b.comp_map().dom().contains(id) implies (exists|k2: int|
                0 <= k2 < parts@.len() && (#[trigger] parts@[k2]).0.id == id) by {
                lemma_find_type(b.types@, id);
                let i = find_type(b.types@, id)->Some_0;
                assert(parts@[i].0.id == id);
            }
        }
        Ok(b)
    }

    /// The number of component types in the bundle.
    pub fn len(&self) -> (r: usize)
        ensures
            r == self.types_s().len(),
    {
        self.types.len()
    }

    /// The descriptor at position `k`.
    pub fn type_at(&self, k: usize) -> (r: TypeInfo)
        requires
            k < self.types_s().len(),
        ensures
            r == self.types_s()[k as int],
    {
        self.types[k]
    }

    /// The bytes of the component with identity `id`, if the bundle has
    /// it.
    pub fn get(&self, id: u64) -> (r: Option<&Vec<u8>>)
        requires
            self.well_formed(),
        ensures
            match r {
                Some(v) => self.comp_map().dom().contains(id) && v@ == self.comp_map()[id],
                None => !self.comp_map().dom().contains(id),
            },
    {
        proof {
            lemma_find_type(self.types@, id);
        }
        match crate::type_info::find_type_index(&self.types, id) {
            Some(i) => Some(&self.values[i]),
            None => None,
        }
    }
}

} // verus!
