//! Per-component-type descriptors.
//!
//! A component type is identified by a stable numeric identity chosen by
//! the caller, together with the byte size of one value of the type.
//! Archetypes and bundles keep type lists with distinct identities, and
//! archetype lookup compares component sets as sets, so two bundles with
//! the same members resolve to the same archetype regardless of the
//! order in which they were written down.

use vstd::prelude::*;

verus! {

/// Descriptor for one component type: a process-wide identity usable as a
/// map key, and the byte size of one value.
#[derive(Clone, Copy, PartialEq, Eq, Structural, Debug)]
pub struct TypeInfo {
    pub id: u64,
    pub size: usize,
}

impl TypeInfo {
    pub fn new(id: u64, size: usize) -> (r: TypeInfo)
        ensures
            r.id == id,
            r.size == size,
    {
        TypeInfo { id, size }
    }
}

/// No identity appears twice in a type list.
pub open spec fn types_distinct(types: Seq<TypeInfo>) -> bool {
    forall|i: int, j: int| 0 <= i < j < types.len() ==> types[i].id != types[j].id
}

/// Position of the type with identity `id` in `types`, if present.
pub open spec fn find_type(types: Seq<TypeInfo>, id: u64) -> Option<int> {
    if exists|i: int| 0 <= i < types.len() && types[i].id == id {
        Some(choose|i: int| 0 <= i < types.len() && types[i].id == id)
    } else {
        None
    }
}

/// With distinct identities the position of an identity is unique, so
/// `find_type` returns exactly the matching index.
pub proof fn lemma_find_type(types: Seq<TypeInfo>, id: u64)
    requires
        types_distinct(types),
    ensures
        match find_type(types, id) {
            Some(i) => 0 <= i < types.len() && types[i].id == id && forall|j: int|
                0 <= j < types.len() && types[j].id == id ==> j == i,
            None => forall|j: int| 0 <= j < types.len() ==> types[j].id != id,
        },
{
    if exists|i: int| 0 <= i < types.len() && types[i].id == id {
        let i = choose|i: int| 0 <= i < types.len() && types[i].id == id;
        assert forall|j: int| 0 <= j < types.len() && types[j].id == id implies j == i by {
            if j < i {
                assert(types[j].id != types[i].id);
            } else if i < j {
                assert(types[i].id != types[j].id);
            }
        }
    }
}

/// Find the position of identity `id` in a type list with distinct
/// identities.
pub fn find_type_index(types: &Vec<TypeInfo>, id: u64) -> (r: Option<usize>)
    requires
        types_distinct(types@),
    ensures
        match r {
            Some(i) => find_type(types@, id) == Some(i as int),
            None => find_type(types@, id) is None,
        },
{
    let mut k: usize = 0;
    while k < types.len()
        invariant
            types_distinct(types@),
            k <= types@.len(),
            forall|j: int| 0 <= j < k ==> types@[j].id != id,
        decreases types@.len() - k,
    {
        if types[k].id == id {
            proof {
                lemma_find_type(types@, id);
            }
            return Some(k);
        }
        k += 1;
    }
    proof {
        lemma_find_type(types@, id);
    }
    None
}

} // verus!
