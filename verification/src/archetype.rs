//! Archetypes: columnar storage for entities sharing one component set.
//!
//! An archetype owns one column per component type, all of the same row
//! count; `entities[row]` is the id of the entity whose components live
//! at `row` across all columns. Rows are removed by swap-remove, which
//! keeps the columns dense. The contents of a row are specified as a map
//! from type identity to component bytes, the same shape a bundle has.

use vstd::prelude::*;

use crate::bundle::Bundle;
use crate::column::{cell, lemma_row_in_bounds, Column};
use crate::type_info::{find_type, find_type_index, lemma_find_type, types_distinct, TypeInfo};

verus! {

pub struct Archetype {
    pub types: Vec<TypeInfo>,
    pub columns: Vec<Column>,
    pub entities: Vec<u32>,
    pub len: usize,
}

impl Archetype {
    /// One column per type, distinct identities, all columns holding
    /// `len` cells of their type's size.
    pub open spec fn well_formed(self) -> bool {
        &&& types_distinct(self.types@)
        &&& self.columns@.len() == self.types@.len()
        &&& self.entities@.len() == self.len
        &&& forall|i: int|
            0 <= i < self.columns@.len() ==> (#[trigger] self.columns@[i]).data@.len()
                == self.len * self.types@[i].size
    }

    /// Whether the archetype stores components of identity `id`.
    pub open spec fn has_type(self, id: u64) -> bool {
        find_type(self.types@, id) is Some
    }

    /// The byte size of the column for identity `id`.
    pub open spec fn size_of(self, id: u64) -> int {
        self.types@[find_type(self.types@, id)->Some_0].size as int
    }

    /// The contents of one row: type identity to component bytes.
    pub open spec fn row_map(self, row: int) -> Map<u64, Seq<u8>> {
        Map::new(
            |id: u64| find_type(self.types@, id) is Some,
            |id: u64|
                cell(
                    self.columns@[find_type(self.types@, id)->Some_0].data@,
                    self.types@[find_type(self.types@, id)->Some_0].size as int,
                    row,
                ),
        )
    }

    /// The shared-borrow count on the column for identity `id`.
    pub open spec fn shared_of(self, id: u64) -> u32 {
        self.columns@[find_type(self.types@, id)->Some_0].shared_count
    }

    /// Whether an exclusive borrow is held on the column for identity
    /// `id`.
    pub open spec fn exclusive_of(self, id: u64) -> bool {
        self.columns@[find_type(self.types@, id)->Some_0].exclusive
    }

    /// No borrow is held on any column.
    pub open spec fn borrows_clear(self) -> bool {
        forall|i: int|
            0 <= i < self.columns@.len() ==> (#[trigger] self.columns@[i]).shared_count == 0 && !self.columns@[i].exclusive
    }

    /// The bundle provides exactly this archetype's component set, with
    /// matching sizes.
    pub open spec fn matches_bundle(self, b: Bundle) -> bool {
        &&& forall|k: int|
            0 <= k < self.types@.len() ==> b.comp_map().dom().contains(
                (#[trigger] self.types@[k]).id,
            ) && b.comp_map()[self.types@[k].id].len() == self.types@[k].size
        &&& forall|m: int|
            0 <= m < b.types_s().len() ==> find_type(
                self.types@,
                (#[trigger] b.types_s()[m]).id,
            ) is Some
    }

    /// An empty archetype for the given component set.
    pub fn new(types: Vec<TypeInfo>) -> (r: Archetype)
        requires
            types_distinct(types@),
        ensures
            r.well_formed(),
            r.types@ == types@,
            r.len == 0,
            r.entities@ =~= Seq::<u32>::empty(),
            r.borrows_clear(),
    {
        let mut columns: Vec<Column> = Vec::new();
        let mut k: usize = 0;
        let n = types.len();
        while k < n
            invariant
                k <= n,
                columns@.len() == k,
                forall|i: int|
                    0 <= i < k ==> (#[trigger] columns@[i]).data@.len() == 0 && columns@[i].shared_count == 0
                        && !columns@[i].exclusive,
            decreases n - k,
        {
            columns.push(Column::new());
            k += 1;
        }
        Archetype { types, columns, entities: Vec::new(), len: 0 }
    }

    /// The number of entities stored.
    pub fn length(&self) -> (r: usize)
        ensures
            r == self.len,
    {
        self.len
    }

    /// The id of the entity stored at `row`.
    pub fn entity_at(&self, row: usize) -> (r: u32)
        requires
            self.well_formed(),
            row < self.len,
        ensures
            r == self.entities@[row as int],
    {
        self.entities[row]
    }

    /// Append one entity's components as a new row. The new row holds
    /// exactly the bundle's contents; existing rows are untouched.
    pub fn push_row(&mut self, bundle: &Bundle, id: u32)
        requires
            old(self).well_formed(),
            bundle.well_formed(),
            old(self).matches_bundle(*bundle),
        ensures
            final(self).well_formed(),
            final(self).types@ == old(self).types@,
            final(self).len == old(self).len + 1,
            final(self).entities@ == old(self).entities@.push(id),
            final(self).row_map(old(self).len as int) == bundle.comp_map(),
            forall|r: int| 0 <= r < old(self).len ==> final(self).row_map(r) == old(self).row_map(r),
            forall|i: int|
                0 <= i < old(self).columns@.len() ==> (#[trigger] final(self).columns@[i]).shared_count
                    == old(self).columns@[i].shared_count && final(self).columns@[i].exclusive == old(
                    self,
                ).columns@[i].exclusive,
    {
        let n = self.types.len();
        let ghost arch0 = *old(self);
        let mut k: usize = 0;
        while k < n
            invariant
                k <= n,
                n == arch0.types@.len(),
                self.types@ == arch0.types@,
                self.entities@ == arch0.entities@,
                self.len == arch0.len,
                self.columns@.len() == n,
                arch0.well_formed(),
                bundle.well_formed(),
                arch0.matches_bundle(*bundle),
                forall|i: int|
                    0 <= i < k ==> (#[trigger] self.columns@[i]).data@ == arch0.columns@[i].data@
                        + bundle.comp_map()[arch0.types@[i].id],
                forall|i: int| k <= i < n ==> (#[trigger] self.columns@[i]) == arch0.columns@[i],
                forall|i: int|
                    0 <= i < n ==> (#[trigger] self.columns@[i]).shared_count
                        == arch0.columns@[i].shared_count && self.columns@[i].exclusive
                        == arch0.columns@[i].exclusive,
            decreases n - k,
        {
            let info = self.types[k];
            let v = bundle.get(info.id);
            match v {
                Some(bytes) => {
                    self.columns[k].push_cell(bytes);
                },
                None => {
                    // Unreachable: the bundle matches the archetype.
                    proof {
                        assert(false);
                    }
                },
            }
            k += 1;
        }
        self.entities.push(id);
        self.len = self.entities.len();
        proof {
            let s1 = *self;
            let lnew = arch0.len as int;
            assert forall|i: int| 0 <= i < n implies (#[trigger] s1.columns@[i]).data@.len()
                == s1.len * s1.types@[i].size by {
                let sz = arch0.types@[i].size as int;
                lemma_row_in_bounds(lnew + 1, sz, lnew);
                assert(bundle.comp_map()[arch0.types@[i].id].len() == arch0.types@[i].size);
            }
            assert(s1.well_formed());
            assert forall|r: int| 0 <= r < arch0.len implies s1.row_map(r) == arch0.row_map(r) by {
                assert forall|id: u64| #[trigger]
                    s1.row_map(r).dom().contains(id) implies s1.row_map(r)[id] == arch0.row_map(r)[id] by {
                    lemma_find_type(arch0.types@, id);
                    let i = find_type(arch0.types@, id)->Some_0;
                    let sz = arch0.types@[i].size as int;
                    lemma_row_in_bounds(arch0.len as int, sz, r);
                    assert(cell(s1.columns@[i].data@, sz, r) =~= cell(arch0.columns@[i].data@, sz, r));
                }
                assert(s1.row_map(r) =~= arch0.row_map(r));
            }
            assert forall|id: u64| #[trigger]
                bundle.comp_map().dom().contains(id) implies s1.row_map(lnew).dom().contains(id)
                && s1.row_map(lnew)[id] == bundle.comp_map()[id] by {
                lemma_find_type(bundle.types_s(), id);
                let m = find_type(bundle.types_s(), id)->Some_0;
                assert(find_type(arch0.types@, bundle.types_s()[m].id) is Some);
                lemma_find_type(arch0.types@, id);
                let i = find_type(arch0.types@, id)->Some_0;
                let sz = arch0.types@[i].size as int;
                assert(cell(s1.columns@[i].data@, sz, lnew) =~= bundle.comp_map()[id]);
            }
            assert forall|id: u64| #[trigger]
                s1.row_map(lnew).dom().contains(id) implies bundle.comp_map().dom().contains(
                id,
            ) by {
                lemma_find_type(arch0.types@, id);
                let i = find_type(arch0.types@, id)->Some_0;
                assert(bundle.comp_map().dom().contains(arch0.types@[i].id));
            }
            assert(s1.row_map(lnew) =~= bundle.comp_map());
        }
    }

    /// Drop the row at `row`, moving the last row into its place. Returns
    /// the id of the entity that moved, if any.
    pub fn swap_remove_row(&mut self, row: usize) -> (moved: Option<u32>)
        requires
            old(self).well_formed(),
            row < old(self).len,
        ensures
            final(self).well_formed(),
            final(self).types@ == old(self).types@,
            final(self).len == old(self).len - 1,
            final(self).entities@ == old(self).entities@.update(
                row as int,
                old(self).entities@[old(self).len - 1],
            ).drop_last(),
            moved == if row + 1 < old(self).len {
                Some(old(self).entities@[old(self).len - 1])
            } else {
                None::<u32>
            },
            forall|r2: int|
                0 <= r2 < old(self).len - 1 && r2 != row ==> final(self).row_map(r2) == old(
                    self,
                ).row_map(r2),
            row + 1 < old(self).len ==> final(self).row_map(row as int) == old(self).row_map(
                old(self).len - 1,
            ),
            forall|i: int|
                0 <= i < old(self).columns@.len() ==> (#[trigger] final(self).columns@[i]).shared_count
                    == old(self).columns@[i].shared_count && final(self).columns@[i].exclusive == old(
                    self,
                ).columns@[i].exclusive,
    {
        let n = self.types.len();
        let ghost arch0 = *old(self);
        let olen = self.len;
        let mut k: usize = 0;
        while k < n
            invariant
                k <= n,
                n == arch0.types@.len(),
                olen == arch0.len,
                row < olen,
                self.types@ == arch0.types@,
                self.entities@ == arch0.entities@,
                self.len == arch0.len,
                self.columns@.len() == n,
                arch0.well_formed(),
                forall|i: int|
                    0 <= i < k ==> (#[trigger] self.columns@[i]).data@.len() == (arch0.len - 1)
                        * arch0.types@[i].size,
                forall|i: int, r2: int|
                    0 <= i < k && 0 <= r2 < arch0.len - 1 && r2 != row ==> #[trigger] cell(
                        self.columns@[i].data@,
                        arch0.types@[i].size as int,
                        r2,
                    ) == cell(arch0.columns@[i].data@, arch0.types@[i].size as int, r2),
                forall|i: int|
                    0 <= i < k && row < arch0.len - 1 ==> cell(
                        (#[trigger] self.columns@[i]).data@,
                        arch0.types@[i].size as int,
                        row as int,
                    ) == cell(arch0.columns@[i].data@, arch0.types@[i].size as int, arch0.len - 1),
                forall|i: int| k <= i < n ==> (#[trigger] self.columns@[i]) == arch0.columns@[i],
                forall|i: int|
                    0 <= i < n ==> (#[trigger] self.columns@[i]).shared_count
                        == arch0.columns@[i].shared_count && self.columns@[i].exclusive
                        == arch0.columns@[i].exclusive,
            decreases n - k,
        {
            let size = self.types[k].size;
            self.columns[k].swap_remove_cell(size, row, olen);
            k += 1;
        }
        let moved_id = if row + 1 < olen {
            Some(self.entities[olen - 1])
        } else {
            None
        };
        self.entities.swap_remove(row);
        self.len = self.len - 1;
        proof {
            let s1 = *self;
            assert(s1.well_formed());
            assert forall|r2: int|
                0 <= r2 < arch0.len - 1 && r2 != row implies s1.row_map(r2) == arch0.row_map(
                r2,
            ) by {
                assert forall|id: u64| #[trigger]
                    s1.row_map(r2).dom().contains(id) implies s1.row_map(r2)[id]
                    == arch0.row_map(r2)[id] by {
                    lemma_find_type(arch0.types@, id);
                }
                assert(s1.row_map(r2) =~= arch0.row_map(r2));
            }
            if row + 1 < arch0.len {
                assert forall|id: u64| #[trigger]
                    s1.row_map(row as int).dom().contains(id) implies s1.row_map(row as int)[id]
                    == arch0.row_map(arch0.len - 1)[id] by {
                    lemma_find_type(arch0.types@, id);
                }
                assert(s1.row_map(row as int) =~= arch0.row_map(arch0.len - 1));
            }
        }
        moved_id
    }

    /// Copy one component of the row out, or report that the archetype
    /// lacks the type.
    pub fn read_component(&self, id: u64, row: usize) -> (r: Option<Vec<u8>>)
        requires
            self.well_formed(),
            row < self.len,
        ensures
            match r {
                Some(v) => self.has_type(id) && v@ == self.row_map(row as int)[id],
                None => !self.has_type(id),
            },
    {
        match find_type_index(&self.types, id) {
            Some(i) => {
                let size = self.types[i].size;
                proof {
                    lemma_row_in_bounds(self.len as int, size as int, row as int);
                }
                Some(self.columns[i].read_cell(size, row))
            },
            None => None,
        }
    }

    /// Overwrite one component of one row; every other cell is
    /// unchanged. The caller guarantees the identity names an existing
    /// column and the bytes have the column's size.
    pub fn put_dynamic(&mut self, id: u64, row: usize, bytes: &Vec<u8>)
        requires
            old(self).well_formed(),
            old(self).has_type(id),
            row < old(self).len,
            bytes@.len() == old(self).size_of(id),
        ensures
            final(self).well_formed(),
            final(self).types@ == old(self).types@,
            final(self).len == old(self).len,
            final(self).entities@ == old(self).entities@,
            final(self).row_map(row as int) == old(self).row_map(row as int).insert(id, bytes@),
            forall|r2: int|
                0 <= r2 < old(self).len && r2 != row ==> final(self).row_map(r2) == old(
                    self,
                ).row_map(r2),
            forall|i: int|
                0 <= i < old(self).columns@.len() ==> (#[trigger] final(self).columns@[i]).shared_count
                    == old(self).columns@[i].shared_count && final(self).columns@[i].exclusive == old(
                    self,
                ).columns@[i].exclusive,
    {
        proof {
            lemma_find_type(self.types@, id);
        }
        let i = match find_type_index(&self.types, id) {
            Some(i) => i,
            None => {
                // Unreachable: the precondition names an existing column.
                proof {
                    assert(false);
                }
                0
            },
        };
        let size = self.types[i].size;
        proof {
            lemma_row_in_bounds(self.len as int, size as int, row as int);
        }
        self.columns[i].write_cell(size, row, bytes);
        proof {
            let s1 = *self;
            let arch0 = *old(self);
            assert forall|r2: int|
                0 <= r2 < arch0.len && r2 != row implies s1.row_map(r2) == arch0.row_map(r2) by {
                assert forall|id2: u64| #[trigger]
                    s1.row_map(r2).dom().contains(id2) implies s1.row_map(r2)[id2]
                    == arch0.row_map(r2)[id2] by {
                    lemma_find_type(arch0.types@, id2);
                    let j = find_type(arch0.types@, id2)->Some_0;
                    let sz = arch0.types@[j].size as int;
                    lemma_row_in_bounds(arch0.len as int, sz, r2);
                    if j == i {
                        crate::column::lemma_cell_disjoint(sz, r2, row as int);
                    }
                    assert(cell(s1.columns@[j].data@, sz, r2) =~= cell(
                        arch0.columns@[j].data@,
                        sz,
                        r2,
                    ));
                }
                assert(s1.row_map(r2) =~= arch0.row_map(r2));
            }
            assert forall|id2: u64| #[trigger]
                s1.row_map(row as int).dom().contains(id2) implies s1.row_map(row as int)[id2]
                == arch0.row_map(row as int).insert(id, bytes@)[id2] by {
                lemma_find_type(arch0.types@, id2);
                let j = find_type(arch0.types@, id2)->Some_0;
                let sz = arch0.types@[j].size as int;
                lemma_row_in_bounds(arch0.len as int, sz, row as int);
                if id2 != id {
                    assert(j != i);
                    assert(cell(s1.columns@[j].data@, sz, row as int) =~= cell(
                        arch0.columns@[j].data@,
                        sz,
                        row as int,
                    ));
                }
            }
            assert(s1.row_map(row as int) =~= arch0.row_map(row as int).insert(id, bytes@));
        }
    }

    /// The two archetypes store the same types and rows; only borrow
    /// states may differ.
    pub open spec fn storage_eq(self, other: Archetype) -> bool {
        &&& other.types@ == self.types@
        &&& other.len == self.len
        &&& other.entities@ == self.entities@
        &&& other.columns@.len() == self.columns@.len()
        &&& forall|j: int|
            0 <= j < self.columns@.len() ==> (#[trigger] other.columns@[j]).data@
                == self.columns@[j].data@
    }

    /// Rows read the same through two storage-equal archetypes.
    pub proof fn lemma_storage_eq_row_map(self, other: Archetype, row: int)
        requires
            self.well_formed(),
            self.storage_eq(other),
        ensures
            self.row_map(row) == other.row_map(row),
            other.has_type_all(self),
    {
        assert forall|id: u64| #[trigger]
            self.row_map(row).dom().contains(id) implies self.row_map(row)[id] == other.row_map(
            row,
        )[id] by {
            let i = find_type(self.types@, id)->Some_0;
            assert(0 <= i < self.types@.len() && self.types@[i].id == id);
            assert(other.columns@[i].data@ == self.columns@[i].data@);
        }
        assert(self.row_map(row) =~= other.row_map(row));
    }

    /// The two archetypes answer `has_type` alike (they have the same
    /// type list).
    pub open spec fn has_type_all(self, other: Archetype) -> bool {
        forall|id: u64| self.has_type(id) == other.has_type(id)
    }

    /// Start a shared borrow on the column for `id`; fails only under an
    /// exclusive borrow (or a full reader count, a machine limit).
    pub fn try_borrow(&mut self, id: u64) -> (r: bool)
        requires
            old(self).well_formed(),
            old(self).has_type(id),
        ensures
            final(self).well_formed(),
            old(self).storage_eq(*final(self)),
            r == (!old(self).exclusive_of(id) && old(self).shared_of(id) < u32::MAX),
            r ==> final(self).shared_of(id) == old(self).shared_of(id) + 1,
            !r ==> final(self).shared_of(id) == old(self).shared_of(id),
            final(self).exclusive_of(id) == old(self).exclusive_of(id),
            forall|id2: u64|
                old(self).has_type(id2) && id2 != id ==> final(self).shared_of(id2) == old(
                    self,
                ).shared_of(id2) && final(self).exclusive_of(id2) == old(self).exclusive_of(id2),
    {
        proof {
            lemma_find_type(self.types@, id);
        }
        let i = match find_type_index(&self.types, id) {
            Some(i) => i,
            None => {
                proof {
                    assert(false);
                }
                0
            },
        };
        let r = self.columns[i].try_borrow();
        proof {
            self.lemma_other_columns(*old(self), id, i as int);
        }
        r
    }

    /// Start an exclusive borrow on the column for `id`; fails exactly
    /// when any borrow is held.
    pub fn try_borrow_mut(&mut self, id: u64) -> (r: bool)
        requires
            old(self).well_formed(),
            old(self).has_type(id),
        ensures
            final(self).well_formed(),
            old(self).storage_eq(*final(self)),
            r == (!old(self).exclusive_of(id) && old(self).shared_of(id) == 0),
            r ==> final(self).exclusive_of(id),
            !r ==> final(self).exclusive_of(id) == old(self).exclusive_of(id),
            final(self).shared_of(id) == old(self).shared_of(id),
            forall|id2: u64|
                old(self).has_type(id2) && id2 != id ==> final(self).shared_of(id2) == old(
                    self,
                ).shared_of(id2) && final(self).exclusive_of(id2) == old(self).exclusive_of(id2),
    {
        proof {
            lemma_find_type(self.types@, id);
        }
        let i = match find_type_index(&self.types, id) {
            Some(i) => i,
            None => {
                proof {
                    assert(false);
                }
                0
            },
        };
        let r = self.columns[i].try_borrow_mut();
        proof {
            self.lemma_other_columns(*old(self), id, i as int);
        }
        r
    }

    /// Start a shared borrow; starting one under an exclusive borrow is
    /// a program bug, excluded by the precondition.
    pub fn borrow(&mut self, id: u64)
        requires
            old(self).well_formed(),
            old(self).has_type(id),
            !old(self).exclusive_of(id),
            old(self).shared_of(id) < u32::MAX,
        ensures
            final(self).well_formed(),
            old(self).storage_eq(*final(self)),
            final(self).shared_of(id) == old(self).shared_of(id) + 1,
            final(self).exclusive_of(id) == old(self).exclusive_of(id),
            forall|id2: u64|
                old(self).has_type(id2) && id2 != id ==> final(self).shared_of(id2) == old(
                    self,
                ).shared_of(id2) && final(self).exclusive_of(id2) == old(self).exclusive_of(id2),
    {
        let _ = self.try_borrow(id);
    }

    /// End one shared borrow.
    pub fn release(&mut self, id: u64)
        requires
            old(self).well_formed(),
            old(self).has_type(id),
            old(self).shared_of(id) > 0,
        ensures
            final(self).well_formed(),
            old(self).storage_eq(*final(self)),
            final(self).shared_of(id) == old(self).shared_of(id) - 1,
            final(self).exclusive_of(id) == old(self).exclusive_of(id),
            forall|id2: u64|
                old(self).has_type(id2) && id2 != id ==> final(self).shared_of(id2) == old(
                    self,
                ).shared_of(id2) && final(self).exclusive_of(id2) == old(self).exclusive_of(id2),
    {
        proof {
            lemma_find_type(self.types@, id);
        }
        let i = match find_type_index(&self.types, id) {
            Some(i) => i,
            None => {
                proof {
                    assert(false);
                }
                0
            },
        };
        self.columns[i].release();
        proof {
            self.lemma_other_columns(*old(self), id, i as int);
        }
    }

    /// Start an exclusive borrow; starting one while any borrow is held
    /// is a program bug, excluded by the precondition.
    pub fn borrow_mut(&mut self, id: u64)
        requires
            old(self).well_formed(),
            old(self).has_type(id),
            !old(self).exclusive_of(id),
            old(self).shared_of(id) == 0,
        ensures
            final(self).well_formed(),
            old(self).storage_eq(*final(self)),
            final(self).exclusive_of(id),
            final(self).shared_of(id) == old(self).shared_of(id),
            forall|id2: u64|
                old(self).has_type(id2) && id2 != id ==> final(self).shared_of(id2) == old(
                    self,
                ).shared_of(id2) && final(self).exclusive_of(id2) == old(self).exclusive_of(id2),
    {
        let _ = self.try_borrow_mut(id);
    }

    /// End the exclusive borrow.
    pub fn release_mut(&mut self, id: u64)
        requires
            old(self).well_formed(),
            old(self).has_type(id),
            old(self).exclusive_of(id),
        ensures
            final(self).well_formed(),
            old(self).storage_eq(*final(self)),
            !final(self).exclusive_of(id),
            final(self).shared_of(id) == old(self).shared_of(id),
            forall|id2: u64|
                old(self).has_type(id2) && id2 != id ==> final(self).shared_of(id2) == old(
                    self,
                ).shared_of(id2) && final(self).exclusive_of(id2) == old(self).exclusive_of(id2),
    {
        proof {
            lemma_find_type(self.types@, id);
        }
        let i = match find_type_index(&self.types, id) {
            Some(i) => i,
            None => {
                proof {
                    assert(false);
                }
                0
            },
        };
        self.columns[i].release_mut();
        proof {
            self.lemma_other_columns(*old(self), id, i as int);
        }
    }

    /// After a borrow operation touched only column `i` (the column of
    /// `id`), every other identity's borrow state is unchanged.
    proof fn lemma_other_columns(self, before: Archetype, id: u64, i: int)
        requires
            before.well_formed(),
            before.has_type(id),
            find_type(before.types@, id) == Some(i),
            self.types@ == before.types@,
            self.columns@.len() == before.columns@.len(),
            forall|j: int| 0 <= j < before.columns@.len() && j != i ==> self.columns@[j]
                == before.columns@[j],
        ensures
            forall|id2: u64|
                before.has_type(id2) && id2 != id ==> self.shared_of(id2) == before.shared_of(id2)
                    && self.exclusive_of(id2) == before.exclusive_of(id2),
    {
        assert forall|id2: u64| before.has_type(id2) && id2 != id implies self.shared_of(id2)
            == before.shared_of(id2) && self.exclusive_of(id2) == before.exclusive_of(id2) by {
            lemma_find_type(before.types@, id2);
            let j = find_type(before.types@, id2)->Some_0;
            assert(before.types@[j].id == id2 && before.types@[i].id == id);
        }
    }
}

} // verus!
