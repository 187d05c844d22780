//! The query engine: select archetypes by component set and yield rows.
//!
//! A query is a list of access patterns: the entity handle itself, read
//! access to a component type, or write access to one. An archetype
//! matches a query when it has a column for every component the query
//! names; the rows yielded are exactly the live entities whose component
//! set covers the query, each exactly once, in unspecified order.

use vstd::prelude::*;

use crate::bundle::Bundle;
use crate::entity::Entity;
use crate::type_info::find_type_index;
use crate::world::World;

verus! {

/// One access pattern of a query.
#[derive(Clone, Copy, PartialEq, Eq, Structural, Debug)]
pub enum Access {
    /// Yield the entity handle; requires no column.
    EntityHandle,
    /// Read the component with this identity.
    Read(u64),
    /// Write the component with this identity.
    Write(u64),
}

impl Access {
    /// The component identity an access needs, if any.
    pub open spec fn needs(self) -> Option<u64> {
        match self {
            Access::EntityHandle => None,
            Access::Read(id) => Some(id),
            Access::Write(id) => Some(id),
        }
    }
}

/// What one access pattern yielded for one row.
pub enum FetchItem {
    Handle(Entity),
    Bytes(Vec<u8>),
}

/// One yielded row: the entity and one item per access pattern.
pub struct Row {
    pub entity: Entity,
    pub items: Vec<FetchItem>,
}

/// The entity is live and has every component the query names.
pub open spec fn entity_matches(w: World, q: Seq<Access>, e: Entity) -> bool {
    &&& w.live(e)
    &&& forall|k: int|
        0 <= k < q.len() ==> match (#[trigger] q[k]).needs() {
            Some(id) => w.components_of(e).dom().contains(id),
            None => true,
        }
}

/// The item yielded for `e` under access `a` is the right one.
pub open spec fn item_ok(w: World, e: Entity, a: Access, it: FetchItem) -> bool {
    match a {
        Access::EntityHandle => it == FetchItem::Handle(e),
        Access::Read(id) => match it {
            FetchItem::Bytes(b) => b@ == w.components_of(e)[id],
            FetchItem::Handle(_) => false,
        },
        Access::Write(id) => match it {
            FetchItem::Bytes(b) => b@ == w.components_of(e)[id],
            FetchItem::Handle(_) => false,
        },
    }
}

/// The archetype has a column for every component the query names.
pub open spec fn archetype_matches(arch: crate::archetype::Archetype, q: Seq<Access>) -> bool {
    forall|k: int|
        0 <= k < q.len() ==> match (#[trigger] q[k]).needs() {
            Some(id) => arch.has_type(id),
            None => true,
        }
}

/// The borrow states a query's start asks for are available on this
/// archetype: a read finds no exclusive borrow (and reader-count room,
/// a machine limit), a write finds no borrow at all. Starting a query
/// whose borrows conflict is a program bug — the panic of the original
/// — excluded by preconditions built from this.
pub open spec fn borrows_available(arch: crate::archetype::Archetype, q: Seq<Access>) -> bool {
    forall|k: int|
        0 <= k < q.len() ==> match #[trigger] q[k] {
            Access::Read(id) => !arch.exclusive_of(id) && arch.shared_of(id) < u32::MAX,
            Access::Write(id) => !arch.exclusive_of(id) && arch.shared_of(id) == 0,
            Access::EntityHandle => true,
        }
}

/// The borrow states after a query's start on this archetype: each read
/// access took one shared borrow, each write access the exclusive
/// borrow, and every other column is as before.
pub open spec fn borrows_taken(
    before: crate::archetype::Archetype,
    after: crate::archetype::Archetype,
    q: Seq<Access>,
) -> bool {
    &&& forall|k: int|
        0 <= k < q.len() ==> match #[trigger] q[k] {
            Access::Read(id) => after.shared_of(id) == before.shared_of(id) + 1
                && after.exclusive_of(id) == before.exclusive_of(id),
            Access::Write(id) => after.exclusive_of(id) && after.shared_of(id) == before.shared_of(
                id,
            ),
            Access::EntityHandle => true,
        }
    &&& forall|id: u64|
        before.has_type(id) && (forall|k: int|
            0 <= k < q.len() ==> (#[trigger] q[k]).needs() != Some(id)) ==> after.shared_of(id)
            == before.shared_of(id) && after.exclusive_of(id) == before.exclusive_of(id)
}

/// The row yielded for `e` is shaped by the query and holds the right
/// values.
pub open spec fn row_ok(w: World, q: Seq<Access>, row: Row) -> bool {
    &&& entity_matches(w, q, row.entity)
    &&& row.items@.len() == q.len()
    &&& forall|k: int| 0 <= k < q.len() ==> item_ok(w, row.entity, q[k], #[trigger] row.items@[k])
}

impl World {
    /// Whether archetype `a` has a column for every component the query
    /// names.
    fn query_matches_archetype(&self, a: usize, q: &Vec<Access>) -> (r: bool)
        requires
            self.well_formed(),
            a < self.archetypes@.len(),
        ensures
            r <==> archetype_matches(self.archetypes@[a as int], q@),
    {
        let arch = &self.archetypes[a];
        let n = q.len();
        let mut k: usize = 0;
        while k < n
            invariant
                n == q@.len(),
                arch == &self.archetypes@[a as int],
                arch.well_formed(),
                forall|i: int|
                    0 <= i < k ==> match (#[trigger] q@[i]).needs() {
                        Some(id) => arch.has_type(id),
                        None => true,
                    },
            decreases n - k,
        {
            let id = match q[k] {
                Access::EntityHandle => {
                    k += 1;
                    continue ;
                },
                Access::Read(id) => id,
                Access::Write(id) => id,
            };
            if find_type_index(&arch.types, id).is_none() {
                return false;
            }
            k += 1;
        }
        true
    }

    /// Collect every row matching the query: one row per live entity
    /// whose component set covers the query's, holding the entity handle
    /// and a copy of each named component.
    pub fn query(&self, q: &Vec<Access>) -> (rows: Vec<Row>)
        requires
            self.well_formed(),
        ensures
            forall|i: int| 0 <= i < rows@.len() ==> row_ok(*self, q@, #[trigger] rows@[i]),
            forall|e: Entity|
                entity_matches(*self, q@, e) ==> exists|i: int|
                    0 <= i < rows@.len() && (#[trigger] rows@[i]).entity == e,
            forall|i: int, j: int|
                0 <= i < j < rows@.len() ==> (#[trigger] rows@[i]).entity != (
                #[trigger] rows@[j]).entity,
    {
        let mut rows: Vec<Row> = Vec::new();
        let na = self.archetypes.len();
        let mut a: usize = 0;
        while a < na
            invariant
                na == self.archetypes@.len(),
                self.well_formed(),
                forall|i: int| 0 <= i < rows@.len() ==> row_ok(*self, q@, #[trigger] rows@[i]),
                forall|i: int|
                    0 <= i < rows@.len() ==> self.entities.location_of(
                        (#[trigger] rows@[i]).entity,
                    ).archetype < a,
                forall|e: Entity|
                    entity_matches(*self, q@, e) && self.entities.location_of(e).archetype < a
                        ==> exists|i: int|
                        0 <= i < rows@.len() && (#[trigger] rows@[i]).entity == e,
                forall|i: int, j: int|
                    0 <= i < j < rows@.len() ==> (#[trigger] rows@[i]).entity != (
                    #[trigger] rows@[j]).entity,
            decreases na - a,
        {
            if self.query_matches_archetype(a, q) {
                self.query_one_archetype(a, q, &mut rows);
            } else {
                proof {
                    // No entity stored here matches: some named component
                    // is missing from this archetype.
                    assert forall|e: Entity|
                        entity_matches(*self, q@, e) && self.entities.location_of(e).archetype
                            < a + 1 implies self.entities.location_of(e).archetype < a by {
                        if self.entities.location_of(e).archetype == a {
                            let k = choose|k: int|
                                0 <= k < q@.len() && match (#[trigger] q@[k]).needs() {
                                    Some(id) => !self.archetypes@[a as int].has_type(id),
                                    None => false,
                                };
                            assert(match q@[k].needs() {
                                Some(id) => self.components_of(e).dom().contains(id),
                                None => true,
                            });
                        }
                    }
                }
            }
            a += 1;
        }
        rows
    }

    /// Append the rows of one matching archetype.
    fn query_one_archetype(&self, a: usize, q: &Vec<Access>, rows: &mut Vec<Row>)
        requires
            self.well_formed(),
            a < self.archetypes@.len(),
            forall|k: int|
                0 <= k < q@.len() ==> match (#[trigger] q@[k]).needs() {
                    Some(id) => self.archetypes@[a as int].has_type(id),
                    None => true,
                },
            forall|i: int|
                0 <= i < old(rows)@.len() ==> row_ok(*self, q@, #[trigger] old(rows)@[i]),
            forall|i: int|
                0 <= i < old(rows)@.len() ==> self.entities.location_of(
                    (#[trigger] old(rows)@[i]).entity,
                ).archetype < a,
            forall|i: int, j: int|
                0 <= i < j < old(rows)@.len() ==> (#[trigger] old(rows)@[i]).entity != (
                #[trigger] old(rows)@[j]).entity,
            forall|e: Entity|
                entity_matches(*self, q@, e) && self.entities.location_of(e).archetype < a
                    ==> exists|i: int|
                    0 <= i < old(rows)@.len() && (#[trigger] old(rows)@[i]).entity == e,
        ensures
            forall|i: int| 0 <= i < final(rows)@.len() ==> row_ok(*self, q@, #[trigger] final(rows)@[i]),
            forall|i: int|
                0 <= i < final(rows)@.len() ==> self.entities.location_of(
                    (#[trigger] final(rows)@[i]).entity,
                ).archetype < a + 1,
            forall|e: Entity|
                entity_matches(*self, q@, e) && self.entities.location_of(e).archetype < a + 1
                    ==> exists|i: int|
                    0 <= i < final(rows)@.len() && (#[trigger] final(rows)@[i]).entity == e,
            forall|i: int, j: int|
                0 <= i < j < final(rows)@.len() ==> (#[trigger] final(rows)@[i]).entity != (
                #[trigger] final(rows)@[j]).entity,
    {
        proof {
            assert forall|e2: Entity|
                entity_matches(*self, q@, e2) && self.entities.location_of(e2).archetype < a
                implies exists|i: int|
                0 <= i < rows@.len() && (#[trigger] rows@[i]).entity == e2 by {
                let j = choose|j: int|
                    0 <= j < old(rows)@.len() && (#[trigger] old(rows)@[j]).entity == e2;
                assert(rows@[j].entity == e2);
            }
        }
        let arch = &self.archetypes[a];
        let len = arch.length();
        let mut r: usize = 0;
        while r < len
            invariant
                len == arch.len,
                arch == &self.archetypes@[a as int],
                self.well_formed(),
                a < self.archetypes@.len(),
                forall|k: int|
                    0 <= k < q@.len() ==> match (#[trigger] q@[k]).needs() {
                        Some(id) => self.archetypes@[a as int].has_type(id),
                        None => true,
                    },
                forall|i: int| 0 <= i < rows@.len() ==> row_ok(*self, q@, #[trigger] rows@[i]),
                forall|i: int|
                    0 <= i < rows@.len() ==> {
                        let l = self.entities.location_of((#[trigger] rows@[i]).entity);
                        l.archetype < a || (l.archetype == a && l.index < r)
                    },
                forall|e: Entity|
                    entity_matches(*self, q@, e) && (self.entities.location_of(e).archetype < a
                        || (self.entities.location_of(e).archetype == a
                        && self.entities.location_of(e).index < r)) ==> exists|i: int|
                        0 <= i < rows@.len() && (#[trigger] rows@[i]).entity == e,
                forall|i: int, j: int|
                    0 <= i < j < rows@.len() ==> (#[trigger] rows@[i]).entity != (
                    #[trigger] rows@[j]).entity,
            decreases len - r,
        {
            let id = arch.entity_at(r);
            proof {
                assert(self.archetypes@[a as int].entities@[r as int] == id);
            }
            let generation = self.entities.generation_of(id);
            let e = Entity { id, generation };
            let ghost w = *self;
            proof {
                assert(w.live(e));
                assert(w.entities.location_of(e).archetype == a);
                assert(w.entities.location_of(e).index == r);
                assert(w.components_of(e) == w.archetypes@[a as int].row_map(r as int));
            }
            let n = q.len();
            let mut items: Vec<FetchItem> = Vec::new();
            let mut k: usize = 0;
            while k < n
                invariant
                    n == q@.len(),
                    arch == &w.archetypes@[a as int],
                    w == *self,
                    w.well_formed(),
                    a < w.archetypes@.len(),
                    r < arch.len,
                    w.live(e),
                    w.components_of(e) == w.archetypes@[a as int].row_map(r as int),
                    forall|kk: int|
                        0 <= kk < q@.len() ==> match (#[trigger] q@[kk]).needs() {
                            Some(id2) => w.archetypes@[a as int].has_type(id2),
                            None => true,
                        },
                    k <= n,
                    items@.len() == k,
                    forall|m: int|
                        0 <= m < k ==> item_ok(w, e, q@[m], #[trigger] items@[m]),
                decreases n - k,
            {
                let it = match q[k] {
                    Access::EntityHandle => FetchItem::Handle(e),
                    Access::Read(cid) => {
                        match arch.read_component(cid, r) {
                            Some(v) => FetchItem::Bytes(v),
                            None => {
                                proof {
                                    assert(false);
                                }
                                FetchItem::Handle(e)
                            },
                        }
                    },
                    Access::Write(cid) => {
                        match arch.read_component(cid, r) {
                            Some(v) => FetchItem::Bytes(v),
                            None => {
                                proof {
                                    assert(false);
                                }
                                FetchItem::Handle(e)
                            },
                        }
                    },
                };
                items.push(it);
                k += 1;
            }
            proof {
                assert(entity_matches(w, q@, e)) by {
                    assert forall|kk: int| 0 <= kk < q@.len() implies match (
                    #[trigger] q@[kk]).needs() {
                        Some(id2) => w.components_of(e).dom().contains(id2),
                        None => true,
                    } by {
                        match q@[kk].needs() {
                            Some(id2) => {
                                assert(w.archetypes@[a as int].has_type(id2));
                            },
                            None => {},
                        }
                    }
                }
            }
            let ghost rows_before = rows@;
            rows.push(Row { entity: e, items });
            proof {
                assert forall|e2: Entity|
                    entity_matches(*self, q@, e2) && (self.entities.location_of(e2).archetype < a
                        || (self.entities.location_of(e2).archetype == a
                        && self.entities.location_of(e2).index < r + 1)) implies exists|i: int|
                    0 <= i < rows@.len() && (#[trigger] rows@[i]).entity == e2 by {
                    let l2 = self.entities.location_of(e2);
                    if l2.archetype == a && l2.index == r {
                        // The entity at this row is exactly `e`.
                        assert(self.archetypes@[a as int].entities@[r as int] == e2.id);
                        assert(e2.id == e.id);
                        assert(e2.generation == e.generation);
                        assert(rows@[rows@.len() - 1].entity == e2);
                    } else {
                        let j = choose|j: int|
                            0 <= j < rows_before.len() && (#[trigger] rows_before[j]).entity == e2;
                        assert(rows@[j].entity == e2);
                    }
                }
            }
            r += 1;
        }
        proof {
            assert forall|e2: Entity|
                entity_matches(*self, q@, e2) && self.entities.location_of(e2).archetype < a + 1
                implies exists|i: int|
                0 <= i < rows@.len() && (#[trigger] rows@[i]).entity == e2 by {
                let l2 = self.entities.location_of(e2);
                if l2.archetype == a {
                    assert(l2.index < arch.len);
                }
            }
        }
    }
}

/// The outputs a per-row function hands back: one byte value per access,
/// applied only at the write accesses, each keeping its component's
/// size.
pub open spec fn outs_ok(q: Seq<Access>, row: Row, outs: Seq<Vec<u8>>) -> bool {
    &&& outs.len() == q.len()
    &&& forall|k: int|
        0 <= k < q.len() ==> match (#[trigger] q[k], row.items@[k]) {
            (Access::Write(_), FetchItem::Bytes(b)) => outs[k]@.len() == b@.len(),
            _ => true,
        }
}

/// The component map after the first `upto` accesses were applied:
/// every write access overwrites its component with the function's
/// output for that position.
pub open spec fn apply_writes(
    q: Seq<Access>,
    m: Map<u64, Seq<u8>>,
    outs: Seq<Vec<u8>>,
    upto: int,
) -> Map<u64, Seq<u8>>
    decreases upto,
{
    if upto <= 0 {
        m
    } else {
        let prev = apply_writes(q, m, outs, upto - 1);
        match q[upto - 1] {
            Access::Write(id) => prev.insert(id, outs[upto - 1]@),
            _ => prev,
        }
    }
}

/// Row `row` was visited: some output of `f` on it was written back, so
/// the entity's components are the write-updated ones.
pub open spec fn row_done<F: Fn(&Row) -> Vec<Vec<u8>>>(
    w1: World,
    w0: World,
    q: Seq<Access>,
    f: F,
    row: Row,
) -> bool {
    exists|outs: Vec<Vec<u8>>|
        {
            &&& #[trigger] call_ensures(f, (&row,), outs)
            &&& w1.components_of(row.entity) == apply_writes(
                q,
                w0.components_of(row.entity),
                outs@,
                q.len() as int,
            )
        }
}

impl World {
    /// Run `f` once per matching row — the for-each system form — and
    /// write its outputs back into the row's write-access components.
    /// Every matching entity is visited exactly once; every other
    /// entity, and every non-written component, is untouched.
    pub fn for_each_update<F: Fn(&Row) -> Vec<Vec<u8>>>(&mut self, q: &Vec<Access>, f: F)
        requires
            old(self).well_formed(),
            forall|row: Row| row_ok(*old(self), q@, row) ==> call_requires(f, (&row,)),
            forall|row: Row, outs: Vec<Vec<u8>>|
                #[trigger] call_ensures(f, (&row,), outs) ==> row_ok(*old(self), q@, row)
                    ==> outs_ok(q@, row, outs@),
        ensures
            final(self).well_formed(),
            final(self).entities == old(self).entities,
            forall|e: Entity| final(self).live(e) == old(self).live(e),
            forall|e: Entity|
                old(self).live(e) && !entity_matches(*old(self), q@, e) ==> final(self).components_of(e) == old(self).components_of(e),
            forall|e: Entity|
                entity_matches(*old(self), q@, e) ==> exists|row: Row|
                    {
                        &&& row_ok(*old(self), q@, row)
                        &&& row.entity == e
                        &&& #[trigger] row_done(*final(self), *old(self), q@, f, row)
                    },
    {
        let ghost w0 = *old(self);
        let rows = self.query(q);
        let n = rows.len();
        let mut j: usize = 0;
        while j < n
            invariant
                j <= n,
                n == rows@.len(),
                self.well_formed(),
                w0.well_formed(),
                self.entities == w0.entities,
                forall|i: int| 0 <= i < rows@.len() ==> row_ok(w0, q@, #[trigger] rows@[i]),
                forall|e2: Entity|
                    entity_matches(w0, q@, e2) ==> exists|i: int|
                        0 <= i < rows@.len() && (#[trigger] rows@[i]).entity == e2,
                forall|i: int, i2: int|
                    0 <= i < i2 < rows@.len() ==> (#[trigger] rows@[i]).entity != (
                    #[trigger] rows@[i2]).entity,
                forall|row: Row| row_ok(w0, q@, row) ==> call_requires(f, (&row,)),
                forall|row: Row, outs: Vec<Vec<u8>>|
                    #[trigger] call_ensures(f, (&row,), outs) ==> row_ok(w0, q@, row) ==> outs_ok(
                        q@,
                        row,
                        outs@,
                    ),
                forall|e2: Entity|
                    w0.live(e2) && (forall|i: int|
                        0 <= i < j ==> (#[trigger] rows@[i]).entity != e2) ==> self.components_of(
                        e2,
                    ) == w0.components_of(e2),
                forall|i: int|
                    0 <= i < j ==> #[trigger] row_done(*self, w0, q@, f, rows@[i]),
            decreases n - j,
        {
            let row = &rows[j];
            let e = row.entity;
            proof {
                assert(row_ok(w0, q@, rows@[j as int]));
                assert(self.components_of(e) == w0.components_of(e));
            }
            let outs = f(row);
            let ghost outs_g = outs;
            let ghost w_row = *self;
            let m = q.len();
            let mut k: usize = 0;
            while k < m
                invariant
                    m == q@.len(),
                    k <= m,
                    n == rows@.len(),
                    j < n,
                    self.well_formed(),
                    w0.well_formed(),
                    self.entities == w0.entities,
                    row == &rows@[j as int],
                    e == rows@[j as int].entity,
                    row_ok(w0, q@, rows@[j as int]),
                    outs_ok(q@, rows@[j as int], outs_g@),
                    outs == outs_g,
                    forall|i: int| 0 <= i < rows@.len() ==> row_ok(w0, q@, #[trigger] rows@[i]),
                    forall|i: int, i2: int|
                        0 <= i < i2 < rows@.len() ==> (#[trigger] rows@[i]).entity != (
                        #[trigger] rows@[i2]).entity,
                    self.components_of(e) == apply_writes(
                        q@,
                        w0.components_of(e),
                        outs_g@,
                        k as int,
                    ),
                    forall|ty: u64| #[trigger]
                        self.components_of(e).dom().contains(ty) == w0.components_of(
                            e,
                        ).dom().contains(ty),
                    forall|ty: u64|
                        w0.components_of(e).dom().contains(ty)
                            ==> (#[trigger] self.components_of(e)[ty]).len()
                            == w0.components_of(e)[ty].len(),
                    w0.live(e),
                    self.live(e),
                    forall|e2: Entity|
                        w0.live(e2) && e2.id != e.id ==> self.components_of(e2)
                            == w_row.components_of(e2),
                    forall|e2: Entity|
                        w0.live(e2) && (forall|i: int|
                            0 <= i < j ==> (#[trigger] rows@[i]).entity != e2)
                            ==> w_row.components_of(e2) == w0.components_of(e2),
                    forall|i: int|
                        0 <= i < j ==> #[trigger] row_done(w_row, w0, q@, f, rows@[i]),
                decreases m - k,
            {
                let id = match q[k] {
                    Access::Write(id) => id,
                    _ => {
                        k += 1;
                        continue ;
                    },
                };
                proof {
                    assert(w0.components_of(e).dom().contains(id));
                    assert(match rows@[j as int].items@[k as int] {
                        FetchItem::Bytes(b) => b@ == w0.components_of(e)[id] && outs_g@[
                            k as int
                        ]@.len() == b@.len(),
                        FetchItem::Handle(_) => false,
                    });
                }
                let r = self.set(e, id, &outs[k]);
                proof {
                    assert(r is Ok);
                }
                k += 1;
            }
            proof {
                assert(call_ensures(f, (&rows@[j as int],), outs_g));
                assert forall|e2: Entity|
                    w0.live(e2) && (forall|i: int|
                        0 <= i < j + 1 ==> (#[trigger] rows@[i]).entity != e2)
                    implies self.components_of(e2) == w0.components_of(e2) by {
                    if e2.id == e.id {
                        assert(w0.entities.live(e2) && w0.entities.live(e));
                        assert(e2 == e);
                        assert(rows@[j as int].entity != e2);
                    }
                }
                assert forall|i: int| 0 <= i < j + 1 implies #[trigger] row_done(
                    *self,
                    w0,
                    q@,
                    f,
                    rows@[i],
                ) by {
                    if i < j {
                        assert(row_done(w_row, w0, q@, f, rows@[i]));
                        let outs2 = choose|outs2: Vec<Vec<u8>>|
                            {
                                &&& #[trigger] call_ensures(f, (&rows@[i],), outs2)
                                &&& w_row.components_of(rows@[i].entity) == apply_writes(
                                    q@,
                                    w0.components_of(rows@[i].entity),
                                    outs2@,
                                    q@.len() as int,
                                )
                            };
                        assert(rows@[i].entity.id != e.id) by {
                            if rows@[i].entity.id == e.id {
                                assert(rows@[i].entity == e);
                            }
                        }
                        assert(self.components_of(rows@[i].entity) == w_row.components_of(
                            rows@[i].entity,
                        ));
                        assert(call_ensures(f, (&rows@[i],), outs2));
                    } else {
                        assert(call_ensures(f, (&rows@[j as int],), outs_g));
                        assert(self.components_of(e) == apply_writes(
                            q@,
                            w0.components_of(e),
                            outs_g@,
                            q@.len() as int,
                        ));
                    }
                }
            }
            j += 1;
        }
        proof {
            assert forall|e: Entity|
                w0.live(e) && !entity_matches(w0, q@, e) implies self.components_of(e)
                == w0.components_of(e) by {
                assert forall|i: int| 0 <= i < rows@.len() implies (#[trigger] rows@[i]).entity
                    != e by {
                    assert(row_ok(w0, q@, rows@[i]));
                }
            }
            assert forall|e: Entity| entity_matches(w0, q@, e) implies exists|row: Row|
                {
                    &&& row_ok(w0, q@, row)
                    &&& row.entity == e
                    &&& #[trigger] row_done(*self, w0, q@, f, row)
                } by {
                let i = choose|i: int| 0 <= i < rows@.len() && (#[trigger] rows@[i]).entity == e;
                assert(row_ok(w0, q@, rows@[i]));
                assert(row_done(*self, w0, q@, f, rows@[i]));
            }
        }
    }
}

impl World {
    /// Start a query's borrows: on every matching archetype, take a
    /// shared borrow per read access and the exclusive borrow per write
    /// access. The borrows stay held until [`World::release_query`];
    /// conflicting held borrows, like a doubly named type, are a
    /// program bug, excluded by the preconditions.
    pub fn borrow_query(&mut self, q: &Vec<Access>)
        requires
            old(self).well_formed(),
            forall|i: int, j: int|
                0 <= i < j < q@.len() && (#[trigger] q@[i]).needs() is Some ==> q@[i].needs() != (
                #[trigger] q@[j]).needs(),
            forall|a: int|
                0 <= a < old(self).archetypes@.len() && archetype_matches(
                    #[trigger] old(self).archetypes@[a],
                    q@,
                ) ==> borrows_available(old(self).archetypes@[a], q@),
        ensures
            final(self).well_formed(),
            final(self).entities == old(self).entities,
            final(self).archetypes@.len() == old(self).archetypes@.len(),
            forall|a: int|
                0 <= a < old(self).archetypes@.len() ==> (#[trigger] old(self).archetypes@[
                    a
                ]).storage_eq(final(self).archetypes@[a]),
            forall|a: int|
                0 <= a < old(self).archetypes@.len() && archetype_matches(
                    #[trigger] old(self).archetypes@[a],
                    q@,
                ) ==> borrows_taken(old(self).archetypes@[a], final(self).archetypes@[a], q@),
            forall|a: int|
                0 <= a < old(self).archetypes@.len() && !archetype_matches(
                    #[trigger] old(self).archetypes@[a],
                    q@,
                ) ==> final(self).archetypes@[a] == old(self).archetypes@[a],
            forall|e: Entity|
                old(self).live(e) ==> final(self).components_of(e) == old(self).components_of(e),
    {
        self.shift_query_borrows(q, true);
    }

    /// End a query's borrows: release what [`World::borrow_query`] took,
    /// on every matching archetype.
    pub fn release_query(&mut self, q: &Vec<Access>)
        requires
            old(self).well_formed(),
            forall|i: int, j: int|
                0 <= i < j < q@.len() && (#[trigger] q@[i]).needs() is Some ==> q@[i].needs() != (
                #[trigger] q@[j]).needs(),
            forall|a: int|
                0 <= a < old(self).archetypes@.len() && archetype_matches(
                    #[trigger] old(self).archetypes@[a],
                    q@,
                ) ==> borrows_held(old(self).archetypes@[a], q@),
        ensures
            final(self).well_formed(),
            final(self).entities == old(self).entities,
            final(self).archetypes@.len() == old(self).archetypes@.len(),
            forall|a: int|
                0 <= a < old(self).archetypes@.len() ==> (#[trigger] old(self).archetypes@[
                    a
                ]).storage_eq(final(self).archetypes@[a]),
            forall|a: int|
                0 <= a < old(self).archetypes@.len() && archetype_matches(
                    #[trigger] old(self).archetypes@[a],
                    q@,
                ) ==> borrows_released(old(self).archetypes@[a], final(self).archetypes@[a], q@),
            forall|a: int|
                0 <= a < old(self).archetypes@.len() && !archetype_matches(
                    #[trigger] old(self).archetypes@[a],
                    q@,
                ) ==> final(self).archetypes@[a] == old(self).archetypes@[a],
            forall|e: Entity|
                old(self).live(e) ==> final(self).components_of(e) == old(self).components_of(e),
    {
        self.shift_query_borrows(q, false);
    }

    /// Shift the borrow state of one matching archetype: take the
    /// query's borrows on it, or release them again.
    fn shift_one_archetype(&mut self, a: usize, q: &Vec<Access>, take: bool)
        requires
            old(self).well_formed(),
            a < old(self).archetypes@.len(),
            archetype_matches(old(self).archetypes@[a as int], q@),
            forall|i: int, j: int|
                0 <= i < j < q@.len() && (#[trigger] q@[i]).needs() is Some ==> q@[i].needs() != (
                #[trigger] q@[j]).needs(),
            take ==> borrows_available(old(self).archetypes@[a as int], q@),
            !take ==> borrows_held(old(self).archetypes@[a as int], q@),
        ensures
            final(self).well_formed(),
            final(self).entities == old(self).entities,
            final(self).archetypes@.len() == old(self).archetypes@.len(),
            forall|a2: int|
                0 <= a2 < old(self).archetypes@.len() && a2 != a ==> final(self).archetypes@[a2]
                    == old(self).archetypes@[a2],
            old(self).archetypes@[a as int].storage_eq(final(self).archetypes@[a as int]),
            take ==> borrows_taken(
                old(self).archetypes@[a as int],
                final(self).archetypes@[a as int],
                q@,
            ),
            !take ==> borrows_released(
                old(self).archetypes@[a as int],
                final(self).archetypes@[a as int],
                q@,
            ),
    {
        let ghost arch0 = old(self).archetypes@[a as int];
        let n = q.len();
        let mut k: usize = 0;
        while k < n
            invariant
                n == q@.len(),
                k <= n,
                a < self.archetypes@.len(),
                self.archetypes@.len() == old(self).archetypes@.len(),
                arch0 == old(self).archetypes@[a as int],
                old(self).well_formed(),
                self.well_formed(),
                self.entities == old(self).entities,
                forall|a2: int|
                    0 <= a2 < old(self).archetypes@.len() && a2 != a ==> self.archetypes@[a2]
                        == old(self).archetypes@[a2],
                archetype_matches(arch0, q@),
                forall|i: int, j: int|
                    0 <= i < j < q@.len() && (#[trigger] q@[i]).needs() is Some ==> q@[i].needs()
                        != (#[trigger] q@[j]).needs(),
                take ==> borrows_available(arch0, q@),
                !take ==> borrows_held(arch0, q@),
                arch0.storage_eq(self.archetypes@[a as int]),
                take ==> forall|m: int|
                    0 <= m < k ==> match #[trigger] q@[m] {
                        Access::Read(id) => self.archetypes@[a as int].shared_of(id)
                            == arch0.shared_of(id) + 1 && self.archetypes@[a as int].exclusive_of(
                            id,
                        ) == arch0.exclusive_of(id),
                        Access::Write(id) => self.archetypes@[a as int].exclusive_of(id)
                            && self.archetypes@[a as int].shared_of(id) == arch0.shared_of(id),
                        Access::EntityHandle => true,
                    },
                !take ==> forall|m: int|
                    0 <= m < k ==> match #[trigger] q@[m] {
                        Access::Read(id) => self.archetypes@[a as int].shared_of(id)
                            == arch0.shared_of(id) - 1 && self.archetypes@[a as int].exclusive_of(
                            id,
                        ) == arch0.exclusive_of(id),
                        Access::Write(id) => !self.archetypes@[a as int].exclusive_of(id)
                            && self.archetypes@[a as int].shared_of(id) == arch0.shared_of(id),
                        Access::EntityHandle => true,
                    },
                forall|id: u64|
                    arch0.has_type(id) && (forall|m: int|
                        0 <= m < k ==> (#[trigger] q@[m]).needs() != Some(id))
                        ==> self.archetypes@[a as int].shared_of(id) == arch0.shared_of(id)
                        && self.archetypes@[a as int].exclusive_of(id) == arch0.exclusive_of(id),
            decreases n - k,
        {
            let id = match q[k] {
                Access::EntityHandle => {
                    k += 1;
                    continue ;
                },
                Access::Read(id) => id,
                Access::Write(id) => id,
            };
            proof {
                assert(q@[k as int].needs() == Some(id));
                assert(forall|m: int| 0 <= m < k ==> (#[trigger] q@[m]).needs() != Some(id));
            }
            match q[k] {
                Access::Read(_) => {
                    if take {
                        self.archetypes[a].borrow(id);
                    } else {
                        self.archetypes[a].release(id);
                    }
                },
                Access::Write(_) => {
                    if take {
                        self.archetypes[a].borrow_mut(id);
                    } else {
                        self.archetypes[a].release_mut(id);
                    }
                },
                Access::EntityHandle => {},
            }
            k += 1;
        }
    }

    /// Walk the archetypes and shift the borrow state of each matching
    /// one: take the query's borrows, or release them again.
    fn shift_query_borrows(&mut self, q: &Vec<Access>, take: bool)
        requires
            old(self).well_formed(),
            forall|i: int, j: int|
                0 <= i < j < q@.len() && (#[trigger] q@[i]).needs() is Some ==> q@[i].needs() != (
                #[trigger] q@[j]).needs(),
            take ==> forall|a: int|
                0 <= a < old(self).archetypes@.len() && archetype_matches(
                    #[trigger] old(self).archetypes@[a],
                    q@,
                ) ==> borrows_available(old(self).archetypes@[a], q@),
            !take ==> forall|a: int|
                0 <= a < old(self).archetypes@.len() && archetype_matches(
                    #[trigger] old(self).archetypes@[a],
                    q@,
                ) ==> borrows_held(old(self).archetypes@[a], q@),
        ensures
            final(self).well_formed(),
            final(self).entities == old(self).entities,
            final(self).archetypes@.len() == old(self).archetypes@.len(),
            forall|a: int|
                0 <= a < old(self).archetypes@.len() ==> (#[trigger] old(self).archetypes@[
                    a
                ]).storage_eq(final(self).archetypes@[a]),
            take ==> forall|a: int|
                0 <= a < old(self).archetypes@.len() && archetype_matches(
                    #[trigger] old(self).archetypes@[a],
                    q@,
                ) ==> borrows_taken(old(self).archetypes@[a], final(self).archetypes@[a], q@),
            !take ==> forall|a: int|
                0 <= a < old(self).archetypes@.len() && archetype_matches(
                    #[trigger] old(self).archetypes@[a],
                    q@,
                ) ==> borrows_released(old(self).archetypes@[a], final(self).archetypes@[a], q@),
            forall|a: int|
                0 <= a < old(self).archetypes@.len() && !archetype_matches(
                    #[trigger] old(self).archetypes@[a],
                    q@,
                ) ==> final(self).archetypes@[a] == old(self).archetypes@[a],
            forall|e: Entity|
                old(self).live(e) ==> final(self).components_of(e) == old(self).components_of(e),
    {
        let ghost w0 = *old(self);
        let na = self.archetypes.len();
        let mut a: usize = 0;
        while a < na
            invariant
                na == w0.archetypes@.len(),
                a <= na,
                w0.well_formed(),
                self.well_formed(),
                self.entities == w0.entities,
                self.archetypes@.len() == na,
                forall|i: int, j: int|
                    0 <= i < j < q@.len() && (#[trigger] q@[i]).needs() is Some ==> q@[i].needs()
                        != (#[trigger] q@[j]).needs(),
                take ==> forall|a2: int|
                    0 <= a2 < na && archetype_matches(#[trigger] w0.archetypes@[a2], q@)
                        ==> borrows_available(w0.archetypes@[a2], q@),
                !take ==> forall|a2: int|
                    0 <= a2 < na && archetype_matches(#[trigger] w0.archetypes@[a2], q@)
                        ==> borrows_held(w0.archetypes@[a2], q@),
                forall|a2: int|
                    0 <= a2 < na ==> (#[trigger] w0.archetypes@[a2]).storage_eq(
                        self.archetypes@[a2],
                    ),
                take ==> forall|a2: int|
                    0 <= a2 < a && archetype_matches(#[trigger] w0.archetypes@[a2], q@)
                        ==> borrows_taken(w0.archetypes@[a2], self.archetypes@[a2], q@),
                !take ==> forall|a2: int|
                    0 <= a2 < a && archetype_matches(#[trigger] w0.archetypes@[a2], q@)
                        ==> borrows_released(w0.archetypes@[a2], self.archetypes@[a2], q@),
                forall|a2: int|
                    0 <= a2 < na && !(a2 < a && archetype_matches(w0.archetypes@[a2], q@))
                        ==> #[trigger] self.archetypes@[a2] == w0.archetypes@[a2],
            decreases na - a,
        {
            if self.query_matches_archetype(a, q) {
                self.shift_one_archetype(a, q, take);
            }
            a += 1;
        }
        proof {
            assert forall|e: Entity|
                w0.live(e) implies self.components_of(e) == w0.components_of(e) by {
                let loc = w0.entities.location_of(e);
                w0.archetypes@[loc.archetype as int].lemma_storage_eq_row_map(
                    self.archetypes@[loc.archetype as int],
                    loc.index as int,
                );
            }
        }
    }
}

/// The borrow states a query's end expects on a matching archetype: a
/// read access holds a shared borrow, a write access the exclusive one.
pub open spec fn borrows_held(arch: crate::archetype::Archetype, q: Seq<Access>) -> bool {
    forall|k: int|
        0 <= k < q.len() ==> match #[trigger] q[k] {
            Access::Read(id) => arch.shared_of(id) > 0,
            Access::Write(id) => arch.exclusive_of(id),
            Access::EntityHandle => true,
        }
}

/// The borrow states after a query's end on this archetype: each read
/// access gave back its shared borrow, each write access the exclusive
/// one, and every other column is as before.
pub open spec fn borrows_released(
    before: crate::archetype::Archetype,
    after: crate::archetype::Archetype,
    q: Seq<Access>,
) -> bool {
    &&& forall|k: int|
        0 <= k < q.len() ==> match #[trigger] q[k] {
            Access::Read(id) => after.shared_of(id) == before.shared_of(id) - 1
                && after.exclusive_of(id) == before.exclusive_of(id),
            Access::Write(id) => !after.exclusive_of(id) && after.shared_of(id)
                == before.shared_of(id),
            Access::EntityHandle => true,
        }
    &&& forall|id: u64|
        before.has_type(id) && (forall|k: int|
            0 <= k < q.len() ==> (#[trigger] q[k]).needs() != Some(id)) ==> after.shared_of(id)
            == before.shared_of(id) && after.exclusive_of(id) == before.exclusive_of(id)
}

/// A lazily evaluated query over a world: the query runs when `iter`
/// is called. The borrow window around an iteration goes through
/// [`World::borrow_query`] and [`World::release_query`].
pub struct WorldQuery<'a> {
    pub world: &'a World,
    pub accesses: Vec<Access>,
}

impl<'a> WorldQuery<'a> {
    /// Run the query and collect its rows.
    pub fn iter(&self) -> (rows: Vec<Row>)
        requires
            self.world.well_formed(),
        ensures
            forall|i: int| 0 <= i < rows@.len() ==> row_ok(*self.world, self.accesses@, #[trigger] rows@[i]),
            forall|e: Entity|
                entity_matches(*self.world, self.accesses@, e) ==> exists|i: int|
                    0 <= i < rows@.len() && (#[trigger] rows@[i]).entity == e,
            forall|i: int, j: int|
                0 <= i < j < rows@.len() ==> (#[trigger] rows@[i]).entity != (
                #[trigger] rows@[j]).entity,
    {
        self.world.query(&self.accesses)
    }
}

/// The handle a query-form system receives for one of its queries.
pub struct Query<'a> {
    pub world: &'a World,
    pub accesses: Vec<Access>,
}

impl<'a> Query<'a> {
    /// Run the query and collect its rows.
    pub fn iter(&self) -> (rows: Vec<Row>)
        requires
            self.world.well_formed(),
        ensures
            forall|i: int| 0 <= i < rows@.len() ==> row_ok(*self.world, self.accesses@, #[trigger] rows@[i]),
            forall|e: Entity|
                entity_matches(*self.world, self.accesses@, e) ==> exists|i: int|
                    0 <= i < rows@.len() && (#[trigger] rows@[i]).entity == e,
            forall|i: int, j: int|
                0 <= i < j < rows@.len() ==> (#[trigger] rows@[i]).entity != (
                #[trigger] rows@[j]).entity,
    {
        self.world.query(&self.accesses)
    }
}

/// Two bundles holding the same component set, spawned into a world with
/// no other matching entities, are both found by a query naming those
/// components, whichever order their components were written down in:
/// the matching entities are exactly the two spawned ones.
pub proof fn lemma_order_insensitive_spawn_query(
    w0: World,
    b1: Bundle,
    w1: World,
    e1: Entity,
    b2: Bundle,
    w2: World,
    e2: Entity,
    q: Seq<Access>,
)
    requires
        World::spawn_step(w0, b1, w1, e1),
        World::spawn_step(w1, b2, w2, e2),
        b1.comp_map().dom() == b2.comp_map().dom(),
        forall|k: int|
            0 <= k < q.len() ==> match (#[trigger] q[k]).needs() {
                Some(id) => b1.comp_map().dom().contains(id),
                None => true,
            },
        forall|e: Entity| !w0.live(e),
    ensures
        e1 != e2,
        forall|e: Entity| entity_matches(w2, q, e) <==> (e == e1 || e == e2),
{
    assert(w1.live(e1));
    assert(!w1.live(e2));
    assert(w2.components_of(e1) == b1.comp_map());
    assert(w2.components_of(e2) == b2.comp_map());
    assert forall|e: Entity| entity_matches(w2, q, e) implies (e == e1 || e == e2) by {
        if e != e2 {
            assert(w1.live(e));
            if e != e1 {
                assert(w0.live(e));
            }
        }
    }
    assert forall|e: Entity| e == e1 || e == e2 implies entity_matches(w2, q, e) by {
        assert(w2.live(e1));
        assert(w2.live(e2));
    }
}

} // verus!
