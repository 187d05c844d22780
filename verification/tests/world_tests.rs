use ecs_core::bundle::Bundle;
use ecs_core::column::Column;
use ecs_core::command_buffer::CommandBuffer;
use ecs_core::error::{BundleError, ComponentError};
use ecs_core::query::{Access, FetchItem};
use ecs_core::type_info::TypeInfo;
use ecs_core::world::World;

const U32_ID: u64 = 1;
const U64_ID: u64 = 2;

fn u32_info() -> TypeInfo {
    TypeInfo::new(U32_ID, 4)
}

fn u64_info() -> TypeInfo {
    TypeInfo::new(U64_ID, 8)
}

fn u32_bytes(v: u32) -> Vec<u8> {
    v.to_le_bytes().to_vec()
}

fn u64_bytes(v: u64) -> Vec<u8> {
    v.to_le_bytes().to_vec()
}

fn u32_of(b: &[u8]) -> u32 {
    u32::from_le_bytes(b.try_into().unwrap())
}

fn u64_of(b: &[u8]) -> u64 {
    u64::from_le_bytes(b.try_into().unwrap())
}

fn pair_bundle(a: u32, b: u64) -> Bundle {
    Bundle::new(vec![(u32_info(), u32_bytes(a)), (u64_info(), u64_bytes(b))]).unwrap()
}

#[test]
fn command_buffer() {
    let mut world = World::default();
    let mut command_buffer = CommandBuffer::default();
    command_buffer.spawn(pair_bundle(1u32, 2u64));
    command_buffer.apply(&mut world);
    let results = world
        .query(&vec![Access::Read(U32_ID), Access::Read(U64_ID)])
        .iter()
        .map(|row| {
            let a = match &row.items[0] {
                FetchItem::Bytes(b) => u32_of(b),
                _ => panic!("expected bytes"),
            };
            let b = match &row.items[1] {
                FetchItem::Bytes(b) => u64_of(b),
                _ => panic!("expected bytes"),
            };
            (a, b)
        })
        .collect::<Vec<_>>();
    assert_eq!(results, vec![(1u32, 2u64)])
}

#[test]
fn spawn_then_get_returns_components() {
    let mut world = World::new();
    let e = world.spawn(pair_bundle(7, 9));
    assert_eq!(u32_of(&world.get(e, U32_ID).unwrap()), 7);
    assert_eq!(u64_of(&world.get(e, U64_ID).unwrap()), 9);
    assert_eq!(u32_of(&world.get_mut(e, U32_ID).unwrap()), 7);
}

#[test]
fn bundle_order_does_not_matter() {
    // One bundle written (u32, u64), the other (u64, u32): a query for
    // both components yields exactly the two entities.
    let mut world = World::new();
    world.spawn(pair_bundle(1, 2));
    let swapped =
        Bundle::new(vec![(u64_info(), u64_bytes(4)), (u32_info(), u32_bytes(3))]).unwrap();
    world.spawn(swapped);
    let mut rows = world
        .query(&vec![Access::Read(U32_ID), Access::Read(U64_ID)])
        .iter()
        .map(|row| {
            let a = match &row.items[0] {
                FetchItem::Bytes(b) => u32_of(b),
                _ => panic!("expected bytes"),
            };
            let b = match &row.items[1] {
                FetchItem::Bytes(b) => u64_of(b),
                _ => panic!("expected bytes"),
            };
            (a, b)
        })
        .collect::<Vec<_>>();
    rows.sort();
    assert_eq!(rows, vec![(1u32, 2u64), (3u32, 4u64)]);
}

#[test]
fn generation_reuse() {
    let mut world = World::new();
    let single = Bundle::new(vec![(u32_info(), u32_bytes(1))]).unwrap();
    let e1 = world.spawn(single);
    world.despawn(e1).unwrap();
    let single2 = Bundle::new(vec![(u32_info(), u32_bytes(2))]).unwrap();
    let e2 = world.spawn(single2);
    assert_eq!(e1.id, e2.id);
    assert!(e1.generation < e2.generation);
    assert_eq!(world.get(e1, U32_ID), Err(ComponentError::NoSuchEntity));
    assert_eq!(u32_of(&world.get(e2, U32_ID).unwrap()), 2);
}

#[test]
fn despawn_makes_gets_fail() {
    let mut world = World::new();
    let e = world.spawn(pair_bundle(5, 6));
    assert!(world.get(e, U32_ID).is_ok());
    world.despawn(e).unwrap();
    assert_eq!(world.get(e, U32_ID), Err(ComponentError::NoSuchEntity));
    assert_eq!(world.get(e, U64_ID), Err(ComponentError::NoSuchEntity));
    assert!(world.despawn(e).is_err());
}

#[test]
fn despawn_moves_last_row() {
    // Swap-remove: the last entity of the archetype moves into the hole
    // and keeps its components.
    let mut world = World::new();
    let e1 = world.spawn(pair_bundle(1, 10));
    let e2 = world.spawn(pair_bundle(2, 20));
    let e3 = world.spawn(pair_bundle(3, 30));
    world.despawn(e1).unwrap();
    assert_eq!(u32_of(&world.get(e3, U32_ID).unwrap()), 3);
    assert_eq!(u64_of(&world.get(e3, U64_ID).unwrap()), 30);
    assert_eq!(u32_of(&world.get(e2, U32_ID).unwrap()), 2);
    let rows = world.query(&vec![Access::Read(U32_ID)]);
    assert_eq!(rows.len(), 2);
}

#[test]
fn missing_component_is_reported() {
    let mut world = World::new();
    let single = Bundle::new(vec![(u32_info(), u32_bytes(1))]).unwrap();
    let e = world.spawn(single);
    assert_eq!(
        world.get(e, U64_ID),
        Err(ComponentError::MissingComponent(U64_ID))
    );
    assert_eq!(ComponentError::NoSuchEntity.describe(), "no such entity");
    assert_eq!(
        ComponentError::MissingComponent(U64_ID).describe(),
        "missing component"
    );
}

#[test]
fn set_overwrites_one_component() {
    let mut world = World::new();
    let e = world.spawn(pair_bundle(1, 2));
    world.set(e, U32_ID, &u32_bytes(100)).unwrap();
    assert_eq!(u32_of(&world.get(e, U32_ID).unwrap()), 100);
    assert_eq!(u64_of(&world.get(e, U64_ID).unwrap()), 2);
    let dead = ecs_core::entity::Entity {
        id: e.id,
        generation: e.generation + 1,
    };
    assert_eq!(
        world.set(dead, U32_ID, &u32_bytes(1)),
        Err(ComponentError::NoSuchEntity)
    );
}

#[test]
fn bundle_rejects_duplicates_and_bad_sizes() {
    let dup = Bundle::new(vec![
        (u32_info(), u32_bytes(1)),
        (u32_info(), u32_bytes(2)),
    ]);
    assert_eq!(
        dup.err(),
        Some(BundleError::DuplicateComponent(U32_ID))
    );
    let bad = Bundle::new(vec![(u32_info(), u64_bytes(1))]);
    assert_eq!(bad.err(), Some(BundleError::SizeMismatch(U32_ID)));
}

#[test]
fn query_entity_handles() {
    let mut world = World::new();
    let e = world.spawn(pair_bundle(1, 2));
    let rows = world.query(&vec![Access::EntityHandle, Access::Read(U32_ID)]);
    assert_eq!(rows.len(), 1);
    match &rows[0].items[0] {
        FetchItem::Handle(h) => assert_eq!(*h, e),
        _ => panic!("expected a handle"),
    }
}

#[test]
fn query_skips_other_archetypes() {
    let mut world = World::new();
    world.spawn(pair_bundle(1, 2));
    let single = Bundle::new(vec![(u32_info(), u32_bytes(9))]).unwrap();
    world.spawn(single);
    assert_eq!(world.query(&vec![Access::Read(U64_ID)]).len(), 1);
    assert_eq!(world.query(&vec![Access::Read(U32_ID)]).len(), 2);
}

#[test]
fn for_each_updates_write_components() {
    // The for-each form: one call per matching row; outputs land in the
    // write-access components and nowhere else.
    let mut world = World::new();
    let e1 = world.spawn(pair_bundle(1, 10));
    let e2 = world.spawn(pair_bundle(2, 20));
    let q = vec![Access::Read(U32_ID), Access::Write(U64_ID)];
    world.for_each_update(&q, |row: &ecs_core::query::Row| {
        let a = match &row.items[0] {
            FetchItem::Bytes(b) => u32_of(b),
            _ => panic!("expected bytes"),
        };
        let b = match &row.items[1] {
            FetchItem::Bytes(b) => u64_of(b),
            _ => panic!("expected bytes"),
        };
        vec![Vec::new(), u64_bytes(b + a as u64)]
    });
    assert_eq!(u64_of(&world.get(e1, U64_ID).unwrap()), 11);
    assert_eq!(u64_of(&world.get(e2, U64_ID).unwrap()), 22);
    assert_eq!(u32_of(&world.get(e1, U32_ID).unwrap()), 1);
    assert_eq!(u32_of(&world.get(e2, U32_ID).unwrap()), 2);
}

#[test]
fn query_borrow_window() {
    // Starting a query takes the declared borrows on every matching
    // archetype; releasing gives them all back.
    let mut world = World::new();
    world.spawn(pair_bundle(1, 2));
    let single = Bundle::new(vec![(u32_info(), u32_bytes(9))]).unwrap();
    world.spawn(single);

    let q = vec![Access::Read(U32_ID), Access::Write(U64_ID)];
    world.borrow_query(&q);
    // Both archetypes have the u32 column; only the first has u64.
    assert_eq!(world.archetypes[0].columns[0].shared_count, 1);
    assert!(world.archetypes[0].columns[1].exclusive);
    // The one-component archetype does not match the query at all.
    assert_eq!(world.archetypes[1].columns[0].shared_count, 0);
    world.release_query(&q);
    assert_eq!(world.archetypes[0].columns[0].shared_count, 0);
    assert!(!world.archetypes[0].columns[1].exclusive);
}

#[test]
fn borrow_discipline_on_columns() {
    // A shared borrow can start exactly while no exclusive one is held,
    // and an exclusive borrow exactly while nothing is held.
    let mut col = Column::new();
    assert!(col.try_borrow());
    assert!(!col.try_borrow_mut());
    col.release();
    assert!(col.try_borrow_mut());
    assert!(!col.try_borrow());
    assert!(!col.try_borrow_mut());
    col.release_mut();
    assert!(col.try_borrow());
}
