use ecs_core::query::Access;
use ecs_core::resources::{Res, ResItem, ResMut, Resources};
use ecs_core::type_info::TypeInfo;

const I32_ID: u64 = 1;
const F64_ID: u64 = 2;
const MY_ID: u64 = 3;
const OTHER_ID: u64 = 4;

fn i32_bytes(v: i32) -> Vec<u8> {
    v.to_le_bytes().to_vec()
}

fn i32_of(b: &[u8]) -> i32 {
    i32::from_le_bytes(b.try_into().unwrap())
}

fn f64_bytes(v: f64) -> Vec<u8> {
    v.to_bits().to_le_bytes().to_vec()
}

fn f64_of(b: &[u8]) -> f64 {
    f64::from_bits(u64::from_le_bytes(b.try_into().unwrap()))
}

#[test]
fn resource() {
    let mut resources = Resources::default();
    assert!(resources.get(I32_ID).is_err());

    resources.insert(TypeInfo::new(I32_ID, 4), i32_bytes(123));
    assert_eq!(i32_of(&resources.get(I32_ID).expect("resource exists")), 123);

    resources.insert(TypeInfo::new(F64_ID, 8), f64_bytes(456.0));
    assert_eq!(f64_of(&resources.get(F64_ID).expect("resource exists")), 456.0);

    resources.insert(TypeInfo::new(F64_ID, 8), f64_bytes(789.0));
    assert_eq!(f64_of(&resources.get(F64_ID).expect("resource exists")), 789.0);

    {
        let value = resources.get_mut(F64_ID).expect("resource exists");
        assert_eq!(f64_of(&value), 789.0);
        resources.insert(TypeInfo::new(F64_ID, 8), f64_bytes(-1.0));
    }

    assert_eq!(f64_of(&resources.get(F64_ID).expect("resource exists")), -1.0);
}

#[test]
fn resource_query_acquires_and_releases() {
    // Mirrors the tuple query: one exclusive and one shared access,
    // taken up front, then released; the write goes back via insert.
    let mut resources = Resources::new();
    resources.insert(TypeInfo::new(MY_ID, 8), f64_bytes(123.0));
    resources.insert(TypeInfo::new(MY_ID, 8), f64_bytes(456.0));
    resources.insert(TypeInfo::new(OTHER_ID, 8), f64_bytes(2.0));
    assert_eq!(f64_of(&resources.get(MY_ID).unwrap()), 456.0);

    let q = vec![Access::Write(MY_ID), Access::Read(OTHER_ID)];
    let items = resources.query(&q);
    assert_eq!(items.len(), 2);
    match &items[0] {
        ResItem::Exclusive(m) => assert_eq!(f64_of(&m.value), 456.0),
        _ => panic!("expected exclusive access"),
    }
    match &items[1] {
        ResItem::Shared(o) => assert_eq!(f64_of(&o.value), 2.0),
        _ => panic!("expected shared access"),
    }
    resources.release_query(&q);

    resources.insert(TypeInfo::new(MY_ID, 8), f64_bytes(1.0));
    assert_eq!(f64_of(&resources.get(MY_ID).unwrap()), 1.0);
    assert_eq!(f64_of(&resources.get(OTHER_ID).unwrap()), 2.0);
}

#[test]
fn reinsert_overwrites_only_its_own_type() {
    let mut resources = Resources::new();
    resources.insert(TypeInfo::new(I32_ID, 4), i32_bytes(1));
    resources.insert(TypeInfo::new(MY_ID, 8), f64_bytes(5.0));
    resources.insert(TypeInfo::new(I32_ID, 4), i32_bytes(2));
    assert_eq!(i32_of(&resources.get(I32_ID).unwrap()), 2);
    assert_eq!(f64_of(&resources.get(MY_ID).unwrap()), 5.0);
}

#[test]
fn res_handles_carry_values() {
    let r = Res::new(i32_bytes(7));
    assert_eq!(i32_of(&r.value), 7);
    let doubled = r.map(|b: &Vec<u8>| i32_bytes(i32_of(b) * 2));
    assert_eq!(i32_of(&doubled.value), 14);
    let m = ResMut::new(i32_bytes(10));
    let shifted = m.map_into(|b: &Vec<u8>| i32_bytes(i32_of(b) + 1));
    assert_eq!(i32_of(&shifted.value), 11);
}
