use std::any::TypeId;
use type_pools::erased::ErasedPool;
use type_pools::identity::{identifier, same_type};
use type_pools::TypePools;

#[test]
fn types_are_named_by_their_identifiers() {
    let mut pools = TypePools::new();
    pools.push(1u32);
    pools.push("text");
    pools.push(2u32);

    let types = pools.types();
    assert_eq!(types.len(), 2);
    assert!(types.contains(&&TypeId::of::<u32>()));
    assert!(types.contains(&&TypeId::of::<&str>()));
    assert!(!types.contains(&&TypeId::of::<u64>()));
}

#[test]
fn every_pushed_type_is_listed_once() {
    let mut pools = TypePools::new();
    pools.push(1u8);
    pools.push(2u16);
    pools.push(3u8);
    pools.push(4u32);

    let types = pools.types();
    assert_eq!(types.len(), 3);
    for id in [TypeId::of::<u8>(), TypeId::of::<u16>(), TypeId::of::<u32>()] {
        assert_eq!(types.iter().filter(|listed| ***listed == id).count(), 1);
    }
}

#[test]
fn identifiers_follow_removal_and_pruning() {
    let mut pools = TypePools::new();
    pools.push(1u8);
    pools.push(2u16);
    pools.push(3u32);
    pools.push(4u64);

    pools.remove_type::<u16>();
    {
        let types = pools.types();
        assert_eq!(types.len(), 3);
        assert!(types.contains(&&TypeId::of::<u8>()));
        assert!(!types.contains(&&TypeId::of::<u16>()));
        assert!(types.contains(&&TypeId::of::<u32>()));
        assert!(types.contains(&&TypeId::of::<u64>()));
    }

    pools.pop::<u8>();
    pools.pop::<u64>();
    pools.remove_empty();
    assert_eq!(pools.types(), vec![&TypeId::of::<u32>()]);
    assert_eq!(pools.types_count(), 1);
}

#[test]
fn a_type_is_listed_exactly_while_it_has_a_pool() {
    let mut pools = TypePools::new();
    assert!(!pools.types().contains(&&TypeId::of::<char>()));
    pools.push('a');
    assert!(pools.types().contains(&&TypeId::of::<char>()));
    assert!(pools.len::<char>().is_some());
    pools.pop::<char>();
    assert!(pools.types().contains(&&TypeId::of::<char>()));
    pools.remove_empty();
    assert!(!pools.types().contains(&&TypeId::of::<char>()));
    assert!(pools.len::<char>().is_none());
}

#[test]
fn identifier_is_the_identifier_of_the_type() {
    assert_eq!(identifier::<u32>(), TypeId::of::<u32>());
    assert_eq!(identifier::<&str>(), TypeId::of::<&str>());
    assert_ne!(identifier::<u32>(), identifier::<i32>());
}

#[test]
fn count_is_the_number_of_identifiers() {
    let mut pools = TypePools::new();
    assert_eq!(pools.types_count(), pools.types().len());
    pools.push(1u8);
    pools.push(1u8);
    assert_eq!(pools.types_count(), 1);
    pools.push(1i8);
    assert_eq!(pools.types_count(), 2);
    assert_eq!(pools.types_count(), pools.types().len());
}

#[test]
fn same_type_tells_types_apart() {
    assert!(same_type::<u32, u32>());
    assert!(same_type::<&str, &'static str>());
    assert!(!same_type::<u32, i32>());
    assert!(!same_type::<u32, u64>());
    assert!(!same_type::<&str, String>());
    assert!(!same_type::<u8, Option<u8>>());
    assert!(!same_type::<Vec<u8>, Vec<i8>>());
}

#[test]
fn an_erased_pool_starts_empty() {
    let pool = ErasedPool::new::<u8>();
    assert!(pool.is_empty());
}
