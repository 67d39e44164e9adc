use type_pools::{Element, TypePool, TypePools};

#[test]
fn test_add() {
    let mut pools = TypePools::new();
    pools.push(1 as u32);
    pools.push(2 as u32);
    pools.push("Hello");
    pools.push("World");

    assert_eq!(*pools.get::<u32>(0).unwrap(), 1);
    assert_eq!(*pools.get::<u32>(1).unwrap(), 2);
    assert_eq!(*pools.get::<&str>(0).unwrap(), "Hello");
    assert_eq!(*pools.get::<&str>(1).unwrap(), "World");
}

#[test]
fn test_example() {
    // Create a Type Pools structure
    let mut pools = TypePools::new();

    // Adding values
    pools.push(1 as u32);
    pools.push(2 as u32);
    pools.push("Hello world");

    // Query values
    let int_pool = pools.type_pool::<u32>().unwrap();
    let int_value: u32 = int_pool.values[0];
    let string_value: &str = pools.get::<&str>(0).unwrap();

    assert_eq!(int_value, 1);
    assert_eq!(string_value, "Hello world");
}

#[test]
fn two_types_side_by_side() {
    let mut pools = TypePools::new();
    pools.push::<u32>(1);
    pools.push::<u32>(2);
    pools.push::<&str>("Hello");
    pools.push::<&str>("World");

    assert_eq!(pools.get::<u32>(0), Some(&1));
    assert_eq!(pools.get::<u32>(1), Some(&2));
    assert_eq!(pools.get::<&str>(0), Some(&"Hello"));
    assert_eq!(pools.get::<&str>(1), Some(&"World"));
    assert_eq!(pools.types_count(), 2);
    assert_eq!(pools.len::<u32>(), Some(2));
    assert_eq!(pools.len::<&str>(), Some(2));
}

#[test]
fn new_registry_is_empty() {
    let pools = TypePools::new();
    assert_eq!(pools.types_count(), 0);
    assert!(pools.types().is_empty());
    assert_eq!(pools.len::<u32>(), None);
    assert_eq!(pools.get::<u32>(0), None);
    assert!(pools.type_pool::<u32>().is_none());
}

#[test]
fn new_pool_is_empty() {
    let pool: TypePool<u64> = TypePool::new();
    assert!(pool.values.is_empty());
}

#[test]
fn get_past_the_end_is_none() {
    let mut pools = TypePools::new();
    pools.push(10u8);
    pools.push(20u8);
    assert_eq!(pools.get::<u8>(1), Some(&20));
    assert_eq!(pools.get::<u8>(2), None);
    assert_eq!(pools.get::<u8>(usize::MAX), None);
}

#[test]
fn get_of_untracked_type_is_none() {
    let mut pools = TypePools::new();
    pools.push(10u8);
    assert_eq!(pools.get::<u16>(0), None);
    assert_eq!(pools.get::<i8>(0), None);
}

#[test]
fn get_mut_changes_one_value() {
    let mut pools = TypePools::new();
    pools.push(String::from("a"));
    pools.push(String::from("b"));
    pools.push(String::from("c"));

    pools.get_mut::<String>(1).unwrap().push_str("!");

    assert_eq!(pools.get::<String>(0).unwrap(), "a");
    assert_eq!(pools.get::<String>(1).unwrap(), "b!");
    assert_eq!(pools.get::<String>(2).unwrap(), "c");
    assert_eq!(pools.len::<String>(), Some(3));
}

#[test]
fn get_mut_without_a_value_is_none() {
    let mut pools = TypePools::new();
    assert!(pools.get_mut::<u32>(0).is_none());
    pools.push(5u32);
    assert!(pools.get_mut::<u32>(1).is_none());
    assert!(pools.get_mut::<u64>(0).is_none());
    assert_eq!(pools.get::<u32>(0), Some(&5));
    assert_eq!(pools.types_count(), 1);
}

#[test]
fn type_pool_mut_gives_the_whole_pool() {
    let mut pools = TypePools::new();
    assert!(pools.type_pool_mut::<i64>().is_none());
    pools.push(-1i64);

    {
        let pool = pools.type_pool_mut::<i64>().unwrap();
        pool.values.push(-2);
        pool.values.push(-3);
        pool.values[0] = 1;
    }

    assert_eq!(pools.type_pool::<i64>().unwrap().values, vec![1, -2, -3]);
    assert_eq!(pools.len::<i64>(), Some(3));
}

#[test]
fn pop_takes_the_last_value() {
    let mut pools = TypePools::new();
    pools.push('a');
    pools.push('b');
    pools.push('c');

    assert_eq!(pools.pop::<char>(), Some('c'));
    assert_eq!(pools.pop::<char>(), Some('b'));
    assert_eq!(pools.len::<char>(), Some(1));
    assert_eq!(pools.get::<char>(0), Some(&'a'));
}

#[test]
fn pop_without_a_value_is_none() {
    let mut pools = TypePools::new();
    assert_eq!(pools.pop::<u32>(), None);
    assert_eq!(pools.types_count(), 0);

    pools.push(1u32);
    assert_eq!(pools.pop::<u32>(), Some(1));
    assert_eq!(pools.pop::<u32>(), None);
    assert_eq!(pools.len::<u32>(), Some(0));
    assert_eq!(pools.types_count(), 1);
}

#[test]
fn remove_in_the_middle_closes_the_gap() {
    let mut pools = TypePools::new();
    for value in [10u16, 20, 30, 40] {
        pools.push(value);
    }

    assert_eq!(pools.remove::<u16>(1), Some(20));
    assert_eq!(pools.type_pool::<u16>().unwrap().values, vec![10, 30, 40]);
    assert_eq!(pools.remove::<u16>(2), Some(40));
    assert_eq!(pools.type_pool::<u16>().unwrap().values, vec![10, 30]);
}

#[test]
fn remove_past_the_end_is_none() {
    let mut pools = TypePools::new();
    assert_eq!(pools.remove::<u16>(0), None);

    pools.push(10u16);
    assert_eq!(pools.remove::<u16>(1), None);
    assert_eq!(pools.remove::<u32>(0), None);
    assert_eq!(pools.type_pool::<u16>().unwrap().values, vec![10]);
    assert_eq!(pools.types_count(), 1);
}

#[test]
fn remove_works_on_the_pool_of_the_named_type() {
    let mut pools = TypePools::new();
    pools.push(Some(1u8));
    pools.push(7u8);
    pools.push(8u8);

    assert_eq!(pools.remove::<u8>(0), Some(7));
    assert_eq!(pools.len::<u8>(), Some(1));
    assert_eq!(pools.len::<Option<u8>>(), Some(1));
    assert_eq!(pools.get::<Option<u8>>(0), Some(&Some(1)));
}

#[test]
fn shrink_to_fit_keeps_every_pool() {
    let mut pools = TypePools::new();
    pools.push(1u32);
    pools.push("one");
    pools.push(-15i64);
    pools.remove_type::<&str>();

    pools.shrink_to_fit();

    assert_eq!(pools.types_count(), 2);
    assert_eq!(pools.get::<u32>(0), Some(&1));
    assert_eq!(pools.get::<i64>(0), Some(&-15));
    assert_eq!(pools.len::<&str>(), None);
}

#[test]
fn shrink_to_fit_of_an_empty_registry() {
    let mut pools = TypePools::new();
    pools.shrink_to_fit();
    assert_eq!(pools.types_count(), 0);
}

#[test]
fn values_without_size_have_a_pool_too() {
    let mut pools = TypePools::new();
    pools.push(());
    pools.push(());
    assert_eq!(pools.len::<()>(), Some(2));
    assert_eq!(pools.pop::<()>(), Some(()));
    assert_eq!(pools.len::<()>(), Some(1));
}

#[test]
fn many_types() {
    let mut pools = TypePools::new();
    pools.push(1u8);
    pools.push(2u16);
    pools.push(3u32);
    pools.push(4u64);
    pools.push(5i8);
    pools.push(6i16);
    pools.push(vec![7u8]);
    pools.push((8u8, 9u8));
    pools.push([10u8; 2]);

    assert_eq!(pools.types_count(), 9);
    assert_eq!(pools.get::<u8>(0), Some(&1));
    assert_eq!(pools.get::<u16>(0), Some(&2));
    assert_eq!(pools.get::<u32>(0), Some(&3));
    assert_eq!(pools.get::<u64>(0), Some(&4));
    assert_eq!(pools.get::<i8>(0), Some(&5));
    assert_eq!(pools.get::<i16>(0), Some(&6));
    assert_eq!(pools.get::<Vec<u8>>(0), Some(&vec![7]));
    assert_eq!(pools.get::<(u8, u8)>(0), Some(&(8, 9)));
    assert_eq!(pools.get::<[u8; 2]>(0), Some(&[10, 10]));
}

#[derive(Debug, PartialEq)]
struct Point {
    x: i32,
    y: i32,
}

impl Element for Point {}

#[test]
fn a_type_of_the_caller_has_a_pool_of_its_own() {
    let mut pools = TypePools::new();
    pools.push(Point { x: 1, y: 2 });
    pools.push((1i32, 2i32));
    pools.push(Point { x: 3, y: 4 });

    assert_eq!(pools.types_count(), 2);
    assert_eq!(pools.len::<Point>(), Some(2));
    assert_eq!(pools.get::<Point>(1), Some(&Point { x: 3, y: 4 }));
    assert_eq!(pools.get::<(i32, i32)>(0), Some(&(1, 2)));
    assert_eq!(pools.pop::<Point>(), Some(Point { x: 3, y: 4 }));
    assert_eq!(pools.remove::<Point>(0), Some(Point { x: 1, y: 2 }));
    assert_eq!(pools.len::<Point>(), Some(0));
}

#[test]
fn wrapped_types_are_types_of_their_own() {
    let mut pools = TypePools::new();
    pools.push(1u8);
    pools.push(Some(2u8));
    pools.push(Box::new(3u8));
    pools.push(vec![4u8]);
    pools.push(&5u8);

    assert_eq!(pools.types_count(), 5);
    assert_eq!(pools.get::<u8>(0), Some(&1));
    assert_eq!(pools.get::<Option<u8>>(0), Some(&Some(2)));
    assert_eq!(pools.get::<Box<u8>>(0), Some(&Box::new(3)));
    assert_eq!(pools.get::<Vec<u8>>(0), Some(&vec![4]));
    assert_eq!(pools.get::<&u8>(0), Some(&&5));
}
