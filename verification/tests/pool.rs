use type_pools::TypePool;

#[test]
fn append_adds_at_the_end() {
    let mut pool = TypePool::new();
    assert!(pool.is_empty());
    assert_eq!(pool.length(), 0);

    pool.append(3u8);
    pool.append(1u8);
    pool.append(2u8);

    assert!(!pool.is_empty());
    assert_eq!(pool.length(), 3);
    assert_eq!(pool.values, vec![3, 1, 2]);
}

#[test]
fn pop_last_takes_from_the_end() {
    let mut pool = TypePool::new();
    pool.append("a");
    pool.append("b");

    assert_eq!(pool.pop_last(), Some("b"));
    assert_eq!(pool.pop_last(), Some("a"));
    assert_eq!(pool.pop_last(), None);
    assert!(pool.is_empty());
}

#[test]
fn remove_at_moves_the_rest_forward() {
    let mut pool = TypePool::new();
    for value in [1u32, 2, 3, 4, 5] {
        pool.append(value);
    }

    assert_eq!(pool.remove_at(0), Some(1));
    assert_eq!(pool.values, vec![2, 3, 4, 5]);
    assert_eq!(pool.remove_at(3), Some(5));
    assert_eq!(pool.values, vec![2, 3, 4]);
    assert_eq!(pool.remove_at(1), Some(3));
    assert_eq!(pool.values, vec![2, 4]);
}

#[test]
fn remove_at_out_of_range_is_none() {
    let mut pool: TypePool<u32> = TypePool::new();
    assert_eq!(pool.remove_at(0), None);
    pool.append(7);
    assert_eq!(pool.remove_at(1), None);
    assert_eq!(pool.remove_at(usize::MAX), None);
    assert_eq!(pool.values, vec![7]);
}

#[test]
fn get_is_checked_against_the_length() {
    let mut pool = TypePool::new();
    pool.append('x');
    pool.append('y');

    assert_eq!(pool.get(0), Some(&'x'));
    assert_eq!(pool.get(1), Some(&'y'));
    assert_eq!(pool.get(2), None);
}

#[test]
fn get_mut_changes_the_value_in_place() {
    let mut pool = TypePool::new();
    pool.append(10i64);
    pool.append(20i64);

    *pool.get_mut(0).unwrap() += 1;

    assert_eq!(pool.values, vec![11, 20]);
    assert!(pool.get_mut(2).is_none());
}

#[test]
fn equal_values_are_kept_apart() {
    let mut pool = TypePool::new();
    pool.append(1u8);
    pool.append(1u8);
    assert_eq!(pool.length(), 2);
    assert_eq!(pool.remove_at(0), Some(1));
    assert_eq!(pool.values, vec![1]);
}
