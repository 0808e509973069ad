use icebox::util::Pool;

#[test]
fn pool_one() {
    let mut pool = Pool::new();
    pool.put("A");
    pool.put("B");
    let one = pool.get_one();
    assert_eq!(one, "A");
}

#[test]
fn pool_two() {
    let mut pool = Pool::new();
    pool.put("A");
    pool.put("B");
    let two = pool.get_two();
    assert_eq!(two, ("A", "B"));
}

#[test]
fn pool_keeps_order_across_mixed_draws() {
    let mut pool = Pool::new();
    pool.put(1);
    pool.put(2);
    pool.put(3);
    assert_eq!(pool.get_one(), 1);
    pool.put(4);
    assert_eq!(pool.get_two(), (2, 3));
    assert_eq!(pool.len(), 1);
    assert_eq!(pool.get_one(), 4);
    assert_eq!(pool.len(), 0);
}

#[test]
fn pool_pair_is_distinct_items() {
    let mut pool = Pool::new();
    pool.put("user");
    pool.put("judge");
    let (a, b) = pool.get_two();
    assert_ne!(a, b);
}
