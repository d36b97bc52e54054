use xchain::tpool::TPool;

#[test]
fn new_pool_is_empty() {
    let pool: TPool<u32> = TPool::new();
    assert_eq!(pool.len(), 0);
    assert!(!pool.exist(1));
}

#[test]
fn added_transactions_exist_until_collected() {
    let mut pool: TPool<u32> = TPool::new();
    pool.add(1, 11, 0);
    assert!(pool.exist(1));
    assert_eq!(pool.get(1), Some(&11));

    // a collection that expires nothing leaves the entry alone
    let removed = pool.gc(10, 5);
    assert_eq!(removed, 0);
    assert!(pool.exist(1));

    // once its age exceeds the duration, the entry goes
    let removed = pool.gc(10, 11);
    assert_eq!(removed, 1);
    assert!(!pool.exist(1));
    assert_eq!(pool.get(1), None);
}

#[test]
fn gc_removes_exactly_the_expired_entries() {
    let mut pool: TPool<u32> = TPool::new();
    pool.add(1, 11, 0);
    pool.add(2, 22, 10);
    pool.add(3, 33, 15);
    pool.add(4, 44, 20);

    // at time 25 with duration 10: ages are 25, 15, 10, 5; removed are
    // exactly those strictly over 10 — an age equal to the duration stays
    let removed = pool.gc(10, 25);
    assert_eq!(removed, 2);
    assert!(!pool.exist(1));
    assert!(!pool.exist(2));
    assert!(pool.exist(3));
    assert!(pool.exist(4));
    assert_eq!(pool.len(), 2);
}

#[test]
fn add_overwrites_and_refreshes_the_arrival_time() {
    let mut pool: TPool<u32> = TPool::new();
    pool.add(1, 11, 0);
    pool.add(1, 99, 100);
    assert_eq!(pool.len(), 1);
    assert_eq!(pool.get(1), Some(&99));

    // the refreshed arrival time is the one that counts for expiry
    let removed = pool.gc(50, 120);
    assert_eq!(removed, 0);
    assert!(pool.exist(1));
}

#[test]
fn pool_is_generic_over_the_payload() {
    let mut pool: TPool<String> = TPool::new();
    pool.add(7, String::from("pending"), 3);
    assert!(pool.exist(7));
    assert_eq!(pool.get(7).map(|s| s.as_str()), Some("pending"));
}
