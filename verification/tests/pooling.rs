use gql_gateway::pool::Pool;
use gql_gateway::pool::PoolError;

#[test]
fn new_pool_is_idle() {
    let pool = Pool::new(5);
    assert_eq!(pool.capacity(), 5);
    assert_eq!(pool.in_use(), 0);
}

#[test]
fn acquire_then_release_is_balanced() {
    let mut pool = Pool::new(2);
    let a = pool.acquire().unwrap();
    assert_eq!(pool.in_use(), 1);
    let b = pool.acquire().unwrap();
    assert_eq!(pool.in_use(), 2);
    pool.release(a);
    pool.release(b);
    assert_eq!(pool.in_use(), 0);
    assert_eq!(pool.capacity(), 2);
}

#[test]
fn exhausted_pool_reports_and_recovers() {
    let mut pool = Pool::new(1);
    let lease = pool.acquire().unwrap();
    assert_eq!(pool.acquire().unwrap_err(), PoolError::Exhausted);
    assert_eq!(pool.in_use(), 1);
    pool.release(lease);
    assert_eq!(pool.in_use(), 0);
    assert!(pool.acquire().is_ok());
}

#[test]
fn zero_capacity_pool_is_always_exhausted() {
    let mut pool = Pool::new(0);
    assert_eq!(pool.acquire().unwrap_err(), PoolError::Exhausted);
    assert_eq!(pool.in_use(), 0);
}
