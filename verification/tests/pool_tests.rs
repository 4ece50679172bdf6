use logmine_rs::pool::StringPool;

#[test]
fn a_new_pool_has_only_dead_buffers() {
    let pool = StringPool::with_capacity(3);
    assert!(pool.is_empty());
    assert_eq!(pool.len(), 0);
    assert_eq!(pool.capacity(), 3);
}

#[test]
fn filled_buffers_cycle_between_dead_and_live() {
    let mut pool = StringPool::with_capacity(2);

    let mut buf = pool.take_dead().unwrap();
    assert_eq!(buf.line, "");
    buf.line.push_str("first line");
    pool.release(buf);

    assert!(!pool.is_empty());
    assert_eq!(pool.len(), 1);

    let got = pool.take_live().unwrap();
    assert_eq!(got.line, "first line");
    pool.release(got);

    assert!(pool.is_empty());
    assert_eq!(pool.capacity(), 2);
}

#[test]
fn taken_dead_buffers_come_back_cleared() {
    let mut pool = StringPool::with_capacity(1);

    let mut buf = pool.take_dead().unwrap();
    buf.line.push_str("stale");
    pool.release(buf);

    let got = pool.take_live().unwrap();
    pool.release(got);

    // The same buffer comes back empty, not with its old content.
    let again = pool.take_dead().unwrap();
    assert_eq!(again.line, "");
    pool.release(again);
}

#[test]
fn the_dead_pool_is_finite() {
    let mut pool = StringPool::with_capacity(2);
    let a = pool.take_dead().unwrap();
    let b = pool.take_dead().unwrap();
    assert!(pool.take_dead().is_none());
    pool.release(a);
    pool.release(b);
}

#[test]
fn stay_dead_returns_a_buffer_to_the_dead_pool() {
    let mut pool = StringPool::with_capacity(1);

    let mut buf = pool.take_dead().unwrap();
    buf.stay_dead();
    pool.release(buf);

    // Nothing went live, and the buffer can be taken dead again.
    assert!(pool.is_empty());
    assert!(pool.take_dead().is_some());
}

#[test]
fn take_live_on_an_empty_pool_is_none() {
    let mut pool = StringPool::with_capacity(1);
    assert!(pool.take_live().is_none());
}
