use weakref::{empty_recycler, global_recycler_len, local_recycler_len, Own, Recycler, Store};

#[test]
fn recycler_starts_empty() {
    let mut rec = Recycler::new();
    empty_recycler(&mut rec);
    assert_eq!(local_recycler_len(&rec), 0);
    assert_eq!(global_recycler_len(&rec), 0);
}

#[test]
fn recycler_populates_local_on_first_allocation() {
    let mut rec = Recycler::new();
    let mut store: Store<i32> = Store::new();
    empty_recycler(&mut rec);

    let o = Own::new_box(42, &mut rec, &mut store);
    let guard = weakref::pin();
    o.destroy(&guard, &mut rec, &mut store);

    assert!(local_recycler_len(&rec) > 0);
    assert_eq!(global_recycler_len(&rec), 0);
}

#[test]
fn recycler_moves_to_global_when_local_full() {
    let mut rec = Recycler::new();
    let mut store: Store<i32> = Store::new();
    empty_recycler(&mut rec);

    let mut objects = Vec::new();
    for i in 0..1536 {
        objects.push(Own::new_box(i, &mut rec, &mut store));
    }

    for obj in objects {
        let guard = weakref::pin();
        obj.destroy(&guard, &mut rec, &mut store);
    }

    assert!(global_recycler_len(&rec) > 0);
}

#[test]
fn recycler_reuses_from_local_first() {
    let mut rec = Recycler::new();
    let mut store: Store<i32> = Store::new();
    empty_recycler(&mut rec);

    let o1 = Own::new_box(42, &mut rec, &mut store);
    let guard = weakref::pin();
    o1.destroy(&guard, &mut rec, &mut store);

    let initial_local_len = local_recycler_len(&rec);
    assert!(initial_local_len > 0);

    let _o2 = Own::new_box(43, &mut rec, &mut store);

    assert_eq!(local_recycler_len(&rec), initial_local_len - 1);
}

#[test]
fn recycler_pulls_from_global_when_local_empty() {
    let mut rec = Recycler::new();
    let mut store: Store<i32> = Store::new();
    empty_recycler(&mut rec);

    let mut objects = Vec::new();
    for i in 0..1536 {
        objects.push(Own::new_box(i, &mut rec, &mut store));
    }

    for obj in objects {
        let guard = weakref::pin();
        obj.destroy(&guard, &mut rec, &mut store);
    }

    let initial_global_len = global_recycler_len(&rec);
    assert!(initial_global_len > 0);

    empty_recycler(&mut rec);

    let o = Own::new_box(42, &mut rec, &mut store);
    let guard = weakref::pin();
    o.destroy(&guard, &mut rec, &mut store);

    assert!(local_recycler_len(&rec) > 0);
}

#[test]
fn reuse_through_global_pool() {
    // Fill the per-thread cache past capacity so a block lands in the
    // cross-thread pool, empty the cache by reacquiring, and check that
    // cells coming back out of the pool still track liveness correctly.
    let mut rec = Recycler::new();
    let mut store: Store<usize> = Store::new();

    let mut objects = Vec::new();
    for i in 0..1536 {
        objects.push(Own::new_box(i, &mut rec, &mut store));
    }
    for obj in objects {
        let guard = weakref::pin();
        obj.destroy(&guard, &mut rec, &mut store);
    }
    assert!(global_recycler_len(&rec) > 0);

    let mut revived = Vec::new();
    for i in 0..1200 {
        revived.push(Own::new_box(i, &mut rec, &mut store));
    }
    let guard = weakref::pin();
    for (i, obj) in revived.iter().enumerate() {
        assert_eq!(obj.refer().get(&guard, &rec, &store), Some(&i));
    }
}
