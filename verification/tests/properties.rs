use weakref::{global_recycler_len, local_recycler_len, pin, Own, Recycler, Ref, Store};

#[test]
fn chained_reuse() {
    // Transfer ownership down a chain: each step kills the old owner and
    // reuses its counter cell for the new one. Only the newest handle is
    // alive at every point after the chain is built.
    let mut rec = Recycler::new();
    let mut store: Store<i32> = Store::new();

    let a = Own::new_box(1, &mut rec, &mut store);
    let ra = a.refer();
    let guard = pin();
    let b = Own::new_from(Box::new(2), a, &guard, &mut rec, &mut store);
    let rb = b.refer();
    let c = Own::new_from(Box::new(3), b, &guard, &mut rec, &mut store);
    let rc = c.refer();

    assert_eq!(ra.get(&guard, &rec, &store), None);
    assert_eq!(rb.get(&guard, &rec, &store), None);
    assert_eq!(rc.get(&guard, &rec, &store), Some(&3));
}

#[test]
fn new_from_skips_recycler() {
    // Transferring ownership reuses the cell directly: neither level of the
    // recycler moves.
    let mut rec = Recycler::new();
    let mut store: Store<i32> = Store::new();

    let a = Own::new_box(1, &mut rec, &mut store);
    let local_before = local_recycler_len(&rec);
    let global_before = global_recycler_len(&rec);

    let guard = pin();
    let b = Own::new_from(Box::new(2), a, &guard, &mut rec, &mut store);

    assert_eq!(local_recycler_len(&rec), local_before);
    assert_eq!(global_recycler_len(&rec), global_before);
    assert_eq!(b.refer().get(&guard, &rec, &store), Some(&2));
}

#[test]
fn map_projected_element() {
    // A handle projected to one element of a sequence returns that element
    // while the owner is alive, and nothing afterwards.
    let mut rec = Recycler::new();
    let mut store: Store<Vec<i32>> = Store::new();
    let mut out: Store<i32> = Store::new();

    let list = Own::new(vec![1, 2, 3], &mut rec, &mut store);
    let elem: Ref<i32> = list.refer().map(|v: &Vec<i32>| v[2], &rec, &store, &mut out);

    let guard = pin();
    assert_eq!(elem.get(&guard, &rec, &out), Some(&3));

    list.destroy(&guard, &mut rec, &mut store);
    assert_eq!(elem.get(&guard, &rec, &out), None);
}

#[test]
fn filter_map_declined() {
    // A projection that returns nothing yields a handle that never
    // resolves, even though the source was alive at call time.
    let mut rec = Recycler::new();
    let mut store: Store<Vec<i32>> = Store::new();
    let mut out: Store<i32> = Store::new();

    let list = Own::new(vec![1, 2, 3], &mut rec, &mut store);
    let elem: Ref<i32> =
        list.refer().filter_map(|v: &Vec<i32>| v.get(100).copied(), &rec, &store, &mut out);

    let guard = pin();
    assert!(list.refer().is_alive(&rec));
    assert!(elem.is_null());
    assert_eq!(elem.get(&guard, &rec, &out), None);
}

#[test]
fn filter_map_accepted() {
    let mut rec = Recycler::new();
    let mut store: Store<Vec<i32>> = Store::new();
    let mut out: Store<i32> = Store::new();

    let list = Own::new(vec![1, 2, 3], &mut rec, &mut store);
    let elem: Ref<i32> =
        list.refer().filter_map(|v: &Vec<i32>| v.get(1).copied(), &rec, &store, &mut out);

    let guard = pin();
    assert!(!elem.is_null());
    assert_eq!(elem.get(&guard, &rec, &out), Some(&2));

    list.destroy(&guard, &mut rec, &mut store);
    assert_eq!(elem.get(&guard, &rec, &out), None);
}

#[test]
fn null_ref_never_resolves() {
    let mut rec = Recycler::new();
    let mut store: Store<i32> = Store::new();

    let null: Ref<i32> = Ref::null();
    let guard = pin();
    assert!(null.is_null());
    assert!(!null.is_alive(&rec));
    assert_eq!(null.get(&guard, &rec, &store), None);

    // Even heavy traffic through the recycler never revives it.
    let o = Own::new_box(5, &mut rec, &mut store);
    o.destroy(&guard, &mut rec, &mut store);
    assert_eq!(null.get(&guard, &rec, &store), None);
}

#[test]
fn is_alive_tracks_owner() {
    let mut rec = Recycler::new();
    let mut store: Store<i32> = Store::new();

    let o = Own::new_box(9, &mut rec, &mut store);
    let weak = o.refer();
    assert!(weak.is_alive(&rec));

    let guard = pin();
    o.destroy(&guard, &mut rec, &mut store);
    assert!(!weak.is_alive(&rec));
}

#[test]
fn dead_ref_stays_dead_after_churn() {
    // Once dead, a weak handle never resolves again, no matter how many
    // later owners reuse its cell and its slot.
    let mut rec = Recycler::new();
    let mut store: Store<i32> = Store::new();

    let o = Own::new_box(11, &mut rec, &mut store);
    let weak = o.refer();
    let guard = pin();
    o.destroy(&guard, &mut rec, &mut store);

    for i in 0..100 {
        let churn = Own::new_box(i, &mut rec, &mut store);
        assert_eq!(weak.get(&guard, &rec, &store), None);
        churn.destroy(&guard, &mut rec, &mut store);
    }
    assert_eq!(weak.get(&guard, &rec, &store), None);
}

#[test]
fn map_of_dead_handle_is_null() {
    // Projecting a handle that is already dead produces the absent-address
    // handle.
    let mut rec = Recycler::new();
    let mut store: Store<i32> = Store::new();
    let mut out: Store<i32> = Store::new();

    let o = Own::new_box(4, &mut rec, &mut store);
    let weak = o.refer();
    let guard = pin();
    o.destroy(&guard, &mut rec, &mut store);

    let projected = weak.map(|x: &i32| *x, &rec, &store, &mut out);
    assert!(projected.is_null());
    assert_eq!(projected.get(&guard, &rec, &out), None);
}
