use std::sync::Arc;
use weakref::{pin, Own, Recycler, Ref, Store};

#[test]
fn live_ref_get_some() {
    let mut rec = Recycler::new();
    let mut store: Store<i32> = Store::new();
    let o = Own::new_box(42, &mut rec, &mut store);
    let weak = o.refer();
    let guard = pin();
    assert_eq!(weak.get(&guard, &rec, &store), Some(&42));
}

#[test]
fn dead_ref_get_none() {
    let mut rec = Recycler::new();
    let mut store: Store<i32> = Store::new();
    let o = Own::new_box(42, &mut rec, &mut store);
    let weak = o.refer();
    let guard = pin();
    o.destroy(&guard, &mut rec, &mut store);
    assert_eq!(weak.get(&guard, &rec, &store), None);
}

#[test]
fn dead_ref_get_none_after_reuse() {
    let mut rec = Recycler::new();
    let mut store: Store<i32> = Store::new();
    let o1 = Own::new_box(42, &mut rec, &mut store);
    let weak = o1.refer();
    let guard = pin();
    o1.destroy(&guard, &mut rec, &mut store);

    // The replacement reuses the same counter cell and the same slot, yet
    // the old weak handle stays dead.
    let o2 = Own::new_box(43, &mut rec, &mut store);
    let guard2 = pin();
    assert_eq!(weak.get(&guard2, &rec, &store), None);
    drop(o2);
}

#[test]
fn ref_with_helper() {
    let mut rec = Recycler::new();
    let mut store: Store<i32> = Store::new();
    let helper = |weak: Ref<i32>, rec: &Recycler, store: &Store<i32>| -> Option<i32> {
        weak.inspect(|x: &i32| x * 2, rec, store)
    };

    let o = Own::new_box(42, &mut rec, &mut store);
    let weak = o.refer();
    assert_eq!(helper(weak, &rec, &store), Some(84));

    let guard = pin();
    o.destroy(&guard, &mut rec, &mut store);
    assert_eq!(helper(weak, &rec, &store), None);
}

#[test]
fn ref_map_helper() {
    let mut rec = Recycler::new();
    let mut store: Store<String> = Store::new();
    let mut out: Store<String> = Store::new();

    let o = Own::new(String::from("hello"), &mut rec, &mut store);
    let projected = o.refer().map(|s: &String| s.clone(), &rec, &store, &mut out);

    let guard = pin();
    assert_eq!(projected.get(&guard, &rec, &out), Some(&String::from("hello")));

    o.destroy(&guard, &mut rec, &mut store);
    assert_eq!(projected.get(&guard, &rec, &out), None);
}

#[test]
fn ref_map_with_guard() {
    let mut rec = Recycler::new();
    let mut store: Store<Vec<i32>> = Store::new();
    let mut out: Store<i32> = Store::new();

    let list = Own::new(vec![1, 2, 3], &mut rec, &mut store);
    let guard = pin();
    let elem = list.refer().map_with(|v: &Vec<i32>| v[1], &guard, &rec, &store, &mut out);
    assert_eq!(elem.get(&guard, &rec, &out), Some(&2));

    list.destroy(&guard, &mut rec, &mut store);
    assert_eq!(elem.get(&guard, &rec, &out), None);
}

#[test]
fn ref_copy_and_clone() {
    let mut rec = Recycler::new();
    let mut store: Store<i32> = Store::new();
    let o = Own::new_box(42, &mut rec, &mut store);
    let weak = o.refer();
    let copied = weak;
    let cloned = weak.clone();

    let guard = pin();
    assert_eq!(weak.get(&guard, &rec, &store), Some(&42));
    assert_eq!(copied.get(&guard, &rec, &store), Some(&42));
    assert_eq!(cloned.get(&guard, &rec, &store), Some(&42));

    o.destroy(&guard, &mut rec, &mut store);
    assert_eq!(weak.get(&guard, &rec, &store), None);
    assert_eq!(copied.get(&guard, &rec, &store), None);
    assert_eq!(cloned.get(&guard, &rec, &store), None);
}

#[test]
fn multiple_refs_same_object() {
    let mut rec = Recycler::new();
    let mut store: Store<i32> = Store::new();
    let o = Own::new_box(42, &mut rec, &mut store);
    let r1 = o.refer();
    let r2 = o.refer();

    let guard = pin();
    assert_eq!(r1.get(&guard, &rec, &store), Some(&42));
    assert_eq!(r2.get(&guard, &rec, &store), Some(&42));

    o.destroy(&guard, &mut rec, &mut store);
    assert_eq!(r1.get(&guard, &rec, &store), None);
    assert_eq!(r2.get(&guard, &rec, &store), None);
}

#[test]
fn arc_pointer_type() {
    let mut rec = Recycler::new();
    let mut store: Store<Arc<i32>> = Store::new();
    let o = Own::new(Arc::new(42), &mut rec, &mut store);
    let weak = o.refer();

    let guard = pin();
    assert_eq!(weak.get(&guard, &rec, &store).map(|a| **a), Some(42));

    o.destroy(&guard, &mut rec, &mut store);
    assert!(weak.get(&guard, &rec, &store).is_none());
}

#[test]
fn string_pointer_type() {
    let mut rec = Recycler::new();
    let mut store: Store<String> = Store::new();
    let o = Own::new(String::from("hello"), &mut rec, &mut store);
    let weak = o.refer();

    let guard = pin();
    assert_eq!(weak.get(&guard, &rec, &store).map(|s| s.as_str()), Some("hello"));

    o.destroy(&guard, &mut rec, &mut store);
    assert!(weak.get(&guard, &rec, &store).is_none());
}

#[test]
fn vec_pointer_type() {
    let mut rec = Recycler::new();
    let mut store: Store<Vec<i32>> = Store::new();
    let o = Own::new(vec![1, 2, 3], &mut rec, &mut store);
    let weak = o.refer();

    let guard = pin();
    assert_eq!(weak.get(&guard, &rec, &store), Some(&vec![1, 2, 3]));

    o.destroy(&guard, &mut rec, &mut store);
    assert!(weak.get(&guard, &rec, &store).is_none());
}

#[test]
fn unit_pointer_type() {
    let mut rec = Recycler::new();
    let mut store: Store<()> = Store::new();
    let o = Own::new((), &mut rec, &mut store);
    let weak = o.refer();

    let guard = pin();
    assert_eq!(weak.get(&guard, &rec, &store), Some(&()));

    o.destroy(&guard, &mut rec, &mut store);
    assert!(weak.get(&guard, &rec, &store).is_none());
}

#[test]
fn sequential_reuse() {
    // Transfer ownership down a chain, then re-check every handle once the
    // last owner is gone.
    let mut rec = Recycler::new();
    let mut store: Store<i32> = Store::new();

    let a = Own::new_box(1, &mut rec, &mut store);
    let ra = a.refer();
    let guard = pin();
    let b = Own::new_from(Box::new(2), a, &guard, &mut rec, &mut store);
    let rb = b.refer();
    let c = Own::new_from(Box::new(3), b, &guard, &mut rec, &mut store);
    let rc = c.refer();

    assert_eq!(ra.get(&guard, &rec, &store), None);
    assert_eq!(rb.get(&guard, &rec, &store), None);
    assert_eq!(rc.get(&guard, &rec, &store), Some(&3));

    c.destroy(&guard, &mut rec, &mut store);
    assert_eq!(ra.get(&guard, &rec, &store), None);
    assert_eq!(rb.get(&guard, &rec, &store), None);
    assert_eq!(rc.get(&guard, &rec, &store), None);
}

#[test]
fn deref_trait() {
    let mut rec = Recycler::new();
    let mut store: Store<i32> = Store::new();
    let o = Own::new_box(42, &mut rec, &mut store);
    assert_eq!(*o.deref(&store), 42);

    let mut sstore: Store<String> = Store::new();
    let s = Own::new(String::from("hello"), &mut rec, &mut sstore);
    assert_eq!(s.deref(&sstore).as_str(), "hello");
}
