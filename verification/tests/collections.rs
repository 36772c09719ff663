//! The fixed-capacity vector, the flat map, and the persistent stack.

use chip8::{ArrayVec, FlatMap, PStack};

#[test]
fn arrayvec_holds_at_most_its_capacity() {
    let mut v: ArrayVec<i32, 3> = ArrayVec::new();
    assert_eq!(v.len(), 0);
    assert!(v.is_empty());
    assert_eq!(v.capacity(), 3);
    assert_eq!(v.push(10), Ok(()));
    assert_eq!(v.push(20), Ok(()));
    assert_eq!(v.push(30), Ok(()));
    assert_eq!(v.len(), 3);
    assert_eq!(v.push(40), Err(40));
    assert_eq!(v.len(), 3);
}

#[test]
fn arrayvec_pops_in_reverse_order() {
    let mut v: ArrayVec<i32, 4> = ArrayVec::new();
    v.push(1).unwrap();
    v.push(2).unwrap();
    assert_eq!(v.pop(), Some(2));
    assert_eq!(v.pop(), Some(1));
    assert_eq!(v.pop(), None);
}

#[test]
fn arrayvec_indexes_and_replaces() {
    let mut v: ArrayVec<&str, 2> = ArrayVec::new();
    v.push("a").unwrap();
    v.push("b").unwrap();
    assert_eq!(*v.index(0), "a");
    assert_eq!(v.set(1, "c"), "b");
    assert_eq!(*v.index(1), "c");
}

#[test]
fn flatmap_inserts_and_looks_up() {
    let mut m: FlatMap<i32, &str> = FlatMap::new();
    assert!(m.is_empty());
    assert_eq!(m.insert(2, "two"), None);
    assert_eq!(m.insert(1, "one"), None);
    assert_eq!(m.insert(3, "three"), None);
    assert_eq!(m.len(), 3);
    assert_eq!(m.get(&2), Some(&"two"));
    assert_eq!(m.get(&4), None);
    assert_eq!(m.insert(2, "deux"), Some("two"));
    assert_eq!(m.get(&2), Some(&"deux"));
    assert_eq!(m.len(), 3);
}

#[test]
fn flatmap_keeps_its_entries_sorted() {
    let mut m: FlatMap<u64, u64> = FlatMap::new();
    m.insert(30, 1);
    m.insert(10, 2);
    m.insert(20, 3);
    let keys: Vec<u64> = m.as_slice().iter().map(|p| p.0).collect();
    assert_eq!(keys, vec![10, 20, 30]);
    assert_eq!(m.find(&20), Ok(1));
    assert_eq!(m.find(&15), Err(1));
    assert!(m.capacity() >= m.len());
    // replacing a value moves nothing and adds nothing
    m.insert(20, 9);
    assert_eq!(m.len(), 3);
    let keys_after: Vec<u64> = m.as_slice().iter().map(|p| p.0).collect();
    assert_eq!(keys_after, vec![10, 20, 30]);
    // removal keeps the rest in order
    m.remove(&20);
    let keys_left: Vec<u64> = m.as_slice().iter().map(|p| p.0).collect();
    assert_eq!(keys_left, vec![10, 30]);
}

#[test]
fn flatmap_removes_entries() {
    let mut m: FlatMap<i32, i32> = FlatMap::new();
    m.insert(1, 10);
    m.insert(2, 20);
    assert_eq!(m.remove(&1), Some(10));
    assert_eq!(m.remove(&1), None);
    assert_eq!(m.remove_entry(&2), Some((2, 20)));
    assert!(m.is_empty());
}

#[test]
fn flatmap_from_vec_keeps_the_last_binding() {
    let m: FlatMap<i32, &str> = FlatMap::from_vec(vec![(1, "a"), (2, "b"), (1, "c")]);
    assert_eq!(m.get(&1), Some(&"c"));
    assert_eq!(m.get(&2), Some(&"b"));
    assert_eq!(m.len(), 2);
    let entries = m.into_vec();
    assert_eq!(entries, vec![(1, "c"), (2, "b")]);
}

#[test]
fn pstack_is_persistent() {
    let empty: PStack<i32> = PStack::new();
    assert!(empty.is_empty());
    assert_eq!(empty.len(), 0);
    assert!(empty.pop().is_none());

    let one = empty.push(1);
    let two = one.push(2);
    assert_eq!(empty.len(), 0);
    assert_eq!(one.len(), 1);
    assert_eq!(two.len(), 2);

    let (top, rest) = two.pop().unwrap();
    assert_eq!(*top, 2);
    assert_eq!(rest.len(), 1);
    // the original stack is untouched
    assert_eq!(two.len(), 2);

    let copy = two.clone();
    assert_eq!(copy.len(), 2);
}

#[test]
fn pstack_iterates_top_first() {
    let s = PStack::new().push(1).push(2).push(3);
    let values: Vec<i32> = s.iter().iter().map(|rc| **rc).collect();
    assert_eq!(values, vec![3, 2, 1]);
}
