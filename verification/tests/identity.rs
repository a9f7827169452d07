//! Identity resolution, plain slot access and change detection.

use atomic_hooks::state_access::{new_state, StateAccess};
use atomic_hooks::{ChangedState, CloneState, Store, TopoKey};

#[test]
fn same_position_same_slot() {
    let mut s: Store<u64> = Store::new();
    s.enter(1);
    let h1 = new_state(&mut s, 10);
    s.exit();
    s.enter(1);
    let h2 = new_state(&mut s, 99);
    s.exit();
    assert_eq!(h1.id, h2.id);
    assert_eq!(h2.get(&mut s), 10);
}

#[test]
fn mutations_persist_across_visits() {
    let mut s: Store<u64> = Store::new();
    s.enter(7);
    let h1 = new_state(&mut s, 1);
    s.exit();
    h1.set(&mut s, 5);
    s.enter(7);
    let h2 = new_state(&mut s, 0);
    s.exit();
    assert_eq!(h1.id, h2.id);
    assert_eq!(h2.get(&mut s), 5);
}

#[test]
fn distinct_positions_distinct_slots() {
    let mut s: Store<u64> = Store::new();
    let mut handles = Vec::new();
    for i in 0..2u64 {
        s.enter(i);
        handles.push(new_state(&mut s, 100));
        s.exit();
    }
    assert_ne!(handles[0].id, handles[1].id);
    handles[0].set(&mut s, 1);
    assert_eq!(handles[0].get(&mut s), 1);
    assert_eq!(handles[1].get(&mut s), 100);
}

#[test]
fn nested_positions_distinct_from_outer() {
    let mut s: Store<u64> = Store::new();
    s.enter(1);
    let outer = new_state(&mut s, 1);
    s.enter(1);
    let inner = new_state(&mut s, 2);
    s.exit();
    s.exit();
    assert_ne!(outer.id, inner.id);
    assert_eq!(outer.get(&mut s), 1);
    assert_eq!(inner.get(&mut s), 2);
}

#[test]
fn remove_is_idempotent() {
    let mut s: Store<u64> = Store::new();
    s.enter(3);
    let h = new_state(&mut s, 5);
    s.exit();
    assert_eq!(h.remove(&mut s), Some(5));
    assert_eq!(h.remove(&mut s), None);
    assert_eq!(h.remove(&mut s), None);
    assert!(!h.state_exists(&s));
}

#[test]
fn dangling_handle_reads_absent() {
    let mut s: Store<u64> = Store::new();
    let stray: StateAccess<u64> = StateAccess::new(TopoKey { id: 1000 });
    assert!(!stray.state_exists(&s));
    assert_eq!(stray.soft_get(&mut s), None);
}

#[test]
fn update_and_get_with() {
    let mut s: Store<u64> = Store::new();
    s.enter(4);
    let h = new_state(&mut s, 6);
    s.exit();
    h.update(&mut s, |v| v * 7);
    assert_eq!(h.get_with(&mut s, |v| *v + 1), 43);
    assert_eq!(h.get(&mut s), 42);
}

#[test]
fn soft_get_present_and_absent() {
    let mut s: Store<u64> = Store::new();
    s.enter(9);
    let h = new_state(&mut s, 11);
    s.exit();
    assert_eq!(h.soft_get(&mut s), Some(11));
    h.delete(&mut s);
    assert_eq!(h.soft_get(&mut s), None);
}

#[test]
fn changed_tracks_against_first_probe() {
    let mut s: Store<u64> = Store::new();
    s.enter(2);
    let h = new_state(&mut s, 5);
    s.exit();
    assert!(h.changed(&mut s));
    assert!(!h.changed(&mut s));
    h.set(&mut s, 6);
    assert!(h.changed(&mut s));
    assert!(h.changed(&mut s));
}

#[test]
fn types_never_share_a_slot() {
    let mut nums: Store<u64> = Store::new();
    let mut flags: Store<bool> = Store::new();
    nums.enter(1);
    let hn = new_state(&mut nums, 8);
    nums.exit();
    flags.enter(1);
    let hf = new_state(&mut flags, true);
    flags.exit();
    hn.set(&mut nums, 9);
    assert_eq!(hn.get(&mut nums), 9);
    assert_eq!(hf.get(&mut flags), true);
}

#[test]
fn explicit_paths_resolve_deterministically() {
    let mut s: Store<u64> = Store::new();
    let p = vec![1u64, 2, 3];
    let k1 = s.key_for_path(&p);
    let k2 = s.key_for_path(&p);
    assert_eq!(k1, k2);
    let q = vec![1u64, 2];
    let k3 = s.key_for_path(&q);
    assert_ne!(k1, k3);
}
