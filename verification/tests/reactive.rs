//! Dependency tracking, reaction scheduling, undo ordering and the sweep.

use atomic_hooks::state_access::{
    atom, atom_undo, new_state, reaction, reaction_start_suspended,
};
use atomic_hooks::{CloneState, Observable, Store, UnmountAction};

#[test]
fn reaction_reruns_on_read_atom_only() {
    let mut s: Store<u64> = Store::new();
    let a = atom(&mut s, 1, 0);
    let b = atom(&mut s, 2, 0);
    let r = reaction(&mut s, 10);
    s.begin_run(r.id);
    let _ = a.observe(&mut s);
    s.end_run();
    let hit_a = a.set(&mut s, 5);
    assert_eq!(hit_a, vec![r.id]);
    let hit_b = b.set(&mut s, 7);
    assert_eq!(hit_b, Vec::new());
}

#[test]
fn dropped_branch_stops_triggering() {
    let mut s: Store<u64> = Store::new();
    let a = atom(&mut s, 1, 0);
    let b = atom(&mut s, 2, 0);
    let r = reaction(&mut s, 10);
    s.begin_run(r.id);
    let _ = a.observe(&mut s);
    let _ = b.observe(&mut s);
    s.end_run();
    assert_eq!(b.set(&mut s, 1), vec![r.id]);
    // The next run takes a branch that no longer reads `b`.
    s.begin_run(r.id);
    let _ = a.observe(&mut s);
    s.end_run();
    assert_eq!(b.set(&mut s, 2), Vec::new());
    assert_eq!(a.set(&mut s, 3), vec![r.id]);
}

#[test]
fn suspended_reaction_never_auto_runs() {
    let mut s: Store<u64> = Store::new();
    let a = atom(&mut s, 1, 0);
    let r = reaction_start_suspended(&mut s, 10);
    assert_eq!(a.set(&mut s, 1), Vec::new());
    // Its first manual run establishes its dependency set...
    s.begin_run(r.id);
    let _ = a.observe(&mut s);
    s.end_run();
    // ...but it stays suspended: mutations still never schedule it.
    assert_eq!(a.set(&mut s, 2), Vec::new());
}

#[test]
fn observe_with_records_only_inside_a_run() {
    let mut s: Store<u64> = Store::new();
    let a = atom(&mut s, 1, 4);
    let r = reaction(&mut s, 10);
    let plain = a.state().observe_with(&mut s, |v| *v + 1);
    assert_eq!(plain, 5);
    assert_eq!(a.set(&mut s, 6), Vec::new());
    s.begin_run(r.id);
    let seen = a.state().observe_with(&mut s, |v| *v);
    s.end_run();
    assert_eq!(seen, 6);
    assert_eq!(a.set(&mut s, 7), vec![r.id]);
}

#[test]
fn observe_update_hands_back_previous_value() {
    let mut s: Store<u64> = Store::new();
    let h = {
        s.enter(1);
        let h = new_state(&mut s, 7);
        s.exit();
        h
    };
    assert_eq!(h.observe_update(&mut s), (None, 7));
    h.set(&mut s, 9);
    assert_eq!(h.observe_update(&mut s), (Some(7), 9));
    assert_eq!(h.observe_update(&mut s), (Some(9), 9));
}

#[test]
fn atom_update_applies_and_schedules() {
    let mut s: Store<u64> = Store::new();
    let a = atom(&mut s, 1, 10);
    let r = reaction(&mut s, 20);
    s.begin_run(r.id);
    let _ = a.observe(&mut s);
    s.end_run();
    let hit = a.update(&mut s, |v| v + 5);
    assert_eq!(hit, vec![r.id]);
    assert_eq!(a.get(&mut s), 15);
}

#[test]
fn redeclaring_an_atom_keeps_value_and_policy() {
    let mut s: Store<u64> = Store::new();
    let a1 = atom_undo(&mut s, 1, 10, 5);
    let _ = a1.set(&mut s, 6);
    let a2 = atom(&mut s, 1, 99);
    assert_eq!(a1.id, a2.id);
    assert_eq!(a2.get(&mut s), 6);
    // The policy fixed at first declaration still records undo.
    let _ = a2.set(&mut s, 7);
    assert!(s.undo());
    assert_eq!(a2.get(&mut s), 6);
}

#[test]
fn redeclaring_a_reaction_keeps_its_dependencies() {
    let mut s: Store<u64> = Store::new();
    let a = atom(&mut s, 1, 0);
    let r = reaction(&mut s, 10);
    s.begin_run(r.id);
    let _ = a.observe(&mut s);
    s.end_run();
    let r2 = reaction::<u64>(&mut s, 10);
    assert_eq!(r, r2);
    assert_eq!(a.set(&mut s, 1), vec![r.id]);
}

#[test]
fn undo_reverts_youngest_mutation_first() {
    let mut s: Store<u64> = Store::new();
    let x = atom_undo(&mut s, 1, 10, 1);
    let y = atom_undo(&mut s, 2, 10, 2);
    let _ = x.set(&mut s, 11);
    let _ = y.set(&mut s, 22);
    assert!(s.undo());
    assert_eq!(y.get(&mut s), 2);
    assert_eq!(x.get(&mut s), 11);
    assert!(s.undo());
    assert_eq!(x.get(&mut s), 1);
    assert!(!s.undo());
    assert_eq!(x.get(&mut s), 1);
    assert_eq!(y.get(&mut s), 2);
}

#[test]
fn undo_depth_drops_oldest_record() {
    let mut s: Store<u64> = Store::new();
    let a = atom_undo(&mut s, 1, 1, 0);
    let _ = a.set(&mut s, 1);
    let _ = a.set(&mut s, 2);
    let _ = a.set(&mut s, 3);
    assert_eq!(s.undo_queue_len(), 1);
    assert!(s.undo());
    assert_eq!(a.get(&mut s), 2);
    assert!(!s.undo());
}

#[test]
fn plain_atom_records_no_undo() {
    let mut s: Store<u64> = Store::new();
    let a = atom(&mut s, 1, 0);
    let _ = a.set(&mut s, 5);
    assert_eq!(s.undo_queue_len(), 0);
    assert!(!s.undo());
    assert_eq!(a.get(&mut s), 5);
}

#[test]
fn sweep_purges_only_the_unvisited() {
    let mut s: Store<u64> = Store::new();
    s.enter(1);
    let h1 = new_state(&mut s, 10);
    s.exit();
    s.enter(2);
    let h2 = new_state(&mut s, 20).reset_on_unmount(&mut s);
    s.on_unmount(h2.id, UnmountAction::Notify(42));
    s.exit();
    // Open a fresh generation, then visit only the first position.
    let first = s.purge_and_reset_unseen_ids();
    assert_eq!(first, Vec::new());
    s.enter(1);
    let _ = new_state(&mut s, 0);
    s.exit();
    let tokens = s.purge_and_reset_unseen_ids();
    assert_eq!(tokens, vec![42]);
    assert_eq!(tokens.iter().filter(|t| **t == 42).count(), 1);
    assert!(h1.state_exists(&s));
    assert_eq!(h1.get(&mut s), 10);
    assert!(!h2.state_exists(&s));
    assert_eq!(h2.soft_get(&mut s), None);
}

#[test]
fn sweep_reports_tokens_in_key_order() {
    let mut s: Store<u64> = Store::new();
    s.enter(1);
    let h1 = new_state(&mut s, 1);
    s.exit();
    s.enter(2);
    let h2 = new_state(&mut s, 2);
    s.exit();
    s.on_unmount(h1.id, UnmountAction::Notify(1));
    s.on_unmount(h2.id, UnmountAction::Notify(2));
    s.on_unmount(h2.id, UnmountAction::Notify(3));
    let _ = s.purge_and_reset_unseen_ids();
    // Nothing visited since: both keys are purged, tokens by key then order.
    let tokens = s.purge_and_reset_unseen_ids();
    assert_eq!(tokens, vec![1, 2, 3]);
}

#[test]
fn sweep_prunes_edges_of_purged_atoms() {
    let mut s: Store<u64> = Store::new();
    let a = atom(&mut s, 1, 0);
    let r = reaction(&mut s, 10);
    s.begin_run(r.id);
    let _ = a.observe(&mut s);
    s.end_run();
    let _ = s.purge_and_reset_unseen_ids();
    // Visit only the reaction; the atom's position goes unvisited.
    let _ = reaction::<u64>(&mut s, 10);
    let _ = s.purge_and_reset_unseen_ids();
    // The atom's slot is gone; writing through the handle re-creates the
    // value, but the pruned edge schedules nothing.
    assert_eq!(a.set(&mut s, 5), Vec::new());
}

#[test]
fn unmounted_reaction_is_silently_skipped() {
    let mut s: Store<u64> = Store::new();
    let a = atom(&mut s, 1, 0);
    let r = reaction(&mut s, 10);
    s.begin_run(r.id);
    let _ = a.observe(&mut s);
    s.end_run();
    assert_eq!(a.set(&mut s, 1), vec![r.id]);
    s.unmount_reaction(r.id);
    assert_eq!(a.set(&mut s, 2), Vec::new());
}

#[test]
fn explicit_unmount_runs_and_clears_registrations() {
    let mut s: Store<u64> = Store::new();
    s.enter(1);
    let h = new_state(&mut s, 10).reset_on_unmount(&mut s);
    s.on_unmount(h.id, UnmountAction::Notify(7));
    s.exit();
    let tokens = s.execute_and_remove_unmounts(h.id);
    assert_eq!(tokens, vec![7]);
    assert!(!h.state_exists(&s));
    // Registrations are consumed: a second unmount finds none.
    let again = s.execute_and_remove_unmounts(h.id);
    assert_eq!(again, Vec::new());
}
