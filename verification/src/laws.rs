//! The runtime's governing laws, stated and proved over the store model.
//!
//! Each law here is the general form of a guarantee the operations'
//! contracts promise pointwise: identity resolution is stable and
//! collision-free, scheduling is exactly as precise as the recorded
//! dependency graph, suspended reactions never self-run, undo reverts
//! mutations youngest first, one atom at a time, and the sweep keeps
//! exactly the visited generation.

use vstd::prelude::*;

use crate::store::{
    after_undo, atom_set_outcome, key_count, key_index, sweep_tokens, swept_model, valid_key,
    wf_model, will_trigger, StoreModel, TopoKey, UndoEntry,
};

verus! {

/// Identity stability: within a pass, a position already resolved resolves
/// to the same key again without touching the registry, and re-declaring
/// state there keeps the value a slot already holds — which is why
/// mutations persist across re-entrant visits to one logical position.
pub proof fn lemma_identity_stability<T>(m: StoreModel<T>, p: Seq<u64>, init: T)
    requires
        wf_model(m),
        m.paths.contains(p),
        m.slots[key_index(m, p)] is Some,
    ensures
        crate::store::with_key_row(m, p) == m,
        crate::store::or_init(m.slots[key_index(m, p)], init) == m.slots[key_index(m, p)]->0,
{
}

/// Identity stability across passes: as long as the registry only grows —
/// and every operation only ever appends to it — a resolved position keeps
/// its key forever.
pub proof fn lemma_identity_stable_under_growth<T>(
    m1: StoreModel<T>,
    m2: StoreModel<T>,
    p: Seq<u64>,
)
    requires
        wf_model(m1),
        wf_model(m2),
        m1.paths.len() <= m2.paths.len(),
        m2.paths.take(m1.paths.len() as int) == m1.paths,
        m1.paths.contains(p),
    ensures
        m2.paths.contains(p),
        key_index(m2, p) == key_index(m1, p),
{
    let i1 = key_index(m1, p);
    assert(0 <= i1 < m1.paths.len() && m1.paths[i1] == p);
    assert(m2.paths[i1] == m2.paths.take(m1.paths.len() as int)[i1]);
    assert(m2.paths.contains(p));
    let i2 = key_index(m2, p);
    assert(0 <= i2 < m2.paths.len() && m2.paths[i2] == p);
    if i1 != i2 {
        assert(m2.paths[i1] != m2.paths[i2]);
    }
}

/// Identity distinctness: two distinct resolved positions never share a
/// key, however alike their requests look.
pub proof fn lemma_identity_distinctness<T>(m: StoreModel<T>, p1: Seq<u64>, p2: Seq<u64>)
    requires
        wf_model(m),
        m.paths.contains(p1),
        m.paths.contains(p2),
        p1 != p2,
    ensures
        key_index(m, p1) != key_index(m, p2),
{
    let i1 = key_index(m, p1);
    let i2 = key_index(m, p2);
    assert(0 <= i1 < m.paths.len() && m.paths[i1] == p1);
    assert(0 <= i2 < m.paths.len() && m.paths[i2] == p2);
}

/// Dependency precision: a reaction that recorded a read of atom `a` but
/// not of atom `b` is scheduled by mutations of `a` and by no mutation of
/// `b`.  Since every run rebuilds the dependency set from scratch, a branch
/// that stops reading `b` stops being triggered by `b` from that run on.
pub proof fn lemma_dependency_precision<T>(m: StoreModel<T>, a: usize, b: usize, r: usize)
    requires
        wf_model(m),
        valid_key(m, r as int),
        m.reactions[r as int] is Some,
        !m.reactions[r as int]->0.suspended,
        m.reactions[r as int]->0.deps.contains(a),
        !m.reactions[r as int]->0.deps.contains(b),
    ensures
        will_trigger(m, a as int, r as int),
        !will_trigger(m, b as int, r as int),
{
}

/// Suspended reactions: a suspended reaction is never scheduled by any atom
/// mutation; it runs only when triggered explicitly.
pub proof fn lemma_suspended_never_triggered<T>(m: StoreModel<T>, a: usize, r: usize)
    requires
        wf_model(m),
        valid_key(m, r as int),
        m.reactions[r as int] is Some,
        m.reactions[r as int]->0.suspended,
    ensures
        !will_trigger(m, a as int, r as int),
{
}

/// Suspended reactions, at the mutation: the schedule a mutation reports
/// never contains a suspended reaction.
pub proof fn lemma_suspended_not_scheduled<T>(
    pre: StoreModel<T>,
    post: StoreModel<T>,
    a: usize,
    value: T,
    affected: Seq<TopoKey>,
    r: usize,
)
    requires
        wf_model(pre),
        atom_set_outcome(pre, post, a, value, affected),
        valid_key(pre, r as int),
        pre.reactions[r as int] is Some,
        pre.reactions[r as int]->0.suspended,
    ensures
        !affected.contains(TopoKey { id: r }),
{
    lemma_suspended_never_triggered(pre, a, r);
}

/// Single scheduling: the schedule a mutation reports names each reaction
/// at most once — no reaction is re-run twice for one external mutation.
pub proof fn lemma_scheduled_once<T>(
    pre: StoreModel<T>,
    post: StoreModel<T>,
    a: usize,
    value: T,
    affected: Seq<TopoKey>,
)
    requires
        atom_set_outcome(pre, post, a, value, affected),
    ensures
        affected.no_duplicates(),
{
    assert forall|i: int, j: int|
        0 <= i < affected.len() && 0 <= j < affected.len() && i != j implies affected[i]
        != affected[j] by {
        if i < j {
            assert(affected[i].id < affected[j].id);
        } else {
            assert(affected[j].id < affected[i].id);
        }
    }
}

/// Undo ordering: with atoms `x` then `y` mutated in that order, the first
/// `undo` reverts `y` and leaves `x`'s slot untouched; the second reverts
/// `x`.
pub proof fn lemma_undo_ordering<T>(m: StoreModel<T>, x: usize, y: usize, vx: T, vy: T)
    requires
        wf_model(m),
        x != y,
        m.undo_q.len() >= 2,
        m.undo_q.last() == (UndoEntry { key: y, prev: vy }),
        m.undo_q[m.undo_q.len() - 2] == (UndoEntry { key: x, prev: vx }),
    ensures
        after_undo(m).slots[y as int] == Some(vy),
        after_undo(m).slots[x as int] == m.slots[x as int],
        after_undo(after_undo(m)).slots[x as int] == Some(vx),
        after_undo(after_undo(m)).slots[y as int] == Some(vy),
{
    let q = m.undo_q;
    assert(q[q.len() - 1].key == y);
    assert(valid_key(m, q[q.len() - 1].key as int));
    assert(q[q.len() - 2].key == x);
    assert(valid_key(m, q[q.len() - 2].key as int));
    let m1 = after_undo(m);
    assert(m1.undo_q == m.undo_q.drop_last());
    assert(m1.undo_q.last() == (UndoEntry { key: x, prev: vx }));
}

/// GC sweep: a sweep keeps every slot whose key was seen, with its value
/// intact, drops every slot whose key was not, clears the purged keys'
/// unmount registrations — their tokens having been reported exactly once,
/// in the sweep's return — and opens a fresh generation with an empty
/// seen-set.
pub proof fn lemma_sweep_keeps_exactly_the_seen<T>(m: StoreModel<T>, p1: usize, p2: usize)
    requires
        wf_model(m),
        valid_key(m, p1 as int),
        valid_key(m, p2 as int),
        m.seen[p1 as int],
        !m.seen[p2 as int],
    ensures
        swept_model(m).slots[p1 as int] == m.slots[p1 as int],
        swept_model(m).slots[p2 as int] is None,
        swept_model(m).unmounts[p2 as int] == Seq::<crate::store::UnmountAction>::empty(),
        forall|j: int| 0 <= j < key_count(m) ==> !(#[trigger] swept_model(m).seen[j]),
{
}

/// Removal idempotence: removing an absent slot leaves the store exactly as
/// it was, so a second removal is as safe as the first.
pub proof fn lemma_remove_idempotent<T>(m: StoreModel<T>, k: usize)
    requires
        wf_model(m),
        valid_key(m, k as int),
        m.slots[k as int] is None,
    ensures
        (StoreModel { slots: m.slots.update(k as int, None), ..m }) == m,
{
    assert((StoreModel { slots: m.slots.update(k as int, None), ..m }) =~~= m);
}

/// The sweep's token report is a function of the closing generation alone:
/// stated here so callers may rely on sweeps being reproducible.
pub proof fn lemma_sweep_tokens_deterministic<T>(m1: StoreModel<T>, m2: StoreModel<T>)
    requires
        m1.seen == m2.seen,
        m1.unmounts == m2.unmounts,
        key_count(m1) == key_count(m2),
    ensures
        sweep_tokens(m1, key_count(m1)) == sweep_tokens(m2, key_count(m2)),
{
    lemma_sweep_tokens_eq(m1, m2, key_count(m1));
}

proof fn lemma_sweep_tokens_eq<T>(m1: StoreModel<T>, m2: StoreModel<T>, n: int)
    requires
        m1.seen == m2.seen,
        m1.unmounts == m2.unmounts,
    ensures
        sweep_tokens(m1, n) == sweep_tokens(m2, n),
    decreases n,
{
    if n > 0 {
        lemma_sweep_tokens_eq(m1, m2, n - 1);
    }
}

} // verus!
