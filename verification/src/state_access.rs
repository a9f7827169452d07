//! Typed, copyable handles onto the store: [`StateAccess`] for plain
//! call-site state, [`Atom`] for reactive cells, [`Reaction`] for re-runnable
//! computations, and the accessor traits through which state is read.
//!
//! A handle carries no data, only the identity key of its slot; it stays
//! cheap to copy and safe to keep after its slot is purged — reads then
//! report absence.

use core::marker::PhantomData;
use vstd::prelude::*;

use crate::store::{
    atom_set_outcome, key_count, key_index, or_init, recorded_after_set, valid_key, will_trigger,
    with_dep, with_key_row, ReactionModel, Store, StoreModel, TopoKey, UndoPolicy, UnmountAction,
};

verus! {

use vstd::pervasive::cloned;
use vstd::std_specs::cmp::PartialEqSpec;

/// Accessor struct that provides access to getting and setting the state
/// stored under one identity key.
pub struct StateAccess<T> {
    pub id: TopoKey,
    pub marker: PhantomData<T>,
}

impl<T> Clone for StateAccess<T> {
    fn clone(&self) -> (r: Self)
        ensures
            r == *self,
    {
        StateAccess { id: self.id, marker: PhantomData }
    }
}

impl<T> Copy for StateAccess<T> {

}

impl<T> StateAccess<T> {
    /// Wraps an identity key in a typed handle.
    pub fn new(id: TopoKey) -> (s: StateAccess<T>)
        ensures
            s.id == id,
    {
        StateAccess { id, marker: PhantomData }
    }

    /// Stores `value` in the handle's slot, creating it if absent, and
    /// marks the key as seen.
    pub fn set(&self, store: &mut Store<T>, value: T)
        requires
            old(store).wf(),
            valid_key(old(store)@, self.id.id as int),
        ensures
            final(store).wf(),
            final(store)@ == (StoreModel {
                slots: old(store)@.slots.update(self.id.id as int, Some(value)),
                seen: old(store)@.seen.update(self.id.id as int, true),
                ..old(store)@
            }),
    {
        store.set_state(self.id, value)
    }

    /// Takes the slot's value out of the store; `None`, and no change, when
    /// the slot is already empty — removal is idempotent and never panics.
    pub fn remove(&self, store: &mut Store<T>) -> (r: Option<T>)
        requires
            old(store).wf(),
            valid_key(old(store)@, self.id.id as int),
        ensures
            final(store).wf(),
            r == old(store)@.slots[self.id.id as int],
            final(store)@ == (StoreModel {
                slots: old(store)@.slots.update(self.id.id as int, None),
                ..old(store)@
            }),
    {
        store.remove_state(self.id)
    }

    /// Removes the slot's value, discarding it.
    pub fn delete(&self, store: &mut Store<T>)
        requires
            old(store).wf(),
            valid_key(old(store)@, self.id.id as int),
        ensures
            final(store).wf(),
            final(store)@ == (StoreModel {
                slots: old(store)@.slots.update(self.id.id as int, None),
                ..old(store)@
            }),
    {
        let _ = self.remove(store);
    }

    /// Registers the slot for deletion when its key is unmounted — either
    /// explicitly or by a sweep — and hands the handle back.
    pub fn reset_on_unmount(&self, store: &mut Store<T>) -> (s: Self)
        requires
            old(store).wf(),
            valid_key(old(store)@, self.id.id as int),
        ensures
            final(store).wf(),
            s == *self,
            final(store)@ == (StoreModel {
                unmounts: old(store)@.unmounts.update(
                    self.id.id as int,
                    old(store)@.unmounts[self.id.id as int].push(UnmountAction::ClearSlot),
                ),
                ..old(store)@
            }),
    {
        store.on_unmount(self.id, UnmountAction::ClearSlot);
        *self
    }

    /// Updates the stored state in place using the provided function.  The
    /// caller asserts presence: updating an absent slot is a contract
    /// violation.
    pub fn update<F: FnOnce(T) -> T>(&self, store: &mut Store<T>, f: F)
        requires
            old(store).wf(),
            valid_key(old(store)@, self.id.id as int),
            old(store)@.slots[self.id.id as int] is Some,
            call_requires(f, (old(store)@.slots[self.id.id as int]->0,)),
        ensures
            final(store).wf(),
            exists|y: T|
                {
                    &&& #[trigger] call_ensures(
                        f,
                        (old(store)@.slots[self.id.id as int]->0,),
                        y,
                    )
                    &&& final(store)@ == (StoreModel {
                        slots: old(store)@.slots.update(self.id.id as int, Some(y)),
                        seen: old(store)@.seen.update(self.id.id as int, true),
                        ..old(store)@
                    })
                },
    {
        store.update_with(self.id, f)
    }

    /// Whether the handle's slot currently holds a value.
    pub fn state_exists(&self, store: &Store<T>) -> (r: bool)
        requires
            store.wf(),
        ensures
            r == (valid_key(store@, self.id.id as int) && store@.slots[self.id.id as int]
                is Some),
    {
        store.state_exists(self.id)
    }

    /// Applies `f` to the stored state and returns its result, marking the
    /// key as seen.  The caller asserts presence.
    pub fn get_with<F: FnOnce(&T) -> R, R>(&self, store: &mut Store<T>, f: F) -> (r: R)
        requires
            old(store).wf(),
            valid_key(old(store)@, self.id.id as int),
            old(store)@.slots[self.id.id as int] is Some,
            call_requires(f, (&old(store)@.slots[self.id.id as int]->0,)),
        ensures
            final(store).wf(),
            call_ensures(f, (&old(store)@.slots[self.id.id as int]->0,), r),
            final(store)@ == (StoreModel {
                seen: old(store)@.seen.update(self.id.id as int, true),
                ..old(store)@
            }),
    {
        store.read_with(self.id, f)
    }
}

/// A handle that knows the identity key it addresses; the accessor traits
/// state their contracts through it.
pub trait Keyed {
    /// The addressed key, as an index the model can be asked about.
    spec fn slot_id(&self) -> int;

    /// The addressed key.
    fn key_of(&self) -> (k: TopoKey)
        ensures
            k.id as int == self.slot_id(),
    ;
}

impl<T> Keyed for StateAccess<T> {
    open spec fn slot_id(&self) -> int {
        self.id.id as int
    }

    fn key_of(&self) -> (k: TopoKey) {
        self.id
    }
}

/// Read access that hands out clones of the stored state.
pub trait CloneState<T: Clone>: Keyed {
    /// Returns a clone of the stored state.  The caller asserts presence;
    /// the key is marked as seen.
    fn get(&self, store: &mut Store<T>) -> (r: T)
        requires
            old(store).wf(),
            valid_key(old(store)@, self.slot_id()),
            old(store)@.slots[self.slot_id()] is Some,
        ensures
            final(store).wf(),
            cloned::<T>(old(store)@.slots[self.slot_id()]->0, r),
            final(store)@ == (StoreModel {
                seen: old(store)@.seen.update(self.slot_id(), true),
                ..old(store)@
            }),
    ;

    /// Returns a clone of the stored state, or `None` when the slot is
    /// absent — in which case the store is left untouched.
    fn soft_get(&self, store: &mut Store<T>) -> (r: Option<T>)
        requires
            old(store).wf(),
        ensures
            final(store).wf(),
            r is Some <==> (valid_key(old(store)@, self.slot_id()) && old(store)@.slots[self.slot_id()]
                is Some),
            r is Some ==> cloned::<T>(old(store)@.slots[self.slot_id()]->0, r->0),
            r is Some ==> final(store)@ == (StoreModel {
                seen: old(store)@.seen.update(self.slot_id(), true),
                ..old(store)@
            }),
            r is None ==> final(store)@ == old(store)@,
    ;
}

impl<T: Clone> CloneState<T> for StateAccess<T> {
    fn get(&self, store: &mut Store<T>) -> (r: T) {
        store.clone_state(self.id).unwrap()
    }

    fn soft_get(&self, store: &mut Store<T>) -> (r: Option<T>) {
        store.clone_state(self.id)
    }
}

/// Change detection against the value remembered by the previous probe.
pub trait ChangedState<T: Clone + PartialEq>: Keyed {
    /// Whether the stored state differs from the one remembered by the last
    /// call.  A first call remembers a clone of the current value and
    /// reports a change; later calls compare through `T::eq` and leave the
    /// remembered value as it is.
    fn changed(&self, store: &mut Store<T>) -> (r: bool)
        requires
            old(store).wf(),
            valid_key(old(store)@, self.slot_id()),
            old(store)@.slots[self.slot_id()] is Some,
        ensures
            final(store).wf(),
            old(store)@.changed_prev[self.slot_id()] is None ==> r && exists|c: T|
                #[trigger] cloned::<T>(old(store)@.slots[self.slot_id()]->0, c) && final(store)@
                    == (StoreModel {
                    changed_prev: old(store)@.changed_prev.update(self.slot_id(), Some(c)),
                    seen: old(store)@.seen.update(self.slot_id(), true),
                    ..old(store)@
                }),
            old(store)@.changed_prev[self.slot_id()] is Some ==> {
                &&& (T::obeys_eq_spec() ==> r == !old(store)@.changed_prev[self.slot_id()]
                    ->0.eq_spec(&old(store)@.slots[self.slot_id()]->0))
                &&& final(store)@ == (StoreModel {
                    seen: old(store)@.seen.update(self.slot_id(), true),
                    ..old(store)@
                })
            },
    ;
}

impl<T: Clone + PartialEq> ChangedState<T> for StateAccess<T> {
    fn changed(&self, store: &mut Store<T>) -> (r: bool) {
        store.changed_probe(self.id)
    }
}

/// Reads that participate in dependency tracking: inside a running reaction
/// they record an edge from the observed atom to that reaction.
pub trait Observable<T: Clone>: Keyed {
    /// Returns a clone of the observed state and records the read in the
    /// innermost running reaction.  Requires an active reaction context:
    /// observing outside one is a usage bug the caller must rule out.
    fn observe(&self, store: &mut Store<T>) -> (r: T)
        requires
            old(store).wf(),
            valid_key(old(store)@, self.slot_id()),
            old(store)@.running.len() > 0,
            old(store)@.slots[self.slot_id()] is Some,
        ensures
            final(store).wf(),
            cloned::<T>(old(store)@.slots[self.slot_id()]->0, r),
            final(store)@ == (StoreModel {
                reactions: old(store)@.reactions.update(
                    old(store)@.running.last() as int,
                    Some(
                        ReactionModel {
                            suspended: old(store)@.reactions[old(store)@.running.last() as int]
                                ->0.suspended,
                            deps: with_dep(
                                old(store)@.reactions[old(store)@.running.last() as int]->0.deps,
                                self.slot_id() as usize,
                            ),
                        },
                    ),
                ),
                seen: old(store)@.seen.update(self.slot_id(), true),
                ..old(store)@
            }),
    ;

    /// Returns the previously observed value alongside a fresh clone of the
    /// current one, remembering the latter for the next call.
    fn observe_update(&self, store: &mut Store<T>) -> (r: (Option<T>, T))
        requires
            old(store).wf(),
            valid_key(old(store)@, self.slot_id()),
            old(store)@.slots[self.slot_id()] is Some,
        ensures
            final(store).wf(),
            r.0 == old(store)@.observed_prev[self.slot_id()],
            cloned::<T>(old(store)@.slots[self.slot_id()]->0, r.1),
            final(store)@.observed_prev[self.slot_id()] is Some,
            cloned::<T>(r.1, final(store)@.observed_prev[self.slot_id()]->0),
            final(store)@ == (StoreModel {
                observed_prev: old(store)@.observed_prev.update(
                    self.slot_id(),
                    final(store)@.observed_prev[self.slot_id()],
                ),
                seen: old(store)@.seen.update(self.slot_id(), true),
                ..old(store)@
            }),
    ;

    /// Applies `f` to the observed state.  With a running reaction context
    /// the read is recorded as a dependency edge; without one it is a plain
    /// read with no graph side effects.
    fn observe_with<F: FnOnce(&T) -> R, R>(&self, store: &mut Store<T>, f: F) -> (r: R)
        requires
            old(store).wf(),
            valid_key(old(store)@, self.slot_id()),
            old(store)@.slots[self.slot_id()] is Some,
            call_requires(f, (&old(store)@.slots[self.slot_id()]->0,)),
        ensures
            final(store).wf(),
            call_ensures(f, (&old(store)@.slots[self.slot_id()]->0,), r),
            old(store)@.running.len() == 0 ==> final(store)@ == (StoreModel {
                seen: old(store)@.seen.update(self.slot_id(), true),
                ..old(store)@
            }),
            old(store)@.running.len() > 0 ==> final(store)@ == (StoreModel {
                reactions: old(store)@.reactions.update(
                    old(store)@.running.last() as int,
                    Some(
                        ReactionModel {
                            suspended: old(store)@.reactions[old(store)@.running.last() as int]
                                ->0.suspended,
                            deps: with_dep(
                                old(store)@.reactions[old(store)@.running.last() as int]->0.deps,
                                self.slot_id() as usize,
                            ),
                        },
                    ),
                ),
                seen: old(store)@.seen.update(self.slot_id(), true),
                ..old(store)@
            }),
    ;
}

impl<T: Clone> Observable<T> for StateAccess<T> {
    fn observe(&self, store: &mut Store<T>) -> (r: T) {
        store.observe_key(self.id);
        let r = store.clone_state(self.id);
        proof {
            assert(store@.seen =~= old(store)@.seen.update(self.id.id as int, true));
            assert(store@ =~~= (StoreModel {
                reactions: old(store)@.reactions.update(
                    old(store)@.running.last() as int,
                    Some(
                        ReactionModel {
                            suspended: old(store)@.reactions[old(store)@.running.last() as int]
                                ->0.suspended,
                            deps: with_dep(
                                old(store)@.reactions[old(store)@.running.last() as int]->0.deps,
                                self.id.id,
                            ),
                        },
                    ),
                ),
                seen: old(store)@.seen.update(self.id.id as int, true),
                ..old(store)@
            }));
        }
        r.unwrap()
    }

    fn observe_update(&self, store: &mut Store<T>) -> (r: (Option<T>, T)) {
        store.observe_shift(self.id)
    }

    fn observe_with<F: FnOnce(&T) -> R, R>(&self, store: &mut Store<T>, f: F) -> (r: R) {
        if store.running_depth() > 0 {
            store.observe_key(self.id);
            let r = store.read_with(self.id, f);
            proof {
                assert(store@.seen =~= old(store)@.seen.update(self.id.id as int, true));
                assert(store@ =~~= (StoreModel {
                    reactions: old(store)@.reactions.update(
                        old(store)@.running.last() as int,
                        Some(
                            ReactionModel {
                                suspended: old(store)@.reactions[old(
                                    store,
                                )@.running.last() as int]->0.suspended,
                                deps: with_dep(
                                    old(store)@.reactions[old(store)@.running.last() as int]
                                        ->0.deps,
                                    self.id.id,
                                ),
                            },
                        ),
                    ),
                    seen: old(store)@.seen.update(self.id.id as int, true),
                    ..old(store)@
                }));
            }
            r
        } else {
            store.read_with(self.id, f)
        }
    }
}

/// A reactive cell: a state slot that participates in dependency tracking
/// and, policy permitting, in the global undo queue.
pub struct Atom<T> {
    pub id: TopoKey,
    pub marker: PhantomData<T>,
}

impl<T> Clone for Atom<T> {
    fn clone(&self) -> (r: Self)
        ensures
            r == *self,
    {
        Atom { id: self.id, marker: PhantomData }
    }
}

impl<T> Copy for Atom<T> {

}

impl<T> Keyed for Atom<T> {
    open spec fn slot_id(&self) -> int {
        self.id.id as int
    }

    fn key_of(&self) -> (k: TopoKey) {
        self.id
    }
}

impl<T> Atom<T> {
    /// Writes `value` into the atom, recording the previous value in the
    /// undo queue as the atom's policy directs, and returns the keys of the
    /// reactions the mutation schedules — exactly those with a recorded
    /// dependency on this atom that are not suspended, each once, in
    /// ascending key order.  The caller re-runs each between `begin_run`
    /// and `end_run`.
    pub fn set(&self, store: &mut Store<T>, value: T) -> (affected: Vec<TopoKey>)
        requires
            old(store).wf(),
            valid_key(old(store)@, self.id.id as int),
        ensures
            final(store).wf(),
            atom_set_outcome(old(store)@, final(store)@, self.id.id, value, affected@),
    {
        store.set_atom(self.id, value)
    }

    /// The plain state handle addressing the same slot.
    pub fn state(&self) -> (s: StateAccess<T>)
        ensures
            s.id == self.id,
    {
        StateAccess::new(self.id)
    }
}

impl<T: Clone> Atom<T> {
    /// Replaces the atom's value with `f` applied to a clone of it, with
    /// the same undo record and reaction schedule as `set`.  The caller
    /// asserts presence.
    pub fn update<F: FnOnce(T) -> T>(&self, store: &mut Store<T>, f: F) -> (affected: Vec<
        TopoKey,
    >)
        requires
            old(store).wf(),
            valid_key(old(store)@, self.id.id as int),
            old(store)@.slots[self.id.id as int] is Some,
            forall|c: T|
                cloned::<T>(old(store)@.slots[self.id.id as int]->0, c) ==> call_requires(
                    f,
                    (c,),
                ),
        ensures
            final(store).wf(),
            exists|c: T, y: T|
                #![trigger call_ensures(f, (c,), y)]
                {
                    &&& cloned::<T>(old(store)@.slots[self.id.id as int]->0, c)
                    &&& call_ensures(f, (c,), y)
                    &&& atom_set_outcome(old(store)@, final(store)@, self.id.id, y, affected@)
                },
    {
        let cur = store.clone_state(self.id).unwrap();
        let ghost gcur = cur;
        let ghost mid = store@;
        let y = f(cur);
        let ghost gy = y;
        let affected = store.set_atom(self.id, y);
        proof {
            assert(mid.seen =~= old(store)@.seen.update(self.id.id as int, true));
            assert(store@.seen =~= mid.seen.update(self.id.id as int, true));
            assert(store@.seen =~= old(store)@.seen.update(self.id.id as int, true));
            assert(store@.slots == old(store)@.slots.update(self.id.id as int, Some(gy)));
            assert(recorded_after_set(old(store)@, store@, self.id.id));
            assert forall|r: int| 0 <= r < key_count(old(store)@) implies (affected@.contains(
                TopoKey { id: r as usize },
            ) <==> will_trigger(old(store)@, self.id.id as int, r)) by {
                assert(affected@.contains(TopoKey { id: r as usize }) <==> will_trigger(
                    mid,
                    self.id.id as int,
                    r,
                ));
                assert(will_trigger(mid, self.id.id as int, r) == will_trigger(
                    old(store)@,
                    self.id.id as int,
                    r,
                ));
            }
            assert forall|j: int| 0 <= j < affected@.len() implies will_trigger(
                old(store)@,
                self.id.id as int,
                #[trigger] affected@[j].id as int,
            ) by {
                assert(will_trigger(mid, self.id.id as int, affected@[j].id as int));
            }
            assert(atom_set_outcome(old(store)@, store@, self.id.id, gy, affected@));
            assert(call_ensures(f, (gcur,), gy));
        }
        affected
    }

    /// Observes the atom inside the innermost running reaction, recording
    /// the dependency edge, and returns a clone of its value.
    pub fn observe(&self, store: &mut Store<T>) -> (r: T)
        requires
            old(store).wf(),
            valid_key(old(store)@, self.id.id as int),
            old(store)@.running.len() > 0,
            old(store)@.slots[self.id.id as int] is Some,
        ensures
            final(store).wf(),
            cloned::<T>(old(store)@.slots[self.id.id as int]->0, r),
            final(store)@ == (StoreModel {
                reactions: old(store)@.reactions.update(
                    old(store)@.running.last() as int,
                    Some(
                        ReactionModel {
                            suspended: old(store)@.reactions[old(store)@.running.last() as int]
                                ->0.suspended,
                            deps: with_dep(
                                old(store)@.reactions[old(store)@.running.last() as int]->0.deps,
                                self.id.id,
                            ),
                        },
                    ),
                ),
                seen: old(store)@.seen.update(self.id.id as int, true),
                ..old(store)@
            }),
    {
        store.observe_key(self.id);
        let r = store.clone_state(self.id);
        proof {
            assert(store@.seen =~= old(store)@.seen.update(self.id.id as int, true));
            assert(store@ =~~= (StoreModel {
                reactions: old(store)@.reactions.update(
                    old(store)@.running.last() as int,
                    Some(
                        ReactionModel {
                            suspended: old(store)@.reactions[old(store)@.running.last() as int]
                                ->0.suspended,
                            deps: with_dep(
                                old(store)@.reactions[old(store)@.running.last() as int]->0.deps,
                                self.id.id,
                            ),
                        },
                    ),
                ),
                seen: old(store)@.seen.update(self.id.id as int, true),
                ..old(store)@
            }));
        }
        r.unwrap()
    }

    /// Returns a clone of the atom's value without any graph side effect:
    /// a plain read, marked as seen.  The caller asserts presence.
    pub fn get(&self, store: &mut Store<T>) -> (r: T)
        requires
            old(store).wf(),
            valid_key(old(store)@, self.id.id as int),
            old(store)@.slots[self.id.id as int] is Some,
        ensures
            final(store).wf(),
            cloned::<T>(old(store)@.slots[self.id.id as int]->0, r),
            final(store)@ == (StoreModel {
                seen: old(store)@.seen.update(self.id.id as int, true),
                ..old(store)@
            }),
    {
        store.clone_state(self.id).unwrap()
    }
}

/// A handle naming a registered reaction.
#[derive(Clone, Copy, Debug, PartialEq, Eq, Structural)]
pub struct Reaction {
    pub id: TopoKey,
}

/// Declares the state named by the ambient context path: the slot is filled
/// with `init` unless an earlier visit already did, so re-entrant visits to
/// one logical position share one value.
pub fn new_state<T>(store: &mut Store<T>, init: T) -> (acc: StateAccess<T>)
    requires
        old(store).wf(),
    ensures
        final(store).wf(),
        acc.id.id as int == key_index(old(store)@, old(store)@.ctx),
        valid_key(final(store)@, acc.id.id as int),
        final(store)@.paths[acc.id.id as int] == old(store)@.ctx,
        final(store)@ == (StoreModel {
            slots: with_key_row(old(store)@, old(store)@.ctx).slots.update(
                acc.id.id as int,
                Some(
                    or_init(
                        with_key_row(old(store)@, old(store)@.ctx).slots[acc.id.id as int],
                        init,
                    ),
                ),
            ),
            seen: with_key_row(old(store)@, old(store)@.ctx).seen.update(acc.id.id as int, true),
            ..with_key_row(old(store)@, old(store)@.ctx)
        }),
{
    let k = store.current_key();
    proof {
        assert(store@ == with_key_row(old(store)@, old(store)@.ctx));
        if old(store)@.paths.contains(old(store)@.ctx) {
            let ix = old(store)@.paths.index_of(old(store)@.ctx);
            assert(0 <= ix < old(store)@.paths.len() && old(store)@.paths[ix] == old(store)@.ctx);
            assert(old(store)@.paths[k.id as int] == old(store)@.ctx);
            if k.id as int != ix {
                assert(old(store)@.paths[k.id as int] != old(store)@.paths[ix]);
            }
        }
        assert(k.id as int == key_index(old(store)@, old(store)@.ctx));
    }
    store.get_or_init(k, init);
    StateAccess::new(k)
}

/// Declares the atom named by the stable external key `key`, with no undo
/// history.  A first declaration fills the slot with `init` and fixes the
/// policy; later declarations leave both as they are.
///
/// External keys live in the registry beside single-segment context paths:
/// as with every use of the identity layer, the caller keeps the
/// discriminators it hands out distinct.
pub fn atom<T>(store: &mut Store<T>, key: u64, init: T) -> (a: Atom<T>)
    requires
        old(store).wf(),
    ensures
        final(store).wf(),
        a.id.id as int == key_index(old(store)@, seq![key]),
        valid_key(final(store)@, a.id.id as int),
        final(store)@.paths[a.id.id as int] == seq![key],
        final(store)@ == (StoreModel {
            slots: with_key_row(old(store)@, seq![key]).slots.update(
                a.id.id as int,
                Some(or_init(with_key_row(old(store)@, seq![key]).slots[a.id.id as int], init)),
            ),
            policies: with_key_row(old(store)@, seq![key]).policies.update(
                a.id.id as int,
                Some(
                    or_init(
                        with_key_row(old(store)@, seq![key]).policies[a.id.id as int],
                        UndoPolicy::NoUndo,
                    ),
                ),
            ),
            seen: with_key_row(old(store)@, seq![key]).seen.update(a.id.id as int, true),
            ..with_key_row(old(store)@, seq![key])
        }),
{
    let k = store.ensure_atom(key, UndoPolicy::NoUndo, init);
    Atom { id: k, marker: PhantomData }
}

/// Declares the atom named by `key` with an undo history of at most `depth`
/// records in the global queue.
pub fn atom_undo<T>(store: &mut Store<T>, key: u64, depth: usize, init: T) -> (a: Atom<T>)
    requires
        old(store).wf(),
    ensures
        final(store).wf(),
        a.id.id as int == key_index(old(store)@, seq![key]),
        valid_key(final(store)@, a.id.id as int),
        final(store)@.paths[a.id.id as int] == seq![key],
        final(store)@ == (StoreModel {
            slots: with_key_row(old(store)@, seq![key]).slots.update(
                a.id.id as int,
                Some(or_init(with_key_row(old(store)@, seq![key]).slots[a.id.id as int], init)),
            ),
            policies: with_key_row(old(store)@, seq![key]).policies.update(
                a.id.id as int,
                Some(
                    or_init(
                        with_key_row(old(store)@, seq![key]).policies[a.id.id as int],
                        UndoPolicy::AllowUndo(depth),
                    ),
                ),
            ),
            seen: with_key_row(old(store)@, seq![key]).seen.update(a.id.id as int, true),
            ..with_key_row(old(store)@, seq![key])
        }),
{
    let k = store.ensure_atom(key, UndoPolicy::AllowUndo(depth), init);
    Atom { id: k, marker: PhantomData }
}

/// Declares the reaction named by `key`, active: mutations of atoms it
/// reads schedule it.  A repeated declaration keeps the existing node and
/// its recorded dependencies.
pub fn reaction<T>(store: &mut Store<T>, key: u64) -> (r: Reaction)
    requires
        old(store).wf(),
    ensures
        final(store).wf(),
        r.id.id as int == key_index(old(store)@, seq![key]),
        valid_key(final(store)@, r.id.id as int),
        final(store)@.paths[r.id.id as int] == seq![key],
        final(store)@ == (StoreModel {
            reactions: with_key_row(old(store)@, seq![key]).reactions.update(
                r.id.id as int,
                Some(
                    or_init(
                        with_key_row(old(store)@, seq![key]).reactions[r.id.id as int],
                        ReactionModel { suspended: false, deps: Seq::empty() },
                    ),
                ),
            ),
            seen: with_key_row(old(store)@, seq![key]).seen.update(r.id.id as int, true),
            ..with_key_row(old(store)@, seq![key])
        }),
{
    let k = store.ensure_reaction(key, false);
    Reaction { id: k }
}

/// Declares the reaction named by `key` in the suspended state: it never
/// runs on its own, however its eventual dependencies mutate, until the
/// caller triggers it explicitly; its first manual run establishes its
/// dependency set.
pub fn reaction_start_suspended<T>(store: &mut Store<T>, key: u64) -> (r: Reaction)
    requires
        old(store).wf(),
    ensures
        final(store).wf(),
        r.id.id as int == key_index(old(store)@, seq![key]),
        valid_key(final(store)@, r.id.id as int),
        final(store)@.paths[r.id.id as int] == seq![key],
        final(store)@ == (StoreModel {
            reactions: with_key_row(old(store)@, seq![key]).reactions.update(
                r.id.id as int,
                Some(
                    or_init(
                        with_key_row(old(store)@, seq![key]).reactions[r.id.id as int],
                        ReactionModel { suspended: true, deps: Seq::empty() },
                    ),
                ),
            ),
            seen: with_key_row(old(store)@, seq![key]).seen.update(r.id.id as int, true),
            ..with_key_row(old(store)@, seq![key])
        }),
{
    let k = store.ensure_reaction(key, true);
    Reaction { id: k }
}

} // verus!
