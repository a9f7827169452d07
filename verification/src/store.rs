//! The state store: identity resolution, typed slots, the seen-set that
//! drives garbage collection, unmount bookkeeping, the reaction dependency
//! graph and the global undo queue.
//!
//! A [`Store<T>`] holds every slot of one stored type `T`.  Slots of distinct
//! types live in distinct stores, so a key can never be read at a type other
//! than the one it was written at.  All operations are specified against the
//! mathematical model [`StoreModel`], reachable through `store@`.

use vstd::prelude::*;

verus! {

use vstd::std_specs::cmp::PartialEqSpec;

/// Identity of one logical slot: an index into the store's path registry.
///
/// Keys are handed out by [`Store::key_for_path`] and stay valid for the
/// store's whole lifetime; a sweep empties a slot but never reuses its key
/// for a different path.
#[derive(Clone, Copy, Debug, PartialEq, Eq, Structural)]
pub struct TopoKey {
    pub id: usize,
}

/// What to do when the key an entry is registered against is unmounted.
pub enum UnmountAction {
    /// Empty the slot stored at the registration key itself.
    ClearSlot,
    /// Report the carried token to the caller, who runs the matching
    /// callback; the store itself never holds code.
    Notify(u64),
}

/// Undo policy of an atom.
pub enum UndoPolicy {
    /// Mutations are not recorded.
    NoUndo,
    /// Keep at most this many queued records for the atom; the oldest record
    /// is dropped when a new mutation would exceed the bound.
    AllowUndo(usize),
}

/// One entry of the global undo queue: the value `prev` that the atom at
/// `key` held before the recorded mutation.
pub struct UndoEntry<T> {
    pub key: usize,
    pub prev: T,
}

/// A reaction node: its activation flag and the atom keys it read during its
/// most recent run.
pub(crate) struct ReactionData {
    pub(crate) suspended: bool,
    pub(crate) deps: Vec<usize>,
}

/// Spec-level image of a reaction node.
#[verifier::ext_equal]
pub struct ReactionModel {
    pub suspended: bool,
    pub deps: Seq<usize>,
}

/// The mathematical model of a [`Store`].  All indexable collections are
/// parallel to the path registry: index `k` describes the slot, seen flag,
/// unmount registrations, reaction node and undo policy of key `k`.
#[verifier::ext_equal]
pub struct StoreModel<T> {
    /// Registry of resolved call paths; the index of a path is its key.
    pub paths: Seq<Seq<u64>>,
    /// The ambient call-path context, grown by `enter` and shrunk by `exit`.
    pub ctx: Seq<u64>,
    /// Slot contents per key; `None` is an absent slot.
    pub slots: Seq<Option<T>>,
    /// Keys touched since the last sweep.
    pub seen: Seq<bool>,
    /// Unmount registrations per key, in registration order.
    pub unmounts: Seq<Seq<UnmountAction>>,
    /// Reaction node per key, for keys that name a reaction.
    pub reactions: Seq<Option<ReactionModel>>,
    /// Stack of keys of the reactions currently running, innermost last.
    pub running: Seq<usize>,
    /// Undo policy per key, for keys that name an atom.
    pub policies: Seq<Option<UndoPolicy>>,
    /// The global undo queue, oldest record first.
    pub undo_q: Seq<UndoEntry<T>>,
    /// Per-key cache of the value most recently reported by `changed`.
    pub changed_prev: Seq<Option<T>>,
    /// Per-key cache of the value most recently reported by `observe_update`.
    pub observed_prev: Seq<Option<T>>,
}

/// Number of keys the store has resolved so far.
pub open spec fn key_count<T>(m: StoreModel<T>) -> int {
    m.paths.len() as int
}

/// Key `k` is one this store has handed out.
pub open spec fn valid_key<T>(m: StoreModel<T>, k: int) -> bool {
    0 <= k < key_count(m)
}

/// Well-formedness of the model: the parallel collections agree in length,
/// resolved paths are pairwise distinct, and every key stored inside the
/// bookkeeping structures is a resolved key.
pub open spec fn wf_model<T>(m: StoreModel<T>) -> bool {
    let n = key_count(m);
    &&& m.slots.len() == n
    &&& m.seen.len() == n
    &&& m.unmounts.len() == n
    &&& m.reactions.len() == n
    &&& m.policies.len() == n
    &&& m.changed_prev.len() == n
    &&& m.observed_prev.len() == n
    &&& forall|i: int, j: int| 0 <= i < j < n ==> m.paths[i] != m.paths[j]
    &&& forall|i: int| 0 <= i < m.undo_q.len() ==> valid_key(m, #[trigger] m.undo_q[i].key as int)
    &&& forall|i: int|
        0 <= i < m.running.len() ==> {
            &&& valid_key(m, #[trigger] m.running[i] as int)
            &&& m.reactions[m.running[i] as int] is Some
        }
    &&& forall|r: int|
        0 <= r < n && #[trigger] m.reactions[r] is Some ==> forall|d: int|
            0 <= d < m.reactions[r]->0.deps.len() ==> valid_key(
                m,
                #[trigger] m.reactions[r]->0.deps[d] as int,
            )
}

/// The store after resolving path `p`: unchanged when `p` is already
/// registered, otherwise extended by one fresh, empty row.
pub open spec fn with_key_row<T>(m: StoreModel<T>, p: Seq<u64>) -> StoreModel<T> {
    if m.paths.contains(p) {
        m
    } else {
        StoreModel {
            paths: m.paths.push(p),
            slots: m.slots.push(None),
            seen: m.seen.push(false),
            unmounts: m.unmounts.push(Seq::empty()),
            reactions: m.reactions.push(None),
            policies: m.policies.push(None),
            changed_prev: m.changed_prev.push(None),
            observed_prev: m.observed_prev.push(None),
            ..m
        }
    }
}

/// The key that resolving path `p` yields.
pub open spec fn key_index<T>(m: StoreModel<T>, p: Seq<u64>) -> int {
    if m.paths.contains(p) {
        m.paths.index_of(p)
    } else {
        key_count(m)
    }
}

/// How many of the first `n` undo records belong to the atom at key `a`.
pub open spec fn undo_count<T>(q: Seq<UndoEntry<T>>, a: usize, n: int) -> int
    decreases n,
{
    if n <= 0 {
        0
    } else {
        undo_count(q, a, n - 1) + if q[n - 1].key == a {
            1int
        } else {
            0int
        }
    }
}

/// The undo queue `q2` records entry `e` on top of `q` under bound `bound`:
/// with no room at all nothing is recorded; under the bound `e` is appended;
/// at the bound the oldest record of the same atom makes way first.
pub open spec fn recorded_entry<T>(
    q: Seq<UndoEntry<T>>,
    q2: Seq<UndoEntry<T>>,
    e: UndoEntry<T>,
    bound: int,
) -> bool {
    if bound <= 0 {
        q2 == q
    } else if undo_count(q, e.key, q.len() as int) < bound {
        q2 == q.push(e)
    } else {
        exists|i: int|
            {
                &&& 0 <= i < q.len()
                &&& q[i].key == e.key
                &&& (forall|j: int| 0 <= j < i ==> q[j].key != e.key)
                &&& q2 == q.remove(i).push(e)
            }
    }
}

/// Relates the undo queues before and after a mutation of the atom at key
/// `a`: a record of the previous value is kept exactly when the atom allows
/// undo and actually held a value.
pub open spec fn recorded_after_set<T>(pre: StoreModel<T>, post: StoreModel<T>, a: usize) -> bool {
    match pre.policies[a as int] {
        Some(UndoPolicy::AllowUndo(bound)) => match pre.slots[a as int] {
            Some(prev) => recorded_entry(
                pre.undo_q,
                post.undo_q,
                UndoEntry { key: a, prev },
                bound as int,
            ),
            None => post.undo_q == pre.undo_q,
        },
        _ => post.undo_q == pre.undo_q,
    }
}

/// Everything `set_atom` promises, gathered for callers that layer on top
/// of it: the slot and seen-set updates, the untouched rest of the store,
/// the undo record, and the exact schedule of affected reactions.
pub open spec fn atom_set_outcome<T>(
    pre: StoreModel<T>,
    post: StoreModel<T>,
    a: usize,
    value: T,
    affected: Seq<TopoKey>,
) -> bool {
    &&& post.slots == pre.slots.update(a as int, Some(value))
    &&& post.seen == pre.seen.update(a as int, true)
    &&& post.paths == pre.paths
    &&& post.ctx == pre.ctx
    &&& post.unmounts == pre.unmounts
    &&& post.reactions == pre.reactions
    &&& post.running == pre.running
    &&& post.policies == pre.policies
    &&& post.changed_prev == pre.changed_prev
    &&& post.observed_prev == pre.observed_prev
    &&& recorded_after_set(pre, post, a)
    &&& forall|j1: int, j2: int|
        0 <= j1 < j2 < affected.len() ==> affected[j1].id < affected[j2].id
    &&& forall|r: int|
        0 <= r < key_count(pre) ==> (affected.contains(TopoKey { id: r as usize })
            <==> will_trigger(pre, a as int, r))
    &&& forall|j: int|
        0 <= j < affected.len() ==> will_trigger(pre, a as int, #[trigger] affected[j].id as int)
}

/// The store after one `undo`: the youngest record leaves the queue and its
/// value returns to its atom's slot; an empty queue changes nothing.
pub open spec fn after_undo<T>(m: StoreModel<T>) -> StoreModel<T> {
    if m.undo_q.len() == 0 {
        m
    } else {
        StoreModel {
            slots: m.slots.update(m.undo_q.last().key as int, Some(m.undo_q.last().prev)),
            seen: m.seen.update(m.undo_q.last().key as int, true),
            undo_q: m.undo_q.drop_last(),
            ..m
        }
    }
}

/// The reaction at key `r` would be scheduled by a mutation of the atom at
/// key `a`: the node exists, is not suspended, and recorded a read of `a`.
pub open spec fn will_trigger<T>(m: StoreModel<T>, a: int, r: int) -> bool {
    &&& valid_key(m, r)
    &&& m.reactions[r] is Some
    &&& !m.reactions[r]->0.suspended
    &&& m.reactions[r]->0.deps.contains(a as usize)
}

/// The value a slot holds after `get_or_init`: the current one when the slot
/// is occupied, otherwise the supplied initializer.
pub open spec fn or_init<T>(cur: Option<T>, init: T) -> T {
    match cur {
        Some(v) => v,
        None => init,
    }
}

/// The tokens of the `Notify` actions among the first `n` registrations, in
/// registration order.
pub open spec fn notify_prefix(acts: Seq<UnmountAction>, n: int) -> Seq<u64>
    decreases n,
{
    if n <= 0 {
        Seq::empty()
    } else {
        notify_prefix(acts, n - 1) + (match acts[n - 1] {
            UnmountAction::Notify(t) => seq![t],
            UnmountAction::ClearSlot => Seq::empty(),
        })
    }
}

/// The tokens of all `Notify` actions in `acts`, in registration order.
pub open spec fn notify_tokens(acts: Seq<UnmountAction>) -> Seq<u64> {
    notify_prefix(acts, acts.len() as int)
}

/// One of the first `n` registrations asks for the slot to be cleared.
pub open spec fn clear_in_prefix(acts: Seq<UnmountAction>, n: int) -> bool {
    exists|i: int| 0 <= i < n && acts[i] is ClearSlot
}

/// Some registration in `acts` asks for the slot to be cleared.
pub open spec fn has_clear(acts: Seq<UnmountAction>) -> bool {
    clear_in_prefix(acts, acts.len() as int)
}

/// A dependency edge from the atom at key `d` survives a sweep exactly when
/// `d` was seen in the closing generation.
pub open spec fn dep_kept(seen: Seq<bool>, d: usize) -> bool {
    0 <= (d as int) < seen.len() && seen[d as int]
}

/// The first `n` recorded dependencies of a reaction, restricted to atoms
/// seen in the closing generation, in recording order.
pub open spec fn kept_deps(deps: Seq<usize>, seen: Seq<bool>, n: int) -> Seq<usize>
    decreases n,
{
    if n <= 0 {
        Seq::empty()
    } else {
        kept_deps(deps, seen, n - 1) + (if dep_kept(seen, deps[n - 1]) {
            seq![deps[n - 1]]
        } else {
            Seq::empty()
        })
    }
}

/// The reaction node at a surviving key after a sweep: the node itself with
/// edges from unseen atoms pruned.
pub open spec fn swept_reaction(r: Option<ReactionModel>, seen: Seq<bool>) -> Option<
    ReactionModel,
> {
    match r {
        Some(rm) => Some(
            ReactionModel {
                suspended: rm.suspended,
                deps: kept_deps(rm.deps, seen, rm.deps.len() as int),
            },
        ),
        None => None,
    }
}

/// The tokens reported while sweeping the first `n` keys: the `Notify`
/// registrations of every unseen key, in key order.
pub open spec fn sweep_tokens<T>(m: StoreModel<T>, n: int) -> Seq<u64>
    decreases n,
{
    if n <= 0 {
        Seq::empty()
    } else {
        sweep_tokens(m, n - 1) + (if !m.seen[n - 1] {
            notify_tokens(m.unmounts[n - 1])
        } else {
            Seq::empty()
        })
    }
}

/// The store after a sweep: every key unseen in the closing generation loses
/// its slot, unmount registrations, reaction node, undo policy and caches;
/// surviving reactions lose their edges from unseen atoms; and the seen-set
/// is cleared for the next generation.
pub open spec fn swept_model<T>(m: StoreModel<T>) -> StoreModel<T> {
    let n = key_count(m);
    StoreModel {
        slots: Seq::new(n as nat, |i: int| if m.seen[i] { m.slots[i] } else { None }),
        seen: Seq::new(n as nat, |i: int| false),
        unmounts: Seq::new(
            n as nat,
            |i: int| if m.seen[i] { m.unmounts[i] } else { Seq::empty() },
        ),
        reactions: Seq::new(
            n as nat,
            |i: int| if m.seen[i] { swept_reaction(m.reactions[i], m.seen) } else { None },
        ),
        policies: Seq::new(n as nat, |i: int| if m.seen[i] { m.policies[i] } else { None }),
        changed_prev: Seq::new(
            n as nat,
            |i: int| if m.seen[i] { m.changed_prev[i] } else { None },
        ),
        observed_prev: Seq::new(
            n as nat,
            |i: int| if m.seen[i] { m.observed_prev[i] } else { None },
        ),
        ..m
    }
}

spec fn reaction_model(r: Option<ReactionData>) -> Option<ReactionModel> {
    match r {
        Some(d) => Some(ReactionModel { suspended: d.suspended, deps: d.deps@ }),
        None => None,
    }
}

/// The state store and reaction engine.  See the crate documentation for the
/// overall picture; each operation's contract is stated over `self@`.
pub struct Store<T> {
    paths: Vec<Vec<u64>>,
    ctx: Vec<u64>,
    slots: Vec<Option<T>>,
    seen: Vec<bool>,
    unmounts: Vec<Vec<UnmountAction>>,
    reactions: Vec<Option<ReactionData>>,
    running: Vec<usize>,
    policies: Vec<Option<UndoPolicy>>,
    undo_q: Vec<UndoEntry<T>>,
    changed_prev: Vec<Option<T>>,
    observed_prev: Vec<Option<T>>,
}

impl<T> View for Store<T> {
    type V = StoreModel<T>;

    closed spec fn view(&self) -> StoreModel<T> {
        StoreModel {
            paths: self.paths@.map_values(|p: Vec<u64>| p@),
            ctx: self.ctx@,
            slots: self.slots@,
            seen: self.seen@,
            unmounts: self.unmounts@.map_values(|u: Vec<UnmountAction>| u@),
            reactions: self.reactions@.map_values(|r: Option<ReactionData>| reaction_model(r)),
            running: self.running@,
            policies: self.policies@,
            undo_q: self.undo_q@,
            changed_prev: self.changed_prev@,
            observed_prev: self.observed_prev@,
        }
    }
}

impl<T> Store<T> {
    /// Well-formedness, the invariant every operation requires and keeps.
    pub open spec fn wf(&self) -> bool {
        wf_model(self@)
    }

    /// Creates an empty store: no resolved keys, root context, nothing
    /// running, nothing recorded.
    pub fn new() -> (s: Store<T>)
        ensures
            s.wf(),
            key_count(s@) == 0,
            s@.ctx == Seq::<u64>::empty(),
            s@.running == Seq::<usize>::empty(),
            s@.undo_q == Seq::<UndoEntry<T>>::empty(),
    {
        let s = Store {
            paths: Vec::new(),
            ctx: Vec::new(),
            slots: Vec::new(),
            seen: Vec::new(),
            unmounts: Vec::new(),
            reactions: Vec::new(),
            running: Vec::new(),
            policies: Vec::new(),
            undo_q: Vec::new(),
            changed_prev: Vec::new(),
            observed_prev: Vec::new(),
        };
        proof {
            assert(s@.paths =~= Seq::<Seq<u64>>::empty());
            assert(s@.unmounts =~= Seq::<Seq<UnmountAction>>::empty());
            assert(s@.reactions =~= Seq::<Option<ReactionModel>>::empty());
        }
        s
    }

    /// Enters a nested call scope named by `discriminator`, extending the
    /// ambient context path.
    pub fn enter(&mut self, discriminator: u64)
        requires
            old(self).wf(),
        ensures
            final(self).wf(),
            final(self)@ == (StoreModel { ctx: old(self)@.ctx.push(discriminator), ..old(self)@ }),
    {
        self.ctx.push(discriminator);
        proof {
            assert(self@ =~= (StoreModel { ctx: old(self)@.ctx.push(discriminator), ..old(self)@ }));
        }
    }

    /// Leaves the innermost call scope, restoring the enclosing context.
    pub fn exit(&mut self)
        requires
            old(self).wf(),
            old(self)@.ctx.len() > 0,
        ensures
            final(self).wf(),
            final(self)@ == (StoreModel { ctx: old(self)@.ctx.drop_last(), ..old(self)@ }),
    {
        self.ctx.pop();
        proof {
            assert(self@ =~= (StoreModel { ctx: old(self)@.ctx.drop_last(), ..old(self)@ }));
        }
    }

    /// Resolves `path` to its key, registering the path on first sight.
    ///
    /// Resolution is deterministic: a path already in the registry maps to
    /// its existing index and the store is untouched; a new path is appended
    /// and every parallel collection grows by one empty cell.  Distinct
    /// paths therefore never share a key.
    pub fn key_for_path(&mut self, path: &Vec<u64>) -> (k: TopoKey)
        requires
            old(self).wf(),
        ensures
            final(self).wf(),
            valid_key(final(self)@, k.id as int),
            final(self)@.paths[k.id as int] == path@,
            old(self)@.paths.contains(path@) ==> final(self)@ == old(self)@
                && old(self)@.paths[k.id as int] == path@,
            !old(self)@.paths.contains(path@) ==> {
                &&& k.id == key_count(old(self)@)
                &&& final(self)@ == (StoreModel {
                    paths: old(self)@.paths.push(path@),
                    slots: old(self)@.slots.push(None),
                    seen: old(self)@.seen.push(false),
                    unmounts: old(self)@.unmounts.push(Seq::empty()),
                    reactions: old(self)@.reactions.push(None),
                    policies: old(self)@.policies.push(None),
                    changed_prev: old(self)@.changed_prev.push(None),
                    observed_prev: old(self)@.observed_prev.push(None),
                    ..old(self)@
                })
            },
    {
        let n = self.paths.len();
        let mut i: usize = 0;
        while i < n
            invariant
                self.wf(),
                n == key_count(self@),
                i <= n,
                forall|j: int| 0 <= j < i ==> self@.paths[j] != path@,
            decreases n - i,
        {
            if &self.paths[i] == path {
                assert(self@.paths[i as int] == path@);
                return TopoKey { id: i };
            }
            assert(self@.paths[i as int] != path@);
            i += 1;
        }
        assert(!self@.paths.contains(path@));
        let mut copy: Vec<u64> = Vec::new();
        let mut j: usize = 0;
        while j < path.len()
            invariant
                j <= path@.len(),
                copy@ == path@.take(j as int),
            decreases path@.len() - j,
        {
            copy.push(path[j]);
            proof {
                assert(copy@ =~= path@.take(j + 1));
            }
            j += 1;
        }
        proof {
            assert(copy@ =~= path@);
        }
        let ghost pre = self@;
        self.paths.push(copy);
        self.slots.push(None);
        self.seen.push(false);
        self.unmounts.push(Vec::new());
        self.reactions.push(None);
        self.policies.push(None);
        self.changed_prev.push(None);
        self.observed_prev.push(None);
        proof {
            assert(self@ =~= (StoreModel {
                paths: pre.paths.push(path@),
                slots: pre.slots.push(None),
                seen: pre.seen.push(false),
                unmounts: pre.unmounts.push(Seq::empty()),
                reactions: pre.reactions.push(None),
                policies: pre.policies.push(None),
                changed_prev: pre.changed_prev.push(None),
                observed_prev: pre.observed_prev.push(None),
                ..pre
            }));
        }
        TopoKey { id: n }
    }

    /// Resolves the ambient context path itself to a key: the identity of
    /// state declared "here".
    pub fn current_key(&mut self) -> (k: TopoKey)
        requires
            old(self).wf(),
        ensures
            final(self).wf(),
            final(self)@.ctx == old(self)@.ctx,
            valid_key(final(self)@, k.id as int),
            final(self)@.paths[k.id as int] == old(self)@.ctx,
            old(self)@.paths.contains(old(self)@.ctx) ==> final(self)@ == old(self)@,
            !old(self)@.paths.contains(old(self)@.ctx) ==> {
                &&& k.id == key_count(old(self)@)
                &&& final(self)@ == (StoreModel {
                    paths: old(self)@.paths.push(old(self)@.ctx),
                    slots: old(self)@.slots.push(None),
                    seen: old(self)@.seen.push(false),
                    unmounts: old(self)@.unmounts.push(Seq::empty()),
                    reactions: old(self)@.reactions.push(None),
                    policies: old(self)@.policies.push(None),
                    changed_prev: old(self)@.changed_prev.push(None),
                    observed_prev: old(self)@.observed_prev.push(None),
                    ..old(self)@
                })
            },
    {
        let p = clone_path(&self.ctx);
        self.key_for_path(&p)
    }

    /// Marks `k` as touched in the current generation.
    fn mark_seen(&mut self, k: TopoKey)
        requires
            old(self).wf(),
            valid_key(old(self)@, k.id as int),
        ensures
            final(self).wf(),
            final(self)@ == (StoreModel {
                seen: old(self)@.seen.update(k.id as int, true),
                ..old(self)@
            }),
    {
        self.seen[k.id] = true;
        proof {
            assert(self@ =~= (StoreModel {
                seen: old(self)@.seen.update(k.id as int, true),
                ..old(self)@
            }));
        }
    }

    /// Fills the slot at `k` with `init` unless it already holds a value,
    /// and marks `k` as seen.  The slot's existing value always survives:
    /// this is what makes re-entrant visits to one position see one state.
    pub fn get_or_init(&mut self, k: TopoKey, init: T)
        requires
            old(self).wf(),
            valid_key(old(self)@, k.id as int),
        ensures
            final(self).wf(),
            final(self)@ == (StoreModel {
                slots: old(self)@.slots.update(
                    k.id as int,
                    Some(or_init(old(self)@.slots[k.id as int], init)),
                ),
                seen: old(self)@.seen.update(k.id as int, true),
                ..old(self)@
            }),
    {
        if self.slots[k.id].is_none() {
            self.slots[k.id] = Some(init);
        }
        self.seen[k.id] = true;
        proof {
            assert(self@ =~= (StoreModel {
                slots: old(self)@.slots.update(
                    k.id as int,
                    Some(or_init(old(self)@.slots[k.id as int], init)),
                ),
                seen: old(self)@.seen.update(k.id as int, true),
                ..old(self)@
            }));
        }
    }

    /// Stores `value` at `k`, creating the slot if absent, and marks `k` as
    /// seen.
    pub fn set_state(&mut self, k: TopoKey, value: T)
        requires
            old(self).wf(),
            valid_key(old(self)@, k.id as int),
        ensures
            final(self).wf(),
            final(self)@ == (StoreModel {
                slots: old(self)@.slots.update(k.id as int, Some(value)),
                seen: old(self)@.seen.update(k.id as int, true),
                ..old(self)@
            }),
    {
        self.slots[k.id] = Some(value);
        self.seen[k.id] = true;
        proof {
            assert(self@ =~= (StoreModel {
                slots: old(self)@.slots.update(k.id as int, Some(value)),
                seen: old(self)@.seen.update(k.id as int, true),
                ..old(self)@
            }));
        }
    }

    /// Takes the value at `k` out of the store.  Removing from an absent or
    /// already-removed slot returns `None` and changes nothing, so removal
    /// is idempotent and never fails.
    pub fn remove_state(&mut self, k: TopoKey) -> (r: Option<T>)
        requires
            old(self).wf(),
            valid_key(old(self)@, k.id as int),
        ensures
            final(self).wf(),
            r == old(self)@.slots[k.id as int],
            final(self)@ == (StoreModel {
                slots: old(self)@.slots.update(k.id as int, None),
                ..old(self)@
            }),
    {
        let cell = &mut self.slots[k.id];
        let r = cell.take();
        proof {
            assert(self@ =~= (StoreModel {
                slots: old(self)@.slots.update(k.id as int, None),
                ..old(self)@
            }));
        }
        r
    }

    /// Whether the slot at `k` currently holds a value.  A key outside this
    /// store's registry addresses no slot.
    pub fn state_exists(&self, k: TopoKey) -> (r: bool)
        requires
            self.wf(),
        ensures
            r == (valid_key(self@, k.id as int) && self@.slots[k.id as int] is Some),
    {
        k.id < self.slots.len() && self.slots[k.id].is_some()
    }

    /// Applies `f` to the value stored at `k` and returns its result,
    /// marking `k` as seen.  The caller asserts presence: reading an absent
    /// slot is a contract violation of the convenience accessor.
    pub fn read_with<F: FnOnce(&T) -> R, R>(&mut self, k: TopoKey, f: F) -> (r: R)
        requires
            old(self).wf(),
            valid_key(old(self)@, k.id as int),
            old(self)@.slots[k.id as int] is Some,
            call_requires(f, (&old(self)@.slots[k.id as int]->0,)),
        ensures
            final(self).wf(),
            final(self)@ == (StoreModel {
                seen: old(self)@.seen.update(k.id as int, true),
                ..old(self)@
            }),
            call_ensures(f, (&old(self)@.slots[k.id as int]->0,), r),
    {
        self.seen[k.id] = true;
        proof {
            assert(self@ =~= (StoreModel {
                seen: old(self)@.seen.update(k.id as int, true),
                ..old(self)@
            }));
        }
        let v = self.slots[k.id].as_ref().unwrap();
        f(v)
    }

    /// Replaces the value at `k` with `f` applied to it, marking `k` as
    /// seen.  As with `read_with`, the caller asserts presence.
    pub fn update_with<F: FnOnce(T) -> T>(&mut self, k: TopoKey, f: F)
        requires
            old(self).wf(),
            valid_key(old(self)@, k.id as int),
            old(self)@.slots[k.id as int] is Some,
            call_requires(f, (old(self)@.slots[k.id as int]->0,)),
        ensures
            final(self).wf(),
            exists|y: T|
                {
                    &&& #[trigger] call_ensures(f, (old(self)@.slots[k.id as int]->0,), y)
                    &&& final(self)@ == (StoreModel {
                        slots: old(self)@.slots.update(k.id as int, Some(y)),
                        seen: old(self)@.seen.update(k.id as int, true),
                        ..old(self)@
                    })
                },
    {
        let cell = &mut self.slots[k.id];
        let v = cell.take().unwrap();
        let y = f(v);
        self.slots[k.id] = Some(y);
        self.seen[k.id] = true;
        proof {
            assert(self@ =~= (StoreModel {
                slots: old(self)@.slots.update(k.id as int, Some(y)),
                seen: old(self)@.seen.update(k.id as int, true),
                ..old(self)@
            }));
        }
    }
    /// Registers an unmount action against key `k`, to run when that key is
    /// explicitly unmounted or purged by a sweep.
    pub fn on_unmount(&mut self, k: TopoKey, action: UnmountAction)
        requires
            old(self).wf(),
            valid_key(old(self)@, k.id as int),
        ensures
            final(self).wf(),
            final(self)@ == (StoreModel {
                unmounts: old(self)@.unmounts.update(
                    k.id as int,
                    old(self)@.unmounts[k.id as int].push(action),
                ),
                ..old(self)@
            }),
    {
        let cell = &mut self.unmounts[k.id];
        cell.push(action);
        proof {
            assert(self@.unmounts =~= old(self)@.unmounts.update(
                k.id as int,
                old(self)@.unmounts[k.id as int].push(action),
            ));
            assert(self@ =~= (StoreModel {
                unmounts: old(self)@.unmounts.update(
                    k.id as int,
                    old(self)@.unmounts[k.id as int].push(action),
                ),
                ..old(self)@
            }));
        }
    }

    /// Runs and clears the unmount registrations of key `k`: `ClearSlot`
    /// empties `k`'s slot, and the tokens of all `Notify` registrations are
    /// returned, in registration order, for the caller to dispatch.  Used
    /// when a slot is deleted explicitly rather than by the sweep.
    pub fn execute_and_remove_unmounts(&mut self, k: TopoKey) -> (tokens: Vec<u64>)
        requires
            old(self).wf(),
            valid_key(old(self)@, k.id as int),
        ensures
            final(self).wf(),
            tokens@ == notify_tokens(old(self)@.unmounts[k.id as int]),
            final(self)@ == (StoreModel {
                slots: if has_clear(old(self)@.unmounts[k.id as int]) {
                    old(self)@.slots.update(k.id as int, None)
                } else {
                    old(self)@.slots
                },
                unmounts: old(self)@.unmounts.update(k.id as int, Seq::empty()),
                ..old(self)@
            }),
    {
        let ghost pre = self@;
        let cell = &mut self.unmounts[k.id];
        let mut acts: Vec<UnmountAction> = Vec::new();
        core::mem::swap(cell, &mut acts);
        proof {
            assert(acts@ == pre.unmounts[k.id as int]);
            assert(self@.unmounts =~= pre.unmounts.update(k.id as int, Seq::empty()));
            assert(self@ =~= (StoreModel {
                unmounts: pre.unmounts.update(k.id as int, Seq::empty()),
                ..pre
            }));
        }
        let ghost mid = self@;
        let mut tokens: Vec<u64> = Vec::new();
        let mut j: usize = 0;
        let m = acts.len();
        while j < m
            invariant
                self.wf(),
                m == acts@.len(),
                j <= m,
                wf_model(mid),
                valid_key(mid, k.id as int),
                tokens@ == notify_prefix(acts@, j as int),
                self@ == (StoreModel {
                    slots: if clear_in_prefix(acts@, j as int) {
                        mid.slots.update(k.id as int, None)
                    } else {
                        mid.slots
                    },
                    ..mid
                }),
            decreases m - j,
        {
            let ghost before = self@;
            match &acts[j] {
                UnmountAction::ClearSlot => {
                    self.slots[k.id] = None;
                    proof {
                        assert(self@ =~= (StoreModel {
                            slots: before.slots.update(k.id as int, None),
                            ..before
                        }));
                        assert(self@.slots =~= mid.slots.update(k.id as int, None));
                        assert(clear_in_prefix(acts@, j + 1));
                        assert(tokens@ =~= notify_prefix(acts@, j + 1));
                    }
                },
                UnmountAction::Notify(t) => {
                    tokens.push(*t);
                    proof {
                        assert(clear_in_prefix(acts@, j + 1) == clear_in_prefix(
                            acts@,
                            j as int,
                        ));
                        assert(tokens@ =~= notify_prefix(acts@, j + 1));
                    }
                },
            }
            j += 1;
        }
        proof {
            if !has_clear(pre.unmounts[k.id as int]) {
                assert(self@ =~= (StoreModel {
                    unmounts: pre.unmounts.update(k.id as int, Seq::empty()),
                    ..pre
                }));
            } else {
                assert(self@ =~= (StoreModel {
                    slots: pre.slots.update(k.id as int, None),
                    unmounts: pre.unmounts.update(k.id as int, Seq::empty()),
                    ..pre
                }));
            }
        }
        tokens
    }

    /// The generational sweep, intended to run once per external pass, with
    /// no reaction running.  Every key not touched since the previous sweep
    /// is purged: its slot, unmount registrations, reaction node, undo
    /// policy and caches are dropped, and edges from unseen atoms are pruned
    /// out of surviving reactions.  The `Notify` tokens of the purged keys
    /// are returned, each exactly once, in key order; the seen-set is then
    /// cleared for the next generation.
    pub fn purge_and_reset_unseen_ids(&mut self) -> (tokens: Vec<u64>)
        requires
            old(self).wf(),
            old(self)@.running.len() == 0,
        ensures
            final(self).wf(),
            final(self)@ == swept_model(old(self)@),
            tokens@ == sweep_tokens(old(self)@, key_count(old(self)@)),
    {
        let ghost pre = self@;
        let n = self.paths.len();
        let mut tokens: Vec<u64> = Vec::new();
        let mut i: usize = 0;
        while i < n
            invariant
                self.wf(),
                wf_model(pre),
                pre.running.len() == 0,
                n == key_count(pre),
                i <= n,
                key_count(self@) == n,
                self@.paths == pre.paths,
                self@.ctx == pre.ctx,
                self@.running == pre.running,
                self@.undo_q == pre.undo_q,
                self@.seen == pre.seen,
                tokens@ == sweep_tokens(pre, i as int),
                forall|j: int|
                    0 <= j < n ==> #[trigger] self@.slots[j] == (if j < i && !pre.seen[j] {
                        None
                    } else {
                        pre.slots[j]
                    }),
                forall|j: int|
                    0 <= j < n ==> #[trigger] self@.unmounts[j] == (if j < i && !pre.seen[j] {
                        Seq::<UnmountAction>::empty()
                    } else {
                        pre.unmounts[j]
                    }),
                forall|j: int|
                    0 <= j < n ==> #[trigger] self@.policies[j] == (if j < i && !pre.seen[j] {
                        None
                    } else {
                        pre.policies[j]
                    }),
                forall|j: int|
                    0 <= j < n ==> #[trigger] self@.changed_prev[j] == (if j < i && !pre.seen[j] {
                        None
                    } else {
                        pre.changed_prev[j]
                    }),
                forall|j: int|
                    0 <= j < n ==> #[trigger] self@.observed_prev[j] == (if j < i
                        && !pre.seen[j] {
                        None
                    } else {
                        pre.observed_prev[j]
                    }),
                forall|j: int|
                    0 <= j < n ==> #[trigger] self@.reactions[j] == (if j < i {
                        if pre.seen[j] {
                            swept_reaction(pre.reactions[j], pre.seen)
                        } else {
                            None
                        }
                    } else {
                        pre.reactions[j]
                    }),
            decreases n - i,
        {
            let ghost entry = self@;
            proof {
                assert(entry.unmounts[i as int] == pre.unmounts[i as int]);
                assert(entry.reactions[i as int] == pre.reactions[i as int]);
                assert(entry.slots[i as int] == pre.slots[i as int]);
            }
            if !self.seen[i] {
                self.slots[i] = None;
                self.policies[i] = None;
                self.changed_prev[i] = None;
                self.observed_prev[i] = None;
                self.reactions[i] = None;
                let cell = &mut self.unmounts[i];
                let mut acts: Vec<UnmountAction> = Vec::new();
                core::mem::swap(cell, &mut acts);
                proof {
                    assert(acts@ == entry.unmounts[i as int]);
                    assert(acts@ == pre.unmounts[i as int]);
                    assert(self@.unmounts =~= entry.unmounts.update(i as int, Seq::empty()));
                    assert(self@.reactions =~= entry.reactions.update(i as int, None));
                }
                let m = acts.len();
                let mut j2: usize = 0;
                while j2 < m
                    invariant
                        m == acts@.len(),
                        j2 <= m,
                        tokens@ == sweep_tokens(pre, i as int) + notify_prefix(
                            acts@,
                            j2 as int,
                        ),
                    decreases m - j2,
                {
                    match &acts[j2] {
                        UnmountAction::Notify(t) => {
                            tokens.push(*t);
                            proof {
                                assert(tokens@ =~= sweep_tokens(pre, i as int)
                                    + notify_prefix(acts@, j2 + 1));
                            }
                        },
                        UnmountAction::ClearSlot => {
                            proof {
                                assert(tokens@ =~= sweep_tokens(pre, i as int)
                                    + notify_prefix(acts@, j2 + 1));
                            }
                        },
                    }
                    j2 += 1;
                }
                proof {
                    assert(tokens@ =~= sweep_tokens(pre, i + 1));
                }
            } else {
                let cell = &mut self.reactions[i];
                let node_opt = cell.take();
                match node_opt {
                    Some(node) => {
                        proof {
                            assert(reaction_model(Some(node)) == entry.reactions[i as int]);
                            assert(reaction_model(Some(node)) == pre.reactions[i as int]);
                        }
                        let mut nd: Vec<usize> = Vec::new();
                        let dl = node.deps.len();
                        let mut q: usize = 0;
                        while q < dl
                            invariant
                                dl == node.deps@.len(),
                                q <= dl,
                                self@.seen == pre.seen,
                                nd@ == kept_deps(node.deps@, pre.seen, q as int),
                            decreases dl - q,
                        {
                            let d = node.deps[q];
                            if d < self.seen.len() && self.seen[d] {
                                nd.push(d);
                                proof {
                                    assert(nd@ =~= kept_deps(node.deps@, pre.seen, q + 1));
                                }
                            } else {
                                proof {
                                    assert(nd@ =~= kept_deps(node.deps@, pre.seen, q + 1));
                                }
                            }
                            q += 1;
                        }
                        let ghost ndv = nd@;
                        proof {
                            lemma_kept_deps_elems(node.deps@, pre.seen, dl as int);
                        }
                        self.reactions[i] = Some(
                            ReactionData { suspended: node.suspended, deps: nd },
                        );
                        proof {
                            assert(self@.reactions[i as int] == swept_reaction(
                                pre.reactions[i as int],
                                pre.seen,
                            ));
                            assert(self@.reactions =~= entry.reactions.update(
                                i as int,
                                swept_reaction(pre.reactions[i as int], pre.seen),
                            ));
                            assert forall|d: int| 0 <= d < ndv.len() implies valid_key(
                                self@,
                                #[trigger] ndv[d] as int,
                            ) by {
                                assert(dep_kept(pre.seen, ndv[d]));
                            }
                        }
                    },
                    None => {
                        proof {
                            assert(self@.reactions =~= entry.reactions);
                        }
                    },
                }
                proof {
                    assert(tokens@ =~= sweep_tokens(pre, i + 1));
                }
            }
            i += 1;
        }
        let ghost after_purge = self@;
        let mut b: usize = 0;
        while b < n
            invariant
                self.wf(),
                wf_model(after_purge),
                key_count(self@) == n,
                n == after_purge.seen.len(),
                self@.seen.len() == n,
                b <= n,
                self@ == (StoreModel { seen: self@.seen, ..after_purge }),
                forall|j: int| 0 <= j < b ==> !(#[trigger] self@.seen[j]),
                forall|j: int| b <= j < n ==> #[trigger] self@.seen[j] == after_purge.seen[j],
            decreases n - b,
        {
            self.seen[b] = false;
            proof {
                assert(self@ =~= (StoreModel { seen: self@.seen, ..after_purge }));
            }
            b += 1;
        }
        proof {
            assert(self@ =~~= swept_model(pre));
        }
        tokens
    }

    /// Resolves the reaction named `key` and makes sure a node exists for
    /// it: a first registration creates the node, suspended or active as
    /// asked; a repeated registration keeps the existing node — and its
    /// recorded dependencies — untouched.
    pub(crate) fn ensure_reaction(&mut self, key: u64, suspended: bool) -> (k: TopoKey)
        requires
            old(self).wf(),
        ensures
            final(self).wf(),
            k.id as int == key_index(old(self)@, seq![key]),
            valid_key(final(self)@, k.id as int),
            final(self)@.paths[k.id as int] == seq![key],
            final(self)@ == (StoreModel {
                reactions: with_key_row(old(self)@, seq![key]).reactions.update(
                    k.id as int,
                    Some(
                        or_init(
                            with_key_row(old(self)@, seq![key]).reactions[k.id as int],
                            ReactionModel { suspended, deps: Seq::empty() },
                        ),
                    ),
                ),
                seen: with_key_row(old(self)@, seq![key]).seen.update(k.id as int, true),
                ..with_key_row(old(self)@, seq![key])
            }),
    {
        let ghost pre = self@;
        let mut p: Vec<u64> = Vec::new();
        p.push(key);
        proof {
            assert(p@ =~= seq![key]);
        }
        let k = self.key_for_path(&p);
        proof {
            assert(self@ == with_key_row(pre, seq![key]));
            if pre.paths.contains(p@) {
                let ix = pre.paths.index_of(p@);
                assert(0 <= ix < pre.paths.len() && pre.paths[ix] == p@);
                assert(pre.paths[k.id as int] == p@);
                if k.id as int != ix {
                    assert(pre.paths[k.id as int] != pre.paths[ix]);
                }
                assert(k.id as int == key_index(pre, seq![key]));
            }
        }
        let ghost mid = self@;
        if self.reactions[k.id].is_none() {
            self.reactions[k.id] = Some(ReactionData { suspended, deps: Vec::new() });
        }
        self.seen[k.id] = true;
        proof {
            assert(self@.reactions =~= mid.reactions.update(
                k.id as int,
                Some(
                    or_init(
                        mid.reactions[k.id as int],
                        ReactionModel { suspended, deps: Seq::empty() },
                    ),
                ),
            ));
            assert(self@ =~= (StoreModel {
                reactions: mid.reactions.update(
                    k.id as int,
                    Some(
                        or_init(
                            mid.reactions[k.id as int],
                            ReactionModel { suspended, deps: Seq::empty() },
                        ),
                    ),
                ),
                seen: mid.seen.update(k.id as int, true),
                ..mid
            }));
        }
        k
    }

    /// Resolves the atom named `key`: the slot is filled with `init` unless
    /// already occupied, and the undo policy is fixed on first registration.
    pub(crate) fn ensure_atom(&mut self, key: u64, policy: UndoPolicy, init: T) -> (k: TopoKey)
        requires
            old(self).wf(),
        ensures
            final(self).wf(),
            k.id as int == key_index(old(self)@, seq![key]),
            valid_key(final(self)@, k.id as int),
            final(self)@.paths[k.id as int] == seq![key],
            final(self)@ == (StoreModel {
                slots: with_key_row(old(self)@, seq![key]).slots.update(
                    k.id as int,
                    Some(or_init(with_key_row(old(self)@, seq![key]).slots[k.id as int], init)),
                ),
                policies: with_key_row(old(self)@, seq![key]).policies.update(
                    k.id as int,
                    Some(
                        or_init(
                            with_key_row(old(self)@, seq![key]).policies[k.id as int],
                            policy,
                        ),
                    ),
                ),
                seen: with_key_row(old(self)@, seq![key]).seen.update(k.id as int, true),
                ..with_key_row(old(self)@, seq![key])
            }),
    {
        let ghost pre = self@;
        let mut p: Vec<u64> = Vec::new();
        p.push(key);
        proof {
            assert(p@ =~= seq![key]);
        }
        let k = self.key_for_path(&p);
        proof {
            assert(self@ == with_key_row(pre, seq![key]));
            if pre.paths.contains(p@) {
                let ix = pre.paths.index_of(p@);
                assert(0 <= ix < pre.paths.len() && pre.paths[ix] == p@);
                assert(pre.paths[k.id as int] == p@);
                if k.id as int != ix {
                    assert(pre.paths[k.id as int] != pre.paths[ix]);
                }
                assert(k.id as int == key_index(pre, seq![key]));
            }
        }
        let ghost mid = self@;
        if self.slots[k.id].is_none() {
            self.slots[k.id] = Some(init);
        }
        if self.policies[k.id].is_none() {
            self.policies[k.id] = Some(policy);
        }
        self.seen[k.id] = true;
        proof {
            assert(self@ =~= (StoreModel {
                slots: mid.slots.update(
                    k.id as int,
                    Some(or_init(mid.slots[k.id as int], init)),
                ),
                policies: mid.policies.update(
                    k.id as int,
                    Some(or_init(mid.policies[k.id as int], policy)),
                ),
                seen: mid.seen.update(k.id as int, true),
                ..mid
            }));
        }
        k
    }

    /// Enters the "running" state of the reaction at `r`: its previously
    /// recorded dependency set is cleared — so edges of branches no longer
    /// taken disappear — and the reaction joins the stack of running
    /// contexts that atom reads report to.
    pub fn begin_run(&mut self, r: TopoKey)
        requires
            old(self).wf(),
            valid_key(old(self)@, r.id as int),
            old(self)@.reactions[r.id as int] is Some,
        ensures
            final(self).wf(),
            final(self)@ == (StoreModel {
                reactions: old(self)@.reactions.update(
                    r.id as int,
                    Some(
                        ReactionModel {
                            suspended: old(self)@.reactions[r.id as int]->0.suspended,
                            deps: Seq::empty(),
                        },
                    ),
                ),
                running: old(self)@.running.push(r.id),
                seen: old(self)@.seen.update(r.id as int, true),
                ..old(self)@
            }),
    {
        let cell = &mut self.reactions[r.id];
        let node = cell.take().unwrap();
        self.reactions[r.id] = Some(ReactionData { suspended: node.suspended, deps: Vec::new() });
        self.running.push(r.id);
        self.seen[r.id] = true;
        proof {
            assert(self@.reactions =~= old(self)@.reactions.update(
                r.id as int,
                Some(
                    ReactionModel {
                        suspended: old(self)@.reactions[r.id as int]->0.suspended,
                        deps: Seq::empty(),
                    },
                ),
            ));
            assert(self@ =~= (StoreModel {
                reactions: self@.reactions,
                running: old(self)@.running.push(r.id),
                seen: old(self)@.seen.update(r.id as int, true),
                ..old(self)@
            }));
        }
    }

    /// Leaves the innermost "running" reaction context, committing the
    /// dependency set recorded during the run.
    pub fn end_run(&mut self)
        requires
            old(self).wf(),
            old(self)@.running.len() > 0,
        ensures
            final(self).wf(),
            final(self)@ == (StoreModel { running: old(self)@.running.drop_last(), ..old(self)@ }),
    {
        self.running.pop();
        proof {
            assert(self@ =~= (StoreModel {
                running: old(self)@.running.drop_last(),
                ..old(self)@
            }));
        }
    }

    /// Records, in the innermost running reaction, a read of the atom at
    /// `a`, and marks `a` as seen.  Requires an active reaction context:
    /// observation outside one is a usage bug the caller must rule out.
    pub fn observe_key(&mut self, a: TopoKey)
        requires
            old(self).wf(),
            valid_key(old(self)@, a.id as int),
            old(self)@.running.len() > 0,
        ensures
            final(self).wf(),
            final(self)@ == (StoreModel {
                reactions: old(self)@.reactions.update(
                    old(self)@.running.last() as int,
                    Some(
                        ReactionModel {
                            suspended: old(self)@.reactions[old(self)@.running.last() as int]
                                ->0.suspended,
                            deps: with_dep(
                                old(self)@.reactions[old(self)@.running.last() as int]->0.deps,
                                a.id,
                            ),
                        },
                    ),
                ),
                seen: old(self)@.seen.update(a.id as int, true),
                ..old(self)@
            }),
    {
        let top = self.running[self.running.len() - 1];
        proof {
            assert(old(self)@.running.last() == top);
            assert(old(self)@.reactions[top as int] is Some);
        }
        let cell = &mut self.reactions[top];
        let node = cell.take().unwrap();
        let present = contains_usize(&node.deps, a.id);
        let mut deps = node.deps;
        if !present {
            deps.push(a.id);
        }
        self.reactions[top] = Some(ReactionData { suspended: node.suspended, deps });
        self.seen[a.id] = true;
        proof {
            assert(self@.reactions =~= old(self)@.reactions.update(
                top as int,
                Some(
                    ReactionModel {
                        suspended: old(self)@.reactions[top as int]->0.suspended,
                        deps: with_dep(old(self)@.reactions[top as int]->0.deps, a.id),
                    },
                ),
            ));
            assert(self@ =~= (StoreModel {
                reactions: self@.reactions,
                seen: old(self)@.seen.update(a.id as int, true),
                ..old(self)@
            }));
        }
    }

    /// Writes `value` into the atom at `a`, recording the previous value in
    /// the undo queue as the atom's policy directs, and returns the keys of
    /// every reaction the mutation schedules: exactly those with a recorded
    /// dependency on `a` that are not suspended, each reported once, in
    /// ascending key order.  The caller re-runs them (between `begin_run`
    /// and `end_run`); a reaction body is host code the store never holds.
    pub fn set_atom(&mut self, a: TopoKey, value: T) -> (affected: Vec<TopoKey>)
        requires
            old(self).wf(),
            valid_key(old(self)@, a.id as int),
        ensures
            final(self).wf(),
            final(self)@.slots == old(self)@.slots.update(a.id as int, Some(value)),
            final(self)@.seen == old(self)@.seen.update(a.id as int, true),
            final(self)@.paths == old(self)@.paths,
            final(self)@.ctx == old(self)@.ctx,
            final(self)@.unmounts == old(self)@.unmounts,
            final(self)@.reactions == old(self)@.reactions,
            final(self)@.running == old(self)@.running,
            final(self)@.policies == old(self)@.policies,
            final(self)@.changed_prev == old(self)@.changed_prev,
            final(self)@.observed_prev == old(self)@.observed_prev,
            recorded_after_set(old(self)@, final(self)@, a.id),
            forall|j1: int, j2: int|
                0 <= j1 < j2 < affected@.len() ==> affected@[j1].id < affected@[j2].id,
            forall|r: int|
                0 <= r < key_count(old(self)@) ==> (affected@.contains(TopoKey { id: r as usize })
                    <==> will_trigger(old(self)@, a.id as int, r)),
            forall|j: int|
                0 <= j < affected@.len() ==> will_trigger(
                    old(self)@,
                    a.id as int,
                    #[trigger] affected@[j].id as int,
                ),
            atom_set_outcome(old(self)@, final(self)@, a.id, value, affected@),
    {
        let ghost pre = self@;
        let mut allow = false;
        let mut bound: usize = 0;
        match &self.policies[a.id] {
            Some(UndoPolicy::AllowUndo(b)) => {
                allow = true;
                bound = *b;
            },
            _ => {},
        }
        if allow && bound > 0 {
            let cell = &mut self.slots[a.id];
            let prev_opt = cell.take();
            proof {
                assert(self@ =~= (StoreModel {
                    slots: pre.slots.update(a.id as int, None),
                    ..pre
                }));
            }
            match prev_opt {
                Some(prev) => {
                    let ghost q0 = self@.undo_q;
                    let qn = self.undo_q.len();
                    let mut cnt: usize = 0;
                    let mut ci: usize = 0;
                    while ci < qn
                        invariant
                            qn == q0.len(),
                            self@.undo_q == q0,
                            ci <= qn,
                            cnt <= ci,
                            cnt == undo_count(q0, a.id, ci as int),
                        decreases qn - ci,
                    {
                        if self.undo_q[ci].key == a.id {
                            cnt += 1;
                        }
                        ci += 1;
                    }
                    let entry = UndoEntry { key: a.id, prev };
                    if cnt >= bound {
                        proof {
                            lemma_undo_count_pos(q0, a.id, qn as int);
                        }
                        let mut fi: usize = qn;
                        let mut sc: usize = 0;
                        while sc < qn
                            invariant
                                qn == q0.len(),
                                self@.undo_q == q0,
                                sc <= qn,
                                fi == qn || (fi < sc && q0[fi as int].key == a.id && forall|j: int|
                                    0 <= j < fi ==> q0[j].key != a.id),
                                fi == qn ==> forall|j: int| 0 <= j < sc ==> q0[j].key != a.id,
                            decreases qn - sc,
                        {
                            if fi == qn && self.undo_q[sc].key == a.id {
                                fi = sc;
                            }
                            sc += 1;
                        }
                        proof {
                            assert(fi < qn);
                        }
                        self.undo_q.remove(fi);
                        self.undo_q.push(entry);
                        proof {
                            assert(self@.undo_q == q0.remove(fi as int).push(entry));
                            assert(recorded_entry(q0, self@.undo_q, entry, bound as int));
                        }
                    } else {
                        self.undo_q.push(entry);
                        proof {
                            assert(recorded_entry(q0, self@.undo_q, entry, bound as int));
                        }
                    }
                },
                None => {},
            }
        }
        let ghost mid = self@;
        self.slots[a.id] = Some(value);
        self.seen[a.id] = true;
        proof {
            assert(self@ =~= (StoreModel {
                slots: mid.slots.update(a.id as int, Some(value)),
                seen: mid.seen.update(a.id as int, true),
                ..mid
            }));
            assert(self@.slots =~= pre.slots.update(a.id as int, Some(value)));
            assert(recorded_after_set(pre, self@, a.id));
        }
        let ghost mcur = self@;
        let mut affected: Vec<TopoKey> = Vec::new();
        let n = self.paths.len();
        let mut r: usize = 0;
        while r < n
            invariant
                self.wf(),
                self@ == mcur,
                wf_model(pre),
                n == key_count(pre),
                key_count(mcur) == n,
                mcur.reactions == pre.reactions,
                r <= n,
                forall|j: int|
                    0 <= j < affected@.len() ==> (#[trigger] affected@[j].id as int) < r,
                forall|j1: int, j2: int|
                    0 <= j1 < j2 < affected@.len() ==> affected@[j1].id < affected@[j2].id,
                forall|rr: int|
                    0 <= rr < r ==> (affected@.contains(TopoKey { id: rr as usize })
                        <==> will_trigger(pre, a.id as int, rr)),
                forall|j: int|
                    0 <= j < affected@.len() ==> will_trigger(
                        pre,
                        a.id as int,
                        #[trigger] affected@[j].id as int,
                    ),
            decreases n - r,
        {
            let mut hit = false;
            match &self.reactions[r] {
                Some(node) => {
                    if !node.suspended {
                        hit = contains_usize(&node.deps, a.id);
                    }
                },
                None => {},
            }
            proof {
                assert(hit == will_trigger(pre, a.id as int, r as int));
            }
            let ghost prev_aff = affected@;
            if hit {
                affected.push(TopoKey { id: r });
            }
            proof {
                assert forall|rr: int| 0 <= rr < r + 1 implies (affected@.contains(
                    TopoKey { id: rr as usize },
                ) <==> will_trigger(pre, a.id as int, rr)) by {
                    if rr < r {
                        assert(prev_aff.contains(TopoKey { id: rr as usize })
                            <==> will_trigger(pre, a.id as int, rr));
                        if prev_aff.contains(TopoKey { id: rr as usize }) {
                            let wi = choose|wi: int|
                                0 <= wi < prev_aff.len() && prev_aff[wi] == TopoKey {
                                    id: rr as usize,
                                };
                            assert(affected@[wi] == TopoKey { id: rr as usize });
                        }
                        if affected@.contains(TopoKey { id: rr as usize }) {
                            let wi = choose|wi: int|
                                0 <= wi < affected@.len() && affected@[wi] == TopoKey {
                                    id: rr as usize,
                                };
                            if wi < prev_aff.len() {
                                assert(prev_aff[wi] == TopoKey { id: rr as usize });
                            }
                        }
                    } else {
                        if hit {
                            assert(affected@[affected@.len() - 1] == TopoKey { id: r });
                        } else {
                            if affected@.contains(TopoKey { id: rr as usize }) {
                                let wi = choose|wi: int|
                                    0 <= wi < affected@.len() && affected@[wi] == TopoKey {
                                        id: rr as usize,
                                    };
                                assert((affected@[wi].id as int) < r);
                            }
                        }
                    }
                }
            }
            r += 1;
        }
        affected
    }

    /// Reverts the most recent recorded mutation, system-wide: the youngest
    /// undo record, whichever atom it belongs to, is popped and its value
    /// restored into that atom's slot.  No new record is pushed — undo is
    /// not itself undoable — and every other slot is left untouched.  With
    /// an empty queue this is a no-op, not an error.
    pub fn undo(&mut self) -> (did: bool)
        requires
            old(self).wf(),
        ensures
            final(self).wf(),
            did == (old(self)@.undo_q.len() > 0),
            old(self)@.undo_q.len() == 0 ==> final(self)@ == old(self)@,
            old(self)@.undo_q.len() > 0 ==> final(self)@ == (StoreModel {
                slots: old(self)@.slots.update(
                    old(self)@.undo_q.last().key as int,
                    Some(old(self)@.undo_q.last().prev),
                ),
                seen: old(self)@.seen.update(old(self)@.undo_q.last().key as int, true),
                undo_q: old(self)@.undo_q.drop_last(),
                ..old(self)@
            }),
            final(self)@ == after_undo(old(self)@),
    {
        let popped = self.undo_q.pop();
        match popped {
            Some(e) => {
                proof {
                    assert(e == old(self)@.undo_q.last());
                    assert(valid_key(old(self)@, e.key as int));
                }
                self.slots[e.key] = Some(e.prev);
                self.seen[e.key] = true;
                proof {
                    assert(self@ =~= (StoreModel {
                        slots: old(self)@.slots.update(
                            old(self)@.undo_q.last().key as int,
                            Some(old(self)@.undo_q.last().prev),
                        ),
                        seen: old(self)@.seen.update(old(self)@.undo_q.last().key as int, true),
                        undo_q: old(self)@.undo_q.drop_last(),
                        ..old(self)@
                    }));
                }
                true
            },
            None => {
                proof {
                    assert(self@ =~= old(self)@);
                }
                false
            },
        }
    }

    /// Unmounts the reaction at `r`: its node, and with it every recorded
    /// dependency edge, is dropped, so later atom mutations silently skip
    /// it.  A running reaction cannot be unmounted.
    pub fn unmount_reaction(&mut self, r: TopoKey)
        requires
            old(self).wf(),
            valid_key(old(self)@, r.id as int),
            !old(self)@.running.contains(r.id),
        ensures
            final(self).wf(),
            final(self)@ == (StoreModel {
                reactions: old(self)@.reactions.update(r.id as int, None),
                ..old(self)@
            }),
    {
        self.reactions[r.id] = None;
        proof {
            assert(self@.reactions =~= old(self)@.reactions.update(r.id as int, None));
            assert(self@ =~= (StoreModel {
                reactions: old(self)@.reactions.update(r.id as int, None),
                ..old(self)@
            }));
            assert forall|i: int| 0 <= i < self@.running.len() implies {
                &&& valid_key(self@, #[trigger] self@.running[i] as int)
                &&& self@.reactions[self@.running[i] as int] is Some
            } by {
                assert(old(self)@.running[i] != r.id);
            }
        }
    }

    /// How many undo records the global queue currently holds.
    pub fn undo_queue_len(&self) -> (r: usize)
        ensures
            r == self@.undo_q.len(),
    {
        self.undo_q.len()
    }

    /// How many reaction contexts are currently running.
    pub fn running_depth(&self) -> (r: usize)
        ensures
            r == self@.running.len(),
    {
        self.running.len()
    }
}

/// The dependency set after recording a read of atom `a`: unchanged when
/// the edge is already present, otherwise extended by it.
pub open spec fn with_dep(deps: Seq<usize>, a: usize) -> Seq<usize> {
    if deps.contains(a) {
        deps
    } else {
        deps.push(a)
    }
}

/// A positive prefix count of records for atom `a` exhibits such a record.
proof fn lemma_undo_count_pos<T>(q: Seq<UndoEntry<T>>, a: usize, n: int)
    requires
        0 <= n <= q.len(),
        undo_count(q, a, n) > 0,
    ensures
        exists|i: int| 0 <= i < n && #[trigger] q[i].key == a,
    decreases n,
{
    if n > 0 {
        if q[n - 1].key == a {
        } else {
            lemma_undo_count_pos(q, a, n - 1);
        }
    }
}

/// Linear membership test for a recorded dependency list.
fn contains_usize(v: &Vec<usize>, x: usize) -> (r: bool)
    ensures
        r == v@.contains(x),
{
    let n = v.len();
    let mut i: usize = 0;
    while i < n
        invariant
            n == v@.len(),
            i <= n,
            forall|j: int| 0 <= j < i ==> v@[j] != x,
        decreases n - i,
    {
        if v[i] == x {
            return true;
        }
        i += 1;
    }
    false
}

/// Every dependency kept by a sweep points at a key that was seen.
proof fn lemma_kept_deps_elems(deps: Seq<usize>, seen: Seq<bool>, n: int)
    requires
        0 <= n <= deps.len(),
    ensures
        forall|j: int|
            0 <= j < kept_deps(deps, seen, n).len() ==> dep_kept(
                seen,
                #[trigger] kept_deps(deps, seen, n)[j],
            ),
    decreases n,
{
    if n > 0 {
        lemma_kept_deps_elems(deps, seen, n - 1);
        let k1 = kept_deps(deps, seen, n - 1);
        let kn = kept_deps(deps, seen, n);
        if dep_kept(seen, deps[n - 1]) {
            assert(kn =~= k1.push(deps[n - 1]));
            assert forall|j: int| 0 <= j < kn.len() implies dep_kept(seen, kn[j]) by {
                if j < k1.len() {
                    assert(dep_kept(seen, k1[j]));
                } else {
                    assert(kn[j] == deps[n - 1]);
                }
            }
        } else {
            assert(kn =~= k1);
        }
    }
}

impl<T: Clone> Store<T> {
    /// Clones the value at `k` out of the store, or reports absence.  A
    /// present slot is marked as seen; an absent one leaves the store as it
    /// was.  The result is a `clone` of the stored value, related to it by
    /// `T::clone`'s own contract.
    pub fn clone_state(&mut self, k: TopoKey) -> (r: Option<T>)
        requires
            old(self).wf(),
        ensures
            final(self).wf(),
            r is Some <==> (valid_key(old(self)@, k.id as int) && old(self)@.slots[k.id as int]
                is Some),
            r is Some ==> vstd::pervasive::cloned::<T>(old(self)@.slots[k.id as int]->0, r->0),
            r is Some ==> final(self)@ == (StoreModel {
                seen: old(self)@.seen.update(k.id as int, true),
                ..old(self)@
            }),
            r is None ==> final(self)@ == old(self)@,
    {
        if k.id >= self.slots.len() {
            return None;
        }
        let c = match &self.slots[k.id] {
            Some(v) => Some(v.clone()),
            None => None,
        };
        if c.is_some() {
            self.seen[k.id] = true;
            proof {
                assert(self@ =~= (StoreModel {
                    seen: old(self)@.seen.update(k.id as int, true),
                    ..old(self)@
                }));
            }
        }
        c
    }

    /// Reads the value at `k` and remembers a clone of it, handing back the
    /// previously remembered one: the building block of `observe_update`.
    pub fn observe_shift(&mut self, k: TopoKey) -> (r: (Option<T>, T))
        requires
            old(self).wf(),
            valid_key(old(self)@, k.id as int),
            old(self)@.slots[k.id as int] is Some,
        ensures
            final(self).wf(),
            r.0 == old(self)@.observed_prev[k.id as int],
            vstd::pervasive::cloned::<T>(old(self)@.slots[k.id as int]->0, r.1),
            final(self)@.observed_prev[k.id as int] is Some,
            vstd::pervasive::cloned::<T>(r.1, final(self)@.observed_prev[k.id as int]->0),
            final(self)@ == (StoreModel {
                observed_prev: old(self)@.observed_prev.update(
                    k.id as int,
                    final(self)@.observed_prev[k.id as int],
                ),
                seen: old(self)@.seen.update(k.id as int, true),
                ..old(self)@
            }),
    {
        self.seen[k.id] = true;
        let cur = self.slots[k.id].as_ref().unwrap();
        let newv = cur.clone();
        let cache = newv.clone();
        let ghost gcache = cache;
        let cell = &mut self.observed_prev[k.id];
        let prev = cell.take();
        self.observed_prev[k.id] = Some(cache);
        proof {
            assert(vstd::pervasive::cloned::<T>(newv, gcache));
            assert(self@ =~= (StoreModel {
                observed_prev: old(self)@.observed_prev.update(k.id as int, Some(gcache)),
                seen: old(self)@.seen.update(k.id as int, true),
                ..old(self)@
            }));
        }
        (prev, newv)
    }
}

impl<T: Clone + PartialEq> Store<T> {
    /// Whether the value at `k` differs from the one remembered by the last
    /// probe.  The first probe has nothing to compare against: it remembers
    /// a clone of the current value and reports a change.  Later probes
    /// compare through `T::eq` and leave the remembered value as it is.
    pub fn changed_probe(&mut self, k: TopoKey) -> (r: bool)
        requires
            old(self).wf(),
            valid_key(old(self)@, k.id as int),
            old(self)@.slots[k.id as int] is Some,
        ensures
            final(self).wf(),
            old(self)@.changed_prev[k.id as int] is None ==> r && exists|c: T|
                #[trigger] vstd::pervasive::cloned::<T>(old(self)@.slots[k.id as int]->0, c)
                    && final(self)@ == (StoreModel {
                    changed_prev: old(self)@.changed_prev.update(k.id as int, Some(c)),
                    seen: old(self)@.seen.update(k.id as int, true),
                    ..old(self)@
                }),
            old(self)@.changed_prev[k.id as int] is Some ==> {
                &&& (T::obeys_eq_spec() ==> r == !old(self)@.changed_prev[k.id as int]
                    ->0.eq_spec(&old(self)@.slots[k.id as int]->0))
                &&& final(self)@ == (StoreModel {
                    seen: old(self)@.seen.update(k.id as int, true),
                    ..old(self)@
                })
            },
    {
        self.seen[k.id] = true;
        proof {
            assert(self@ =~= (StoreModel {
                seen: old(self)@.seen.update(k.id as int, true),
                ..old(self)@
            }));
        }
        if self.changed_prev[k.id].is_some() {
            let cached = self.changed_prev[k.id].as_ref().unwrap();
            let cur = self.slots[k.id].as_ref().unwrap();
            let same = cached.eq(cur);
            !same
        } else {
            let cur = self.slots[k.id].as_ref().unwrap();
            let c = cur.clone();
            let ghost gcl = c;
            self.changed_prev[k.id] = Some(c);
            proof {
                assert(vstd::pervasive::cloned::<T>(old(self)@.slots[k.id as int]->0, gcl));
                assert(self@ =~= (StoreModel {
                    changed_prev: old(self)@.changed_prev.update(k.id as int, Some(gcl)),
                    seen: old(self)@.seen.update(k.id as int, true),
                    ..old(self)@
                }));
            }
            true
        }
    }
}

/// Copies a call path segment by segment.
fn clone_path(p: &Vec<u64>) -> (r: Vec<u64>)
    ensures
        r@ == p@,
{
    let mut copy: Vec<u64> = Vec::new();
    let mut j: usize = 0;
    while j < p.len()
        invariant
            j <= p@.len(),
            copy@ == p@.take(j as int),
        decreases p@.len() - j,
    {
        copy.push(p[j]);
        proof {
            assert(copy@ =~= p@.take(j + 1));
        }
        j += 1;
    }
    proof {
        assert(copy@ =~= p@);
    }
    copy
}

} // verus!
