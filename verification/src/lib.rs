//! A reactive state runtime for single-threaded, re-entrant execution.
//!
//! State is addressed by *where* it is requested: an explicit call-path
//! context yields a stable identity key for every logical slot.  A subset of
//! that state ("atoms") participates in a dependency graph: while a reaction
//! is running, every atom it observes is recorded, and mutating an atom
//! reports exactly the reactions that must re-run.  Slots whose position is
//! no longer visited are reclaimed by a generational sweep.
//!
//! All bookkeeping lives in an explicitly constructed [`store::Store`] value
//! that the caller threads through the call graph; nothing is process-global,
//! and the runtime is not safe for concurrent use from several threads.

pub mod laws;
pub mod state_access;
pub mod store;

pub use state_access::{
    atom, atom_undo, new_state, reaction, reaction_start_suspended, Atom, ChangedState,
    CloneState, Keyed, Observable, Reaction, StateAccess,
};
pub use store::{Store, StoreModel, TopoKey, UndoEntry, UndoPolicy, UnmountAction};
