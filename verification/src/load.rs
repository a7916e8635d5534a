//! The steps by which a caller that shares a layer with other threads gets
//! it loaded. The layer stands behind a lock that can be held shared or
//! exclusive and cannot be changed from one to the other while held: the
//! caller gives it up and takes it again, and looks at the layer anew each
//! time.
use vstd::prelude::*;

verus! {

/// How the caller holds the lock.
#[derive(Debug, Clone, Copy, PartialEq, Eq, Structural)]
pub enum LockMode {
    Shared,
    Exclusive,
}

/// What the caller does next.
#[derive(Debug, Clone, Copy, PartialEq, Eq, Structural)]
pub enum LoadAction {
    /// Use the layer under the shared lock that is held.
    Proceed,
    /// Give up the shared lock and take the exclusive one.
    TakeExclusive,
    /// Load the layer under the exclusive lock that is held.
    Load,
    /// Give up the exclusive lock and take the shared one.
    TakeShared,
}

/// What a caller does that holds the lock in `mode` and finds the layer
/// loaded or not.
pub open spec fn spec_next_load_action(mode: LockMode, loaded: bool) -> LoadAction {
    match mode {
        LockMode::Shared => if loaded {
            LoadAction::Proceed
        } else {
            LoadAction::TakeExclusive
        },
        LockMode::Exclusive => if loaded {
            LoadAction::TakeShared
        } else {
            LoadAction::Load
        },
    }
}

/// What a caller does next. Under the shared lock it uses a loaded layer
/// and asks for the exclusive lock otherwise. Under the exclusive lock it
/// loads a layer that is not loaded, and leaves alone one that another
/// thread has loaded meanwhile; after a load that succeeded, as after such
/// a find, it goes back to the shared lock.
pub fn next_load_action(mode: LockMode, loaded: bool) -> (action: LoadAction)
    ensures
        action == spec_next_load_action(mode, loaded),
{
    match mode {
        LockMode::Shared => if loaded {
            LoadAction::Proceed
        } else {
            LoadAction::TakeExclusive
        },
        LockMode::Exclusive => if loaded {
            LoadAction::TakeShared
        } else {
            LoadAction::Load
        },
    }
}

/// Where no thread unloads the layer and loading succeeds, a caller takes
/// the shared lock at most twice: a layer that it finds not loaded at first
/// is loaded when it holds the shared lock again, by itself or by another
/// thread.
pub proof fn lemma_loaded_after_one_round(at_first: bool, under_exclusive: bool)
    requires
        at_first ==> under_exclusive,
    ensures
        spec_next_load_action(LockMode::Shared, at_first) != LoadAction::Proceed ==> {
            &&& spec_next_load_action(LockMode::Shared, at_first) == LoadAction::TakeExclusive
            &&& under_exclusive ==> spec_next_load_action(LockMode::Exclusive, under_exclusive)
                == LoadAction::TakeShared
            &&& !under_exclusive ==> spec_next_load_action(LockMode::Exclusive, under_exclusive)
                == LoadAction::Load
            &&& spec_next_load_action(LockMode::Shared, true) == LoadAction::Proceed
        },
{
}

} // verus!
