//! The shared application state: an optional store handle. Commands invoked
//! before a store is installed fail with `NotInitialized`.

use vstd::prelude::*;
use crate::store::{KanbanStore, StoreView, empty_store, wf_store};

verus! {

/// The state handed to every command. Until `init_db` runs, no store is
/// present and every command fails.
pub struct AppState {
    pub store: Option<KanbanStore>,
}

impl AppState {
    /// A state with no store installed yet.
    pub fn new() -> (r: AppState)
        ensures
            r.store is None,
    {
        AppState { store: None }
    }
}

/// Whether a store has been installed.
pub open spec fn initialized(s: AppState) -> bool {
    s.store is Some
}

/// The model of the installed store; an empty model when none is installed.
pub open spec fn store_view(s: AppState) -> StoreView {
    match s.store {
        Some(st) => st@,
        None => empty_store(),
    }
}

/// Well-formedness of the state: whatever store is installed is well formed.
pub open spec fn wf_state(s: AppState) -> bool {
    match s.store {
        Some(st) => wf_store(st@),
        None => true,
    }
}

/// Installs a store into the shared state, after which commands run against
/// it. Stands for the one-time, ordered initialization step.
pub fn init_db(state: &mut AppState, store: KanbanStore)
    ensures
        final(state).store == Some(store),
        initialized(*final(state)),
        store_view(*final(state)) == store@,
{
    state.store = Some(store);
}

} // verus!
