use vstd::prelude::*;

use crate::project;
use crate::store;
use crate::store::Store;

verus! {

/// The projects command: list every project known to the store.
pub struct ProjectsSubcommand {}

impl ProjectsSubcommand {
    /// The distinct project names of the live frames, first
    /// occurrences in store order.
    pub fn run(&self, store: &Store) -> (r: Vec<String>)
        ensures
            r.deep_view() == store::project_names(store@),
    {
        project::find_all(store)
    }
}

} // verus!
