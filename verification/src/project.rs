use vstd::prelude::*;

use crate::store;
use crate::store::Store;

verus! {

/// Whether any live frame is tracked against this project; the
/// confirmation prompt for a new project rests on this query.
pub fn has_project(store: &Store, project: &str) -> (r: bool)
    ensures
        r == store::has_project_spec(store@, project@),
{
    store.scan_has_project(project)
}

/// Every project name a live frame is tracked against, first
/// occurrences in store order, without repetition.
pub fn find_all(store: &Store) -> (r: Vec<String>)
    ensures
        r.deep_view() == store::project_names(store@),
{
    store.scan_project_names()
}

} // verus!
