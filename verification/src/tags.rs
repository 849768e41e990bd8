use vstd::prelude::*;

use crate::store;
use crate::store::Store;

verus! {

/// Whether any live frame carries this tag; the confirmation prompt
/// for a new tag rests on this query.
pub fn has_tag(store: &Store, tag: &str) -> (r: bool)
    ensures
        r == store::has_tag_spec(store@, tag@),
{
    store.scan_has_tag(tag)
}

} // verus!
