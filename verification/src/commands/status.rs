use vstd::prelude::*;

use crate::frame::Frame;
use crate::store::Store;

verus! {

/// The status command: what is being tracked right now. The flags
/// narrow what the CLI layer prints of it.
pub struct StatusSubcommand {
    pub show_project: bool,
    pub show_tags: bool,
    pub show_elapsed: bool,
}

impl StatusSubcommand {
    /// The running frame, if any; the CLI layer renders it, or
    /// reports that no project is started.
    pub fn run(&self, store: &Store) -> (r: Option<Frame>)
        ensures
            match r {
                Option::Some(f) => exists|i: int|
                    0 <= i < store@.len() && !(#[trigger] store@[i]).deleted
                        && store@[i].end is None && store@[i] == f@,
                Option::None => forall|i: int|
                    0 <= i < store@.len()
                        ==> !(!(#[trigger] store@[i]).deleted && store@[i].end is None),
            },
    {
        store.last_started_frame()
    }
}

} // verus!
