use vstd::prelude::*;

use crate::errors::Error;
use crate::frame;
use crate::frame::FrameView;
use crate::store::Store;
use crate::time;

verus! {

/// The add command: record a span of time that was not tracked live,
/// with both bounds given.
pub struct AddSubcommand {
    pub project: String,
    pub tags: Vec<String>,
    pub from: i64,
    pub to: i64,
    pub confirm_project: bool,
    pub confirm_tags: bool,
}

impl AddSubcommand {
    /// Checks the interval against every live frame, then persists
    /// it; the returned id names the new frame. A colliding interval
    /// is an overlap, an end at or before the start is malformed, and
    /// in both cases nothing changes.
    pub fn run(&self, store: &mut Store, now: i64) -> (r: Result<String, Error>)
        requires
            old(store).wf(),
            time::ts_in_range(self.from as int),
            time::ts_in_range(self.to as int),
            time::ts_in_range(now as int),
        ensures
            final(store).wf(),
            match r {
                Result::Ok(id) => {
                    &&& forall|i: int|
                        0 <= i < old(store)@.len() ==> !frame::collides_with(
                            #[trigger] old(store)@[i],
                            self.from as int,
                            self.to as int,
                        )
                    &&& self.from < self.to
                    &&& final(store)@ == old(store)@.push(
                        FrameView {
                            id: id@,
                            start: self.from,
                            end: Option::Some(self.to),
                            last_update: now,
                            project: self.project@,
                            tags: self.tags.deep_view(),
                            deleted: false,
                        },
                    )
                    &&& forall|i: int|
                        0 <= i < old(store)@.len() ==> (#[trigger] old(store)@[i]).id != id@
                },
                Result::Err(e) => {
                    &&& final(store)@ == old(store)@
                    &&& match e {
                        Error::OverlapError(cid) => exists|i: int|
                            0 <= i < old(store)@.len() && frame::collides_with(
                                #[trigger] old(store)@[i],
                                self.from as int,
                                self.to as int,
                            ) && old(store)@[i].id == cid@,
                        Error::ValidationError => {
                            &&& forall|i: int|
                                0 <= i < old(store)@.len() ==> !frame::collides_with(
                                    #[trigger] old(store)@[i],
                                    self.from as int,
                                    self.to as int,
                                )
                            &&& self.from >= self.to
                        },
                        _ => false,
                    }
                },
            },
    {
        match store.collision_id(self.from, Option::Some(self.to), Option::None) {
            Option::Some(cid) => {
                return Result::Err(Error::OverlapError(cid));
            },
            Option::None => {},
        }
        let tags = self.tags.clone();
        proof {
            assert(tags.deep_view() =~~= self.tags.deep_view());
        }
        store.create_frame(self.from, self.to, self.project.as_str(), tags, now)
    }
}

} // verus!
