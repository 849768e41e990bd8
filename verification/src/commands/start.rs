use vstd::prelude::*;

use crate::errors::Error;
use crate::frame;
use crate::frame::FrameView;
use crate::store::Store;
use crate::time;

verus! {

/// The start command: open a running frame against a project, at a
/// given moment, right after the last finished frame, or at the
/// present moment.
pub struct StartSubcommand {
    pub project: String,
    pub tags: Vec<String>,
    pub at: Option<i64>,
    pub confirm_project: bool,
    pub confirm_tags: bool,
    pub no_gap: bool,
}

impl StartSubcommand {
    /// `at_t` is the moment the command starts tracking at: the given
    /// one; with `no_gap`, the latest end of a live finished frame;
    /// else `now`.
    pub open spec fn starts_at(self, s: Seq<FrameView>, now: i64, at_t: i64) -> bool {
        if self.at is Some {
            at_t == self.at->0
        } else if self.no_gap {
            exists|i: int|
                0 <= i < s.len() && !(#[trigger] s[i]).deleted && s[i].end == Option::Some(at_t)
                    && forall|j: int|
                    0 <= j < s.len() && !(#[trigger] s[j]).deleted && s[j].end is Some
                        ==> s[j].end->0 <= at_t
        } else {
            at_t == now
        }
    }

    /// Opens a running frame, unless something still runs or a live
    /// frame ends after the chosen start: both are overlaps, carrying
    /// the id of a frame in the way, and nothing changes. With
    /// `no_gap` and no finished frame to follow, nothing is found.
    pub fn run(&self, store: &mut Store, now: i64) -> (r: Result<(String, i64), Error>)
        requires
            old(store).wf(),
            time::ts_in_range(now as int),
            self.at is Some ==> time::ts_in_range(self.at->0 as int),
        ensures
            final(store).wf(),
            match r {
                Result::Ok((id, at_t)) => {
                    &&& self.starts_at(old(store)@, now, at_t)
                    &&& forall|j: int|
                        0 <= j < old(store)@.len() ==> !frame::collides_at_start(
                            #[trigger] old(store)@[j],
                            at_t as int,
                        )
                    &&& final(store)@ == old(store)@.push(
                        FrameView {
                            id: id@,
                            start: at_t,
                            end: Option::None,
                            last_update: now,
                            project: self.project@,
                            tags: self.tags.deep_view(),
                            deleted: false,
                        },
                    )
                    &&& forall|i: int|
                        0 <= i < old(store)@.len() ==> (#[trigger] old(store)@[i]).id != id@
                },
                Result::Err(e) => {
                    &&& final(store)@ == old(store)@
                    &&& match e {
                        Error::NotFoundError => {
                            &&& self.at is None
                            &&& self.no_gap
                            &&& forall|i: int|
                                0 <= i < old(store)@.len()
                                    ==> !(!(#[trigger] old(store)@[i]).deleted && old(
                                    store,
                                )@[i].end is Some)
                        },
                        Error::OverlapError(cid) => exists|t: i64|
                            self.starts_at(old(store)@, now, t) && exists|j: int|
                                0 <= j < old(store)@.len() && frame::collides_at_start(
                                    #[trigger] old(store)@[j],
                                    t as int,
                                ) && old(store)@[j].id == cid@,
                        _ => false,
                    }
                },
            },
    {
        let at_t: i64 = match self.at {
            Option::Some(t) => t,
            Option::None => {
                if self.no_gap {
                    match store.last_finished_frame() {
                        Option::Some(f) => {
                            match f.end {
                                Option::Some(e) => e,
                                Option::None => {
                                    proof {
                                        assert(false);
                                    }
                                    now
                                },
                            }
                        },
                        Option::None => {
                            return Result::Err(Error::NotFoundError);
                        },
                    }
                } else {
                    now
                }
            },
        };
        proof {
            assert(time::ts_in_range(at_t as int));
            assert(self.starts_at(store@, now, at_t));
        }
        match store.collision_id(at_t, Option::None, Option::None) {
            Option::Some(cid) => {
                return Result::Err(Error::OverlapError(cid));
            },
            Option::None => {},
        }
        let tags = self.tags.clone();
        proof {
            assert(tags.deep_view() =~~= self.tags.deep_view());
        }
        let id = store.start_frame(at_t, self.project.as_str(), tags, now);
        Result::Ok((id, at_t))
    }
}

} // verus!
