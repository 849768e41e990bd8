use vstd::prelude::*;

use crate::errors::Error;
use crate::frame::Frame;
use crate::frame::FrameView;
use crate::store;
use crate::store::Store;
use crate::time;

verus! {

/// The remove command: soft-delete the frame a short id names.
pub struct RemoveSubcommand {
    pub id: String,
    pub force: bool,
}

impl RemoveSubcommand {
    /// Resolves the short id among the live frames and, when forced,
    /// marks the one match deleted; the match is handed back for
    /// display. No match is not found, several are ambiguous, and in
    /// either case nothing changes. Without `force` nothing changes
    /// either.
    pub fn run(&self, store: &mut Store, now: i64) -> (r: Result<Frame, Error>)
        requires
            old(store).wf(),
            time::ts_in_range(now as int),
        ensures
            final(store).wf(),
            match r {
                Result::Ok(f) => {
                    &&& store::short_matches(old(store)@, self.id@).len() == 1
                    &&& f@ == store::short_matches(old(store)@, self.id@)[0]
                    &&& exists|i: int|
                        {
                            &&& 0 <= i < old(store)@.len()
                            &&& (#[trigger] old(store)@[i]) == f@
                            &&& if self.force {
                                final(store)@ == old(store)@.update(
                                    i,
                                    FrameView {
                                        deleted: true,
                                        last_update: now,
                                        ..old(store)@[i]
                                    },
                                )
                            } else {
                                final(store)@ == old(store)@
                            }
                        }
                },
                Result::Err(e) => {
                    &&& final(store)@ == old(store)@
                    &&& store::short_matches(old(store)@, self.id@).len() == 0 ==> e
                        == Error::NotFoundError
                    &&& store::short_matches(old(store)@, self.id@).len() >= 2 ==> e
                        == Error::AmbiguousError
                    &&& store::short_matches(old(store)@, self.id@).len() != 1
                },
            },
    {
        let found = match store.find_by_short_id(self.id.as_str()) {
            Result::Ok(f) => f,
            Result::Err(e) => {
                return Result::Err(e);
            },
        };
        proof {
            store::lemma_short_matches_sub(store@, self.id@);
            let i0 = choose|i: int|
                0 <= i < store@.len() && store@[i] == store::short_matches(store@, self.id@)[0];
            assert(store@[i0] == found@);
        }
        if self.force {
            let deleted = store.soft_delete(found.id.as_str(), now);
            proof {
                let o = old(store)@;
                let i0 = choose|i: int|
                    0 <= i < o.len() && o[i] == store::short_matches(o, self.id@)[0];
                match deleted {
                    Result::Ok(was_live) => {
                        let i1 = choose|i: int|
                            {
                                &&& 0 <= i < o.len()
                                &&& (#[trigger] o[i]).id == found@.id
                                &&& was_live == !o[i].deleted
                                &&& if was_live {
                                    final(store)@ == o.update(
                                        i,
                                        FrameView { deleted: true, last_update: now, ..o[i] },
                                    )
                                } else {
                                    final(store)@ == o
                                }
                            };
                        assert(i1 == i0);
                        assert(was_live);
                    },
                    Result::Err(_) => {
                        assert(o[i0].id == found@.id);
                        assert(false);
                    },
                }
            }
        }
        Result::Ok(found)
    }
}

} // verus!
