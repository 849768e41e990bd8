use vstd::prelude::*;

use crate::errors::Error;
use crate::store;
use crate::store::FramePatch;
use crate::store::Store;
use crate::time;

verus! {

/// The edit command: rewrite fields of a frame, named by id or — with
/// none given — the frame created last.
pub struct EditSubcommand {
    pub frame_id: Option<String>,
    pub confirm_project: bool,
    pub confirm_tags: bool,
}

impl EditSubcommand {
    /// Applies the patch to the named frame, or to the live frame
    /// created last. With no id given and nothing live, nothing is
    /// found; otherwise the patch is validated and applied as a
    /// field rewrite.
    pub fn run(&self, store: &mut Store, patch: &FramePatch, now: i64) -> (r: Result<(), Error>)
        requires
            old(store).wf(),
            time::ts_in_range(now as int),
            patch.start is Some ==> time::ts_in_range(patch.start->0 as int),
            patch.end is Some && patch.end->0 is Some ==> time::ts_in_range(
                patch.end->0->0 as int,
            ),
        ensures
            final(store).wf(),
            self.frame_id is Some ==> store::update_post(
                old(store)@,
                final(store)@,
                self.frame_id->0@,
                *patch,
                now,
                r,
            ),
            self.frame_id is None ==> {
                &&& (exists|i: int| store::last_live_at(old(store)@, i)) ==> exists|i: int|
                    store::last_live_at(old(store)@, i) && store::update_post(
                        old(store)@,
                        final(store)@,
                        old(store)@[i].id,
                        *patch,
                        now,
                        r,
                    )
                &&& !(exists|i: int| store::last_live_at(old(store)@, i)) ==> r == Result::<
                    (),
                    Error,
                >::Err(Error::NotFoundError) && final(store)@ == old(store)@
            },
    {
        let target: String = match &self.frame_id {
            Option::Some(id) => id.clone(),
            Option::None => {
                match store.last_created_frame() {
                    Option::Some(f) => {
                        proof {
                            let i = choose|i: int|
                                store::last_live_at(store@, i) && store@[i] == f@;
                            assert(store::last_live_at(store@, i) && store@[i].id == f@.id);
                        }
                        f.id
                    },
                    Option::None => {
                        proof {
                            assert forall|i: int| !store::last_live_at(store@, i) by {
                                if 0 <= i < store@.len() {
                                    assert(store@[i].deleted);
                                }
                            }
                        }
                        return Result::Err(Error::NotFoundError);
                    },
                }
            },
        };
        let r = store.update_fields(target.as_str(), patch, now);
        proof {
            if self.frame_id is None {
                let o = old(store)@;
                let i = choose|i: int| store::last_live_at(o, i) && o[i].id == target@;
                assert(store::last_live_at(o, i));
                assert(store::update_post(o, store@, o[i].id, *patch, now, r));
            }
        }
        r
    }
}

} // verus!
