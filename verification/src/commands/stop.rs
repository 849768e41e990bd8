use vstd::prelude::*;

use crate::errors::Error;
use crate::frame::Frame;
use crate::store;
use crate::store::Store;
use crate::time;

verus! {

/// The stop command: close the running frame, at the given time or
/// at the present moment.
pub struct StopSubcommand {
    pub at: Option<i64>,
}

impl StopSubcommand {
    /// The moment the frame is closed at.
    pub open spec fn stop_at(self, now: i64) -> i64 {
        if self.at is Some {
            self.at->0
        } else {
            now
        }
    }

    /// Closes the running frame and hands it back for display.
    pub fn run(&self, store: &mut Store, now: i64) -> (r: Result<Frame, Error>)
        requires
            old(store).wf(),
            time::ts_in_range(now as int),
            self.at is Some ==> time::ts_in_range(self.at->0 as int),
        ensures
            final(store).wf(),
            store::stop_post(old(store)@, final(store)@, self.stop_at(now), now, r),
    {
        let at_t: i64 = match self.at {
            Option::Some(t) => t,
            Option::None => now,
        };
        store.stop_frame(at_t, now)
    }
}

} // verus!
