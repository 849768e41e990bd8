use vstd::prelude::*;

use crate::store;
use crate::store::Store;

verus! {

/// The short form of a frame id: its first seven characters.
pub open spec fn short_of(id: Seq<char>) -> Seq<char> {
    if id.len() >= 7 {
        id.take(7)
    } else {
        id
    }
}

/// The frames command: list the short id of every live frame.
pub struct FramesSubcommand {}

impl FramesSubcommand {
    /// The short ids of the live frames, in store order.
    pub fn run(&self, store: &Store) -> (r: Vec<String>)
        ensures
            r.deep_view().len() == store::live_frames(store@).len(),
            forall|k: int|
                0 <= k < r.deep_view().len() ==> r.deep_view()[k] == short_of(
                    (#[trigger] store::live_frames(store@)[k]).id,
                ),
    {
        let frames = store.find_all();
        let mut out: Vec<String> = Vec::new();
        let mut i: usize = 0;
        while i < frames.len()
            invariant
                frames.deep_view() == store::live_frames(store@),
                0 <= i <= frames.len(),
                out.deep_view().len() == i,
                forall|k: int|
                    0 <= k < i ==> out.deep_view()[k] == short_of(
                        (#[trigger] store::live_frames(store@)[k]).id,
                    ),
            decreases frames.len() - i,
        {
            let id = frames[i].id.as_str();
            let n = id.unicode_len();
            let cut = if n >= 7 {
                7
            } else {
                n
            };
            out.push(id.substring_char(0, cut).to_owned());
            proof {
                assert(frames.deep_view()[i as int] == frames[i as int]@);
                assert(out.deep_view()[i as int] == short_of(
                    store::live_frames(store@)[i as int].id,
                ));
            }
            i += 1;
        }
        out
    }
}

} // verus!
