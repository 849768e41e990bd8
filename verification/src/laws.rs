use vstd::prelude::*;

use crate::filter;
use crate::filter::FilterView;
use crate::frame;
use crate::frame::FrameView;
use crate::store;

verus! {

/// In a well-formed store, the intervals of two live finished frames
/// never intersect. Every operation of the store keeps it well
/// formed, so this holds after any sequence of them: an attempt that
/// would break it is rejected before anything changes.
pub proof fn lemma_live_finished_never_overlap(s: Seq<FrameView>, i: int, j: int)
    requires
        store::store_wf(s),
        0 <= i < s.len(),
        0 <= j < s.len(),
        i != j,
        !s[i].deleted,
        !s[j].deleted,
        s[i].end is Some,
        s[j].end is Some,
    ensures
        !(s[i].start < s[j].end->0 && s[j].start < s[i].end->0),
{
    assert(!frame::closed_overlap(s[i], s[j]));
}

/// In a well-formed store, at most one live frame is running: beside
/// a live running frame, every other live frame has an end.
pub proof fn lemma_one_running_frame(s: Seq<FrameView>, i: int, j: int)
    requires
        store::store_wf(s),
        0 <= i < s.len(),
        0 <= j < s.len(),
        i != j,
        !s[i].deleted,
        !s[j].deleted,
        s[i].end is None,
    ensures
        s[j].end is Some,
{
}

/// A start strictly before some live frame's end collides with that
/// frame, while a start at or after every end — every live frame
/// finished — collides with nothing, so the start command rejects
/// exactly the former.
pub proof fn lemma_start_rule(s: Seq<FrameView>, t: int)
    ensures
        forall|i: int|
            0 <= i < s.len() && !(#[trigger] s[i]).deleted && s[i].end is Some && t < s[i].end->0
                ==> frame::collides_at_start(s[i], t),
        (forall|i: int|
            0 <= i < s.len() && !(#[trigger] s[i]).deleted ==> s[i].end is Some && s[i].end->0
                <= t) ==> forall|i: int|
            0 <= i < s.len() ==> !frame::collides_at_start(#[trigger] s[i], t),
{
}

/// A deleted frame is invisible everywhere but in storage: it matches
/// no filter, stands in no candidate interval's way, and is neither
/// listed among the live frames nor reachable by a short id.
pub proof fn lemma_deleted_frame_hidden(
    f: FrameView,
    s: Seq<FrameView>,
    flt: FilterView,
    now: int,
    start: int,
    end: int,
    p: Seq<char>,
)
    requires
        f.deleted,
    ensures
        !filter::frame_matches(f, flt, now),
        !frame::collides_with(f, start, end),
        !frame::collides_at_start(f, start),
        !store::live_frames(s).contains(f),
        !store::short_matches(s, p).contains(f),
{
    store::lemma_live_frames_pred(s);
    store::lemma_short_matches_sub(s, p);
    if store::live_frames(s).contains(f) {
        let k = choose|k: int|
            0 <= k < store::live_frames(s).len() && store::live_frames(s)[k] == f;
        assert(!store::live_frames(s)[k].deleted);
    }
    if store::short_matches(s, p).contains(f) {
        let k = choose|k: int|
            0 <= k < store::short_matches(s, p).len() && store::short_matches(s, p)[k] == f;
        assert(!store::short_matches(s, p)[k].deleted);
    }
}

} // verus!
