use vstd::prelude::*;

use crate::time;

verus! {

/// One recorded (or still running) span of tracked time against a
/// project. `end` is `None` while the frame is running. Deleted frames
/// stay in storage but are invisible to collision checks, filtering
/// and aggregation.
#[derive(Debug, Clone, PartialEq, Eq)]
pub struct Frame {
    pub id: String,
    pub start: i64,
    pub end: Option<i64>,
    pub last_update: i64,
    pub project: String,
    pub tags: Vec<String>,
    pub deleted: bool,
}

/// The mathematical content of a frame: its strings as character
/// sequences, everything else as it is.
#[verifier::ext_equal]
pub ghost struct FrameView {
    pub id: Seq<char>,
    pub start: i64,
    pub end: Option<i64>,
    pub last_update: i64,
    pub project: Seq<char>,
    pub tags: Seq<Seq<char>>,
    pub deleted: bool,
}

impl View for Frame {
    type V = FrameView;

    open spec fn view(&self) -> FrameView {
        FrameView {
            id: self.id@,
            start: self.start,
            end: self.end,
            last_update: self.last_update,
            project: self.project@,
            tags: self.tags.deep_view(),
            deleted: self.deleted,
        }
    }
}

impl DeepView for Frame {
    type V = FrameView;

    open spec fn deep_view(&self) -> FrameView {
        self.view()
    }
}

/// A well-formed frame: timestamps the core supports, and a start
/// strictly before the end whenever the end is set.
pub open spec fn frame_valid(f: FrameView) -> bool {
    &&& time::ts_in_range(f.start as int)
    &&& f.end is Some ==> time::ts_in_range(f.end->0 as int) && f.start < f.end->0
}

/// Both frames have ends, and the half-open intervals
/// `[start, end)` intersect.
pub open spec fn closed_overlap(a: FrameView, b: FrameView) -> bool {
    &&& a.end is Some
    &&& b.end is Some
    &&& a.start < b.end->0
    &&& b.start < a.end->0
}

/// The candidate interval `[start, end)` collides with `f`: the frame
/// is live, starts before the candidate ends, and does not end at or
/// before the candidate starts. A running frame is treated as
/// extending without bound, so it collides whenever it starts before
/// the candidate ends.
pub open spec fn collides_with(f: FrameView, start: int, end: int) -> bool {
    &&& !f.deleted
    &&& (f.start as int) < end
    &&& (f.end is None || (f.end->0 as int) > start)
}

/// A candidate start for an open-ended frame collides with `f`: the
/// frame is live and either still runs or ends strictly after the
/// candidate start.
pub open spec fn collides_at_start(f: FrameView, start: int) -> bool {
    &&& !f.deleted
    &&& (f.end is None || (f.end->0 as int) > start)
}

/// The seconds a frame has consumed, substituting `now` for a missing
/// end.
pub open spec fn duration_of(f: FrameView, now: int) -> int {
    if f.end is Some {
        f.end->0 - f.start
    } else {
        now - f.start
    }
}

/// A copy of a frame, identical in content.
pub fn copy_frame(f: &Frame) -> (r: Frame)
    ensures
        r@ == f@,
{
    let tags = f.tags.clone();
    let r = Frame {
        id: f.id.clone(),
        start: f.start,
        end: f.end,
        last_update: f.last_update,
        project: f.project.clone(),
        tags,
        deleted: f.deleted,
    };
    proof {
        assert(r.tags.deep_view() =~~= f.tags.deep_view());
        assert(r@ =~= f@);
    }
    r
}

} // verus!
