use vstd::prelude::*;

use crate::frame;
use crate::frame::Frame;
use crate::frame::FrameView;
use crate::time;

verus! {

/// One calendar day of the log: the day a frame's start falls on,
/// counted in days relative to the epoch, and the frames starting on
/// that day, in display order.
#[derive(Debug, Clone, PartialEq, Eq)]
pub struct Display {
    pub date: i64,
    pub frames: Vec<Frame>,
}

/// Timestamps a duration walk can subtract without overflowing.
pub open spec fn frame_ts_bounded(f: FrameView) -> bool {
    &&& time::ts_in_range(f.start as int)
    &&& f.end is Some ==> time::ts_in_range(f.end->0 as int)
}

/// Every frame of the sequence is bounded.
pub open spec fn frames_bounded(s: Seq<FrameView>) -> bool {
    forall|k: int| 0 <= k < s.len() ==> frame_ts_bounded(#[trigger] s[k])
}

/// The seconds a day's frames have consumed, substituting `now` for a
/// missing end.
pub open spec fn total_duration_spec(s: Seq<FrameView>, now: int) -> int
    decreases s.len(),
{
    if s.len() == 0 {
        0
    } else {
        total_duration_spec(s.drop_last(), now) + frame::duration_of(s.last(), now)
    }
}

/// The day buckets of a frame walk that appends: a frame starting on
/// the day of the bucket opened last joins it at the back, any other
/// frame opens a new bucket at the back.
pub open spec fn agg(s: Seq<FrameView>) -> Seq<(int, Seq<FrameView>)>
    decreases s.len(),
{
    if s.len() == 0 {
        Seq::empty()
    } else {
        let prev = agg(s.drop_last());
        let f = s.last();
        let d = time::day_of(f.start as int);
        if prev.len() > 0 && prev.last().0 == d {
            prev.update(prev.len() - 1, (d, prev.last().1.push(f)))
        } else {
            prev.push((d, seq![f]))
        }
    }
}

/// The day buckets of a frame walk that prepends: a frame starting on
/// the day of the bucket opened last joins that bucket at the front,
/// any other frame opens a new bucket at the front.
pub open spec fn agg_rev(s: Seq<FrameView>) -> Seq<(int, Seq<FrameView>)>
    decreases s.len(),
{
    if s.len() == 0 {
        Seq::empty()
    } else {
        let prev = agg_rev(s.drop_last());
        let f = s.last();
        let d = time::day_of(f.start as int);
        if prev.len() > 0 && prev[0].0 == d {
            prev.update(0, (d, seq![f] + prev[0].1))
        } else {
            seq![(d, seq![f])] + prev
        }
    }
}

/// The bucket list carries exactly these days and frames.
pub open spec fn buckets_model(r: Seq<Display>, a: Seq<(int, Seq<FrameView>)>) -> bool {
    &&& r.len() == a.len()
    &&& forall|k: int| 0 <= k < r.len() ==> (#[trigger] r[k]).date as int == a[k].0
    &&& forall|k: int| 0 <= k < r.len() ==> (#[trigger] r[k]).frames.deep_view() == a[k].1
}

impl Display {
    /// A bucket for `date` holding `frames`.
    pub fn new(date: i64, frames: Vec<Frame>) -> (r: Self)
        ensures
            r.date == date,
            r.frames == frames,
    {
        Self { date, frames }
    }

    /// Appends a frame to the bucket.
    pub fn add_frame(&mut self, frame: Frame)
        ensures
            final(self).date == old(self).date,
            final(self).frames.deep_view() == old(self).frames.deep_view().push(frame@),
    {
        self.frames.push(frame);
        proof {
            assert(self.frames.deep_view() =~= old(self).frames.deep_view().push(frame@));
        }
    }

    /// Puts a frame at the front of the bucket.
    pub fn insert_frame(&mut self, frame: Frame)
        ensures
            final(self).date == old(self).date,
            final(self).frames.deep_view() == seq![frame@] + old(self).frames.deep_view(),
    {
        self.frames.insert(0, frame);
        proof {
            assert(self.frames.deep_view() =~= seq![frame@] + old(self).frames.deep_view());
        }
    }

    /// The seconds this day's frames have consumed, a running frame
    /// counted up to `now`; the total must fit the result.
    pub fn total_duration(&self, now: i64) -> (r: i64)
        requires
            frames_bounded(self.frames.deep_view()),
            time::ts_in_range(now as int),
            i64::MIN <= total_duration_spec(self.frames.deep_view(), now as int) <= i64::MAX,
        ensures
            r as int == total_duration_spec(self.frames.deep_view(), now as int),
    {
        match self.total_duration_checked(now) {
            Option::Some(t) => t,
            Option::None => 0,
        }
    }

    /// The seconds this day's frames have consumed, or nothing when
    /// the total leaves the representable range.
    pub fn total_duration_checked(&self, now: i64) -> (r: Option<i64>)
        requires
            frames_bounded(self.frames.deep_view()),
            time::ts_in_range(now as int),
        ensures
            match r {
                Option::Some(t) => {
                    &&& t as int == total_duration_spec(self.frames.deep_view(), now as int)
                    &&& i64::MIN <= total_duration_spec(self.frames.deep_view(), now as int)
                        <= i64::MAX
                },
                Option::None => !(i64::MIN <= total_duration_spec(
                    self.frames.deep_view(),
                    now as int,
                ) <= i64::MAX),
            },
    {
        let dv = Ghost(self.frames.deep_view());
        let mut acc: i128 = 0;
        let mut i: usize = 0;
        while i < self.frames.len()
            invariant
                frames_bounded(dv@),
                time::ts_in_range(now as int),
                dv@ == self.frames.deep_view(),
                0 <= i <= self.frames.len(),
                acc as int == total_duration_spec(dv@.take(i as int), now as int),
                -(i as int) * 2 * (time::TS_LIMIT as int) <= acc as int <= (i as int) * 2 * (
                time::TS_LIMIT as int),
            decreases self.frames.len() - i,
        {
            proof {
                assert(dv@.take(i as int + 1).drop_last() =~= dv@.take(i as int));
                assert(dv@.take(i as int + 1).last() == dv@[i as int]);
                assert(frame_ts_bounded(dv@[i as int]));
            }
            let f = &self.frames[i];
            let d: i64 = match f.end {
                Option::Some(e) => e - f.start,
                Option::None => now - f.start,
            };
            acc = acc + (d as i128);
            i += 1;
        }
        proof {
            assert(dv@.take(dv@.len() as int) =~= dv@);
        }
        if acc > (i64::MAX as i128) || acc < (i64::MIN as i128) {
            Option::None
        } else {
            Option::Some(acc as i64)
        }
    }
}

/// Buckets a frame walk per calendar day: each frame joins the bucket
/// of the day its start falls on if that bucket was opened last,
/// otherwise it opens a new one. Forward order appends buckets and
/// frames at the back; reverse order puts both at the front.
pub fn aggregate(frames: &Vec<Frame>, reverse: bool) -> (r: Vec<Display>)
    requires
        forall|k: int|
            0 <= k < frames.deep_view().len() ==> time::ts_in_range(
                (#[trigger] frames.deep_view()[k]).start as int,
            ),
    ensures
        !reverse ==> buckets_model(r@, agg(frames.deep_view())),
        reverse ==> buckets_model(r@, agg_rev(frames.deep_view())),
{
    let dv = Ghost(frames.deep_view());
    let mut list: Vec<Display> = Vec::new();
    let mut i: usize = 0;
    while i < frames.len()
        invariant
            dv@ == frames.deep_view(),
            forall|k: int|
                0 <= k < dv@.len() ==> time::ts_in_range((#[trigger] dv@[k]).start as int),
            0 <= i <= frames.len(),
            !reverse ==> buckets_model(list@, agg(dv@.take(i as int))),
            reverse ==> buckets_model(list@, agg_rev(dv@.take(i as int))),
        decreases frames.len() - i,
    {
        proof {
            assert(dv@.take(i as int + 1).drop_last() =~= dv@.take(i as int));
            assert(dv@.take(i as int + 1).last() == dv@[i as int]);
        }
        let f = frame::copy_frame(&frames[i]);
        let d = time::day_of_ts(f.start);
        proof {
            assert(f@ == dv@[i as int]);
            assert(d as int == time::day_of(dv@[i as int].start as int));
        }
        if !reverse {
            let n = list.len();
            let same_day = n > 0 && list[n - 1].date == d;
            if same_day {
                let ghost l0 = list@;
                let mut b = match list.pop() {
                    Option::Some(b) => b,
                    Option::None => {
                        proof {
                            assert(false);
                        }
                        Display::new(d, Vec::new())
                    },
                };
                b.add_frame(f);
                list.push(b);
                proof {
                    let a0 = agg(dv@.take(i as int));
                    let a1 = agg(dv@.take(i as int + 1));
                    let n = l0.len() as int;
                    assert(a1 == a0.update(n - 1, (d as int, a0.last().1.push(dv@[i as int]))));
                    assert(list@ =~= l0.update(n - 1, list@[n - 1]));
                    assert forall|k: int| 0 <= k < list@.len() implies (#[trigger] list@[k]).date
                        as int == a1[k].0 && list@[k].frames.deep_view() == a1[k].1 by {
                        if k != n - 1 {
                            assert(list@[k] == l0[k]);
                            assert(a1[k] == a0[k]);
                        }
                    }
                    assert(buckets_model(list@, a1));
                }
            } else {
                let ghost l0 = list@;
                let mut only: Vec<Frame> = Vec::new();
                only.push(f);
                proof {
                    assert(only.deep_view() =~= seq![f@]);
                }
                list.push(Display::new(d, only));
                proof {
                    let a0 = agg(dv@.take(i as int));
                    let a1 = agg(dv@.take(i as int + 1));
                    assert(a1 == a0.push((d as int, seq![dv@[i as int]])));
                    assert forall|k: int| 0 <= k < list@.len() implies (#[trigger] list@[k]).date
                        as int == a1[k].0 && list@[k].frames.deep_view() == a1[k].1 by {
                        if k < l0.len() {
                            assert(list@[k] == l0[k]);
                            assert(a1[k] == a0[k]);
                        }
                    }
                    assert(buckets_model(list@, a1));
                }
            }
        } else {
            let same_day = list.len() > 0 && list[0].date == d;
            if same_day {
                let ghost l0 = list@;
                let mut b = list.remove(0);
                b.insert_frame(f);
                list.insert(0, b);
                proof {
                    let a0 = agg_rev(dv@.take(i as int));
                    let a1 = agg_rev(dv@.take(i as int + 1));
                    assert(a1 == a0.update(0, (d as int, seq![dv@[i as int]] + a0[0].1)));
                    assert(list@ =~= l0.update(0, list@[0]));
                    assert(list@[0].frames.deep_view() == seq![f@] + l0[0].frames.deep_view());
                    assert forall|k: int| 0 <= k < list@.len() implies (#[trigger] list@[k]).date
                        as int == a1[k].0 && list@[k].frames.deep_view() == a1[k].1 by {
                        if k != 0 {
                            assert(list@[k] == l0[k]);
                            assert(a1[k] == a0[k]);
                        }
                    }
                    assert(buckets_model(list@, a1));
                }
            } else {
                let ghost l0 = list@;
                let mut only: Vec<Frame> = Vec::new();
                only.push(f);
                proof {
                    assert(only.deep_view() =~= seq![f@]);
                }
                list.insert(0, Display::new(d, only));
                proof {
                    let a0 = agg_rev(dv@.take(i as int));
                    let a1 = agg_rev(dv@.take(i as int + 1));
                    assert(a1 == seq![(d as int, seq![dv@[i as int]])] + a0);
                    assert forall|k: int| 0 <= k < list@.len() implies (#[trigger] list@[k]).date
                        as int == a1[k].0 && list@[k].frames.deep_view() == a1[k].1 by {
                        if k > 0 {
                            assert(list@[k] == l0[k - 1]);
                            assert(a1[k] == a0[k - 1]);
                        }
                    }
                    assert(buckets_model(list@, a1));
                }
            }
        }
        i += 1;
    }
    proof {
        assert(dv@.take(dv@.len() as int) =~= dv@);
    }
    list
}

} // verus!
