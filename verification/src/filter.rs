use vstd::prelude::*;

use crate::errors::ConfigFault;
use crate::errors::Error;
use crate::frame;
use crate::frame::Frame;
use crate::frame::FrameView;
use crate::store::Store;
use crate::text;
use crate::time;

verus! {

/// A filter specification: which frames a log query selects. Empty
/// project and tag lists select everything; missing bounds fall back
/// to a week before `now` and to tomorrow's last second.
pub struct LogFilter {
    pub from: Option<i64>,
    pub to: Option<i64>,
    pub projects: Vec<String>,
    pub ignored_projects: Vec<String>,
    pub tags: Vec<String>,
    pub ignored_tags: Vec<String>,
    pub include_current: bool,
}

/// The mathematical content of a filter: its string lists as
/// character-sequence lists.
#[verifier::ext_equal]
pub ghost struct FilterView {
    pub from: Option<i64>,
    pub to: Option<i64>,
    pub projects: Seq<Seq<char>>,
    pub ignored_projects: Seq<Seq<char>>,
    pub tags: Seq<Seq<char>>,
    pub ignored_tags: Seq<Seq<char>>,
    pub include_current: bool,
}

impl View for LogFilter {
    type V = FilterView;

    open spec fn view(&self) -> FilterView {
        FilterView {
            from: self.from,
            to: self.to,
            projects: self.projects.deep_view(),
            ignored_projects: self.ignored_projects.deep_view(),
            tags: self.tags.deep_view(),
            ignored_tags: self.ignored_tags.deep_view(),
            include_current: self.include_current,
        }
    }
}

/// The effective lower bound: the given one, or a week before `now`.
pub open spec fn from_eff(flt: FilterView, now: int) -> int {
    if flt.from is Some {
        flt.from->0 as int
    } else {
        now - 604800
    }
}

/// The effective upper bound: the given one, or the last second of
/// the day after the one `now` falls on.
pub open spec fn to_eff(flt: FilterView, now: int) -> int {
    if flt.to is Some {
        flt.to->0 as int
    } else {
        (time::day_of(now) + 2) * 86400 - 1
    }
}

/// Why the filter is rejected before any selection runs, if it is:
/// a project or tag both selected and ignored, or a lower bound
/// strictly after the upper one.
pub open spec fn filter_fault(flt: FilterView, now: int) -> Option<ConfigFault> {
    if text::shares_one(flt.projects, flt.ignored_projects) {
        Option::Some(ConfigFault::ProjectsNotDisjoint)
    } else if text::shares_one(flt.tags, flt.ignored_tags) {
        Option::Some(ConfigFault::TagsNotDisjoint)
    } else if from_eff(flt, now) > to_eff(flt, now) {
        Option::Some(ConfigFault::FromAfterTo)
    } else {
        Option::None
    }
}

/// The filter keeps a frame when the frame is live, starts after the
/// effective lower bound, passes the project and tag selections, and
/// — with an upper bound still in the future — is finished or is the
/// running frame asked for; with an upper bound in the past, only a
/// frame finished before that bound.
pub open spec fn frame_matches(f: FrameView, flt: FilterView, now: int) -> bool {
    &&& !f.deleted
    &&& f.start > from_eff(flt, now)
    &&& !flt.ignored_projects.contains(f.project)
    &&& flt.projects.len() > 0 ==> flt.projects.contains(f.project)
    &&& flt.tags.len() > 0 ==> text::shares_one(f.tags, flt.tags)
    &&& !text::shares_one(f.tags, flt.ignored_tags)
    &&& if to_eff(flt, now) > now {
        f.end is Some || flt.include_current
    } else {
        f.end is Some && (f.end->0 as int) < to_eff(flt, now)
    }
}

/// The frames of `s` the filter keeps, in store order.
pub open spec fn matching_frames(s: Seq<FrameView>, flt: FilterView, now: int) -> Seq<FrameView> {
    s.filter(|f: FrameView| frame_matches(f, flt, now))
}

/// How `matching_frames` grows when a row is appended.
pub proof fn lemma_matching_push(s: Seq<FrameView>, flt: FilterView, now: int, x: FrameView)
    ensures
        matching_frames(s.push(x), flt, now) == if frame_matches(x, flt, now) {
            matching_frames(s, flt, now).push(x)
        } else {
            matching_frames(s, flt, now)
        },
{
    reveal(Seq::filter);
    assert(s.push(x).drop_last() =~= s);
    if frame_matches(x, flt, now) {
        assert(matching_frames(s.push(x), flt, now) =~= matching_frames(s, flt, now).push(x));
    } else {
        assert(matching_frames(s.push(x), flt, now) =~= matching_frames(s, flt, now));
    }
}

/// Every selected frame is one of the rows.
pub proof fn lemma_matching_sub(s: Seq<FrameView>, flt: FilterView, now: int)
    ensures
        forall|k: int|
            0 <= k < matching_frames(s, flt, now).len() ==> exists|i: int|
                0 <= i < s.len() && s[i] == #[trigger] matching_frames(s, flt, now)[k],
    decreases s.len(),
{
    reveal(Seq::filter);
    if s.len() > 0 {
        lemma_matching_sub(s.drop_last(), flt, now);
        let m = matching_frames(s, flt, now);
        let md = matching_frames(s.drop_last(), flt, now);
        assert forall|k: int| 0 <= k < m.len() implies exists|i: int|
            0 <= i < s.len() && s[i] == #[trigger] m[k] by {
            if k < md.len() {
                let i = choose|i: int| 0 <= i < s.drop_last().len() && s.drop_last()[i] == md[k];
                assert(s[i] == m[k]);
            } else {
                assert(m[k] == s.last());
                assert(s[s.len() - 1] == m[k]);
            }
        }
    }
}

/// Where a stable descending insertion puts `x` into `s`: after every
/// element whose start is at or above `x`'s, so frames with equal
/// starts keep their order.
pub open spec fn insert_pos(s: Seq<FrameView>, x: FrameView) -> int
    decreases s.len(),
{
    if s.len() == 0 {
        0
    } else if s.last().start >= x.start {
        s.len() as int
    } else {
        insert_pos(s.drop_last(), x)
    }
}

/// `s` sorted by start, most recent first, equal starts in their
/// given order.
pub open spec fn sort_desc(s: Seq<FrameView>) -> Seq<FrameView>
    decreases s.len(),
{
    if s.len() == 0 {
        Seq::empty()
    } else {
        let prev = sort_desc(s.drop_last());
        prev.insert(insert_pos(prev, s.last()), s.last())
    }
}

/// The insertion position lies within the sequence.
pub proof fn lemma_insert_pos_bounds(s: Seq<FrameView>, x: FrameView)
    ensures
        0 <= insert_pos(s, x) <= s.len(),
    decreases s.len(),
{
    if s.len() > 0 && s.last().start < x.start {
        lemma_insert_pos_bounds(s.drop_last(), x);
    }
}

/// Sorting keeps the length, and every sorted element is one of the
/// given ones.
pub proof fn lemma_sort_desc_sub(s: Seq<FrameView>)
    ensures
        sort_desc(s).len() == s.len(),
        forall|k: int|
            0 <= k < sort_desc(s).len() ==> exists|i: int|
                0 <= i < s.len() && s[i] == #[trigger] sort_desc(s)[k],
    decreases s.len(),
{
    if s.len() > 0 {
        lemma_sort_desc_sub(s.drop_last());
        let prev = sort_desc(s.drop_last());
        let pos = insert_pos(prev, s.last());
        lemma_insert_pos_bounds(prev, s.last());
        let m = sort_desc(s);
        assert forall|k: int| 0 <= k < m.len() implies exists|i: int|
            0 <= i < s.len() && s[i] == #[trigger] m[k] by {
            if k == pos {
                assert(m[k] == s.last());
                assert(s[s.len() - 1] == m[k]);
            } else if k < pos {
                assert(m[k] == prev[k]);
                let i = choose|i: int| 0 <= i < s.drop_last().len() && s.drop_last()[i] == prev[k];
                assert(s[i] == m[k]);
            } else {
                assert(m[k] == prev[k - 1]);
                let i = choose|i: int|
                    0 <= i < s.drop_last().len() && s.drop_last()[i] == prev[k - 1];
                assert(s[i] == m[k]);
            }
        }
    }
}

/// Ordered by start, most recent first.
pub open spec fn sorted_desc_by_start(s: Seq<FrameView>) -> bool {
    forall|a: int, b: int|
        #![trigger s[a], s[b]]
        0 <= a <= b < s.len() ==> s[a].start >= s[b].start
}

/// In a sequence already sorted most recent first, the insertion
/// position splits it into starts at or above `x`'s and starts below.
proof fn lemma_insert_pos_split(s: Seq<FrameView>, x: FrameView)
    requires
        sorted_desc_by_start(s),
    ensures
        forall|k: int| 0 <= k < insert_pos(s, x) ==> (#[trigger] s[k]).start >= x.start,
        forall|k: int| insert_pos(s, x) <= k < s.len() ==> (#[trigger] s[k]).start < x.start,
    decreases s.len(),
{
    lemma_insert_pos_bounds(s, x);
    if s.len() == 0 {
    } else if s.last().start >= x.start {
        assert forall|k: int| 0 <= k < insert_pos(s, x) implies (#[trigger] s[k]).start
            >= x.start by {
            assert(s[k].start >= s[s.len() - 1].start);
        }
    } else {
        assert(sorted_desc_by_start(s.drop_last()));
        lemma_insert_pos_bounds(s.drop_last(), x);
        lemma_insert_pos_split(s.drop_last(), x);
        assert(insert_pos(s, x) == insert_pos(s.drop_last(), x));
        assert forall|k: int| 0 <= k < insert_pos(s, x) implies (#[trigger] s[k]).start
            >= x.start by {
            assert(s.drop_last()[k] == s[k]);
        }
        assert forall|k: int| insert_pos(s, x) <= k < s.len() implies (#[trigger] s[k]).start
            < x.start by {
            if k < s.len() - 1 {
                assert(s.drop_last()[k] == s[k]);
            }
        }
    }
}

/// The selection's canonical order: `sort_desc` is sorted by start
/// with the most recent first.
pub proof fn lemma_sort_desc_sorted(s: Seq<FrameView>)
    ensures
        sorted_desc_by_start(sort_desc(s)),
    decreases s.len(),
{
    if s.len() > 0 {
        lemma_sort_desc_sorted(s.drop_last());
        let prev = sort_desc(s.drop_last());
        let x = s.last();
        let p = insert_pos(prev, x);
        lemma_insert_pos_bounds(prev, x);
        lemma_insert_pos_split(prev, x);
        let m = sort_desc(s);
        assert forall|a: int, b: int|
            #![trigger m[a], m[b]]
            0 <= a <= b < m.len() implies m[a].start >= m[b].start by {
            let pa = if a < p {
                a
            } else {
                a - 1
            };
            let pb = if b < p {
                b
            } else {
                b - 1
            };
            if a < p {
                assert(m[a] == prev[a]);
            } else if a == p {
                assert(m[a] == x);
            } else {
                assert(m[a] == prev[a - 1]);
            }
            if b < p {
                assert(m[b] == prev[b]);
            } else if b == p {
                assert(m[b] == x);
            } else {
                assert(m[b] == prev[b - 1]);
            }
            if a != p && b != p {
                assert(prev[pa].start >= prev[pb].start);
            }
        }
    }
}

/// Sorting only reorders: the sorted sequence carries exactly the
/// given frames.
pub proof fn lemma_sort_desc_multiset(s: Seq<FrameView>)
    ensures
        sort_desc(s).to_multiset() == s.to_multiset(),
    decreases s.len(),
{
    broadcast use vstd::seq_lib::group_to_multiset_ensures;

    if s.len() > 0 {
        lemma_sort_desc_multiset(s.drop_last());
        let prev = sort_desc(s.drop_last());
        let x = s.last();
        let p = insert_pos(prev, x);
        lemma_insert_pos_bounds(prev, x);
        let m = sort_desc(s);
        assert(m.remove(p) =~= prev);
        assert(m[p] == x);
        assert(m.remove(p).to_multiset() =~= m.to_multiset().remove(x));
        assert(m.contains(x));
        assert(m.to_multiset().count(x) > 0);
        assert(m.to_multiset() =~= m.to_multiset().remove(x).insert(x));
        assert(s.drop_last().push(x) =~= s);
        assert(s.to_multiset() =~= s.drop_last().to_multiset().insert(x));
        assert(m.to_multiset() =~= s.to_multiset());
    }
}

/// A suffix of starts strictly below `x`'s, preceded by a start at or
/// above `x`'s (or nothing), pins the insertion position.
proof fn lemma_insert_pos_at(s: Seq<FrameView>, x: FrameView, j: int)
    requires
        0 <= j <= s.len(),
        forall|k: int| j <= k < s.len() ==> (#[trigger] s[k]).start < x.start,
        j > 0 ==> s[j - 1].start >= x.start,
    ensures
        insert_pos(s, x) == j,
    decreases s.len(),
{
    if s.len() == 0 {
    } else if s.last().start >= x.start {
        assert(j == s.len());
    } else {
        assert(j < s.len());
        lemma_insert_pos_at(s.drop_last(), x, j);
    }
}

/// Inserts a frame into a vector sorted by start descending, keeping
/// it after every frame starting at or after it.
fn insert_sorted(out: &mut Vec<Frame>, f: Frame)
    ensures
        final(out).deep_view() == old(out).deep_view().insert(
            insert_pos(old(out).deep_view(), f@),
            f@,
        ),
{
    let mut j: usize = out.len();
    while j > 0 && out[j - 1].start < f.start
        invariant
            out.deep_view() == old(out).deep_view(),
            0 <= j <= out.len(),
            forall|k: int| j <= k < out.len() ==> (#[trigger] out.deep_view()[k]).start < f@.start,
        decreases j,
    {
        j -= 1;
    }
    proof {
        lemma_insert_pos_at(out.deep_view(), f@, j as int);
    }
    out.insert(j, f);
    proof {
        assert(final(out).deep_view() =~= old(out).deep_view().insert(
            insert_pos(old(out).deep_view(), f@),
            f@,
        ));
    }
}

/// The frames sorted by start, most recent first, equal starts kept
/// in their given order.
pub fn sort_frames_desc(frames: &Vec<Frame>) -> (r: Vec<Frame>)
    ensures
        r.deep_view() == sort_desc(frames.deep_view()),
{
    let mut out: Vec<Frame> = Vec::new();
    let mut i: usize = 0;
    while i < frames.len()
        invariant
            0 <= i <= frames.len(),
            out.deep_view() == sort_desc(frames.deep_view().take(i as int)),
        decreases frames.len() - i,
    {
        proof {
            assert(frames.deep_view().take(i as int + 1).drop_last() =~= frames.deep_view().take(
                i as int,
            ));
            assert(frames.deep_view().take(i as int + 1).last() == frames.deep_view()[i as int]);
        }
        insert_sorted(&mut out, frame::copy_frame(&frames[i]));
        i += 1;
    }
    proof {
        assert(frames.deep_view().take(frames.deep_view().len() as int) =~= frames.deep_view());
    }
    out
}

/// Validates the filter and selects: the live frames it keeps, sorted
/// by start with the most recent first. A rejected filter reports the
/// configuration fault before anything is selected.
pub fn filter_frames(store: &Store, flt: &LogFilter, now: i64) -> (r: Result<Vec<Frame>, Error>)
    requires
        time::ts_in_range(now as int),
    ensures
        match r {
            Result::Ok(v) => {
                &&& filter_fault(flt@, now as int) is None
                &&& v.deep_view() == sort_desc(matching_frames(store@, flt@, now as int))
            },
            Result::Err(e) => {
                &&& filter_fault(flt@, now as int) is Some
                &&& e == Error::ConfigurationError(filter_fault(flt@, now as int)->0)
            },
        },
{
    if text::share_one(&flt.projects, &flt.ignored_projects) {
        return Result::Err(Error::ConfigurationError(ConfigFault::ProjectsNotDisjoint));
    }
    if text::share_one(&flt.tags, &flt.ignored_tags) {
        return Result::Err(Error::ConfigurationError(ConfigFault::TagsNotDisjoint));
    }
    let from_e: i64 = match flt.from {
        Option::Some(t) => t,
        Option::None => now - 604800,
    };
    let to_e: i64 = match flt.to {
        Option::Some(t) => t,
        Option::None => (time::day_of_ts(now) + 2) * 86400 - 1,
    };
    if from_e > to_e {
        return Result::Err(Error::ConfigurationError(ConfigFault::FromAfterTo));
    }
    let picked = store.scan_matching(flt, now, from_e, to_e);
    Result::Ok(sort_frames_desc(&picked))
}

} // verus!
