use vstd::prelude::*;
use vstd::pervasive::VecAdditionalExecFns;

use crate::errors::Error;
use crate::frame;
use crate::frame::Frame;
use crate::frame::FrameView;
use crate::text;
use crate::time;

verus! {

/// Relies on uuid::Uuid::new_v4 and its display form: a random
/// version-4 UUID rendered as 36 hyphenated hexadecimal characters.
/// Nothing is assumed about which id comes back beyond its length.
#[verifier::external_body]
fn new_uuid_string() -> (r: String)
    ensures
        r@.len() == 36,
{
    uuid::Uuid::new_v4().to_string()
}

/// The frame repository: every frame ever created, deleted ones
/// included. Reads ignore deleted frames; nothing is removed
/// physically.
pub struct Store {
    frames: Vec<Frame>,
}

/// A partial update for a frame: any subset of start, end, project
/// and tags. An outer `None` leaves the field as it is; for `end` the
/// inner option distinguishes a finished end from a running frame.
pub struct FramePatch {
    pub start: Option<i64>,
    pub end: Option<Option<i64>>,
    pub project: Option<String>,
    pub tags: Option<Vec<String>>,
}

/// The start a frame would have after the patch.
pub open spec fn patched_start(f: FrameView, p: FramePatch) -> i64 {
    if p.start is Some {
        p.start->0
    } else {
        f.start
    }
}

/// The end a frame would have after the patch.
pub open spec fn patched_end(f: FrameView, p: FramePatch) -> Option<i64> {
    if p.end is Some {
        p.end->0
    } else {
        f.end
    }
}

/// The patched interval read as a collision candidate end.
pub open spec fn patched_end_int(f: FrameView, p: FramePatch) -> Option<int> {
    match patched_end(f, p) {
        Option::Some(e) => Option::Some(e as int),
        Option::None => Option::None,
    }
}

/// The patched interval is malformed: an end at or before the start.
pub open spec fn patch_malformed(f: FrameView, p: FramePatch) -> bool {
    patched_end(f, p) is Some && patched_start(f, p) >= patched_end(f, p)->0
}

/// What stopping the running frame at `at`, stamped with `now`,
/// leaves behind: `o` the rows before, `n` the rows after.
pub open spec fn stop_post(
    o: Seq<FrameView>,
    n: Seq<FrameView>,
    at: i64,
    now: i64,
    r: Result<Frame, Error>,
) -> bool {
    match r {
        Result::Ok(f) => exists|i: int|
            {
                &&& 0 <= i < o.len()
                &&& !(#[trigger] o[i]).deleted
                &&& o[i].end is None
                &&& o[i].start < at
                &&& f@ == (FrameView { end: Option::Some(at), last_update: now, ..o[i] })
                &&& n == o.update(i, f@)
                &&& forall|j: int|
                    0 <= j < o.len() && j != i ==> !frame::collides_with(
                        #[trigger] o[j],
                        o[i].start as int,
                        at as int,
                    )
            },
        Result::Err(e) => {
            &&& n == o
            &&& match e {
                Error::NotFoundError => forall|i: int|
                    0 <= i < o.len() ==> !(!(#[trigger] o[i]).deleted && o[i].end is None),
                Error::ValidationError => exists|i: int|
                    0 <= i < o.len() && !(#[trigger] o[i]).deleted && o[i].end is None && at
                        <= o[i].start,
                Error::OverlapError(id) => exists|i: int, j: int|
                    {
                        &&& 0 <= i < o.len()
                        &&& 0 <= j < o.len()
                        &&& j != i
                        &&& !(#[trigger] o[i]).deleted
                        &&& o[i].end is None
                        &&& o[i].start < at
                        &&& frame::collides_with(#[trigger] o[j], o[i].start as int, at as int)
                        &&& o[j].id == id@
                    },
                _ => false,
            }
        },
    }
}

/// What rewriting the live frame with id `id` by `patch`, stamped
/// with `now`, leaves behind: `o` the rows before, `n` the rows
/// after.
pub open spec fn update_post(
    o: Seq<FrameView>,
    n: Seq<FrameView>,
    id: Seq<char>,
    patch: FramePatch,
    now: i64,
    r: Result<(), Error>,
) -> bool {
    match r {
        Result::Ok(_) => exists|i: int|
            {
                &&& 0 <= i < o.len()
                &&& !(#[trigger] o[i]).deleted
                &&& o[i].id == id
                &&& !patch_malformed(o[i], patch)
                &&& forall|j: int|
                    0 <= j < o.len() && j != i ==> !collision_candidate(
                        #[trigger] o[j],
                        patched_start(o[i], patch) as int,
                        patched_end_int(o[i], patch),
                        Option::None,
                    )
                &&& n == o.update(
                    i,
                    FrameView {
                        id: o[i].id,
                        start: patched_start(o[i], patch),
                        end: patched_end(o[i], patch),
                        last_update: now,
                        project: if patch.project is Some {
                            patch.project->0@
                        } else {
                            o[i].project
                        },
                        tags: if patch.tags is Some {
                            patch.tags->0.deep_view()
                        } else {
                            o[i].tags
                        },
                        deleted: false,
                    },
                )
            },
        Result::Err(e) => {
            &&& n == o
            &&& match e {
                Error::NotFoundError => forall|i: int|
                    0 <= i < o.len() ==> !(!(#[trigger] o[i]).deleted && o[i].id == id),
                Error::ValidationError => exists|i: int|
                    {
                        &&& 0 <= i < o.len()
                        &&& !(#[trigger] o[i]).deleted
                        &&& o[i].id == id
                        &&& patch_malformed(o[i], patch)
                    },
                Error::OverlapError(cid) => exists|i: int, j: int|
                    {
                        &&& 0 <= i < o.len()
                        &&& 0 <= j < o.len()
                        &&& j != i
                        &&& !(#[trigger] o[i]).deleted
                        &&& o[i].id == id
                        &&& !patch_malformed(o[i], patch)
                        &&& collision_candidate(
                            #[trigger] o[j],
                            patched_start(o[i], patch) as int,
                            patched_end_int(o[i], patch),
                            Option::None,
                        )
                        &&& o[j].id == cid@
                    },
                _ => false,
            }
        },
    }
}

/// The store's invariant over its sequence of rows:
/// every frame is well formed; ids are unique over all rows, deleted
/// ones included; the intervals of two live finished frames never
/// intersect; and at most one live frame is still running.
pub open spec fn store_wf(s: Seq<FrameView>) -> bool {
    &&& forall|i: int| 0 <= i < s.len() ==> frame::frame_valid(#[trigger] s[i])
    &&& forall|i: int, j: int|
        #![trigger s[i].id, s[j].id]
        0 <= i < s.len() && 0 <= j < s.len() && i != j ==> s[i].id != s[j].id
    &&& forall|i: int, j: int|
        #![trigger s[i], s[j]]
        0 <= i < s.len() && 0 <= j < s.len() && i != j && !s[i].deleted && !s[j].deleted
            ==> !frame::closed_overlap(s[i], s[j])
    &&& forall|i: int, j: int|
        #![trigger s[i].end, s[j].end]
        0 <= i < s.len() && 0 <= j < s.len() && i != j && !s[i].deleted && !s[j].deleted
            ==> !(s[i].end is None && s[j].end is None)
}

/// A frame that stands in the way of the candidate interval
/// `[start, end)`, where an `end` of `None` means an open-ended
/// candidate; a frame whose id reads as `skip` is not considered.
pub open spec fn collision_candidate(
    f: FrameView,
    start: int,
    end: Option<int>,
    skip: Option<Seq<char>>,
) -> bool {
    &&& match end {
        Option::Some(e) => frame::collides_with(f, start, e),
        Option::None => frame::collides_at_start(f, start),
    }
    &&& match skip {
        Option::Some(id) => f.id != id,
        Option::None => true,
    }
}

/// The live frames of `s` whose id begins with `p`.
pub open spec fn short_matches(s: Seq<FrameView>, p: Seq<char>) -> Seq<FrameView> {
    s.filter(|f: FrameView| !f.deleted && text::is_prefix(p, f.id))
}

/// The frames of `s` not marked deleted, in store order.
pub open spec fn live_frames(s: Seq<FrameView>) -> Seq<FrameView> {
    s.filter(|f: FrameView| !f.deleted)
}

/// Some live frame of `s` is tracked against project `p`.
pub open spec fn has_project_spec(s: Seq<FrameView>, p: Seq<char>) -> bool {
    exists|i: int| 0 <= i < s.len() && !(#[trigger] s[i]).deleted && s[i].project == p
}

/// Some live frame of `s` carries tag `t`.
pub open spec fn has_tag_spec(s: Seq<FrameView>, t: Seq<char>) -> bool {
    exists|i: int| 0 <= i < s.len() && !(#[trigger] s[i]).deleted && s[i].tags.contains(t)
}

/// The distinct project names of the live frames of `s`, each at its
/// first occurrence, in store order.
pub open spec fn project_names(s: Seq<FrameView>) -> Seq<Seq<char>>
    decreases s.len(),
{
    if s.len() == 0 {
        Seq::empty()
    } else {
        let prev = project_names(s.drop_last());
        let f = s.last();
        if !f.deleted && !prev.contains(f.project) {
            prev.push(f.project)
        } else {
            prev
        }
    }
}

/// Row `i` is live and every later row is deleted.
pub open spec fn last_live_at(s: Seq<FrameView>, i: int) -> bool {
    &&& 0 <= i < s.len()
    &&& !s[i].deleted
    &&& forall|j: int| i < j < s.len() ==> (#[trigger] s[j]).deleted
}

/// Every short-id match is one of the rows, is live, and carries the
/// prefix.
pub proof fn lemma_short_matches_sub(s: Seq<FrameView>, p: Seq<char>)
    ensures
        forall|k: int|
            0 <= k < short_matches(s, p).len() ==> exists|i: int|
                0 <= i < s.len() && s[i] == #[trigger] short_matches(s, p)[k],
        forall|k: int|
            0 <= k < short_matches(s, p).len()
                ==> !(#[trigger] short_matches(s, p)[k]).deleted && text::is_prefix(
                p,
                short_matches(s, p)[k].id,
            ),
    decreases s.len(),
{
    reveal(Seq::filter);
    if s.len() > 0 {
        lemma_short_matches_sub(s.drop_last(), p);
        let m = short_matches(s, p);
        let md = short_matches(s.drop_last(), p);
        assert forall|k: int| 0 <= k < m.len() implies exists|i: int|
            0 <= i < s.len() && s[i] == #[trigger] m[k] by {
            if k < md.len() {
                let i = choose|i: int| 0 <= i < s.drop_last().len() && s.drop_last()[i] == md[k];
                assert(s[i] == m[k]);
            } else {
                assert(m[k] == s.last());
                assert(s[s.len() - 1] == m[k]);
            }
        }
    }
}

/// Every frame `live_frames` keeps is live.
pub proof fn lemma_live_frames_pred(s: Seq<FrameView>)
    ensures
        forall|k: int|
            0 <= k < live_frames(s).len() ==> !(#[trigger] live_frames(s)[k]).deleted,
    decreases s.len(),
{
    reveal(Seq::filter);
    if s.len() > 0 {
        lemma_live_frames_pred(s.drop_last());
        let m = live_frames(s);
        let md = live_frames(s.drop_last());
        assert forall|k: int| 0 <= k < m.len() implies !(#[trigger] m[k]).deleted by {
            if k < md.len() {
                assert(m[k] == md[k]);
            }
        }
    }
}

/// How `live_frames` grows when a row is appended.
pub proof fn lemma_live_push(s: Seq<FrameView>, x: FrameView)
    ensures
        live_frames(s.push(x)) == if !x.deleted {
            live_frames(s).push(x)
        } else {
            live_frames(s)
        },
{
    reveal(Seq::filter);
    assert(s.push(x).drop_last() =~= s);
    if !x.deleted {
        assert(live_frames(s.push(x)) =~= live_frames(s).push(x));
    } else {
        assert(live_frames(s.push(x)) =~= live_frames(s));
    }
}

/// How `short_matches` grows when a row is appended.
pub proof fn lemma_short_push(s: Seq<FrameView>, p: Seq<char>, x: FrameView)
    ensures
        short_matches(s.push(x), p) == if !x.deleted && text::is_prefix(p, x.id) {
            short_matches(s, p).push(x)
        } else {
            short_matches(s, p)
        },
{
    reveal(Seq::filter);
    assert(s.push(x).drop_last() =~= s);
    if !x.deleted && text::is_prefix(p, x.id) {
        assert(short_matches(s.push(x), p) =~= short_matches(s, p).push(x));
    } else {
        assert(short_matches(s.push(x), p) =~= short_matches(s, p));
    }
}

impl View for Store {
    type V = Seq<FrameView>;

    closed spec fn view(&self) -> Seq<FrameView> {
        self.frames.deep_view()
    }
}

impl Store {
    pub open spec fn wf(self) -> bool {
        store_wf(self@)
    }

    /// An empty store.
    pub fn new() -> (s: Store)
        ensures
            s@ =~= Seq::<FrameView>::empty(),
            s.wf(),
    {
        Store { frames: Vec::new() }
    }

    /// Rebuilds a store from persisted rows, checking the invariant
    /// that creation-time validation once established: well-formed
    /// frames, unique ids, no intersection among live finished
    /// frames, at most one live running frame. Rows that break it are
    /// refused.
    pub fn from_rows(rows: Vec<Frame>) -> (r: Option<Store>)
        ensures
            match r {
                Option::Some(s) => s@ == rows.deep_view() && s.wf(),
                Option::None => !store_wf(rows.deep_view()),
            },
    {
        let n = rows.len();
        let mut i: usize = 0;
        while i < n
            invariant
                n == rows.len(),
                0 <= i <= n,
                forall|a: int| 0 <= a < i ==> frame::frame_valid(#[trigger] rows.deep_view()[a]),
                forall|a: int, b: int|
                    #![trigger rows.deep_view()[a].id, rows.deep_view()[b].id]
                    0 <= a < b < i ==> rows.deep_view()[a].id != rows.deep_view()[b].id,
                forall|a: int, b: int|
                    #![trigger rows.deep_view()[a], rows.deep_view()[b]]
                    0 <= a < b < i && !rows.deep_view()[a].deleted && !rows.deep_view()[b].deleted
                        ==> !frame::closed_overlap(rows.deep_view()[a], rows.deep_view()[b]),
                forall|a: int, b: int|
                    #![trigger rows.deep_view()[a].end, rows.deep_view()[b].end]
                    0 <= a < b < i && !rows.deep_view()[a].deleted && !rows.deep_view()[b].deleted
                        ==> !(rows.deep_view()[a].end is None && rows.deep_view()[b].end is None),
            decreases n - i,
        {
            let f = &rows[i];
            proof {
                assert(rows.deep_view()[i as int] == f@);
            }
            if f.start < -time::TS_LIMIT || f.start > time::TS_LIMIT {
                proof {
                    if store_wf(rows.deep_view()) {
                        assert(frame::frame_valid(rows.deep_view()[i as int]));
                    }
                }
                return Option::None;
            }
            if let Option::Some(e) = f.end {
                if e < -time::TS_LIMIT || e > time::TS_LIMIT || f.start >= e {
                    proof {
                        if store_wf(rows.deep_view()) {
                            assert(frame::frame_valid(rows.deep_view()[i as int]));
                        }
                    }
                    return Option::None;
                }
            }
            let mut j: usize = 0;
            while j < i
                invariant
                    n == rows.len(),
                    0 <= j <= i < n,
                    frame::frame_valid(rows.deep_view()[i as int]),
                    forall|a: int|
                        0 <= a < i ==> frame::frame_valid(#[trigger] rows.deep_view()[a]),
                    forall|a: int, b: int|
                        #![trigger rows.deep_view()[a].id, rows.deep_view()[b].id]
                        0 <= a < b < i ==> rows.deep_view()[a].id != rows.deep_view()[b].id,
                    forall|a: int, b: int|
                        #![trigger rows.deep_view()[a], rows.deep_view()[b]]
                        0 <= a < b < i && !rows.deep_view()[a].deleted
                            && !rows.deep_view()[b].deleted ==> !frame::closed_overlap(
                            rows.deep_view()[a],
                            rows.deep_view()[b],
                        ),
                    forall|a: int, b: int|
                        #![trigger rows.deep_view()[a].end, rows.deep_view()[b].end]
                        0 <= a < b < i && !rows.deep_view()[a].deleted
                            && !rows.deep_view()[b].deleted ==> !(rows.deep_view()[a].end is None
                            && rows.deep_view()[b].end is None),
                    forall|a: int|
                        0 <= a < j ==> (#[trigger] rows.deep_view()[a]).id
                            != rows.deep_view()[i as int].id,
                    forall|a: int|
                        0 <= a < j && !(#[trigger] rows.deep_view()[a]).deleted
                            && !rows.deep_view()[i as int].deleted ==> !frame::closed_overlap(
                            rows.deep_view()[a],
                            rows.deep_view()[i as int],
                        ) && !(rows.deep_view()[a].end is None
                            && rows.deep_view()[i as int].end is None),
                decreases i - j,
            {
                let f = &rows[i];
                let g = &rows[j];
                proof {
                    assert(rows.deep_view()[i as int] == f@);
                    assert(rows.deep_view()[j as int] == g@);
                }
                if text::str_eq(g.id.as_str(), f.id.as_str()) {
                    proof {
                        if store_wf(rows.deep_view()) {
                            assert(rows.deep_view()[j as int].id
                                != rows.deep_view()[i as int].id);
                        }
                    }
                    return Option::None;
                }
                if !g.deleted && !f.deleted {
                    let both_open = g.end.is_none() && f.end.is_none();
                    if both_open {
                        proof {
                            if store_wf(rows.deep_view()) {
                                assert(!(rows.deep_view()[j as int].end is None
                                    && rows.deep_view()[i as int].end is None));
                            }
                        }
                        return Option::None;
                    }
                    if let Option::Some(ge) = g.end {
                        if let Option::Some(fe) = f.end {
                            if g.start < fe && f.start < ge {
                                proof {
                                    if store_wf(rows.deep_view()) {
                                        assert(!frame::closed_overlap(
                                            rows.deep_view()[j as int],
                                            rows.deep_view()[i as int],
                                        ));
                                    }
                                }
                                return Option::None;
                            }
                        }
                    }
                }
                j += 1;
            }
            i += 1;
        }
        proof {
            let dv = rows.deep_view();
            assert forall|a: int, b: int|
                #![trigger dv[a].id, dv[b].id]
                0 <= a < dv.len() && 0 <= b < dv.len() && a != b implies dv[a].id != dv[b].id by {
                if b < a {
                    assert(dv[b].id != dv[a].id);
                }
            }
            assert forall|a: int, b: int|
                #![trigger dv[a], dv[b]]
                0 <= a < dv.len() && 0 <= b < dv.len() && a != b && !dv[a].deleted
                    && !dv[b].deleted implies !frame::closed_overlap(dv[a], dv[b]) by {
                if b < a {
                    assert(!frame::closed_overlap(dv[b], dv[a]));
                }
            }
            assert forall|a: int, b: int|
                #![trigger dv[a].end, dv[b].end]
                0 <= a < dv.len() && 0 <= b < dv.len() && a != b && !dv[a].deleted
                    && !dv[b].deleted implies !(dv[a].end is None && dv[b].end is None) by {
                if b < a {
                    assert(!(dv[b].end is None && dv[a].end is None));
                }
            }
        }
        Option::Some(Store { frames: rows })
    }

    /// How many rows the store holds, deleted ones included.
    pub fn len(&self) -> (n: usize)
        ensures
            n == self@.len(),
    {
        self.frames.len()
    }

    /// Whether any row, deleted or not, carries this id.
    pub fn contains_id(&self, id: &str) -> (r: bool)
        ensures
            r == exists|i: int| 0 <= i < self@.len() && (#[trigger] self@[i]).id == id@,
    {
        let mut i: usize = 0;
        while i < self.frames.len()
            invariant
                0 <= i <= self.frames.len(),
                forall|k: int| 0 <= k < i ==> (#[trigger] self@[k]).id != id@,
            decreases self.frames.len() - i,
        {
            if text::str_eq(self.frames[i].id.as_str(), id) {
                proof {
                    assert((#[trigger] self@[i as int]).id == id@);
                }
                return true;
            }
            i += 1;
        }
        false
    }

    /// The first frame standing in the way of the candidate interval,
    /// ignoring any frame whose id reads as `skip`.
    fn find_collision(&self, start: i64, end: Option<i64>, skip: Option<&String>) -> (r: Option<
        usize,
    >)
        ensures
            match r {
                Option::Some(p) => {
                    &&& 0 <= p < self@.len()
                    &&& collision_candidate(
                        self@[p as int],
                        start as int,
                        match end {
                            Option::Some(e) => Option::Some(e as int),
                            Option::None => Option::None,
                        },
                        match skip {
                            Option::Some(id) => Option::Some(id@),
                            Option::None => Option::None,
                        },
                    )
                    &&& forall|k: int|
                        0 <= k < p
                            ==> !collision_candidate(
                            #[trigger] self@[k],
                            start as int,
                            match end {
                                Option::Some(e) => Option::Some(e as int),
                                Option::None => Option::None,
                            },
                            match skip {
                                Option::Some(id) => Option::Some(id@),
                                Option::None => Option::None,
                            },
                        )
                },
                Option::None => forall|k: int|
                    0 <= k < self@.len()
                        ==> !collision_candidate(
                        #[trigger] self@[k],
                        start as int,
                        match end {
                            Option::Some(e) => Option::Some(e as int),
                            Option::None => Option::None,
                        },
                        match skip {
                            Option::Some(id) => Option::Some(id@),
                            Option::None => Option::None,
                        },
                    ),
            },
    {
        let ghost end_spec: Option<int> = match end {
            Option::Some(e) => Option::Some(e as int),
            Option::None => Option::None,
        };
        let ghost skip_spec: Option<Seq<char>> = match skip {
            Option::Some(id) => Option::Some(id@),
            Option::None => Option::None,
        };
        let mut i: usize = 0;
        while i < self.frames.len()
            invariant
                0 <= i <= self.frames.len(),
                end_spec == (match end {
                    Option::Some(e) => Option::Some(e as int),
                    Option::None => Option::None,
                }),
                skip_spec == (match skip {
                    Option::Some(id) => Option::Some(id@),
                    Option::None => Option::None,
                }),
                forall|k: int|
                    0 <= k < i
                        ==> !collision_candidate(
                        #[trigger] self@[k],
                        start as int,
                        end_spec,
                        skip_spec,
                    ),
            decreases self.frames.len() - i,
        {
            let f = &self.frames[i];
            let in_way = !f.deleted && (match end {
                Option::Some(e) => f.start < e,
                Option::None => true,
            }) && (match f.end {
                Option::Some(fe) => fe > start,
                Option::None => true,
            });
            let skipped = match skip {
                Option::Some(id) => text::str_eq(f.id.as_str(), id.as_str()),
                Option::None => false,
            };
            if in_way && !skipped {
                return Option::Some(i);
            }
            i += 1;
        }
        Option::None
    }

    /// Whether any live frame's interval intersects the candidate
    /// interval `[start, end)`; a running frame counts as extending
    /// without bound.
    pub fn frame_collides(&self, start: i64, end: i64) -> (r: bool)
        ensures
            r == exists|i: int|
                0 <= i < self@.len() && frame::collides_with(
                    #[trigger] self@[i],
                    start as int,
                    end as int,
                ),
    {
        let hit = self.find_collision(start, Option::Some(end), Option::None);
        hit.is_some()
    }

    /// Whether starting an open-ended frame at `start` would run into
    /// any live frame: one that is still running, or one that ends
    /// strictly after `start`.
    pub fn frame_start_collides(&self, start: i64) -> (r: bool)
        ensures
            r == exists|i: int|
                0 <= i < self@.len() && frame::collides_at_start(#[trigger] self@[i], start as int),
    {
        let hit = self.find_collision(start, Option::None, Option::None);
        hit.is_some()
    }

    /// The id of the first live frame colliding with the candidate
    /// interval, if any, skipping the frame whose id reads as `skip`.
    pub(crate) fn collision_id(&self, start: i64, end: Option<i64>, skip: Option<&String>) -> (r: Option<
        String,
    >)
        ensures
            match r {
                Option::Some(id) => exists|i: int|
                    0 <= i < self@.len() && (#[trigger] self@[i]).id == id@ && collision_candidate(
                        self@[i],
                        start as int,
                        match end {
                            Option::Some(e) => Option::Some(e as int),
                            Option::None => Option::None,
                        },
                        match skip {
                            Option::Some(s) => Option::Some(s@),
                            Option::None => Option::None,
                        },
                    ),
                Option::None => forall|i: int|
                    0 <= i < self@.len()
                        ==> !collision_candidate(
                        #[trigger] self@[i],
                        start as int,
                        match end {
                            Option::Some(e) => Option::Some(e as int),
                            Option::None => Option::None,
                        },
                        match skip {
                            Option::Some(s) => Option::Some(s@),
                            Option::None => Option::None,
                        },
                    ),
            },
    {
        match self.find_collision(start, end, skip) {
            Option::Some(p) => Option::Some(self.frames[p].id.clone()),
            Option::None => Option::None,
        }
    }

    /// Every row, deleted ones included, in store order; what the
    /// persistence layer writes back.
    pub fn rows(&self) -> (r: Vec<Frame>)
        ensures
            r.deep_view() == self@,
    {
        let mut out: Vec<Frame> = Vec::new();
        let mut i: usize = 0;
        while i < self.frames.len()
            invariant
                0 <= i <= self.frames.len(),
                out.deep_view() == self@.take(i as int),
            decreases self.frames.len() - i,
        {
            let c = frame::copy_frame(&self.frames[i]);
            proof {
                assert(c@ == self@[i as int]);
            }
            out.push(c);
            proof {
                assert(self@.take(i as int + 1) =~= self@.take(i as int).push(self@[i as int]));
                assert(out.deep_view() =~= self@.take(i as int).push(self@[i as int]));
            }
            i += 1;
        }
        proof {
            assert(self@.take(self@.len() as int) =~= self@);
        }
        out
    }

    /// Every live frame, in store order.
    pub fn find_all(&self) -> (r: Vec<Frame>)
        ensures
            r.deep_view() == live_frames(self@),
    {
        let mut out: Vec<Frame> = Vec::new();
        let mut i: usize = 0;
        while i < self.frames.len()
            invariant
                0 <= i <= self.frames.len(),
                out.deep_view() == live_frames(self@.take(i as int)),
            decreases self.frames.len() - i,
        {
            proof {
                lemma_live_push(self@.take(i as int), self@[i as int]);
                assert(self@.take(i as int + 1) =~= self@.take(i as int).push(self@[i as int]));
            }
            if !self.frames[i].deleted {
                out.push(frame::copy_frame(&self.frames[i]));
                proof {
                    assert(out.deep_view() =~= live_frames(self@.take(i as int + 1)));
                }
            }
            i += 1;
        }
        proof {
            assert(self@.take(self@.len() as int) =~= self@);
        }
        out
    }

    /// The live frame with exactly this id. A deleted frame is not
    /// found, though its row remains in storage.
    pub fn find_by_id(&self, id: &str) -> (r: Result<Frame, Error>)
        ensures
            match r {
                Result::Ok(f) => exists|i: int|
                    0 <= i < self@.len() && !(#[trigger] self@[i]).deleted && self@[i].id == id@
                        && self@[i] == f@,
                Result::Err(e) => {
                    &&& e == Error::NotFoundError
                    &&& forall|i: int|
                        0 <= i < self@.len()
                            ==> !(!(#[trigger] self@[i]).deleted && self@[i].id == id@)
                },
            },
    {
        let mut i: usize = 0;
        while i < self.frames.len()
            invariant
                0 <= i <= self.frames.len(),
                forall|k: int|
                    0 <= k < i ==> !(!(#[trigger] self@[k]).deleted && self@[k].id == id@),
            decreases self.frames.len() - i,
        {
            if !self.frames[i].deleted && text::str_eq(self.frames[i].id.as_str(), id) {
                let r = frame::copy_frame(&self.frames[i]);
                proof {
                    assert((#[trigger] self@[i as int]).id == id@ && self@[i as int] == r@);
                }
                return Result::Ok(r);
            }
            i += 1;
        }
        Result::Err(Error::NotFoundError)
    }

    /// The live frame whose id begins with `prefix`: not found when no
    /// live id matches, ambiguous when more than one does.
    pub fn find_by_short_id(&self, prefix: &str) -> (r: Result<Frame, Error>)
        ensures
            match r {
                Result::Ok(f) => {
                    &&& short_matches(self@, prefix@).len() == 1
                    &&& short_matches(self@, prefix@)[0] == f@
                },
                Result::Err(e) => {
                    &&& short_matches(self@, prefix@).len() == 0 ==> e == Error::NotFoundError
                    &&& short_matches(self@, prefix@).len() >= 2 ==> e == Error::AmbiguousError
                    &&& short_matches(self@, prefix@).len() != 1
                },
            },
    {
        let mut found: Option<usize> = Option::None;
        let mut count: usize = 0;
        let mut i: usize = 0;
        while i < self.frames.len()
            invariant
                0 <= i <= self.frames.len(),
                count == short_matches(self@.take(i as int), prefix@).len(),
                count <= i,
                match found {
                    Option::Some(p) => {
                        &&& count >= 1
                        &&& 0 <= p < i
                        &&& self@[p as int] == short_matches(self@.take(i as int), prefix@)[0]
                    },
                    Option::None => count == 0,
                },
            decreases self.frames.len() - i,
        {
            proof {
                lemma_short_push(self@.take(i as int), prefix@, self@[i as int]);
                assert(self@.take(i as int + 1) =~= self@.take(i as int).push(self@[i as int]));
            }
            let f = &self.frames[i];
            if !f.deleted && text::str_has_prefix(f.id.as_str(), prefix) {
                if found.is_none() {
                    found = Option::Some(i);
                }
                count += 1;
            }
            i += 1;
        }
        proof {
            assert(self@.take(self@.len() as int) =~= self@);
        }
        if count == 0 {
            return Result::Err(Error::NotFoundError);
        }
        if count >= 2 {
            return Result::Err(Error::AmbiguousError);
        }
        match found {
            Option::Some(p) => Result::Ok(frame::copy_frame(&self.frames[p])),
            Option::None => Result::Err(Error::NotFoundError),
        }
    }

    /// The live frame that is still running, if any; the invariant
    /// keeps it unique.
    pub fn last_started_frame(&self) -> (r: Option<Frame>)
        ensures
            match r {
                Option::Some(f) => exists|i: int|
                    0 <= i < self@.len() && !(#[trigger] self@[i]).deleted && self@[i].end is None
                        && self@[i] == f@,
                Option::None => forall|i: int|
                    0 <= i < self@.len()
                        ==> !(!(#[trigger] self@[i]).deleted && self@[i].end is None),
            },
    {
        let mut i: usize = 0;
        while i < self.frames.len()
            invariant
                0 <= i <= self.frames.len(),
                forall|k: int|
                    0 <= k < i ==> !(!(#[trigger] self@[k]).deleted && self@[k].end is None),
            decreases self.frames.len() - i,
        {
            if !self.frames[i].deleted && self.frames[i].end.is_none() {
                let r = frame::copy_frame(&self.frames[i]);
                proof {
                    assert(!(#[trigger] self@[i as int]).deleted && self@[i as int] == r@);
                }
                return Option::Some(r);
            }
            i += 1;
        }
        Option::None
    }

    /// The live finished frame with the greatest end, if any; the
    /// invariant keeps ends of live finished frames distinct.
    pub fn last_finished_frame(&self) -> (r: Option<Frame>)
        ensures
            match r {
                Option::Some(f) => {
                    &&& f@.end is Some
                    &&& exists|i: int|
                        0 <= i < self@.len() && !(#[trigger] self@[i]).deleted
                            && self@[i].end is Some && self@[i] == f@
                    &&& forall|j: int|
                        0 <= j < self@.len() && !(#[trigger] self@[j]).deleted
                            && self@[j].end is Some ==> self@[j].end->0 <= f@.end->0
                },
                Option::None => forall|i: int|
                    0 <= i < self@.len()
                        ==> !(!(#[trigger] self@[i]).deleted && self@[i].end is Some),
            },
    {
        let mut best: Option<usize> = Option::None;
        let mut i: usize = 0;
        while i < self.frames.len()
            invariant
                0 <= i <= self.frames.len(),
                match best {
                    Option::Some(b) => {
                        &&& 0 <= b < i
                        &&& !self@[b as int].deleted
                        &&& self@[b as int].end is Some
                        &&& forall|k: int|
                            0 <= k < i && !(#[trigger] self@[k]).deleted && self@[k].end is Some
                                ==> self@[k].end->0 <= self@[b as int].end->0
                    },
                    Option::None => forall|k: int|
                        0 <= k < i ==> !(!(#[trigger] self@[k]).deleted && self@[k].end is Some),
                },
            decreases self.frames.len() - i,
        {
            let f = &self.frames[i];
            if !f.deleted {
                if let Option::Some(fe) = f.end {
                    let better = match best {
                        Option::Some(b) => {
                            match self.frames[b].end {
                                Option::Some(be) => fe > be,
                                Option::None => true,
                            }
                        },
                        Option::None => true,
                    };
                    if better {
                        best = Option::Some(i);
                    }
                }
            }
            i += 1;
        }
        match best {
            Option::Some(b) => Option::Some(frame::copy_frame(&self.frames[b])),
            Option::None => Option::None,
        }
    }

    /// The most recently created live frame: the live row appended
    /// last, since rows are appended in creation order.
    pub fn last_created_frame(&self) -> (r: Option<Frame>)
        ensures
            match r {
                Option::Some(f) => exists|i: int| last_live_at(self@, i) && self@[i] == f@,
                Option::None => forall|i: int|
                    0 <= i < self@.len() ==> (#[trigger] self@[i]).deleted,
            },
    {
        let mut i: usize = self.frames.len();
        while i > 0
            invariant
                0 <= i <= self.frames.len(),
                forall|j: int| i <= j < self@.len() ==> (#[trigger] self@[j]).deleted,
            decreases i,
        {
            i -= 1;
            if !self.frames[i].deleted {
                let f = frame::copy_frame(&self.frames[i]);
                proof {
                    assert(last_live_at(self@, i as int) && self@[i as int] == f@);
                }
                return Option::Some(f);
            }
        }
        Option::None
    }

    /// The greatest id length over all rows.
    fn longest_id_len(&self) -> (n: usize)
        ensures
            forall|i: int| 0 <= i < self@.len() ==> (#[trigger] self@[i]).id.len() <= n,
    {
        let mut n: usize = 0;
        let mut i: usize = 0;
        while i < self.frames.len()
            invariant
                0 <= i <= self.frames.len(),
                forall|k: int| 0 <= k < i ==> (#[trigger] self@[k]).id.len() <= n,
            decreases self.frames.len() - i,
        {
            let l = self.frames[i].id.as_str().unicode_len();
            if l > n {
                n = l;
            }
            i += 1;
        }
        n
    }

    /// A non-empty id no row carries yet. Ordinarily the first random
    /// UUID serves; should the draw duplicate a stored id, an id
    /// longer than every stored one is built instead.
    fn unused_id(&self) -> (id: String)
        ensures
            id@.len() >= 1,
            forall|i: int| 0 <= i < self@.len() ==> (#[trigger] self@[i]).id != id@,
    {
        let id = new_uuid_string();
        if !self.contains_id(id.as_str()) {
            return id;
        }
        let bound = self.longest_id_len();
        let mut fresh = new_uuid_string();
        while fresh.as_str().unicode_len() <= bound
            invariant
                fresh@.len() >= 1,
            decreases bound + 1 - fresh@.len(),
        {
            proof {
                reveal_strlit("x");
            }
            fresh.append("x");
        }
        proof {
            assert forall|i: int| 0 <= i < self@.len() implies (#[trigger] self@[i]).id
                != fresh@ by {
                assert(self@[i].id.len() <= bound);
            }
        }
        fresh
    }

    /// Persists a finished frame over `[start, end)` under a fresh id,
    /// stamped with `now`. Rejects a malformed interval; the caller
    /// must have run the collision check, as the `requires` records.
    pub fn create_frame(
        &mut self,
        start: i64,
        end: i64,
        project: &str,
        tags: Vec<String>,
        now: i64,
    ) -> (r: Result<String, Error>)
        requires
            old(self).wf(),
            time::ts_in_range(start as int),
            time::ts_in_range(end as int),
            time::ts_in_range(now as int),
            start < end ==> forall|i: int|
                0 <= i < old(self)@.len() ==> !frame::collides_with(
                    #[trigger] old(self)@[i],
                    start as int,
                    end as int,
                ),
        ensures
            final(self).wf(),
            start >= end ==> r == Result::<String, Error>::Err(Error::ValidationError)
                && final(self)@ == old(self)@,
            start < end ==> match r {
                Result::Ok(id) => {
                    &&& final(self)@ == old(self)@.push(
                        FrameView {
                            id: id@,
                            start,
                            end: Option::Some(end),
                            last_update: now,
                            project: project@,
                            tags: tags.deep_view(),
                            deleted: false,
                        },
                    )
                    &&& forall|i: int|
                        0 <= i < old(self)@.len() ==> (#[trigger] old(self)@[i]).id != id@
                },
                Result::Err(_) => false,
            },
    {
        if start >= end {
            return Result::Err(Error::ValidationError);
        }
        let id = self.unused_id();
        let f = Frame {
            id: id.clone(),
            start,
            end: Option::Some(end),
            last_update: now,
            project: project.to_owned(),
            tags,
            deleted: false,
        };
        proof {
            assert(f@.tags =~~= f.tags.deep_view());
        }
        self.frames.push(f);
        proof {
            assert(self@ =~= old(self)@.push(f@));
            let s = self@;
            let n = s.len() - 1;
            assert forall|i: int, j: int|
                0 <= i < s.len() && 0 <= j < s.len() && i != j && !s[i].deleted && !s[j].deleted
                    implies !frame::closed_overlap(#[trigger] s[i], #[trigger] s[j]) by {
                if i == n {
                    assert(!frame::collides_with(old(self)@[j], start as int, end as int));
                } else if j == n {
                    assert(!frame::collides_with(old(self)@[i], start as int, end as int));
                }
            }
            assert(final(self)@ =~= old(self)@.push(
                FrameView {
                    id: id@,
                    start,
                    end: Option::Some(end),
                    last_update: now,
                    project: project@,
                    tags: f@.tags,
                    deleted: false,
                },
            ));
        }
        Result::Ok(id)
    }

    /// Opens a running frame at `start` under a fresh id, stamped with
    /// `now`. The caller must have made sure nothing is running, as
    /// the `requires` records.
    pub fn start_frame(&mut self, start: i64, project: &str, tags: Vec<String>, now: i64) -> (id:
        String)
        requires
            old(self).wf(),
            time::ts_in_range(start as int),
            time::ts_in_range(now as int),
            forall|i: int|
                0 <= i < old(self)@.len()
                    ==> !(!(#[trigger] old(self)@[i]).deleted && old(self)@[i].end is None),
        ensures
            final(self).wf(),
            final(self)@ == old(self)@.push(
                FrameView {
                    id: id@,
                    start,
                    end: Option::None,
                    last_update: now,
                    project: project@,
                    tags: tags.deep_view(),
                    deleted: false,
                },
            ),
            forall|i: int| 0 <= i < old(self)@.len() ==> (#[trigger] old(self)@[i]).id != id@,
    {
        let id = self.unused_id();
        let f = Frame {
            id: id.clone(),
            start,
            end: Option::None,
            last_update: now,
            project: project.to_owned(),
            tags,
            deleted: false,
        };
        proof {
            assert(f@.tags =~~= f.tags.deep_view());
        }
        self.frames.push(f);
        proof {
            assert(self@ =~= old(self)@.push(f@));
            assert(final(self)@ =~= old(self)@.push(
                FrameView {
                    id: id@,
                    start,
                    end: Option::None,
                    last_update: now,
                    project: project@,
                    tags: f@.tags,
                    deleted: false,
                },
            ));
        }
        id
    }

    /// Closes the running frame at `at`, stamped with `now`. Nothing
    /// running is not found; an end at or before the start is
    /// malformed; an end that would make the closed frame collide
    /// with another live frame is an overlap, and nothing changes.
    pub fn stop_frame(&mut self, at: i64, now: i64) -> (r: Result<Frame, Error>)
        requires
            old(self).wf(),
            time::ts_in_range(at as int),
            time::ts_in_range(now as int),
        ensures
            final(self).wf(),
            stop_post(old(self)@, final(self)@, at, now, r),
    {
        let mut run: Option<usize> = Option::None;
        let mut i: usize = 0;
        while i < self.frames.len()
            invariant
                self@ == old(self)@,
                old(self).wf(),
                0 <= i <= self.frames.len(),
                match run {
                    Option::Some(p) => 0 <= p < i && !self@[p as int].deleted
                        && self@[p as int].end is None,
                    Option::None => forall|k: int|
                        0 <= k < i ==> !(!(#[trigger] self@[k]).deleted && self@[k].end is None),
                },
            decreases self.frames.len() - i,
        {
            if run.is_none() && !self.frames[i].deleted && self.frames[i].end.is_none() {
                run = Option::Some(i);
            }
            i += 1;
        }
        let p = match run {
            Option::Some(p) => p,
            Option::None => {
                return Result::Err(Error::NotFoundError);
            },
        };
        let started = self.frames[p].start;
        if at <= started {
            return Result::Err(Error::ValidationError);
        }
        let own_id = self.frames[p].id.clone();
        match self.collision_id(started, Option::Some(at), Option::Some(&own_id)) {
            Option::Some(other) => {
                proof {
                    let j = choose|j: int|
                        0 <= j < self@.len() && (#[trigger] self@[j]).id == other@
                            && collision_candidate(
                            self@[j],
                            started as int,
                            Option::Some(at as int),
                            Option::Some(own_id@),
                        );
                    assert(j != p);
                }
                return Result::Err(Error::OverlapError(other));
            },
            Option::None => {},
        }
        let stopped = Frame {
            id: self.frames[p].id.clone(),
            start: started,
            end: Option::Some(at),
            last_update: now,
            project: self.frames[p].project.clone(),
            tags: self.frames[p].tags.clone(),
            deleted: false,
        };
        proof {
            assert(stopped.tags.deep_view() =~~= old(self)@[p as int].tags);
            assert(stopped@ =~= (FrameView {
                end: Option::Some(at),
                last_update: now,
                ..old(self)@[p as int]
            }));
        }
        self.frames.set(p, stopped);
        proof {
            assert(self@ =~= old(self)@.update(p as int, stopped@));
            let s = self@;
            let o = old(self)@;
            assert forall|i2: int, j2: int|
                0 <= i2 < s.len() && 0 <= j2 < s.len() && i2 != j2 && !s[i2].deleted
                    && !s[j2].deleted implies !frame::closed_overlap(
                #[trigger] s[i2],
                #[trigger] s[j2],
            ) by {
                if i2 == p as int {
                    assert(!frame::collides_with(o[j2], started as int, at as int));
                } else if j2 == p as int {
                    assert(!frame::collides_with(o[i2], started as int, at as int));
                }
            }
        }
        Result::Ok(frame::copy_frame(&self.frames[p]))
    }

    /// Marks the row with this exact id deleted and stamps it with
    /// `now`. Idempotent: deleting an already deleted row changes
    /// nothing and reports `false`; a missing id is not found.
    pub fn soft_delete(&mut self, id: &str, now: i64) -> (r: Result<bool, Error>)
        requires
            old(self).wf(),
        ensures
            final(self).wf(),
            final(self)@.len() == old(self)@.len(),
            match r {
                Result::Ok(was_live) => exists|i: int|
                    {
                        &&& 0 <= i < old(self)@.len()
                        &&& (#[trigger] old(self)@[i]).id == id@
                        &&& was_live == !old(self)@[i].deleted
                        &&& if was_live {
                            final(self)@ == old(self)@.update(
                                i,
                                FrameView { deleted: true, last_update: now, ..old(self)@[i] },
                            )
                        } else {
                            final(self)@ == old(self)@
                        }
                    },
                Result::Err(e) => {
                    &&& e == Error::NotFoundError
                    &&& final(self)@ == old(self)@
                    &&& forall|i: int|
                        0 <= i < old(self)@.len() ==> (#[trigger] old(self)@[i]).id != id@
                },
            },
    {
        let mut i: usize = 0;
        while i < self.frames.len()
            invariant
                self@ == old(self)@,
                old(self).wf(),
                0 <= i <= self.frames.len(),
                forall|k: int| 0 <= k < i ==> (#[trigger] self@[k]).id != id@,
            decreases self.frames.len() - i,
        {
            if text::str_eq(self.frames[i].id.as_str(), id) {
                if self.frames[i].deleted {
                    return Result::Ok(false);
                }
                let f = &self.frames[i];
                let gone = Frame {
                    id: f.id.clone(),
                    start: f.start,
                    end: f.end,
                    last_update: now,
                    project: f.project.clone(),
                    tags: f.tags.clone(),
                    deleted: true,
                };
                proof {
                    assert(gone.tags.deep_view() =~~= old(self)@[i as int].tags);
                    assert(gone@ =~= (FrameView {
                        deleted: true,
                        last_update: now,
                        ..old(self)@[i as int]
                    }));
                }
                self.frames.set(i, gone);
                proof {
                    let gi = i as int;
                    assert(self@ =~= old(self)@.update(gi, gone@));
                    assert((#[trigger] old(self)@[gi]).id == id@);
                }
                return Result::Ok(true);
            }
            i += 1;
        }
        Result::Err(Error::NotFoundError)
    }

    /// Whether some live frame is tracked against this project.
    pub(crate) fn scan_has_project(&self, project: &str) -> (r: bool)
        ensures
            r == has_project_spec(self@, project@),
    {
        let mut i: usize = 0;
        while i < self.frames.len()
            invariant
                0 <= i <= self.frames.len(),
                forall|k: int|
                    0 <= k < i ==> !(!(#[trigger] self@[k]).deleted && self@[k].project
                        == project@),
            decreases self.frames.len() - i,
        {
            if !self.frames[i].deleted && text::str_eq(
                self.frames[i].project.as_str(),
                project,
            ) {
                proof {
                    assert(!(#[trigger] self@[i as int]).deleted && self@[i as int].project
                        == project@);
                }
                return true;
            }
            i += 1;
        }
        false
    }

    /// Whether some live frame carries this tag.
    pub(crate) fn scan_has_tag(&self, tag: &str) -> (r: bool)
        ensures
            r == has_tag_spec(self@, tag@),
    {
        let mut i: usize = 0;
        while i < self.frames.len()
            invariant
                0 <= i <= self.frames.len(),
                forall|k: int|
                    0 <= k < i ==> !(!(#[trigger] self@[k]).deleted && self@[k].tags.contains(
                        tag@,
                    )),
            decreases self.frames.len() - i,
        {
            if !self.frames[i].deleted && text::contains_str(&self.frames[i].tags, tag) {
                proof {
                    assert(!(#[trigger] self@[i as int]).deleted && self@[i as int].tags.contains(
                        tag@,
                    ));
                }
                return true;
            }
            i += 1;
        }
        false
    }

    /// The distinct project names of the live frames, each at its
    /// first occurrence, in store order.
    pub(crate) fn scan_project_names(&self) -> (r: Vec<String>)
        ensures
            r.deep_view() == project_names(self@),
    {
        let mut out: Vec<String> = Vec::new();
        let mut i: usize = 0;
        while i < self.frames.len()
            invariant
                0 <= i <= self.frames.len(),
                out.deep_view() == project_names(self@.take(i as int)),
            decreases self.frames.len() - i,
        {
            proof {
                assert(self@.take(i as int + 1).drop_last() =~= self@.take(i as int));
                assert(self@.take(i as int + 1).last() == self@[i as int]);
            }
            let f = &self.frames[i];
            if !f.deleted && !text::contains_str(&out, f.project.as_str()) {
                out.push(f.project.clone());
                proof {
                    assert(out.deep_view() =~= project_names(self@.take(i as int + 1)));
                }
            }
            i += 1;
        }
        proof {
            assert(self@.take(self@.len() as int) =~= self@);
        }
        out
    }

    /// The frames the filter keeps, in store order, given the
    /// effective bounds the filter works out to.
    pub(crate) fn scan_matching(
        &self,
        flt: &crate::filter::LogFilter,
        now: i64,
        from_e: i64,
        to_e: i64,
    ) -> (r: Vec<Frame>)
        requires
            from_e as int == crate::filter::from_eff(flt@, now as int),
            to_e as int == crate::filter::to_eff(flt@, now as int),
        ensures
            r.deep_view() == crate::filter::matching_frames(self@, flt@, now as int),
    {
        let mut out: Vec<Frame> = Vec::new();
        let mut i: usize = 0;
        while i < self.frames.len()
            invariant
                0 <= i <= self.frames.len(),
                from_e as int == crate::filter::from_eff(flt@, now as int),
                to_e as int == crate::filter::to_eff(flt@, now as int),
                out.deep_view() == crate::filter::matching_frames(
                    self@.take(i as int),
                    flt@,
                    now as int,
                ),
            decreases self.frames.len() - i,
        {
            proof {
                crate::filter::lemma_matching_push(
                    self@.take(i as int),
                    flt@,
                    now as int,
                    self@[i as int],
                );
                assert(self@.take(i as int + 1) =~= self@.take(i as int).push(self@[i as int]));
            }
            let f = &self.frames[i];
            let live = !f.deleted;
            let after_from = f.start > from_e;
            let not_ignored_project = !text::contains_str(&flt.ignored_projects, f.project.as_str());
            let project_kept = flt.projects.len() == 0 || text::contains_str(
                &flt.projects,
                f.project.as_str(),
            );
            let tag_kept = flt.tags.len() == 0 || text::share_one(&f.tags, &flt.tags);
            let no_ignored_tag = !text::share_one(&f.tags, &flt.ignored_tags);
            let bound_kept = if to_e > now {
                f.end.is_some() || flt.include_current
            } else {
                match f.end {
                    Option::Some(e) => e < to_e,
                    Option::None => false,
                }
            };
            let keeps = live && after_from && not_ignored_project && project_kept && tag_kept
                && no_ignored_tag && bound_kept;
            proof {
                let fv = self@[i as int];
                assert(fv == f@);
                assert(live == !fv.deleted);
                assert(after_from == (fv.start > crate::filter::from_eff(flt@, now as int)));
                assert(not_ignored_project == !flt@.ignored_projects.contains(fv.project));
                assert(project_kept == (flt@.projects.len() == 0 || flt@.projects.contains(
                    fv.project,
                )));
                assert(tag_kept == (flt@.tags.len() == 0 || text::shares_one(fv.tags, flt@.tags)));
                assert(no_ignored_tag == !text::shares_one(fv.tags, flt@.ignored_tags));
                assert(bound_kept == (if crate::filter::to_eff(flt@, now as int) > now as int {
                    fv.end is Some || flt.include_current
                } else {
                    fv.end is Some && (fv.end->0 as int) < crate::filter::to_eff(flt@, now as int)
                }));
                assert(keeps == crate::filter::frame_matches(fv, flt@, now as int));
            }
            if keeps {
                out.push(frame::copy_frame(f));
                proof {
                    assert(out.deep_view() =~= crate::filter::matching_frames(
                        self@.take(i as int + 1),
                        flt@,
                        now as int,
                    ));
                }
            }
            i += 1;
        }
        proof {
            assert(self@.take(self@.len() as int) =~= self@);
        }
        out
    }

    /// Rewrites any subset of start, end, project and tags of the live
    /// frame with this id, stamps it with `now`, and re-validates the
    /// new interval against every other live frame before anything
    /// changes: a missing id is not found, an end at or before the
    /// start is malformed, and a patched interval standing in another
    /// live frame's way is an overlap.
    pub fn update_fields(&mut self, id: &str, patch: &FramePatch, now: i64) -> (r: Result<
        (),
        Error,
    >)
        requires
            old(self).wf(),
            time::ts_in_range(now as int),
            patch.start is Some ==> time::ts_in_range(patch.start->0 as int),
            patch.end is Some && patch.end->0 is Some ==> time::ts_in_range(
                patch.end->0->0 as int,
            ),
        ensures
            final(self).wf(),
            update_post(old(self)@, final(self)@, id@, *patch, now, r),
    {
        let mut found: Option<usize> = Option::None;
        let mut k: usize = 0;
        while k < self.frames.len()
            invariant
                self@ == old(self)@,
                old(self).wf(),
                0 <= k <= self@.len(),
                match found {
                    Option::Some(q) => 0 <= q < k && !self@[q as int].deleted
                        && self@[q as int].id == id@,
                    Option::None => forall|m: int|
                        0 <= m < k ==> !(!(#[trigger] self@[m]).deleted && self@[m].id == id@),
                },
            decreases self.frames.len() - k,
        {
            if found.is_none() && !self.frames[k].deleted && text::str_eq(
                self.frames[k].id.as_str(),
                id,
            ) {
                found = Option::Some(k);
            }
            k += 1;
        }
        let p = match found {
            Option::Some(q) => q,
            Option::None => {
                return Result::Err(Error::NotFoundError);
            },
        };
        let old_frame = &self.frames[p];
        let ns: i64 = match patch.start {
            Option::Some(s) => s,
            Option::None => old_frame.start,
        };
        let ne: Option<i64> = match &patch.end {
            Option::Some(e) => *e,
            Option::None => old_frame.end,
        };
        if let Option::Some(e) = ne {
            if ns >= e {
                return Result::Err(Error::ValidationError);
            }
        }
        let own_id = self.frames[p].id.clone();
        match self.collision_id(ns, ne, Option::Some(&own_id)) {
            Option::Some(other) => {
                proof {
                    let j = choose|j: int|
                        0 <= j < self@.len() && (#[trigger] self@[j]).id == other@
                            && collision_candidate(
                            self@[j],
                            ns as int,
                            patched_end_int(self@[p as int], *patch),
                            Option::Some(own_id@),
                        );
                    assert(j != p);
                }
                return Result::Err(Error::OverlapError(other));
            },
            Option::None => {},
        }
        let f = &self.frames[p];
        let patched = Frame {
            id: f.id.clone(),
            start: ns,
            end: ne,
            last_update: now,
            project: match &patch.project {
                Option::Some(s) => s.clone(),
                Option::None => f.project.clone(),
            },
            tags: match &patch.tags {
                Option::Some(t) => t.clone(),
                Option::None => f.tags.clone(),
            },
            deleted: false,
        };
        proof {
            if patch.tags is Some {
                assert(patched.tags.deep_view() =~~= patch.tags->0.deep_view());
            } else {
                assert(patched.tags.deep_view() =~~= old(self)@[p as int].tags);
            }
            assert(patched@ =~= (FrameView {
                id: old(self)@[p as int].id,
                start: patched_start(old(self)@[p as int], *patch),
                end: patched_end(old(self)@[p as int], *patch),
                last_update: now,
                project: if patch.project is Some {
                    patch.project->0@
                } else {
                    old(self)@[p as int].project
                },
                tags: if patch.tags is Some {
                    patch.tags->0.deep_view()
                } else {
                    old(self)@[p as int].tags
                },
                deleted: false,
            }));
        }
        self.frames.set(p, patched);
        proof {
            let gi = p as int;
            let s = self@;
            let o = old(self)@;
            assert(s =~= o.update(gi, patched@));
            assert forall|i2: int, j2: int|
                0 <= i2 < s.len() && 0 <= j2 < s.len() && i2 != j2 && !s[i2].deleted
                    && !s[j2].deleted implies !frame::closed_overlap(
                #[trigger] s[i2],
                #[trigger] s[j2],
            ) by {
                if i2 == gi {
                    assert(!collision_candidate(
                        o[j2],
                        ns as int,
                        patched_end_int(o[gi], *patch),
                        Option::None,
                    ));
                } else if j2 == gi {
                    assert(!collision_candidate(
                        o[i2],
                        ns as int,
                        patched_end_int(o[gi], *patch),
                        Option::None,
                    ));
                }
            }
            assert forall|i2: int, j2: int|
                0 <= i2 < s.len() && 0 <= j2 < s.len() && i2 != j2 && !s[i2].deleted
                    && !s[j2].deleted implies !(s[i2].end is None && s[j2].end is None) by {
                if i2 == gi {
                    assert(!collision_candidate(
                        o[j2],
                        ns as int,
                        patched_end_int(o[gi], *patch),
                        Option::None,
                    ));
                } else if j2 == gi {
                    assert(!collision_candidate(
                        o[i2],
                        ns as int,
                        patched_end_int(o[gi], *patch),
                        Option::None,
                    ));
                }
            }
        }
        Result::Ok(())
    }
}

} // verus!
