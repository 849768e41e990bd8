use vstd::prelude::*;

use crate::display;
use crate::display::Display;
use crate::errors::Error;
use crate::filter;
use crate::filter::FilterView;
use crate::filter::LogFilter;
use crate::frame;
use crate::store::Store;
use crate::text;
use crate::time;

verus! {

/// The log command: report tracked activity, filtered by time range,
/// project and tag, bucketed per calendar day.
pub struct LogSubcommand {
    pub projects: Vec<String>,
    pub tags: Vec<String>,
    pub ignored_projects: Vec<String>,
    pub ignored_tags: Vec<String>,
    pub current: bool,
    pub reverse: bool,
    pub from: Option<i64>,
    pub to: Option<i64>,
}

impl LogSubcommand {
    /// The filter this command stands for.
    pub open spec fn filter_view(self) -> FilterView {
        FilterView {
            from: self.from,
            to: self.to,
            projects: self.projects.deep_view(),
            ignored_projects: self.ignored_projects.deep_view(),
            tags: self.tags.deep_view(),
            ignored_tags: self.ignored_tags.deep_view(),
            include_current: self.current,
        }
    }

    /// The selected projects that are also ignored: a valid command
    /// names none.
    pub fn parse_project(&self) -> (r: Vec<String>)
        ensures
            r.deep_view() == text::collisions(
                self.projects.deep_view(),
                self.ignored_projects.deep_view(),
            ),
    {
        let mut out: Vec<String> = Vec::new();
        let mut i: usize = 0;
        while i < self.projects.len()
            invariant
                0 <= i <= self.projects.len(),
                out.deep_view() == text::collisions(
                    self.projects.deep_view().take(i as int),
                    self.ignored_projects.deep_view(),
                ),
            decreases self.projects.len() - i,
        {
            proof {
                text::lemma_collisions_push(
                    self.projects.deep_view().take(i as int),
                    self.ignored_projects.deep_view(),
                    self.projects.deep_view()[i as int],
                );
                assert(self.projects.deep_view().take(i as int + 1)
                    =~= self.projects.deep_view().take(i as int).push(
                    self.projects.deep_view()[i as int],
                ));
            }
            if text::contains_str(&self.ignored_projects, self.projects[i].as_str()) {
                out.push(self.projects[i].clone());
                proof {
                    assert(out.deep_view() =~= text::collisions(
                        self.projects.deep_view().take(i as int + 1),
                        self.ignored_projects.deep_view(),
                    ));
                }
            }
            i += 1;
        }
        proof {
            assert(self.projects.deep_view().take(self.projects.deep_view().len() as int)
                =~= self.projects.deep_view());
        }
        out
    }

    /// The selected tags that are also ignored: a valid command names
    /// none.
    pub fn parse_tags(&self) -> (r: Vec<String>)
        ensures
            r.deep_view() == text::collisions(
                self.tags.deep_view(),
                self.ignored_tags.deep_view(),
            ),
    {
        let mut out: Vec<String> = Vec::new();
        let mut i: usize = 0;
        while i < self.tags.len()
            invariant
                0 <= i <= self.tags.len(),
                out.deep_view() == text::collisions(
                    self.tags.deep_view().take(i as int),
                    self.ignored_tags.deep_view(),
                ),
            decreases self.tags.len() - i,
        {
            proof {
                text::lemma_collisions_push(
                    self.tags.deep_view().take(i as int),
                    self.ignored_tags.deep_view(),
                    self.tags.deep_view()[i as int],
                );
                assert(self.tags.deep_view().take(i as int + 1) =~= self.tags.deep_view().take(
                    i as int,
                ).push(self.tags.deep_view()[i as int]));
            }
            if text::contains_str(&self.ignored_tags, self.tags[i].as_str()) {
                out.push(self.tags[i].clone());
                proof {
                    assert(out.deep_view() =~= text::collisions(
                        self.tags.deep_view().take(i as int + 1),
                        self.ignored_tags.deep_view(),
                    ));
                }
            }
            i += 1;
        }
        proof {
            assert(self.tags.deep_view().take(self.tags.deep_view().len() as int)
                =~= self.tags.deep_view());
        }
        out
    }

    /// Validates the filter, selects the matching frames most recent
    /// first, and buckets them per calendar day, oldest day first when
    /// reversed. A rejected filter reports its configuration fault
    /// before anything is selected.
    pub fn run(&self, store: &Store, now: i64) -> (r: Result<Vec<Display>, Error>)
        requires
            store.wf(),
            time::ts_in_range(now as int),
        ensures
            match r {
                Result::Ok(buckets) => {
                    &&& filter::filter_fault(self.filter_view(), now as int) is None
                    &&& {
                        let sorted = filter::sort_desc(
                            filter::matching_frames(store@, self.filter_view(), now as int),
                        );
                        if self.reverse {
                            display::buckets_model(buckets@, display::agg_rev(sorted))
                        } else {
                            display::buckets_model(buckets@, display::agg(sorted))
                        }
                    }
                },
                Result::Err(e) => {
                    &&& filter::filter_fault(self.filter_view(), now as int) is Some
                    &&& e == Error::ConfigurationError(
                        filter::filter_fault(self.filter_view(), now as int)->0,
                    )
                },
            },
    {
        let flt = LogFilter {
            from: self.from,
            to: self.to,
            projects: self.projects.clone(),
            ignored_projects: self.ignored_projects.clone(),
            tags: self.tags.clone(),
            ignored_tags: self.ignored_tags.clone(),
            include_current: self.current,
        };
        proof {
            assert(flt.projects.deep_view() =~~= self.projects.deep_view());
            assert(flt.ignored_projects.deep_view() =~~= self.ignored_projects.deep_view());
            assert(flt.tags.deep_view() =~~= self.tags.deep_view());
            assert(flt.ignored_tags.deep_view() =~~= self.ignored_tags.deep_view());
            assert(flt@ =~= self.filter_view());
        }
        let v = match filter::filter_frames(store, &flt, now) {
            Result::Ok(v) => v,
            Result::Err(e) => {
                return Result::Err(e);
            },
        };
        proof {
            let m = filter::matching_frames(store@, self.filter_view(), now as int);
            let sd = filter::sort_desc(m);
            filter::lemma_matching_sub(store@, self.filter_view(), now as int);
            filter::lemma_sort_desc_sub(m);
            assert forall|k: int| 0 <= k < v.deep_view().len() implies time::ts_in_range(
                (#[trigger] v.deep_view()[k]).start as int,
            ) by {
                assert(v.deep_view()[k] == sd[k]);
                let i = choose|i: int| 0 <= i < m.len() && m[i] == sd[k];
                let j = choose|j: int| 0 <= j < store@.len() && store@[j] == m[i];
                assert(frame::frame_valid(store@[j]));
            }
        }
        Result::Ok(display::aggregate(&v, self.reverse))
    }
}

} // verus!
