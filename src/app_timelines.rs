//! The fixed set of timelines kept for each monitored node.
use vstd::prelude::*;
use crate::timelines::{Buckets, MinMeanMax, Timeline, TimelineColour, fresh_buckets, lemma_set_index_at};

verus! {

pub const EARNINGS_TIMELINE_KEY: &'static str = "earnings";
pub const STORAGE_COST_TIMELINE_KEY: &'static str = "storage";
pub const PUTS_TIMELINE_KEY: &'static str = "puts";
pub const GETS_TIMELINE_KEY: &'static str = "gets";
pub const CONNECTIONS_TIMELINE_KEY: &'static str = "connections";
pub const RAM_TIMELINE_KEY: &'static str = "ram";
pub const ERRORS_TIMELINE_KEY: &'static str = "errors";

/// Positions of the timelines in `AppTimelines::timelines`.
pub const EARNINGS: usize = 0;
pub const STORAGE_COST: usize = 1;
pub const PUTS: usize = 2;
pub const GETS: usize = 3;
pub const CONNECTIONS: usize = 4;
pub const RAM: usize = 5;
pub const ERRORS: usize = 6;
pub const NUM_TIMELINES: usize = 7;

/// Number of granularities each timeline keeps.
pub const NUM_TIMESCALES: usize = 6;

/// One second in nanoseconds.
pub const SECOND: i64 = 1_000_000_000;

/// Whether timeline `i` keeps slot statistics.
pub open spec fn timeline_is_mmm(i: int) -> bool {
    i == STORAGE_COST || i == CONNECTIONS || i == RAM
}

/// Whether timeline `i` adds up its samples.
pub open spec fn timeline_is_cumulative(i: int) -> bool {
    i == EARNINGS || i == PUTS || i == GETS || i == ERRORS
}

/// Slot length of granularity `i`, in nanoseconds.
pub open spec fn timescale_nanos(i: int) -> int {
    if i == 0 {
        SECOND as int
    } else if i == 1 {
        60 * SECOND
    } else if i == 2 {
        3600 * SECOND
    } else if i == 3 {
        86400 * SECOND
    } else if i == 4 {
        7 * 86400 * SECOND
    } else {
        365 * 86400 * SECOND
    }
}

/// Name of granularity `i`.
pub open spec fn scale_name(i: int) -> Seq<char> {
    if i == 0 {
        "1 second columns"@
    } else if i == 1 {
        "1 minute columns"@
    } else if i == 2 {
        "1 hour columns"@
    } else if i == 3 {
        "1 day columns"@
    } else if i == 4 {
        "1 week columns"@
    } else {
        "1 year columns"@
    }
}

/// The six granularity names differ (their third characters do).
pub proof fn lemma_scale_names_distinct(a: int, b: int)
    requires
        0 <= a < NUM_TIMESCALES,
        0 <= b < NUM_TIMESCALES,
        a != b,
    ensures
        scale_name(a) != scale_name(b),
{
    reveal_strlit("1 second columns");
    reveal_strlit("1 minute columns");
    reveal_strlit("1 hour columns");
    reveal_strlit("1 day columns");
    reveal_strlit("1 week columns");
    reveal_strlit("1 year columns");
    assert(scale_name(a)[2] != scale_name(b)[2]);
}

/// Key of timeline `i`.
pub open spec fn key_of(i: int) -> Seq<char> {
    if i == EARNINGS {
        EARNINGS_TIMELINE_KEY@
    } else if i == STORAGE_COST {
        STORAGE_COST_TIMELINE_KEY@
    } else if i == PUTS {
        PUTS_TIMELINE_KEY@
    } else if i == GETS {
        GETS_TIMELINE_KEY@
    } else if i == CONNECTIONS {
        CONNECTIONS_TIMELINE_KEY@
    } else if i == RAM {
        RAM_TIMELINE_KEY@
    } else {
        ERRORS_TIMELINE_KEY@
    }
}

/// Name of granularity `i` (`i < NUM_TIMESCALES`).
pub fn timescale_name(i: usize) -> (r: &'static str)
    requires
        i < NUM_TIMESCALES,
    ensures
        r@ == scale_name(i as int),
{
    if i == 0 {
        "1 second columns"
    } else if i == 1 {
        "1 minute columns"
    } else if i == 2 {
        "1 hour columns"
    } else if i == 3 {
        "1 day columns"
    } else if i == 4 {
        "1 week columns"
    } else {
        "1 year columns"
    }
}

/// Slot length of granularity `i`, in nanoseconds.
pub fn timescale_duration(i: usize) -> (r: i64)
    requires
        i < NUM_TIMESCALES,
    ensures
        r == timescale_nanos(i as int),
        r > 0,
{
    if i == 0 {
        SECOND
    } else if i == 1 {
        60 * SECOND
    } else if i == 2 {
        3600 * SECOND
    } else if i == 3 {
        86400 * SECOND
    } else if i == 4 {
        7 * 86400 * SECOND
    } else {
        365 * 86400 * SECOND
    }
}

/// Key of timeline `i`.
pub fn timeline_key(i: usize) -> (r: &'static str)
    requires
        i < NUM_TIMELINES,
    ensures
        r@ == key_of(i as int),
{
    if i == EARNINGS {
        EARNINGS_TIMELINE_KEY
    } else if i == STORAGE_COST {
        STORAGE_COST_TIMELINE_KEY
    } else if i == PUTS {
        PUTS_TIMELINE_KEY
    } else if i == GETS {
        GETS_TIMELINE_KEY
    } else if i == CONNECTIONS {
        CONNECTIONS_TIMELINE_KEY
    } else if i == RAM {
        RAM_TIMELINE_KEY
    } else {
        ERRORS_TIMELINE_KEY
    }
}

/// A new, empty timeline of kind `i`, its display name, units and colour.
fn make_timeline(i: usize) -> (r: Timeline)
    requires
        i < NUM_TIMELINES,
    ensures
        r.wf(),
        r.is_mmm == timeline_is_mmm(i as int),
        r.is_cumulative == timeline_is_cumulative(i as int),
        r.bucket_sets@.len() == 0,
{
    if i == EARNINGS {
        Timeline::new("Earnings".to_owned(), "nanos".to_owned(), false, true, TimelineColour::LightCyan)
    } else if i == STORAGE_COST {
        Timeline::new("Storage Cost".to_owned(), "nanos/MB".to_owned(), true, false, TimelineColour::LightBlue)
    } else if i == PUTS {
        Timeline::new("PUTS".to_owned(), "".to_owned(), false, true, TimelineColour::Yellow)
    } else if i == GETS {
        Timeline::new("GETS".to_owned(), "".to_owned(), false, true, TimelineColour::Green)
    } else if i == CONNECTIONS {
        Timeline::new("Connections".to_owned(), "".to_owned(), true, false, TimelineColour::Blue)
    } else if i == RAM {
        Timeline::new("RAM".to_owned(), "MB".to_owned(), true, false, TimelineColour::Magenta)
    } else {
        Timeline::new("ERRORS".to_owned(), "".to_owned(), false, true, TimelineColour::Red)
    }
}

/// Timeline `t`, at position `i`, holds the six granularities in order, each named
/// `scale_name(j)` and an empty unanchored set of `steps` slots of `timescale_nanos(j)`.
pub open spec fn scales_as_built(t: Timeline, steps: int, i: int) -> bool {
    &&& t.bucket_sets@.len() == NUM_TIMESCALES
    &&& forall|j: int| 0 <= j < NUM_TIMESCALES ==> {
        &&& (#[trigger] t.bucket_names@[j])@ == scale_name(j)
        &&& t.set_index(scale_name(j)) == Some(j)
        &&& fresh_buckets(t.bucket_sets@[j], timescale_nanos(j), steps, timeline_is_mmm(i), None)
    }
}

/// The timelines of one node, in the order of the positions above.
pub struct AppTimelines {
    pub timelines: Vec<Timeline>,
}

impl AppTimelines {
    pub open spec fn wf(&self) -> bool {
        &&& self.timelines@.len() == NUM_TIMELINES
        &&& forall|i: int| 0 <= i < NUM_TIMELINES ==> {
            &&& (#[trigger] self.timelines@[i]).wf()
            &&& self.timelines@[i].is_mmm == timeline_is_mmm(i)
            &&& self.timelines@[i].is_cumulative == timeline_is_cumulative(i)
        }
    }

    /// Every timeline, each with the six granularities in order, named `scale_name(j)`,
    /// each an empty unanchored set of `timeline_steps` slots of `timescale_nanos(j)`.
    pub fn new(timeline_steps: usize) -> (r: AppTimelines)
        requires
            timeline_steps >= 1,
        ensures
            r.wf(),
            forall|i: int| 0 <= i < NUM_TIMELINES ==> scales_as_built(#[trigger] r.timelines@[i], timeline_steps as int, i),
            forall|i: int, j: int| 0 <= i < NUM_TIMELINES && 0 <= j < NUM_TIMESCALES ==> {
                &&& (#[trigger] r.timelines@[i].bucket_names@[j])@ == scale_name(j)
                &&& r.timelines@[i].set_index(scale_name(j)) == Some(j)
                &&& fresh_buckets(
                    r.timelines@[i].bucket_sets@[j],
                    timescale_nanos(j),
                    timeline_steps as int,
                    timeline_is_mmm(i),
                    None,
                )
            },
    {
        let mut timelines: Vec<Timeline> = Vec::new();
        let mut i: usize = 0;
        while i < NUM_TIMELINES
            invariant
                i <= NUM_TIMELINES,
                timeline_steps >= 1,
                timelines@.len() == i,
                forall|k: int| 0 <= k < i ==> {
                    &&& (#[trigger] timelines@[k]).wf()
                    &&& timelines@[k].is_mmm == timeline_is_mmm(k)
                    &&& timelines@[k].is_cumulative == timeline_is_cumulative(k)
                    &&& timelines@[k].bucket_sets@.len() == NUM_TIMESCALES
                },
                forall|k: int| 0 <= k < i ==> scales_as_built(#[trigger] timelines@[k], timeline_steps as int, k),
            decreases NUM_TIMELINES - i,
        {
            let mut t = make_timeline(i);
            let mut names: Vec<String> = Vec::new();
            let mut sets: Vec<Buckets> = Vec::new();
            let mut j: usize = 0;
            while j < NUM_TIMESCALES
                invariant
                    j <= NUM_TIMESCALES,
                    timeline_steps >= 1,
                    names@.len() == j,
                    sets@.len() == j,
                    t.is_mmm == timeline_is_mmm(i as int),
                    t.is_cumulative == timeline_is_cumulative(i as int),
                    forall|a: int| 0 <= a < j ==> {
                        &&& (#[trigger] names@[a])@ == scale_name(a)
                        &&& sets@[a].wf()
                        &&& sets@[a].total_tracks_ring()
                        &&& fresh_buckets(sets@[a], timescale_nanos(a), timeline_steps as int, t.is_mmm, None)
                    },
                decreases NUM_TIMESCALES - j,
            {
                let ghost n0 = names@;
                let ghost s0 = sets@;
                names.push(timescale_name(j).to_owned());
                sets.push(Buckets::new(timescale_duration(j), timeline_steps, t.is_mmm));
                proof {
                    assert forall|a: int| 0 <= a < j + 1 implies {
                        &&& (#[trigger] names@[a])@ == scale_name(a)
                        &&& sets@[a].wf()
                        &&& sets@[a].total_tracks_ring()
                        &&& fresh_buckets(sets@[a], timescale_nanos(a), timeline_steps as int, t.is_mmm, None)
                    } by {
                        if a < j {
                            assert(names@[a] == n0[a] && sets@[a] == s0[a]);
                        }
                    }
                }
                j = j + 1;
            }
            t.bucket_names = names;
            t.bucket_sets = sets;
            proof {
                assert forall|x: int, y: int| 0 <= x < y < t.bucket_names@.len() implies
                    (#[trigger] t.bucket_names@[x])@ != (#[trigger] t.bucket_names@[y])@ by {
                    lemma_scale_names_distinct(x, y);
                }
                assert forall|k: int| 0 <= k < t.bucket_sets@.len() implies {
                    &&& (#[trigger] t.bucket_sets@[k]).wf()
                    &&& t.bucket_sets@[k].is_mmm == t.is_mmm
                    &&& (t.is_cumulative ==> t.bucket_sets@[k].total_tracks_ring())
                } by {
                    assert((t.bucket_names@[k])@ == scale_name(k));
                }
                assert(t.wf());
                assert forall|j: int| 0 <= j < NUM_TIMESCALES implies t.set_index(scale_name(j)) == Some(j) by {
                    lemma_set_index_at(t, j);
                }
            }
            proof {
                assert forall|j: int| 0 <= j < NUM_TIMESCALES implies {
                    &&& (#[trigger] t.bucket_names@[j])@ == scale_name(j)
                    &&& t.set_index(scale_name(j)) == Some(j)
                    &&& fresh_buckets(t.bucket_sets@[j], timescale_nanos(j), timeline_steps as int, timeline_is_mmm(i as int), None)
                } by {
                    assert((t.bucket_names@[j])@ == scale_name(j));
                }
                assert(scales_as_built(t, timeline_steps as int, i as int));
            }
            let ghost before = timelines@;
            timelines.push(t);
            proof {
                assert forall|k: int| 0 <= k < i + 1 implies scales_as_built(#[trigger] timelines@[k], timeline_steps as int, k) by {
                    if k < i {
                        assert(timelines@[k] == before[k]);
                    }
                }
            }
            i = i + 1;
        }
        let r = AppTimelines { timelines };
        proof {
            assert forall|i: int, j: int| 0 <= i < NUM_TIMELINES && 0 <= j < NUM_TIMESCALES implies {
                &&& (#[trigger] r.timelines@[i].bucket_names@[j])@ == scale_name(j)
                &&& r.timelines@[i].set_index(scale_name(j)) == Some(j)
                &&& fresh_buckets(r.timelines@[i].bucket_sets@[j], timescale_nanos(j), timeline_steps as int, timeline_is_mmm(i), None)
            } by {
                assert(scales_as_built(r.timelines@[i], timeline_steps as int, i));
            }
        }
        r
    }

    /// Moves every timeline on to `now`.
    pub fn update_timelines(&mut self, now: i64)
        requires
            old(self).wf(),
        ensures
            final(self).wf(),
            forall|i: int| 0 <= i < NUM_TIMELINES ==> {
                &&& (#[trigger] final(self).timelines@[i]).same_settings(old(self).timelines@[i])
                &&& final(self).timelines@[i].last_non_zero_value == old(self).timelines@[i].last_non_zero_value
                &&& forall|k: int| 0 <= k < old(self).timelines@[i].bucket_sets@.len() ==> Buckets::advanced(
                    #[trigger] old(self).timelines@[i].bucket_sets@[k],
                    final(self).timelines@[i].bucket_sets@[k],
                    now,
                    old(self).timelines@[i].is_cumulative,
                )
            },
    {
        let mut i: usize = 0;
        while i < NUM_TIMELINES
            invariant
                i <= NUM_TIMELINES,
                self.wf(),
                forall|k: int| 0 <= k < i ==> {
                    &&& (#[trigger] self.timelines@[k]).same_settings(old(self).timelines@[k])
                    &&& self.timelines@[k].last_non_zero_value == old(self).timelines@[k].last_non_zero_value
                    &&& forall|m: int| 0 <= m < old(self).timelines@[k].bucket_sets@.len() ==> Buckets::advanced(
                        #[trigger] old(self).timelines@[k].bucket_sets@[m],
                        self.timelines@[k].bucket_sets@[m],
                        now,
                        old(self).timelines@[k].is_cumulative,
                    )
                },
                forall|k: int| i <= k < NUM_TIMELINES ==> #[trigger] self.timelines@[k] == old(self).timelines@[k],
            decreases NUM_TIMELINES - i,
        {
            let ghost before = self.timelines@;
            self.timelines[i].update_current_time(now);
            proof {
                assert forall|k: int| 0 <= k < NUM_TIMELINES && k != i implies #[trigger] self.timelines@[k] == before[k] by {}
            }
            i = i + 1;
        }
    }

    /// Position of the timeline with key `key`.
    pub fn timeline_index(&self, key: &str) -> (r: Option<usize>)
        ensures
            match r {
                Some(i) => i < NUM_TIMELINES && key_of(i as int) == key@
                    && forall|j: int| 0 <= j < i ==> key_of(j) != key@,
                None => forall|j: int| 0 <= j < NUM_TIMELINES ==> key_of(j) != key@,
            },
    {
        let k = key.to_owned();
        let mut i: usize = 0;
        while i < NUM_TIMELINES
            invariant
                i <= NUM_TIMELINES,
                k@ == key@,
                forall|j: int| 0 <= j < i ==> key_of(j) != key@,
            decreases NUM_TIMELINES - i,
        {
            let candidate = timeline_key(i).to_owned();
            if candidate.eq(&k) {
                return Some(i);
            }
            i = i + 1;
        }
        None
    }

    /// The timeline with key `key`.
    pub fn get_timeline_by_key(&self, key: &str) -> (r: Option<&Timeline>)
        requires
            self.wf(),
        ensures
            match r {
                Some(t) => exists|i: int| 0 <= i < NUM_TIMELINES && key_of(i) == key@ && *t == self.timelines@[i],
                None => forall|j: int| 0 <= j < NUM_TIMELINES ==> key_of(j) != key@,
            },
    {
        match self.timeline_index(key) {
            Some(i) => Some(&self.timelines[i]),
            None => None,
        }
    }

    /// The timeline at position `index`.
    pub fn get_timeline_by_index(&self, index: usize) -> (r: Option<&Timeline>)
        requires
            self.wf(),
        ensures
            index < NUM_TIMELINES ==> r == Some(&self.timelines@[index as int]),
            index >= NUM_TIMELINES ==> r is None,
    {
        if index < self.timelines.len() {
            Some(&self.timelines[index])
        } else {
            None
        }
    }

    /// The bucket set named `timescale_name` of the timeline at position `index`.
    pub fn get_timeline_buckets(&self, index: usize, timescale_name: &str) -> (r: Option<&Buckets>)
        requires
            self.wf(),
        ensures
            index >= NUM_TIMELINES ==> r is None,
            index < NUM_TIMELINES ==> match self.timelines@[index as int].set_index(timescale_name@) {
                Some(k) => r == Some(&self.timelines@[index as int].bucket_sets@[k]),
                None => r is None,
            },
    {
        if index < self.timelines.len() {
            self.timelines[index].get_bucket_set(timescale_name)
        } else {
            None
        }
    }

    pub fn get_num_timelines(&self) -> (r: usize)
        ensures
            r == NUM_TIMELINES,
    {
        NUM_TIMELINES
    }
}

} // verus!
