//! The coordinator of monitored files: which paths are tracked, their monitors, and the
//! ordinal index of each.
use vstd::prelude::*;
use crate::monitor::{LogMonitor, checkpoint_due, decoded, lines_of, content_after};
use crate::metrics::gathered;
use crate::metrics::NodeMetrics;

verus! {

/// Whether monitor A (start time `a_start`, added at position `a_pos`) comes before
/// monitor B: by the earlier start when both are known and differ, the one whose start is
/// known when only one is, and otherwise the one added first.
pub open spec fn precedes(a_start: Option<i64>, a_pos: usize, b_start: Option<i64>, b_pos: usize) -> bool {
    match (a_start, b_start) {
        (Some(x), Some(y)) => if x != y { x < y } else { a_pos < b_pos },
        (Some(_), None) => true,
        (None, Some(_)) => false,
        (None, None) => a_pos < b_pos,
    }
}

/// The indices that two colliding monitors A and B get from the pair `lower < higher`:
/// the one that comes first gets `lower`.
pub fn resolve_collision(
    a_start: Option<i64>,
    a_pos: usize,
    b_start: Option<i64>,
    b_pos: usize,
    lower: usize,
    higher: usize,
) -> (r: (usize, usize))
    ensures
        r == if precedes(a_start, a_pos, b_start, b_pos) { (lower, higher) } else { (higher, lower) },
{
    let a_first = match (a_start, b_start) {
        (Some(x), Some(y)) => if x != y { x < y } else { a_pos < b_pos },
        (Some(_), None) => true,
        (None, Some(_)) => false,
        (None, None) => a_pos < b_pos,
    };
    if a_first {
        (lower, higher)
    } else {
        (higher, lower)
    }
}

/// Collision resolution gives the same assignment from either monitor's side: resolving
/// A against B gives A and B the indices that resolving B against A gives them.
pub proof fn lemma_collision_symmetric(
    a_start: Option<i64>,
    a_pos: usize,
    b_start: Option<i64>,
    b_pos: usize,
    lower: usize,
    higher: usize,
)
    requires
        a_pos != b_pos,
    ensures
        precedes(a_start, a_pos, b_start, b_pos) == !precedes(b_start, b_pos, a_start, a_pos),
        ({
            let ab = if precedes(a_start, a_pos, b_start, b_pos) { (lower, higher) } else { (higher, lower) };
            let ba = if precedes(b_start, b_pos, a_start, a_pos) { (lower, higher) } else { (higher, lower) };
            ab.0 == ba.1 && ab.1 == ba.0
        }),
{
}

/// `v`, held at `i64::MAX`.
pub open spec fn sat_i64(v: int) -> i64 {
    if v > i64::MAX { i64::MAX } else { v as i64 }
}

/// Resolving a clash between monitors A and B gives each the same index whichever of the
/// two triggers it: here A is resolved against B with positions `pa`, `pb`, and B against
/// A with positions `qb`, `qa` that put the two in the same order of addition.
pub proof fn lemma_resolution_symmetric(
    a_start: Option<i64>,
    pa: usize,
    b_start: Option<i64>,
    pb: usize,
    qa: usize,
    qb: usize,
    c: usize,
    f: usize,
)
    requires
        pa != pb,
        qa != qb,
        (pa < pb) == (qa < qb),
    ensures
        resolved_pair(a_start, pa, b_start, pb, c, f).0 == resolved_pair(b_start, qb, a_start, qa, c, f).1,
        resolved_pair(a_start, pa, b_start, pb, c, f).1 == resolved_pair(b_start, qb, a_start, qa, c, f).0,
{
}

/// Whether some monitor of `ms` has index `i`.
pub open spec fn index_used(ms: Seq<LogMonitor>, i: usize) -> bool {
    exists|j: int| 0 <= j < ms.len() && (#[trigger] ms[j]).index == i
}

/// The first index at or after `c` that no monitor of `ms` has.
pub open spec fn unused_from(ms: Seq<LogMonitor>, c: int) -> Option<usize>
    decreases usize::MAX + 1 - c,
{
    if c < 0 || c > usize::MAX {
        None
    } else if !index_used(ms, c as usize) {
        Some(c as usize)
    } else {
        unused_from(ms, c + 1)
    }
}

/// The index a new monitor gets: the first unused one from `start` on, else the first
/// unused one from zero.
pub open spec fn fresh_index(ms: Seq<LogMonitor>, start: usize) -> usize {
    match unused_from(ms, start as int) {
        Some(c) => c,
        None => unused_from(ms, 0)->0,
    }
}

/// Where the search for an unused index resumes after `r` was handed out.
pub open spec fn after_index(r: usize) -> usize {
    if r < usize::MAX { (r + 1) as usize } else { 0 }
}

/// The position of the monitor of `ms`, other than one watching `path`, that has index
/// `idx`, if any.
pub open spec fn clash_at(ms: Seq<LogMonitor>, idx: usize, path: Seq<char>) -> Option<int> {
    if exists|k: int| 0 <= k < ms.len() && (#[trigger] ms[k]).index == idx && ms[k].logfile@ != path {
        Some(choose|k: int| 0 <= k < ms.len() && (#[trigger] ms[k]).index == idx && ms[k].logfile@ != path)
    } else {
        None
    }
}

/// The indices (new monitor, clashing monitor) that resolving a clash gives: the clashing
/// index `c` and the fresh index `f` shared out by `precedes`, the new monitor counting as
/// added at position `pos`, after the clashing one at `k`.
pub open spec fn resolved_pair(a_start: Option<i64>, pos: usize, b_start: Option<i64>, k: usize, c: usize, f: usize) -> (usize, usize) {
    let lo = if c < f { c } else { f };
    let hi = if c < f { f } else { c };
    if precedes(a_start, pos, b_start, k) { (lo, hi) } else { (hi, lo) }
}

/// Whether one of `found` is `path`.
pub open spec fn found_at(found: Seq<String>, path: Seq<char>) -> bool {
    exists|m: int| 0 <= m < found.len() && (#[trigger] found[m])@ == path
}

/// Whether some monitor of `ms` watches `path`.
pub open spec fn path_tracked(ms: Seq<LogMonitor>, path: Seq<char>) -> bool {
    exists|j: int| 0 <= j < ms.len() && (#[trigger] ms[j]).logfile@ == path
}

/// Tracks the files being monitored, their monitors, and the files that failed to open.
pub struct LogfilesManager {
    /// Paths of the monitored files, in the order they were added.
    pub logfiles_added: Vec<String>,
    pub globpaths: Vec<String>,
    /// Paths that failed to begin monitoring.
    pub logfiles_failed: Vec<String>,
    /// One monitor per entry of `logfiles_added`, in the same order.
    pub monitors: Vec<LogMonitor>,
    /// Where the search for an unused index starts.
    pub next_index: usize,
    /// Wall-clock time of the next timed rescan of the glob patterns.
    pub next_glob_scan: Option<i64>,
}

impl LogfilesManager {
    /// Monitors match the added paths one for one; paths are distinct; indices are unique.
    pub open spec fn wf(&self) -> bool {
        &&& self.monitors@.len() == self.logfiles_added@.len()
        &&& forall|i: int| 0 <= i < self.monitors@.len() ==> {
            &&& (#[trigger] self.monitors@[i]).wf()
            &&& self.monitors@[i].logfile@ == self.logfiles_added@[i]@
        }
        &&& forall|i: int, j: int| 0 <= i < j < self.monitors@.len() ==> {
            &&& (#[trigger] self.monitors@[i]).logfile@ != (#[trigger] self.monitors@[j]).logfile@
            &&& self.monitors@[i].index != self.monitors@[j].index
        }
    }

    pub fn new(globpaths: Vec<String>) -> (r: LogfilesManager)
        ensures
            r.wf(),
            r.monitors@.len() == 0,
            r.globpaths == globpaths,
            r.next_index == 0,
    {
        LogfilesManager {
            logfiles_added: Vec::new(),
            globpaths,
            logfiles_failed: Vec::new(),
            monitors: Vec::new(),
            next_index: 0,
            next_glob_scan: None,
        }
    }

    /// Whether `path` is already monitored.
    pub fn is_monitored(&self, path: &str) -> (r: bool)
        requires
            self.wf(),
        ensures
            r == path_tracked(self.monitors@, path@),
    {
        let key = path.to_owned();
        let mut i: usize = 0;
        while i < self.monitors.len()
            invariant
                self.wf(),
                key@ == path@,
                i <= self.monitors@.len(),
                forall|j: int| 0 <= j < i ==> (#[trigger] self.monitors@[j]).logfile@ != path@,
            decreases self.monitors@.len() - i,
        {
            if self.monitors[i].logfile.eq(&key) {
                return true;
            }
            i = i + 1;
        }
        false
    }

    /// Whether some monitor has index `i`.
    fn index_in_use(&self, i: usize) -> (r: bool)
        ensures
            r == index_used(self.monitors@, i),
    {
        let mut k: usize = 0;
        while k < self.monitors.len()
            invariant
                k <= self.monitors@.len(),
                forall|j: int| 0 <= j < k ==> (#[trigger] self.monitors@[j]).index != i,
            decreases self.monitors@.len() - k,
        {
            if self.monitors[k].index == i {
                return true;
            }
            k = k + 1;
        }
        false
    }

    /// A monitor index that no monitor has: the first unused one from `next_index` on,
    /// else the first unused one from zero. Later searches start after it.
    pub fn next_unused_index(&mut self) -> (r: usize)
        requires
            old(self).wf(),
        ensures
            final(self).wf(),
            !index_used(final(self).monitors@, r),
            r == fresh_index(old(self).monitors@, old(self).next_index),
            *final(self) == (LogfilesManager { next_index: after_index(r), ..*old(self) }),
    {
        let mut c = self.next_index;
        loop
            invariant
                *self == *old(self),
                self.wf(),
                old(self).next_index <= c,
                unused_from(self.monitors@, c as int) == unused_from(self.monitors@, old(self).next_index as int),
            ensures
                *self == *old(self),
                unused_from(self.monitors@, old(self).next_index as int) is None,
            decreases usize::MAX - c,
        {
            if !self.index_in_use(c) {
                self.next_index = if c < usize::MAX { c + 1 } else { 0 };
                return c;
            }
            if c == usize::MAX {
                proof {
                    assert(unused_from(self.monitors@, usize::MAX as int + 1) is None);
                }
                break;
            }
            c = c + 1;
        }
        let mut c: usize = 0;
        loop
            invariant
                *self == *old(self),
                self.wf(),
                unused_from(self.monitors@, old(self).next_index as int) is None,
                unused_from(self.monitors@, c as int) == unused_from(self.monitors@, 0),
                forall|k: int| 0 <= k < c ==> #[trigger] index_used(self.monitors@, k as usize),
            decreases usize::MAX - c,
        {
            if !self.index_in_use(c) {
                self.next_index = if c < usize::MAX { c + 1 } else { 0 };
                return c;
            }
            if c == usize::MAX {
                proof {
                    assert(self.monitors@.len() <= usize::MAX) by {
                        assert(self.monitors.len() == self.monitors@.len());
                    }
                }
                proof {
                    self.lemma_not_all_used();
                }
                return c;
            }
            c = c + 1;
        }
    }

    /// Position of a monitor other than one watching `path` whose index is `index`.
    fn find_clash(&self, index: usize, path: &String) -> (r: Option<usize>)
        requires
            self.wf(),
        ensures
            match r {
                Some(k) => k < self.monitors@.len() && self.monitors@[k as int].index == index
                    && self.monitors@[k as int].logfile@ != path@,
                None => forall|j: int| 0 <= j < self.monitors@.len() ==>
                    (#[trigger] self.monitors@[j]).index != index || self.monitors@[j].logfile@ == path@,
            },
    {
        let mut k: usize = 0;
        while k < self.monitors.len()
            invariant
                k <= self.monitors@.len(),
                forall|j: int| 0 <= j < k ==>
                    (#[trigger] self.monitors@[j]).index != index || self.monitors@[j].logfile@ == path@,
            decreases self.monitors@.len() - k,
        {
            if self.monitors[k].index == index && !self.monitors[k].logfile.eq(path) {
                return Some(k);
            }
            k = k + 1;
        }
        None
    }

    /// Resolves a clash between the index of `monitor`, about to be added, and that of a
    /// tracked monitor: the pair of the clashing index and a fresh one is shared out by
    /// `resolve_collision`, the new monitor counting as added last.
    pub fn canonicalise_monitor_index(&mut self, monitor: &mut LogMonitor)
        requires
            old(self).wf(),
            !path_tracked(old(self).monitors@, old(monitor).logfile@),
        ensures
            final(self).wf(),
            !index_used(final(self).monitors@, final(monitor).index),
            *final(monitor) == (LogMonitor { index: final(monitor).index, ..*old(monitor) }),
            final(self).logfiles_added == old(self).logfiles_added,
            final(self).logfiles_failed == old(self).logfiles_failed,
            final(self).globpaths == old(self).globpaths,
            final(self).monitors@.len() == old(self).monitors@.len(),
            forall|j: int| 0 <= j < old(self).monitors@.len() ==> #[trigger] final(self).monitors@[j]
                == (LogMonitor { index: final(self).monitors@[j].index, ..old(self).monitors@[j] }),
            match clash_at(old(self).monitors@, old(monitor).index, old(monitor).logfile@) {
                None => *final(self) == *old(self) && *final(monitor) == *old(monitor),
                Some(k) => {
                    let f = fresh_index(old(self).monitors@, old(self).next_index);
                    let pair = resolved_pair(
                        old(monitor).metrics.node_started,
                        old(self).monitors@.len() as usize,
                        old(self).monitors@[k].metrics.node_started,
                        k as usize,
                        old(monitor).index,
                        f,
                    );
                    &&& final(monitor).index == pair.0
                    &&& final(self).monitors@[k].index == pair.1
                    &&& final(self).next_index == after_index(f)
                    &&& forall|j: int| 0 <= j < old(self).monitors@.len() && j != k ==>
                        #[trigger] final(self).monitors@[j] == old(self).monitors@[j]
                },
            },
    {
        let found = self.find_clash(monitor.index, &monitor.logfile);
        proof {
            match found {
                Some(k) => {
                    let c = choose|j: int| 0 <= j < self.monitors@.len() && (#[trigger] self.monitors@[j]).index == monitor.index
                        && self.monitors@[j].logfile@ != monitor.logfile@;
                    if c != k as int {
                        if c < k {
                            assert(self.monitors@[c].index != self.monitors@[k as int].index);
                        } else {
                            assert(self.monitors@[k as int].index != self.monitors@[c].index);
                        }
                    }
                },
                None => {},
            }
        }
        match found {
            Some(k) => {
                let fresh = self.next_unused_index();
                let clash = monitor.index;
                let (lower, higher) = if clash < fresh { (clash, fresh) } else { (fresh, clash) };
                let pos = self.monitors.len();
                let (mine, theirs) = resolve_collision(
                    monitor.metrics.node_started,
                    pos,
                    self.monitors[k].metrics.node_started,
                    k,
                    lower,
                    higher,
                );
                let ghost before = self.monitors@;
                monitor.index = mine;
                self.monitors[k].index = theirs;
                proof {
                    assert(fresh != clash) by {
                        assert(before[k as int].index == clash);
                    }
                    assert forall|j: int| 0 <= j < before.len() && j != k implies
                        #[trigger] self.monitors@[j] == before[j] && before[j].index != clash && before[j].index != fresh by {
                        if j < k {
                            assert(before[j].index != before[k as int].index);
                        } else {
                            assert(before[k as int].index != before[j].index);
                        }
                    }
                    assert forall|i: int, j: int| 0 <= i < j < self.monitors@.len() implies {
                        &&& (#[trigger] self.monitors@[i]).logfile@ != (#[trigger] self.monitors@[j]).logfile@
                        &&& self.monitors@[i].index != self.monitors@[j].index
                    } by {
                        assert(before[i].logfile@ != before[j].logfile@);
                    }
                    assert forall|j: int| 0 <= j < self.monitors@.len() implies (#[trigger] self.monitors@[j]).index != mine by {
                        if j != k {
                            assert(before[j].index != clash && before[j].index != fresh);
                        }
                    }
                }
            },
            None => {
                proof {
                    assert forall|j: int| 0 <= j < self.monitors@.len() implies (#[trigger] self.monitors@[j]).index != monitor.index by {
                        if self.monitors@[j].index == monitor.index {
                            assert(self.monitors@[j].logfile@ == monitor.logfile@);
                        }
                    }
                }
            },
        }
    }

    /// Adds `monitor` for a path not yet tracked, after resolving any index clash, and
    /// takes the path off the failure list. A tracked path is left as it is.
    pub fn add_monitor(&mut self, monitor: LogMonitor) -> (r: bool)
        requires
            old(self).wf(),
            monitor.wf(),
        ensures
            final(self).wf(),
            r == !path_tracked(old(self).monitors@, monitor.logfile@),
            !r ==> *final(self) == *old(self),
            r ==> {
                &&& final(self).monitors@.len() == old(self).monitors@.len() + 1
                &&& final(self).monitors@.last() == (LogMonitor { index: final(self).monitors@.last().index, ..monitor })
                &&& forall|j: int| 0 <= j < old(self).monitors@.len() ==> #[trigger] final(self).monitors@[j]
                    == (LogMonitor { index: final(self).monitors@[j].index, ..old(self).monitors@[j] })
                &&& forall|j: int| 0 <= j < final(self).logfiles_failed@.len() ==>
                    (#[trigger] final(self).logfiles_failed@[j])@ != monitor.logfile@
            },
    {
        if self.is_monitored(monitor.logfile.as_str()) {
            return false;
        }
        let mut monitor = monitor;
        self.canonicalise_monitor_index(&mut monitor);
        let path = monitor.logfile.clone();
        self.remove_failure(&path);
        let ghost before = self.monitors@;
        self.logfiles_added.push(path);
        self.monitors.push(monitor);
        proof {
            assert forall|i: int, j: int| 0 <= i < j < self.monitors@.len() implies {
                &&& (#[trigger] self.monitors@[i]).logfile@ != (#[trigger] self.monitors@[j]).logfile@
                &&& self.monitors@[i].index != self.monitors@[j].index
            } by {
                if j == before.len() {
                    assert(self.monitors@[i] == before[i]);
                    assert(before[i].logfile@ == old(self).monitors@[i].logfile@);
                } else {
                    assert(self.monitors@[i] == before[i] && self.monitors@[j] == before[j]);
                }
            }
        }
        true
    }

    /// Takes `path` off the failure list.
    fn remove_failure(&mut self, path: &String)
        ensures
            *final(self) == (LogfilesManager { logfiles_failed: final(self).logfiles_failed, ..*old(self) }),
            forall|j: int| 0 <= j < final(self).logfiles_failed@.len() ==>
                (#[trigger] final(self).logfiles_failed@[j])@ != path@,
    {
        let mut i: usize = 0;
        while i < self.logfiles_failed.len()
            invariant
                *self == (LogfilesManager { logfiles_failed: self.logfiles_failed, ..*old(self) }),
                i <= self.logfiles_failed@.len(),
                forall|j: int| 0 <= j < i ==> (#[trigger] self.logfiles_failed@[j])@ != path@,
            decreases self.logfiles_failed@.len() - i,
        {
            if self.logfiles_failed[i].eq(path) {
                self.logfiles_failed.remove(i);
            } else {
                i = i + 1;
            }
        }
    }

    /// Notes that `path` failed to begin monitoring: the list is kept as it is when it
    /// already names the path, else the path is added at its end.
    pub fn record_failure(&mut self, path: &str)
        ensures
            *final(self) == (LogfilesManager { logfiles_failed: final(self).logfiles_failed, ..*old(self) }),
            (exists|j: int| 0 <= j < old(self).logfiles_failed@.len() && (#[trigger] old(self).logfiles_failed@[j])@ == path@)
                ==> final(self).logfiles_failed == old(self).logfiles_failed,
            !(exists|j: int| 0 <= j < old(self).logfiles_failed@.len() && (#[trigger] old(self).logfiles_failed@[j])@ == path@) ==> {
                &&& final(self).logfiles_failed@.len() == old(self).logfiles_failed@.len() + 1
                &&& final(self).logfiles_failed@.drop_last() == old(self).logfiles_failed@
                &&& final(self).logfiles_failed@.last()@ == path@
            },
    {
        let key = path.to_owned();
        let mut i: usize = 0;
        while i < self.logfiles_failed.len()
            invariant
                *self == *old(self),
                key@ == path@,
                i <= self.logfiles_failed@.len(),
                forall|j: int| 0 <= j < i ==> (#[trigger] self.logfiles_failed@[j])@ != path@,
            decreases self.logfiles_failed@.len() - i,
        {
            if self.logfiles_failed[i].eq(&key) {
                return;
            }
            i = i + 1;
        }
        let ghost n = self.logfiles_failed@.len();
        self.logfiles_failed.push(key);
        proof {
            assert(self.logfiles_failed@.drop_last() =~= old(self).logfiles_failed@);
        }
    }

    /// Records `globpath` among the patterns (once) and, of the paths `found` that it now matches,
    /// returns those that are not yet tracked, in order and each once: the paths for which
    /// a monitor must be set up.
    pub fn scan_globpath(&mut self, globpath: &str, found: &Vec<String>) -> (r: Vec<String>)
        requires
            old(self).wf(),
        ensures
            final(self).wf(),
            final(self).monitors == old(self).monitors,
            final(self).logfiles_added == old(self).logfiles_added,
            forall|i: int| 0 <= i < r@.len() ==> !path_tracked(old(self).monitors@, (#[trigger] r@[i])@),
            forall|j: int| 0 <= j < found@.len() && !path_tracked(old(self).monitors@, (#[trigger] found@[j])@) ==>
                exists|i: int| 0 <= i < r@.len() && (#[trigger] r@[i])@ == found@[j]@,
            forall|i: int, k: int| 0 <= i < k < r@.len() ==> (#[trigger] r@[i])@ != (#[trigger] r@[k])@,
            forall|x: int| 0 <= x < r@.len() ==> found_at(found@, (#[trigger] r@[x])@),
            *final(self) == (LogfilesManager { globpaths: final(self).globpaths, ..*old(self) }),
            exists|k: int| 0 <= k < final(self).globpaths@.len() && (#[trigger] final(self).globpaths@[k])@ == globpath@,
            (exists|k: int| 0 <= k < old(self).globpaths@.len() && (#[trigger] old(self).globpaths@[k])@ == globpath@)
                ==> final(self).globpaths == old(self).globpaths,
            !(exists|k: int| 0 <= k < old(self).globpaths@.len() && (#[trigger] old(self).globpaths@[k])@ == globpath@)
                ==> final(self).globpaths@.drop_last() == old(self).globpaths@ && final(self).globpaths@.last()@ == globpath@,
    {
        let g = globpath.to_owned();
        let mut known = false;
        let mut i: usize = 0;
        while i < self.globpaths.len()
            invariant
                *self == *old(self),
                g@ == globpath@,
                i <= self.globpaths@.len(),
                known ==> exists|k: int| 0 <= k < i && (#[trigger] self.globpaths@[k])@ == globpath@,
                !known ==> forall|k: int| 0 <= k < i ==> (#[trigger] self.globpaths@[k])@ != globpath@,
            decreases self.globpaths@.len() - i,
        {
            if self.globpaths[i].eq(&g) {
                known = true;
            }
            i = i + 1;
        }
        if !known {
            let ghost n = self.globpaths@.len();
            self.globpaths.push(g);
            proof {
                assert(self.globpaths@[n as int]@ == globpath@);
                assert(self.globpaths@.drop_last() =~= old(self).globpaths@);
            }
        }
        let ghost gp = self.globpaths;
        let mut out: Vec<String> = Vec::new();
        let ghost mut src: Seq<int> = Seq::empty();
        let mut j: usize = 0;
        while j < found.len()
            invariant
                self.wf(),
                *self == (LogfilesManager { globpaths: gp, ..*old(self) }),
                j <= found@.len(),
                src.len() == out@.len(),
                forall|x: int| 0 <= x < out@.len() ==> 0 <= #[trigger] src[x] < j && found@[src[x]]@ == out@[x]@,
                forall|i: int| 0 <= i < out@.len() ==> !path_tracked(old(self).monitors@, (#[trigger] out@[i])@),
                forall|m: int| 0 <= m < j && !path_tracked(old(self).monitors@, (#[trigger] found@[m])@) ==>
                    exists|i: int| 0 <= i < out@.len() && (#[trigger] out@[i])@ == found@[m]@,
                forall|i: int, k: int| 0 <= i < k < out@.len() ==> (#[trigger] out@[i])@ != (#[trigger] out@[k])@,
            decreases found@.len() - j,
        {
            let candidate = &found[j];
            if !self.is_monitored(candidate.as_str()) {
                let mut seen = false;
                let mut k: usize = 0;
                while k < out.len()
                    invariant
                        k <= out@.len(),
                        seen ==> exists|i: int| 0 <= i < out@.len() && (#[trigger] out@[i])@ == candidate@,
                        !seen ==> forall|i: int| 0 <= i < k ==> (#[trigger] out@[i])@ != candidate@,
                        j < found@.len(),
                        src.len() == out@.len(),
                        forall|x: int| 0 <= x < out@.len() ==> 0 <= #[trigger] src[x] < j && found@[src[x]]@ == out@[x]@,
                    decreases out@.len() - k,
                {
                    if out[k].eq(candidate) {
                        seen = true;
                    }
                    k = k + 1;
                }
                if !seen {
                    let ghost before = out@;
                    let ghost src0 = src;
                    out.push(candidate.clone());
                    proof {
                        src = src.push(j as int);
                        assert forall|x: int| 0 <= x < out@.len() implies 0 <= #[trigger] src[x] < j + 1 && found@[src[x]]@ == out@[x]@ by {
                            if x < before.len() {
                                assert(out@[x] == before[x] && src[x] == src0[x]);
                            }
                        }
                        assert(out@[before.len() as int]@ == found@[j as int]@);
                        assert forall|m: int| 0 <= m < j + 1 && !path_tracked(old(self).monitors@, (#[trigger] found@[m])@) implies
                            exists|i: int| 0 <= i < out@.len() && (#[trigger] out@[i])@ == found@[m]@ by {
                            if m < j {
                                let i0 = choose|i: int| 0 <= i < before.len() && (#[trigger] before[i])@ == found@[m]@;
                                assert(out@[i0] == before[i0]);
                            } else {
                                assert(out@[before.len() as int]@ == found@[m]@);
                            }
                        }
                    }
                } else {
                    proof {
                        assert forall|m: int| 0 <= m < j + 1 && !path_tracked(old(self).monitors@, (#[trigger] found@[m])@) implies
                            exists|i: int| 0 <= i < out@.len() && (#[trigger] out@[i])@ == found@[m]@ by {
                            if m == j {
                            }
                        }
                    }
                }
            }
            proof {
                assert forall|x: int| 0 <= x < out@.len() implies 0 <= #[trigger] src[x] < j + 1 && found@[src[x]]@ == out@[x]@ by {
                    assert(0 <= src[x] < j + 1);
                }
            }
            j = j + 1;
        }
        proof {
            assert forall|x: int| 0 <= x < out@.len() implies found_at(found@, (#[trigger] out@[x])@) by {
                let m = src[x];
                assert(found@[m]@ == out@[x]@);
            }
        }
        out
    }

    /// Hands a live `line` of the file at `path`, read at `now`, to its monitor. Returns
    /// `None` for an untracked path, else whether that monitor's checkpoint is now due.
    pub fn handle_line(&mut self, path: &str, line: &str, now: i64, checkpoint_interval: u64) -> (r: Option<bool>)
        requires
            old(self).wf(),
        ensures
            final(self).wf(),
            final(self).monitors@.len() == old(self).monitors@.len(),
            final(self).logfiles_added == old(self).logfiles_added,
            r is None <==> !path_tracked(old(self).monitors@, path@),
            r is None ==> *final(self) == *old(self),
            r matches Some(due) ==> exists|k: int| {
                &&& 0 <= k < old(self).monitors@.len()
                &&& #[trigger] old(self).monitors@[k].logfile@ == path@
                &&& crate::monitor::meta_view(final(self).monitors@[k].metrics.entry_metadata) == decoded(line@, now)
                &&& due == (decoded(line@, now) is Some && !old(self).monitors@[k].is_debug_dashboard_log
                    && checkpoint_interval > 0 && checkpoint_due(
                        final(self).monitors@[k].metrics.entry_metadata,
                        final(self).monitors@[k].latest_checkpoint_time,
                        checkpoint_interval,
                    ))
                &&& forall|j: int| 0 <= j < old(self).monitors@.len() && j != k ==> #[trigger] final(self).monitors@[j] == old(self).monitors@[j]
                &&& lines_of(final(self).monitors@[k].content.items@) == content_after(
                    lines_of(old(self).monitors@[k].content.items@),
                    line@,
                    old(self).monitors@[k].max_content as int,
                )
                &&& match decoded(line@, now) {
                    Some(m) if !old(self).monitors@[k].is_debug_dashboard_log => gathered(
                        NodeMetrics { entry_metadata: final(self).monitors@[k].metrics.entry_metadata, ..old(self).monitors@[k].metrics },
                        final(self).monitors@[k].metrics,
                        line@,
                        m.category,
                        m.message_time,
                    ),
                    _ => final(self).monitors@[k].metrics
                        == (NodeMetrics { entry_metadata: final(self).monitors@[k].metrics.entry_metadata, ..old(self).monitors@[k].metrics }),
                }
            },
    {
        match self.get_monitor_for_file_path(path) {
            Some(k) => {
                let ghost before = self.monitors@;
                let due = self.monitors[k].append_to_content(line, now, checkpoint_interval);
                proof {
                    assert forall|j: int| 0 <= j < before.len() && j != k implies #[trigger] self.monitors@[j] == before[j] by {}
                    assert forall|i: int, j: int| 0 <= i < j < self.monitors@.len() implies {
                        &&& (#[trigger] self.monitors@[i]).logfile@ != (#[trigger] self.monitors@[j]).logfile@
                        &&& self.monitors@[i].index != self.monitors@[j].index
                    } by {
                        assert(before[i].logfile@ != before[j].logfile@);
                    }
                    assert(old(self).monitors@[k as int].logfile@ == path@);
                }
                Some(due)
            },
            None => None,
        }
    }

    /// Moves every monitor's timelines on to `now` (the periodic tick).
    pub fn update_timelines(&mut self, now: i64)
        requires
            old(self).wf(),
        ensures
            final(self).wf(),
            final(self).monitors@.len() == old(self).monitors@.len(),
            final(self).logfiles_added == old(self).logfiles_added,
            forall|k: int| 0 <= k < old(self).monitors@.len() ==> crate::metrics::timelines_advanced(
                #[trigger] old(self).monitors@[k].metrics,
                final(self).monitors@[k].metrics,
                now,
            ) && final(self).monitors@[k] == (LogMonitor { metrics: final(self).monitors@[k].metrics, ..old(self).monitors@[k] }),
    {
        let n = self.monitors.len();
        let mut i: usize = 0;
        while i < n
            invariant
                n == self.monitors@.len(),
                i <= n,
                self.wf(),
                self.logfiles_added == old(self).logfiles_added,
                forall|k: int| 0 <= k < i ==> crate::metrics::timelines_advanced(
                    #[trigger] old(self).monitors@[k].metrics,
                    self.monitors@[k].metrics,
                    now,
                ) && self.monitors@[k] == (LogMonitor { metrics: self.monitors@[k].metrics, ..old(self).monitors@[k] }),
                forall|k: int| i <= k < n ==> #[trigger] self.monitors@[k] == old(self).monitors@[k],
            decreases n - i,
        {
            let ghost before = self.monitors@;
            self.monitors[i].metrics.update_timelines(now);
            proof {
                assert forall|j: int| 0 <= j < n && j != i implies #[trigger] self.monitors@[j] == before[j] by {}
                assert forall|a: int, b: int| 0 <= a < b < self.monitors@.len() implies {
                    &&& (#[trigger] self.monitors@[a]).logfile@ != (#[trigger] self.monitors@[b]).logfile@
                    &&& self.monitors@[a].index != self.monitors@[b].index
                } by {
                    assert(before[a].logfile@ != before[b].logfile@);
                }
            }
            i = i + 1;
        }
    }

    /// Whether the glob patterns are to be expanded now: always for an untimed scan; for a
    /// timed one, when rescanning is on (a nonzero interval in seconds) and the scheduled
    /// time has passed or none is set, scheduling the next one an interval after `now`.
    pub fn scan_glob_paths(&mut self, timed: bool, now: i64, glob_scan_s: u64) -> (r: bool)
        ensures
            r == (!timed || (glob_scan_s > 0 && match old(self).next_glob_scan {
                Some(t) => now > t,
                None => true,
            })),
            (timed && r) ==> final(self).next_glob_scan == Some(sat_i64(now as int + glob_scan_s * 1_000_000_000)),
            !(timed && r) ==> final(self).next_glob_scan == old(self).next_glob_scan,
            *final(self) == (LogfilesManager { next_glob_scan: final(self).next_glob_scan, ..*old(self) }),
    {
        if !timed {
            return true;
        }
        if glob_scan_s == 0 {
            return false;
        }
        let due = match self.next_glob_scan {
            Some(t) => now > t,
            None => true,
        };
        if due {
            let next = (now as i128) + (glob_scan_s as i128) * 1_000_000_000;
            self.next_glob_scan = Some(if next > i64::MAX as i128 { i64::MAX } else { next as i64 });
        }
        due
    }

    /// Position of the monitor watching `path`.
    pub fn get_monitor_for_file_path(&self, path: &str) -> (r: Option<usize>)
        requires
            self.wf(),
        ensures
            match r {
                Some(k) => k < self.monitors@.len() && self.monitors@[k as int].logfile@ == path@,
                None => !path_tracked(self.monitors@, path@),
            },
    {
        let key = path.to_owned();
        let mut i: usize = 0;
        while i < self.monitors.len()
            invariant
                key@ == path@,
                i <= self.monitors@.len(),
                forall|j: int| 0 <= j < i ==> (#[trigger] self.monitors@[j]).logfile@ != path@,
            decreases self.monitors@.len() - i,
        {
            if self.monitors[i].logfile.eq(&key) {
                return Some(i);
            }
            i = i + 1;
        }
        None
    }

    /// A manager cannot use every index: there are fewer monitors than indices.
    proof fn lemma_not_all_used(&self)
        requires
            self.wf(),
            self.monitors@.len() <= usize::MAX,
            forall|k: int| 0 <= k < usize::MAX ==> #[trigger] index_used(self.monitors@, k as usize),
        ensures
            !index_used(self.monitors@, usize::MAX),
    {
        let ms = self.monitors@;
        let idx = ms.map_values(|m: LogMonitor| m.index as int);
        if index_used(ms, usize::MAX) {
            idx.lemma_cardinality_of_set();
            vstd::set_lib::lemma_int_range(0, usize::MAX + 1);
            assert(vstd::set_lib::set_int_range(0, usize::MAX + 1).subset_of(idx.to_set())) by {
                assert forall|k: int| #[trigger] vstd::set_lib::set_int_range(0, usize::MAX + 1).contains(k) implies idx.to_set().contains(k) by {
                    if k < usize::MAX {
                        assert(index_used(ms, k as usize));
                    }
                    let j = choose|j: int| 0 <= j < ms.len() && (#[trigger] ms[j]).index == k as usize;
                    assert(idx[j] == k);
                }
            }
            vstd::set_lib::lemma_len_subset(vstd::set_lib::set_int_range(0, usize::MAX + 1), idx.to_set());
        }
    }
}

} // verus!
