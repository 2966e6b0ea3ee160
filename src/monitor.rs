//! The state kept for one monitored log file.
use vstd::prelude::*;
use crate::decode::{LogEntry, LogMeta, line_spans, meta_of, rfc3339_nanos, time_text};
use crate::metrics::{NodeMetrics, gathered};

verus! {

/// A list of lines with an optional selected position.
pub struct StatefulList {
    pub items: Vec<String>,
    pub selected: Option<usize>,
}

impl StatefulList {
    pub fn new() -> (r: StatefulList)
        ensures
            r.items@.len() == 0,
            r.selected is None,
    {
        StatefulList { items: Vec::new(), selected: None }
    }

    pub fn with_items(items: Vec<String>) -> (r: StatefulList)
        ensures
            r.items == items,
            r.selected is None,
    {
        StatefulList { items, selected: None }
    }

    /// Selects the next item, wrapping from the last to the first; the first when none is
    /// selected. An empty list selects nothing.
    pub fn next(&mut self)
        ensures
            final(self).items == old(self).items,
            final(self).selected == if old(self).items@.len() == 0 {
                None
            } else {
                match old(self).selected {
                    Some(i) => if i + 1 >= old(self).items@.len() { Some(0usize) } else { Some((i + 1) as usize) },
                    None => Some(0usize),
                }
            },
    {
        let n = self.items.len();
        if n == 0 {
            self.selected = None;
            return;
        }
        self.selected = match self.selected {
            Some(i) => if i >= n - 1 { Some(0) } else { Some(i + 1) },
            None => Some(0),
        };
    }

    /// Selects the previous item, wrapping from the first to the last; the first when none
    /// is selected. An empty list selects nothing.
    pub fn previous(&mut self)
        ensures
            final(self).items == old(self).items,
            final(self).selected == if old(self).items@.len() == 0 {
                None
            } else {
                match old(self).selected {
                    Some(i) => if i == 0 { Some((old(self).items@.len() - 1) as usize) } else { Some((i - 1) as usize) },
                    None => Some(0usize),
                }
            },
    {
        let n = self.items.len();
        if n == 0 {
            self.selected = None;
            return;
        }
        self.selected = match self.selected {
            Some(i) => if i == 0 { Some(n - 1) } else { Some(i - 1) },
            None => Some(0),
        };
    }
}

/// Moves the selection one step without wrapping at either end (from no selection it goes
/// as `previous` does).
pub fn do_bracketed_next_previous(list: &mut StatefulList, next: bool)
    ensures
        final(list).items == old(list).items,
        final(list).selected == match old(list).selected {
            Some(i) => {
                if next && i + 1 < old(list).items@.len() {
                    Some((i + 1) as usize)
                } else if !next && i > 0 && old(list).items@.len() > 0 {
                    Some((i - 1) as usize)
                } else if old(list).items@.len() == 0 {
                    None
                } else if next && i + 1 >= old(list).items@.len() && i + 1 != old(list).items@.len() {
                    Some(0usize)
                } else {
                    old(list).selected
                }
            },
            None => if old(list).items@.len() == 0 { None } else { Some(0usize) },
        },
{
    let n = list.items.len();
    if next {
        if let Some(selected) = list.selected {
            if n == 0 || selected != n - 1 {
                list.next();
            }
        } else {
            list.previous();
        }
    } else {
        if let Some(selected) = list.selected {
            if selected != 0 {
                list.previous();
            } else if n == 0 {
                list.selected = None;
            }
        } else {
            list.previous();
        }
    }
}

/// The snapshot of a monitor that a checkpoint holds.
pub struct LogfileCheckpoint {
    pub latest_entry_time: Option<i64>,
    pub monitor_index: usize,
    pub monitor_metrics: NodeMetrics,
}

impl LogfileCheckpoint {
    pub fn new(timeline_steps: usize, now: i64) -> (r: LogfileCheckpoint)
        requires
            timeline_steps >= 1,
        ensures
            r.monitor_metrics.wf(),
            r.latest_entry_time is None,
            r.monitor_index == 0,
    {
        LogfileCheckpoint { latest_entry_time: None, monitor_index: 0, monitor_metrics: NodeMetrics::new(timeline_steps, now) }
    }
}

/// Whether a checkpoint is due for the last entry at `entry`, the previous checkpoint
/// covering entries up to `latest`, with an interval of `interval_s` seconds: at least
/// the interval of embedded log time has passed (or there was none before).
pub open spec fn checkpoint_due(entry: Option<LogMeta>, latest: Option<i64>, interval_s: u64) -> bool {
    match entry {
        Some(m) => match latest {
            None => true,
            Some(l) => l + interval_s * 1_000_000_000 <= m.message_time,
        },
        None => false,
    }
}

/// What decoding line `s` read at `sys` gives.
pub open spec fn decoded(s: Seq<char>, sys: i64) -> Option<crate::decode::LogMetaView> {
    match line_spans(s) {
        Some(sp) => match rfc3339_nanos(time_text(s, sp)) {
            Some(t) => Some(meta_of(s, sp, t, sys)),
            None => None,
        },
        None => None,
    }
}

/// An optional metadata value's view.
pub open spec fn meta_view(m: Option<LogMeta>) -> Option<crate::decode::LogMetaView> {
    match m {
        Some(x) => Some(x@),
        None => None,
    }
}

/// The texts of a list of lines.
pub open spec fn lines_of(items: Seq<String>) -> Seq<Seq<char>> {
    items.map_values(|x: String| x@)
}

/// The content ring after `text` arrives: appended, the oldest line dropped beyond `max`.
pub open spec fn content_after(lines: Seq<Seq<char>>, text: Seq<char>, max: int) -> Seq<Seq<char>> {
    if lines.len() + 1 > max { lines.push(text).drop_first() } else { lines.push(text) }
}

/// Live state of one monitored log file.
pub struct LogMonitor {
    /// Ordinal, unique among live monitors.
    pub index: usize,
    /// Recent raw lines, oldest first.
    pub content: StatefulList,
    pub max_content: usize,
    pub has_focus: bool,
    pub logfile: String,
    pub metrics: NodeMetrics,
    /// The monitor that shows this program's own debug output.
    pub is_debug_dashboard_log: bool,
    /// Embedded time of the last entry covered by the latest checkpoint.
    pub latest_checkpoint_time: Option<i64>,
}

impl LogMonitor {
    pub open spec fn wf(&self) -> bool {
        &&& self.metrics.wf()
        &&& self.content.items@.len() <= self.max_content
    }

    pub fn new(logfile: String, index: usize, max_content: usize, timeline_steps: usize, now: i64, is_debug_dashboard_log: bool) -> (r: LogMonitor)
        requires
            timeline_steps >= 1,
        ensures
            r.wf(),
            r.logfile@ == logfile@,
            r.index == index,
            r.max_content == max_content,
            r.is_debug_dashboard_log == is_debug_dashboard_log,
            r.content.items@.len() == 0,
            r.latest_checkpoint_time is None,
            !r.has_focus,
            r.metrics.entry_metadata is None,
    {
        LogMonitor {
            index,
            content: StatefulList::new(),
            max_content,
            has_focus: false,
            logfile,
            metrics: NodeMetrics::new(timeline_steps, now),
            is_debug_dashboard_log,
            latest_checkpoint_time: None,
        }
    }

    pub fn is_node(&self) -> (r: bool)
        ensures
            r == !self.is_debug_dashboard_log,
    {
        !self.is_debug_dashboard_log
    }

    /// Takes over the index, checkpoint time and metrics of a restored checkpoint.
    pub fn from_checkpoint(&mut self, checkpoint: LogfileCheckpoint)
        requires
            old(self).wf(),
            checkpoint.monitor_metrics.wf(),
        ensures
            final(self).wf(),
            *final(self) == (LogMonitor {
                index: checkpoint.monitor_index,
                latest_checkpoint_time: checkpoint.latest_entry_time,
                metrics: checkpoint.monitor_metrics,
                ..*old(self)
            }),
    {
        self.index = checkpoint.monitor_index;
        self.latest_checkpoint_time = checkpoint.latest_entry_time;
        self.metrics = checkpoint.monitor_metrics;
    }

    /// Appends a raw line to the content ring, dropping the oldest beyond `max_content`.
    pub fn append_line(&mut self, text: &str)
        requires
            old(self).wf(),
        ensures
            final(self).wf(),
            final(self).metrics == old(self).metrics,
            final(self).index == old(self).index,
            final(self).logfile == old(self).logfile,
            final(self).max_content == old(self).max_content,
            final(self).is_debug_dashboard_log == old(self).is_debug_dashboard_log,
            final(self).latest_checkpoint_time == old(self).latest_checkpoint_time,
            final(self).has_focus == old(self).has_focus,
            final(self).content.items@.len() == if old(self).content.items@.len() + 1 > old(self).max_content {
                old(self).content.items@.len() as int
            } else {
                old(self).content.items@.len() + 1 as int
            },
            final(self).content.items@.len() > 0 ==> final(self).content.items@.last()@ == text@,
            lines_of(final(self).content.items@) == content_after(lines_of(old(self).content.items@), text@, old(self).max_content as int),
    {
        let line = text.to_owned();
        let ghost before = self.content.items@;
        self.content.items.push(line);
        let len = self.content.items.len();
        if len > self.max_content {
            self.content.items.remove(0);
        } else {
            self.content.selected = Some(len - 1);
        }
        proof {
            assert(lines_of(before.push(line)) =~= lines_of(before).push(text@));
            if len > self.max_content {
                assert(lines_of(self.content.items@) =~= lines_of(before.push(line)).drop_first());
            } else {
                assert(lines_of(self.content.items@) =~= lines_of(before.push(line)));
            }
        }
    }

    /// Whether a checkpoint is due (see `checkpoint_due`).
    pub fn update_checkpoint(&self, checkpoint_interval: u64) -> (r: bool)
        ensures
            r == checkpoint_due(self.metrics.entry_metadata, self.latest_checkpoint_time, checkpoint_interval),
    {
        match &self.metrics.entry_metadata {
            Some(m) => match self.latest_checkpoint_time {
                None => true,
                Some(l) => (l as i128) + (checkpoint_interval as i128) * 1_000_000_000 <= m.message_time as i128,
            },
            None => false,
        }
    }

    /// Notes that a checkpoint covering the current entry has been written.
    pub fn checkpoint_saved(&mut self)
        ensures
            *final(self) == (LogMonitor {
                latest_checkpoint_time: match old(self).metrics.entry_metadata {
                    Some(m) => Some(m.message_time),
                    None => None,
                },
                ..*old(self)
            }),
    {
        self.latest_checkpoint_time = match &self.metrics.entry_metadata {
            Some(m) => Some(m.message_time),
            None => None,
        };
    }

    /// Takes a live line read at `system_time`: every line is kept in the content ring; a
    /// line that decodes also goes through the metrics, unless this is the debug monitor.
    /// Returns whether a checkpoint is now due (never with a zero interval, which disables
    /// them).
    pub fn append_to_content(&mut self, line: &str, system_time: i64, checkpoint_interval: u64) -> (r: bool)
        requires
            old(self).wf(),
        ensures
            final(self).wf(),
            meta_view(final(self).metrics.entry_metadata) == decoded(line@, system_time),
            final(self).index == old(self).index,
            final(self).logfile == old(self).logfile,
            final(self).latest_checkpoint_time == old(self).latest_checkpoint_time,
            lines_of(final(self).content.items@) == content_after(lines_of(old(self).content.items@), line@, old(self).max_content as int),
            final(self).max_content == old(self).max_content,
            (decoded(line@, system_time) is None || old(self).is_debug_dashboard_log) ==>
                final(self).metrics == (NodeMetrics { entry_metadata: final(self).metrics.entry_metadata, ..old(self).metrics }),
            match decoded(line@, system_time) {
                Some(m) if !old(self).is_debug_dashboard_log => {
                    let mid = NodeMetrics { entry_metadata: final(self).metrics.entry_metadata, ..old(self).metrics };
                    gathered(mid, final(self).metrics, line@, m.category, m.message_time)
                },
                _ => true,
            },
            r == (decoded(line@, system_time) is Some && !old(self).is_debug_dashboard_log && checkpoint_interval > 0
                && checkpoint_due(final(self).metrics.entry_metadata, final(self).latest_checkpoint_time, checkpoint_interval)),
    {
        let meta = LogEntry::decode_metadata(line, system_time);
        let found = meta.is_some();
        self.metrics.entry_metadata = meta;
        self.append_line(line);
        if !found {
            return false;
        }
        if self.is_debug_dashboard_log {
            return false;
        }
        self.metrics.gather_metrics(line);
        if checkpoint_interval > 0 {
            return self.update_checkpoint(checkpoint_interval);
        }
        false
    }

    /// Takes a line while replaying a file: with `after_time`, only lines that decode with
    /// an embedded time later than it are taken; without, every line is kept and a line
    /// that does not decode is read under the metadata of the last one that did (if any).
    pub fn append_to_content_from_time(&mut self, line: &str, system_time: i64, after_time: Option<i64>)
        requires
            old(self).wf(),
        ensures
            final(self).wf(),
            final(self).index == old(self).index,
            final(self).logfile == old(self).logfile,
            final(self).latest_checkpoint_time == old(self).latest_checkpoint_time,
            final(self).max_content == old(self).max_content,
            ({
                let d = decoded(line@, system_time);
                let taken = match d {
                    Some(m) => match after_time {
                        Some(a) => m.message_time > a,
                        None => true,
                    },
                    None => after_time is None,
                };
                &&& !taken ==> final(self).metrics == old(self).metrics && final(self).content == old(self).content
                &&& taken ==> lines_of(final(self).content.items@)
                    == content_after(lines_of(old(self).content.items@), line@, old(self).max_content as int)
                &&& (taken && d is Some) ==> meta_view(final(self).metrics.entry_metadata) == d
                &&& (taken && d is None) ==> final(self).metrics.entry_metadata == old(self).metrics.entry_metadata
                &&& (taken && !old(self).is_debug_dashboard_log && final(self).metrics.entry_metadata is Some) ==> gathered(
                    NodeMetrics { entry_metadata: final(self).metrics.entry_metadata, ..old(self).metrics },
                    final(self).metrics,
                    line@,
                    final(self).metrics.entry_metadata->0@.category,
                    final(self).metrics.entry_metadata->0@.message_time,
                )
                &&& (taken && (old(self).is_debug_dashboard_log || final(self).metrics.entry_metadata is None)) ==>
                    final(self).metrics == (NodeMetrics { entry_metadata: final(self).metrics.entry_metadata, ..old(self).metrics })
            }),
    {
        let meta = LogEntry::decode_metadata(line, system_time);
        match meta {
            Some(m) => {
                if let Some(a) = after_time {
                    if !(m.message_time > a) {
                        return;
                    }
                }
                self.metrics.entry_metadata = Some(m);
            },
            None => {
                if after_time.is_some() {
                    return;
                }
            },
        }
        self.append_line(line);
        if self.is_debug_dashboard_log {
            return;
        }
        if self.metrics.entry_metadata.is_some() {
            self.metrics.gather_metrics(line);
        }
    }
}

} // verus!
