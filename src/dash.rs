//! The dashboard's control state: which view is shown, which source has focus, and how a
//! key press changes them.
use vstd::prelude::*;
use crate::app_timelines::{NUM_TIMELINES, NUM_TIMESCALES, scale_name, timescale_name};
use crate::timelines::MinMeanMax;
use crate::monitor::LogMonitor;
use crate::stat::{MmmStat, NodeStatus};

verus! {

/// What one turn of the control loop handles.
pub enum Event<I> {
    Input(I),
    Tick,
}

/// Top-level view.
#[derive(Clone, Copy, PartialEq, Eq, Structural, Debug)]
pub enum DashViewMain {
    DashSummary,
    DashNode,
    DashHelp,
    DashDebug,
}

/// Columns of the summary table.
#[derive(Clone, Copy, PartialEq, Eq, Structural, Debug)]
pub enum NodeMetric {
    Index,
    StoragePayments,
    StorageCost,
    Records,
    Puts,
    Gets,
    Errors,
    Peers,
    Memory,
    Status,
}

/// The source that has keyboard focus: a monitor by position, or the debug window.
#[derive(Clone, Copy, PartialEq, Eq, Structural, Debug)]
pub enum Focus {
    Monitor(usize),
    Debug,
}

/// A key press, as the dashboard reads it.
#[derive(Clone, Copy, PartialEq, Eq, Structural, Debug)]
pub enum Key {
    Char(char),
    Enter,
    Up,
    Down,
    Left,
    Right,
    Tab,
    Other,
}

/// What the control loop must do after a key press.
#[derive(Clone, Copy, PartialEq, Eq, Structural, Debug)]
pub enum KeyAction {
    Continue,
    Quit,
    /// Re-expand the glob patterns now.
    Rescan,
}

/// Figures over all monitored nodes: one sample per node of each figure.
pub struct SummaryStats {
    pub node_count: usize,
    pub active_node_count: usize,
    pub storage_cost: MmmStat,
    pub earnings: MmmStat,
    pub puts: MmmStat,
    pub gets: MmmStat,
    pub errors: MmmStat,
    pub connections: MmmStat,
    pub ram: MmmStat,
}

/// `v`, held at `u64::MAX`.
pub open spec fn clip(v: u128) -> u64 {
    if v > u64::MAX { u64::MAX } else { v as u64 }
}

fn clip_exec(v: u128) -> (r: u64)
    ensures
        r == clip(v),
{
    if v > u64::MAX as u128 { u64::MAX } else { v as u64 }
}

/// The summary of monitors `ms`, the debug monitor left out.
pub open spec fn summary_of(ms: Seq<LogMonitor>) -> SummaryStats
    decreases ms.len(),
{
    if ms.len() == 0 {
        let e = MmmStat { sample_count: 0, most_recent: 0, total: 0, min: u64::MAX, mean: 0, max: 0 };
        SummaryStats {
            node_count: 0,
            active_node_count: 0,
            storage_cost: e,
            earnings: e,
            puts: e,
            gets: e,
            errors: e,
            connections: e,
            ram: e,
        }
    } else {
        let p = summary_of(ms.drop_last());
        let m = ms.last().metrics;
        if ms.last().is_debug_dashboard_log {
            p
        } else {
            SummaryStats {
                node_count: (p.node_count + 1) as usize,
                active_node_count: (p.active_node_count + if m.node_inactive { 0int } else { 1int }) as usize,
                storage_cost: p.storage_cost.with_sample(m.storage_cost.most_recent),
                earnings: p.earnings.with_sample(clip(m.storage_payments.total)),
                puts: p.puts.with_sample(clip(m.activity_puts.total)),
                gets: p.gets.with_sample(clip(m.activity_gets.total)),
                errors: p.errors.with_sample(clip(m.activity_errors.total)),
                connections: p.connections.with_sample(m.peers_connected.most_recent),
                ram: p.ram.with_sample(m.memory_used_mb.most_recent),
            }
        }
    }
}

impl SummaryStats {
    pub open spec fn wf(&self) -> bool {
        &&& self.storage_cost.wf()
        &&& self.earnings.wf()
        &&& self.puts.wf()
        &&& self.gets.wf()
        &&& self.errors.wf()
        &&& self.connections.wf()
        &&& self.ram.wf()
    }

    /// The summary of `monitors` (see `summary_of`).
    pub fn new(monitors: &Vec<LogMonitor>) -> (r: SummaryStats)
        ensures
            r == summary_of(monitors@),
    {
        let mut st = SummaryStats {
            node_count: 0,
            active_node_count: 0,
            storage_cost: MmmStat::new(),
            earnings: MmmStat::new(),
            puts: MmmStat::new(),
            gets: MmmStat::new(),
            errors: MmmStat::new(),
            connections: MmmStat::new(),
            ram: MmmStat::new(),
        };
        let mut i: usize = 0;
        proof {
            assert(monitors@.subrange(0, 0).len() == 0);
        }
        while i < monitors.len()
            invariant
                i <= monitors@.len(),
                st.wf(),
                st == summary_of(monitors@.subrange(0, i as int)),
                st.node_count <= i,
                st.active_node_count <= st.node_count,
            decreases monitors@.len() - i,
        {
            let m = &monitors[i];
            proof {
                assert(monitors@.subrange(0, i + 1).drop_last() =~= monitors@.subrange(0, i as int));
            }
            if !m.is_debug_dashboard_log {
                st.node_count = st.node_count + 1;
                if !m.metrics.node_inactive {
                    st.active_node_count = st.active_node_count + 1;
                }
                st.storage_cost.add_sample(m.metrics.storage_cost.most_recent);
                st.earnings.add_sample(clip_exec(m.metrics.storage_payments.total));
                st.puts.add_sample(clip_exec(m.metrics.activity_puts.total));
                st.gets.add_sample(clip_exec(m.metrics.activity_gets.total));
                st.errors.add_sample(clip_exec(m.metrics.activity_errors.total));
                st.connections.add_sample(m.metrics.peers_connected.most_recent);
                st.ram.add_sample(m.metrics.memory_used_mb.most_recent);
            }
            i = i + 1;
        }
        proof {
            assert(monitors@.subrange(0, i as int) =~= monitors@);
        }
        st
    }
}

pub struct DashVertical {
    pub active_view: usize,
}

impl DashVertical {
    pub fn new() -> (r: Self)
        ensures
            r.active_view == 0,
    {
        DashVertical { active_view: 0 }
    }
}

pub fn get_app_name() -> (r: String)
    ensures
        r@ == "vdash"@,
{
    "vdash".to_owned()
}

pub struct DashState {
    pub main_view: DashViewMain,
    pub previous_main_view: DashViewMain,
    pub active_timescale: usize,
    pub node_logfile_visible: bool,
    pub mmm_ui_mode: MinMeanMax,
    pub top_timeline: usize,
    /// Whether the debug window is enabled.
    pub debug_window: bool,
    /// The source with keyboard focus.
    pub focus: Option<Focus>,
    /// The focus kept for the summary and node views while another view is shown.
    pub dash_node_focus: Option<Focus>,
    pub logfile_names_sorted_ascending: bool,
}

/// The next focus going forward through `n` monitors, then the debug window when enabled.
pub open spec fn focus_after(f: Option<Focus>, n: int, debug: bool) -> Option<Focus> {
    let next_i = match f {
        Some(Focus::Monitor(i)) if i < n - 1 => i + 1,
        _ => 0,
    };
    if next_i == 0 && debug && f != Some(Focus::Debug) {
        Some(Focus::Debug)
    } else {
        Some(Focus::Monitor(next_i as usize))
    }
}

/// The next focus going backward (see `focus_after`).
pub open spec fn focus_before(f: Option<Focus>, n: int, debug: bool) -> Option<Focus> {
    let prev_i = match f {
        Some(Focus::Monitor(i)) if i < n => if i > 0 { i - 1 } else { n - 1 },
        _ => n - 1,
    };
    if prev_i == n - 1 && debug && f != Some(Focus::Debug) {
        Some(Focus::Debug)
    } else {
        Some(Focus::Monitor(prev_i as usize))
    }
}

pub open spec fn next_mmm(m: MinMeanMax) -> MinMeanMax {
    match m {
        MinMeanMax::Min => MinMeanMax::Mean,
        MinMeanMax::Mean => MinMeanMax::Max,
        MinMeanMax::Max => MinMeanMax::Min,
    }
}

impl DashState {
    pub fn new(debug_window: bool) -> (r: DashState)
        ensures
            r.main_view == (if debug_window { DashViewMain::DashDebug } else { DashViewMain::DashSummary }),
            r.previous_main_view == DashViewMain::DashSummary,
            r.active_timescale == 0,
            r.node_logfile_visible,
            r.mmm_ui_mode == MinMeanMax::Mean,
            r.top_timeline == 0,
            r.debug_window == debug_window,
            r.focus is None,
            r.dash_node_focus is None,
            r.logfile_names_sorted_ascending,
    {
        DashState {
            main_view: if debug_window { DashViewMain::DashDebug } else { DashViewMain::DashSummary },
            previous_main_view: DashViewMain::DashSummary,
            active_timescale: 0,
            node_logfile_visible: true,
            mmm_ui_mode: MinMeanMax::Mean,
            top_timeline: 0,
            debug_window,
            focus: None,
            dash_node_focus: None,
            logfile_names_sorted_ascending: true,
        }
    }

    /// Name of the granularity on show.
    pub fn get_active_timescale_name(&self) -> (r: Option<&'static str>)
        ensures
            match r {
                Some(name) => self.active_timescale < NUM_TIMESCALES && name@ == scale_name(self.active_timescale as int),
                None => self.active_timescale >= NUM_TIMESCALES,
            },
    {
        if self.active_timescale < NUM_TIMESCALES {
            Some(timescale_name(self.active_timescale))
        } else {
            None
        }
    }

    /// Shows the next finer granularity (stays at the finest).
    pub fn scale_timeline_up(&mut self)
        ensures
            *final(self) == (DashState {
                active_timescale: if old(self).active_timescale == 0 { 0 } else { (old(self).active_timescale - 1) as usize },
                ..*old(self)
            }),
    {
        if self.active_timescale == 0 {
            return;
        }
        self.active_timescale = self.active_timescale - 1;
    }

    /// Shows the next coarser granularity (stays at the coarsest).
    pub fn scale_timeline_down(&mut self)
        ensures
            *final(self) == (DashState {
                active_timescale: if old(self).active_timescale >= NUM_TIMESCALES - 1 {
                    old(self).active_timescale
                } else {
                    (old(self).active_timescale + 1) as usize
                },
                ..*old(self)
            }),
    {
        if self.active_timescale >= NUM_TIMESCALES - 1 {
            return;
        }
        self.active_timescale = self.active_timescale + 1;
    }

    /// Moves the top timeline on, from the last position back to the first.
    pub fn top_timeline_next(&mut self)
        ensures
            *final(self) == (DashState {
                top_timeline: if old(self).top_timeline < NUM_TIMELINES { (old(self).top_timeline + 1) as usize } else { 0 },
                ..*old(self)
            }),
    {
        if self.top_timeline < NUM_TIMELINES {
            self.top_timeline = self.top_timeline + 1;
        } else {
            self.top_timeline = 0;
        }
    }

    /// Moves the top timeline back, from the first to the last.
    pub fn top_timeline_previous(&mut self)
        ensures
            *final(self) == (DashState {
                top_timeline: if old(self).top_timeline > 0 { (old(self).top_timeline - 1) as usize } else { (NUM_TIMELINES - 1) as usize },
                ..*old(self)
            }),
    {
        if self.top_timeline > 0 {
            self.top_timeline = self.top_timeline - 1;
        } else {
            self.top_timeline = NUM_TIMELINES - 1;
        }
    }

    /// Rotates the statistic on show through minimum, mean and maximum.
    pub fn bump_mmm_ui_mode(&mut self)
        ensures
            *final(self) == (DashState { mmm_ui_mode: next_mmm(old(self).mmm_ui_mode), ..*old(self) }),
    {
        self.mmm_ui_mode = match self.mmm_ui_mode {
            MinMeanMax::Min => MinMeanMax::Mean,
            MinMeanMax::Mean => MinMeanMax::Max,
            MinMeanMax::Max => MinMeanMax::Min,
        };
    }

    pub fn mmm_ui_mode(&self) -> (r: MinMeanMax)
        ensures
            r == self.mmm_ui_mode,
    {
        self.mmm_ui_mode
    }

    pub fn top_timeline_index(&self) -> (r: usize)
        ensures
            r == self.top_timeline,
    {
        self.top_timeline
    }

    pub fn toggle_logfile_area(&mut self)
        ensures
            *final(self) == (DashState { node_logfile_visible: !old(self).node_logfile_visible, ..*old(self) }),
    {
        self.node_logfile_visible = !self.node_logfile_visible;
    }

    /// Moves focus to the next of `n` monitors, through the debug window when it is
    /// enabled. Nothing changes with no monitors or in the debug view.
    pub fn change_focus_next(&mut self, n: usize)
        ensures
            *final(self) == if n == 0 || old(self).main_view == DashViewMain::DashDebug {
                *old(self)
            } else {
                DashState { focus: focus_after(old(self).focus, n as int, old(self).debug_window), ..*old(self) }
            },
    {
        if n == 0 || self.main_view == DashViewMain::DashDebug {
            return;
        }
        let next_i: usize = match self.focus {
            Some(Focus::Monitor(i)) => if i < n - 1 { i + 1 } else { 0 },
            _ => 0,
        };
        if next_i == 0 && self.debug_window && self.focus != Some(Focus::Debug) {
            self.focus = Some(Focus::Debug);
        } else {
            self.focus = Some(Focus::Monitor(next_i));
        }
    }

    /// Moves focus to the previous of `n` monitors (see `change_focus_next`).
    pub fn change_focus_previous(&mut self, n: usize)
        ensures
            *final(self) == if n == 0 || old(self).main_view == DashViewMain::DashDebug {
                *old(self)
            } else {
                DashState { focus: focus_before(old(self).focus, n as int, old(self).debug_window), ..*old(self) }
            },
    {
        if n == 0 || self.main_view == DashViewMain::DashDebug {
            return;
        }
        let prev_i: usize = match self.focus {
            Some(Focus::Monitor(i)) => if i < n { if i > 0 { i - 1 } else { n - 1 } } else { n - 1 },
            _ => n - 1,
        };
        if prev_i == n - 1 && self.debug_window && self.focus != Some(Focus::Debug) {
            self.focus = Some(Focus::Debug);
        } else {
            self.focus = Some(Focus::Monitor(prev_i));
        }
    }

    /// Focus on monitor `index` and show it.
    pub fn change_focus_to(&mut self, index: usize, n: usize)
        ensures
            *final(self) == if index < n {
                DashState { focus: Some(Focus::Monitor(index)), main_view: DashViewMain::DashNode, ..*old(self) }
            } else {
                *old(self)
            },
    {
        if index < n {
            self.focus = Some(Focus::Monitor(index));
            self.main_view = DashViewMain::DashNode;
        }
    }

    /// Switches to `view`, keeping the focus of the summary and node views across it.
    pub fn set_main_view(&mut self, view: DashViewMain)
        ensures
            old(self).main_view == view ==> *final(self) == *old(self),
            old(self).main_view != view ==> {
                let kept = if old(self).main_view == DashViewMain::DashSummary || old(self).main_view == DashViewMain::DashNode {
                    if old(self).focus is Some { old(self).focus } else { old(self).dash_node_focus }
                } else {
                    old(self).dash_node_focus
                };
                *final(self) == DashState {
                    previous_main_view: old(self).main_view,
                    main_view: view,
                    dash_node_focus: kept,
                    focus: if view == DashViewMain::DashSummary || view == DashViewMain::DashNode {
                        kept
                    } else if view == DashViewMain::DashDebug && old(self).debug_window {
                        Some(Focus::Debug)
                    } else {
                        old(self).focus
                    },
                    ..*old(self)
                }
            },
    {
        if self.main_view == view {
            return;
        }
        self.previous_main_view = self.main_view;
        if self.main_view == DashViewMain::DashSummary || self.main_view == DashViewMain::DashNode {
            if self.focus.is_some() {
                self.dash_node_focus = self.focus;
            }
        }
        self.main_view = view;
        if view == DashViewMain::DashSummary || view == DashViewMain::DashNode {
            self.focus = self.dash_node_focus;
        } else if view == DashViewMain::DashDebug && self.debug_window {
            self.focus = Some(Focus::Debug);
        }
    }

    /// Handles one key press with `n` monitors: changes view, focus or display settings
    /// and says what the loop does next.
    pub fn handle_key(&mut self, key: Key, n: usize) -> (r: KeyAction)
        ensures
            (key == Key::Char('q') || key == Key::Char('Q')) ==> r == KeyAction::Quit && *final(self) == *old(self),
            (key == Key::Char('r') || key == Key::Char('R')) ==> r == KeyAction::Rescan && *final(self) == *old(self),
            !(key == Key::Char('q') || key == Key::Char('Q') || key == Key::Char('r') || key == Key::Char('R')) ==> r == KeyAction::Continue,
            (key == Key::Char('m') || key == Key::Char('M')) ==> *final(self) == (DashState { mmm_ui_mode: next_mmm(old(self).mmm_ui_mode), ..*old(self) }),
            (key == Key::Char('l') || key == Key::Char('L')) ==> *final(self) == (DashState { node_logfile_visible: !old(self).node_logfile_visible, ..*old(self) }),
            (key == Key::Right || key == Key::Tab) ==> *final(self) == if n == 0 || old(self).main_view == DashViewMain::DashDebug {
                *old(self)
            } else {
                DashState { focus: focus_after(old(self).focus, n as int, old(self).debug_window), ..*old(self) }
            },
            key == Key::Left ==> *final(self) == if n == 0 || old(self).main_view == DashViewMain::DashDebug {
                *old(self)
            } else {
                DashState { focus: focus_before(old(self).focus, n as int, old(self).debug_window), ..*old(self) }
            },
            (key == Key::Char('h') || key == Key::Char('H') || key == Key::Char('?')) ==> final(self).main_view == DashViewMain::DashHelp,
            (key == Key::Char('s') || key == Key::Char('S')) ==> final(self).main_view == DashViewMain::DashSummary,
            (key == Key::Char('n') || key == Key::Char('N')) ==>
                final(self).main_view == if n > 0 { DashViewMain::DashNode } else { old(self).main_view },
            (key == Key::Char('+') || key == Key::Char('i') || key == Key::Char('I')) ==> *final(self) == (DashState {
                active_timescale: if old(self).active_timescale == 0 { 0 } else { (old(self).active_timescale - 1) as usize },
                ..*old(self)
            }),
            (key == Key::Char('-') || key == Key::Char('o') || key == Key::Char('O')) ==> *final(self) == (DashState {
                active_timescale: if old(self).active_timescale >= NUM_TIMESCALES - 1 {
                    old(self).active_timescale
                } else {
                    (old(self).active_timescale + 1) as usize
                },
                ..*old(self)
            }),
            key == Key::Char('t') ==> *final(self) == (DashState {
                top_timeline: if old(self).top_timeline < NUM_TIMELINES { (old(self).top_timeline + 1) as usize } else { 0 },
                ..*old(self)
            }),
            key == Key::Char('T') ==> *final(self) == (DashState {
                top_timeline: if old(self).top_timeline > 0 { (old(self).top_timeline - 1) as usize } else { (NUM_TIMELINES - 1) as usize },
                ..*old(self)
            }),
            key == Key::Char(' ') ==> *final(self) == (DashState {
                logfile_names_sorted_ascending: if old(self).main_view == DashViewMain::DashSummary {
                    !old(self).logfile_names_sorted_ascending
                } else {
                    old(self).logfile_names_sorted_ascending
                },
                ..*old(self)
            }),
            key == Key::Char('g') ==> final(self).main_view == if old(self).debug_window {
                DashViewMain::DashDebug
            } else {
                old(self).main_view
            },
            key == Key::Enter ==> final(self).main_view == if old(self).main_view == DashViewMain::DashHelp {
                old(self).previous_main_view
            } else if n > 0 && old(self).main_view == DashViewMain::DashNode {
                DashViewMain::DashSummary
            } else if n > 0 && old(self).main_view == DashViewMain::DashSummary {
                DashViewMain::DashNode
            } else {
                old(self).main_view
            },
            (key == Key::Other || key == Key::Up || key == Key::Down) ==> *final(self) == *old(self),
    {
        match key {
            Key::Char(c) => {
                if c == 'q' || c == 'Q' {
                    return KeyAction::Quit;
                } else if c == 'r' || c == 'R' {
                    return KeyAction::Rescan;
                } else if c == 's' || c == 'S' {
                    self.set_main_view(DashViewMain::DashSummary);
                } else if c == 'h' || c == 'H' || c == '?' {
                    self.set_main_view(DashViewMain::DashHelp);
                } else if c == 'n' || c == 'N' {
                    if n > 0 {
                        self.set_main_view(DashViewMain::DashNode);
                    }
                } else if c == ' ' {
                    if self.main_view == DashViewMain::DashSummary {
                        self.logfile_names_sorted_ascending = !self.logfile_names_sorted_ascending;
                    }
                } else if c == '+' || c == 'i' || c == 'I' {
                    self.scale_timeline_up();
                } else if c == '-' || c == 'o' || c == 'O' {
                    self.scale_timeline_down();
                } else if c == 'l' || c == 'L' {
                    self.toggle_logfile_area();
                } else if c == 'm' || c == 'M' {
                    self.bump_mmm_ui_mode();
                } else if c == 't' {
                    self.top_timeline_next();
                } else if c == 'T' {
                    self.top_timeline_previous();
                } else if c == 'g' {
                    if self.debug_window {
                        self.set_main_view(DashViewMain::DashDebug);
                    }
                }
            },
            Key::Enter => {
                if self.main_view == DashViewMain::DashHelp {
                    let back = self.previous_main_view;
                    self.set_main_view(back);
                } else if n > 0 {
                    if self.main_view == DashViewMain::DashNode {
                        self.set_main_view(DashViewMain::DashSummary);
                    } else if self.main_view == DashViewMain::DashSummary {
                        self.set_main_view(DashViewMain::DashNode);
                    }
                }
            },
            Key::Right | Key::Tab => {
                self.change_focus_next(n);
            },
            Key::Left => {
                self.change_focus_previous(n);
            },
            _ => {},
        }
        KeyAction::Continue
    }
}

/// The summary-table figure of monitor `m` in column `col`. Statuses order as their texts
/// do, an inactive node's text ("INACTIVE ...") falling between "Connecting" and
/// "Started"; there is no record count, so that column orders all nodes alike.
pub open spec fn column_key(m: LogMonitor, col: NodeMetric) -> u128 {
    match col {
        NodeMetric::Index => m.index as u128,
        NodeMetric::StoragePayments => m.metrics.storage_payments.total,
        NodeMetric::StorageCost => m.metrics.storage_cost.most_recent as u128,
        NodeMetric::Records => 0,
        NodeMetric::Puts => m.metrics.activity_puts.total,
        NodeMetric::Gets => m.metrics.activity_gets.total,
        NodeMetric::Errors => m.metrics.activity_errors.total,
        NodeMetric::Peers => m.metrics.peers_connected.most_recent as u128,
        NodeMetric::Memory => m.metrics.memory_used_mb.most_recent as u128,
        NodeMetric::Status => if m.metrics.node_inactive {
            2
        } else {
            match m.metrics.node_status {
                NodeStatus::Connected => 0,
                NodeStatus::Connecting => 1,
                NodeStatus::Started => 3,
                NodeStatus::Stopped => 4,
            }
        },
    }
}

fn column_key_exec(m: &LogMonitor, col: NodeMetric) -> (r: u128)
    ensures
        r == column_key(*m, col),
{
    match col {
        NodeMetric::Index => m.index as u128,
        NodeMetric::StoragePayments => m.metrics.storage_payments.total,
        NodeMetric::StorageCost => m.metrics.storage_cost.most_recent as u128,
        NodeMetric::Records => 0,
        NodeMetric::Puts => m.metrics.activity_puts.total,
        NodeMetric::Gets => m.metrics.activity_gets.total,
        NodeMetric::Errors => m.metrics.activity_errors.total,
        NodeMetric::Peers => m.metrics.peers_connected.most_recent as u128,
        NodeMetric::Memory => m.metrics.memory_used_mb.most_recent as u128,
        NodeMetric::Status => if m.metrics.node_inactive {
            2
        } else {
            match m.metrics.node_status {
                NodeStatus::Connected => 0,
                NodeStatus::Connecting => 1,
                NodeStatus::Started => 3,
                NodeStatus::Stopped => 4,
            }
        },
    }
}

/// `a` may stand before `b` in the chosen direction.
pub open spec fn in_order(a: u128, b: u128, ascending: bool) -> bool {
    if ascending { a <= b } else { a >= b }
}

/// Positions `order` into `ms` are sorted by column `col` in the chosen direction.
pub open spec fn sorted_by(order: Seq<usize>, ms: Seq<LogMonitor>, col: NodeMetric, ascending: bool) -> bool {
    forall|a: int, b: int| 0 <= a < b < order.len() ==>
        in_order(column_key(ms[order[a] as int], col), column_key(ms[order[b] as int], col), ascending)
}

/// Each row of `out` is row `src[a]` of `inp`, no input row is used twice, and rows with
/// equal figures in column `col` stand in their input order.
pub open spec fn stable_from(out: Seq<usize>, inp: Seq<usize>, src: Seq<int>, ms: Seq<LogMonitor>, col: NodeMetric) -> bool {
    &&& src.len() == out.len()
    &&& forall|a: int| 0 <= a < out.len() ==> 0 <= #[trigger] src[a] < inp.len() && out[a] == inp[src[a]]
    &&& forall|a: int, b: int| 0 <= a < b < out.len() ==> #[trigger] src[a] != #[trigger] src[b]
    &&& forall|a: int, b: int| 0 <= a < b < out.len()
        && column_key(ms[out[a] as int], col) == column_key(ms[out[b] as int], col) ==> #[trigger] src[a] < #[trigger] src[b]
}

/// Sorts the monitor positions `order` by column `column`, ascending or descending,
/// keeping the order of rows with equal figures.
pub fn sort_nodes_by_column(order: &mut Vec<usize>, monitors: &Vec<LogMonitor>, column: NodeMetric, ascending: bool)
    requires
        forall|i: int| 0 <= i < old(order)@.len() ==> (#[trigger] old(order)@[i]) < monitors@.len(),
    ensures
        final(order)@.to_multiset() == old(order)@.to_multiset(),
        sorted_by(final(order)@, monitors@, column, ascending),
        exists|src: Seq<int>| #[trigger] stable_from(final(order)@, old(order)@, src, monitors@, column),
{
    broadcast use vstd::seq_lib::to_multiset_build, vstd::seq_lib::to_multiset_insert;
    let input = order.clone();
    let mut out: Vec<usize> = Vec::new();
    let ghost mut src: Seq<int> = Seq::empty();
    let mut i: usize = 0;
    proof {
        assert(input@.subrange(0, 0) =~= Seq::<usize>::empty());
    }
    while i < input.len()
        invariant
            input@ == old(order)@,
            i <= input@.len(),
            forall|k: int| 0 <= k < input@.len() ==> (#[trigger] input@[k]) < monitors@.len(),
            forall|k: int| 0 <= k < out@.len() ==> (#[trigger] out@[k]) < monitors@.len(),
            out@.to_multiset() == input@.subrange(0, i as int).to_multiset(),
            sorted_by(out@, monitors@, column, ascending),
            stable_from(out@, input@, src, monitors@, column),
            forall|a: int| 0 <= a < out@.len() ==> #[trigger] src[a] < i,
        decreases input@.len() - i,
    {
        let p = input[i];
        let kp = column_key_exec(&monitors[p], column);
        let mut k: usize = 0;
        while k < out.len() && in_order_exec(column_key_exec(&monitors[out[k]], column), kp, ascending)
            invariant
                k <= out@.len(),
                p < monitors@.len(),
                kp == column_key(monitors@[p as int], column),
                forall|j: int| 0 <= j < out@.len() ==> (#[trigger] out@[j]) < monitors@.len(),
                forall|j: int| 0 <= j < k ==> in_order(column_key(monitors@[out@[j] as int], column), kp, ascending),
            decreases out@.len() - k,
        {
            k = k + 1;
        }
        let ghost before = out@;
        let ghost src0 = src;
        out.insert(k, p);
        proof {
            src = src0.insert(k as int, i as int);
            assert forall|a: int| 0 <= a < out@.len() implies 0 <= #[trigger] src[a] < input@.len() && out@[a] == input@[src[a]]
                && src[a] < i + 1 by {
                if a < k {
                    assert(src[a] == src0[a] && out@[a] == before[a]);
                } else if a > k {
                    assert(src[a] == src0[a - 1] && out@[a] == before[a - 1]);
                }
            }
            assert forall|a: int, b: int| 0 <= a < b < out@.len() implies #[trigger] src[a] != #[trigger] src[b] by {
                if a < k && b > k {
                    assert(src[a] == src0[a] && src[b] == src0[b - 1]);
                } else if b < k {
                    assert(src[a] == src0[a] && src[b] == src0[b]);
                } else if a > k {
                    assert(src[a] == src0[a - 1] && src[b] == src0[b - 1]);
                } else if a == k {
                    assert(src[b] == src0[b - 1]);
                } else {
                    assert(src[a] == src0[a]);
                }
            }
            assert forall|a: int, b: int| 0 <= a < b < out@.len()
                && column_key(monitors@[out@[a] as int], column) == column_key(monitors@[out@[b] as int], column)
                implies #[trigger] src[a] < #[trigger] src[b] by {
                if k < before.len() {
                    assert(!in_order(column_key(monitors@[before[k as int] as int], column), kp, ascending));
                }
                if a < k && b > k {
                    assert(src[a] == src0[a] && src[b] == src0[b - 1]);
                    assert(out@[a] == before[a] && out@[b] == before[b - 1]);
                } else if b < k {
                    assert(src[a] == src0[a] && src[b] == src0[b]);
                    assert(out@[a] == before[a] && out@[b] == before[b]);
                } else if a > k {
                    assert(src[a] == src0[a - 1] && src[b] == src0[b - 1]);
                    assert(out@[a] == before[a - 1] && out@[b] == before[b - 1]);
                } else if a == k {
                    assert(out@[b] == before[b - 1]);
                    if b - 1 > k {
                        assert(in_order(column_key(monitors@[before[k as int] as int], column), column_key(monitors@[before[b - 1] as int], column), ascending));
                    }
                } else {
                    assert(src[a] == src0[a]);
                }
            }
            assert(stable_from(out@, input@, src, monitors@, column));
            assert(input@.subrange(0, i + 1) =~= input@.subrange(0, i as int).push(p));
            vstd::seq_lib::to_multiset_build(input@.subrange(0, i as int), p);
            vstd::seq_lib::to_multiset_insert(before, k as int, p);
            assert(out@ == before.insert(k as int, p));
            assert forall|a: int, b: int| 0 <= a < b < out@.len() implies
                in_order(column_key(monitors@[out@[a] as int], column), column_key(monitors@[out@[b] as int], column), ascending) by {
                if k < before.len() {
                    assert(!in_order(column_key(monitors@[before[k as int] as int], column), kp, ascending));
                }
                if a < k && b == k {
                } else if a == k && b > k {
                    assert(out@[b] == before[b - 1]);
                    if b - 1 > k {
                        assert(in_order(column_key(monitors@[before[k as int] as int], column), column_key(monitors@[before[b - 1] as int], column), ascending));
                    }
                } else if a < k && b > k {
                    assert(out@[a] == before[a] && out@[b] == before[b - 1]);
                } else if b < k {
                    assert(out@[a] == before[a] && out@[b] == before[b]);
                } else {
                    assert(out@[a] == before[a - 1] && out@[b] == before[b - 1]);
                }
            }
        }
        i = i + 1;
    }
    proof {
        assert(input@.subrange(0, i as int) =~= input@);
        assert(stable_from(out@, old(order)@, src, monitors@, column));
    }
    *order = out;
}

fn in_order_exec(a: u128, b: u128, ascending: bool) -> (r: bool)
    ensures
        r == in_order(a, b, ascending),
{
    if ascending { a <= b } else { a >= b }
}

/// A status line: a message shown until it expires, else a default one.
pub struct StatusMessage {
    pub current_message: Option<String>,
    /// How long a message shows unless told otherwise, in nanoseconds.
    pub default_duration: i64,
    pub default_message: String,
    /// Wall-clock time after which the current message is dropped.
    pub clear_at_time: Option<i64>,
    pub to_console: bool,
}

impl StatusMessage {
    pub fn new(default_message: &str, default_duration: i64) -> (r: StatusMessage)
        ensures
            r.current_message is None,
            r.default_duration == default_duration,
            r.default_message@ == default_message@,
            r.clear_at_time is None,
            r.to_console,
    {
        StatusMessage {
            current_message: None,
            default_duration,
            default_message: default_message.to_owned(),
            clear_at_time: None,
            to_console: true,
        }
    }

    /// Stops echoing to the console, dropping any current message.
    pub fn disable_to_console(&mut self)
        ensures
            *final(self) == (StatusMessage { current_message: None, clear_at_time: None, to_console: false, ..*old(self) }),
    {
        self.current_message = None;
        self.clear_at_time = None;
        self.to_console = false;
    }

    pub fn enable_to_console(&mut self)
        ensures
            *final(self) == (StatusMessage { to_console: true, ..*old(self) }),
    {
        self.to_console = true;
    }

    /// Shows `new_message` from `now` for `new_duration` nanoseconds (the default when
    /// none is given). Returns whether it is also to be echoed to the console.
    pub fn message(&mut self, new_message: &str, new_duration: Option<i64>, now: i64) -> (r: bool)
        ensures
            r == old(self).to_console,
            final(self).current_message matches Some(m) && m@ == new_message@,
            final(self).clear_at_time == Some(clamp_i64(now as int + match new_duration {
                Some(d) => d as int,
                None => old(self).default_duration as int,
            })),
            final(self).default_message == old(self).default_message,
            final(self).default_duration == old(self).default_duration,
            final(self).to_console == old(self).to_console,
    {
        self.current_message = Some(new_message.to_owned());
        let d = match new_duration {
            Some(d) => d,
            None => self.default_duration,
        };
        let t = now as i128 + d as i128;
        self.clear_at_time = Some(if t > i64::MAX as i128 { i64::MAX } else if t < i64::MIN as i128 { i64::MIN } else { t as i64 });
        self.to_console
    }

    pub fn clear_status(&mut self)
        ensures
            *final(self) == (StatusMessage { current_message: None, ..*old(self) }),
    {
        self.current_message = None;
    }

    /// The text to show at `now`: the current message until it expires (and is dropped),
    /// else the default one.
    pub fn get_status(&mut self, now: i64) -> (r: String)
        ensures
            ({
                let expired = old(self).clear_at_time matches Some(t) && now > t;
                &&& *final(self) == if expired {
                    StatusMessage { current_message: None, clear_at_time: None, ..*old(self) }
                } else {
                    *old(self)
                }
                &&& r@ == match final(self).current_message {
                    Some(m) => m@,
                    None => old(self).default_message@,
                }
            }),
    {
        if let Some(t) = self.clear_at_time {
            if now > t {
                self.current_message = None;
                self.clear_at_time = None;
            }
        }
        match &self.current_message {
            Some(m) => m.clone(),
            None => self.default_message.clone(),
        }
    }
}

/// `v` held within the range of `i64`.
pub open spec fn clamp_i64(v: int) -> i64 {
    if v > i64::MAX { i64::MAX } else if v < i64::MIN { i64::MIN } else { v as i64 }
}

} // verus!
