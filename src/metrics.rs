//! The metrics registry of one node and the detectors that feed it from log lines.
use vstd::prelude::*;
use crate::app_timelines::{AppTimelines, NUM_TIMELINES, NUM_TIMESCALES, scale_name, timescale_nanos, timeline_is_mmm, scales_as_built, EARNINGS, STORAGE_COST, PUTS, GETS, CONNECTIONS, RAM, ERRORS};
use crate::decode::LogMeta;
use crate::stat::{MmmStat, NodeStatus};
use crate::text::{
    as_bounds, centi_of, chars_of, contains, figure_bounds, figure_span, find, find_from, line_contains,
    parse_centi_span, parse_u64_span, string_of, u64_of,
};
use crate::timelines::{Timeline, fresh_buckets, lemma_fresh_anchored};

verus! {

/// Bounds as machine positions.
pub open spec fn span_of(b: Option<(int, int)>) -> Option<(usize, usize)> {
    match b {
        Some((x, y)) => Some((x as usize, y as usize)),
        None => None,
    }
}

/// The figure after `prefix` read as `str::parse::<u64>` reads it.
pub open spec fn u64_fig(s: Seq<char>, prefix: Seq<char>, paren: bool) -> Option<u64> {
    match figure_bounds(s, prefix, paren, true) {
        Some((b, e)) => u64_of(s.subrange(b, e)),
        None => None,
    }
}

/// The figure after `prefix` read as a decimal in hundredths.
pub open spec fn centi_fig(s: Seq<char>, prefix: Seq<char>) -> Option<u64> {
    match figure_bounds(s, prefix, false, true) {
        Some((b, e)) => centi_of(s.subrange(b, e)),
        None => None,
    }
}

/// The failure record after reading the figure after `prefix` as an integer: its bounds
/// when the prefix occurs and the figure does not read, `f` otherwise.
pub open spec fn fail_u64(f: Option<(usize, usize)>, s: Seq<char>, prefix: Seq<char>, paren: bool) -> Option<(usize, usize)> {
    if figure_bounds(s, prefix, paren, true) is Some && u64_fig(s, prefix, paren) is None {
        span_of(figure_bounds(s, prefix, paren, true))
    } else {
        f
    }
}

/// As `fail_u64`, for a figure read in hundredths.
pub open spec fn fail_centi(f: Option<(usize, usize)>, s: Seq<char>, prefix: Seq<char>) -> Option<(usize, usize)> {
    if figure_bounds(s, prefix, false, true) is Some && centi_fig(s, prefix) is None {
        span_of(figure_bounds(s, prefix, false, true))
    } else {
        f
    }
}

/// Bounds that lie inside a line of `n` characters.
pub open spec fn span_ok(f: Option<(usize, usize)>, n: int) -> bool {
    f matches Some((b, e)) ==> b <= e <= n
}

/// Reads the figure after `prefix` as an integer, noting its bounds in `failure` when the
/// prefix occurs and the figure does not read.
fn read_u64(s: &Vec<char>, prefix: &str, paren: bool, failure: &mut Option<(usize, usize)>) -> (r: Option<u64>)
    ensures
        r == u64_fig(s@, prefix@, paren),
        *final(failure) == fail_u64(*old(failure), s@, prefix@, paren),
        span_ok(*old(failure), s@.len() as int) ==> span_ok(*final(failure), s@.len() as int),
{
    match figure_span(s, prefix, paren, true) {
        Some((b, e)) => {
            let v = parse_u64_span(s, b, e);
            if v.is_none() {
                *failure = Some((b, e));
            }
            v
        },
        None => None,
    }
}

/// Reads the figure after `prefix` in hundredths, noting a failure as `read_u64` does.
fn read_centi(s: &Vec<char>, prefix: &str, failure: &mut Option<(usize, usize)>) -> (r: Option<u64>)
    ensures
        r == centi_fig(s@, prefix@),
        *final(failure) == fail_centi(*old(failure), s@, prefix@),
        span_ok(*old(failure), s@.len() as int) ==> span_ok(*final(failure), s@.len() as int),
{
    match figure_span(s, prefix, false, true) {
        Some((b, e)) => {
            let v = parse_centi_span(s, b, e);
            if v.is_none() {
                *failure = Some((b, e));
            }
            v
        },
        None => None,
    }
}

/// Figures of a resource report line. Percentages and sizes in megabytes are in
/// hundredths; `interface_name` is the bounds of the word.
#[derive(Clone, Copy, Debug)]
pub struct Resources {
    pub system_cpu: Option<u64>,
    pub system_memory: Option<u64>,
    pub system_memory_used_mb: Option<u64>,
    pub system_memory_usage_percent: Option<u64>,
    pub interface_name: Option<(usize, usize)>,
    pub bytes_received: Option<u64>,
    pub bytes_transmitted: Option<u64>,
    pub total_mb_received: Option<u64>,
    pub total_mb_transmitted: Option<u64>,
    pub cpu_usage_percent: Option<u64>,
    pub memory_used_mb: Option<u64>,
    pub bytes_read: Option<u64>,
    pub bytes_written: Option<u64>,
    pub total_mb_read: Option<u64>,
    pub total_mb_written: Option<u64>,
}

/// The figures of resource report line `s`.
pub open spec fn resources_of(s: Seq<char>) -> Resources {
    Resources {
        system_cpu: centi_fig(s, "system_cpu_usage_percent\":"@),
        system_memory: centi_fig(s, "system_total_memory_mb\":"@),
        system_memory_used_mb: centi_fig(s, "system_memory_used_mb\":"@),
        system_memory_usage_percent: centi_fig(s, "system_memory_usage_percent\":"@),
        interface_name: span_of(figure_bounds(s, "interface_name\":"@, false, false)),
        bytes_received: u64_fig(s, "bytes_received\":"@, true),
        bytes_transmitted: u64_fig(s, "bytes_transmitted\":"@, true),
        total_mb_received: centi_fig(s, "total_mb_received\":"@),
        total_mb_transmitted: centi_fig(s, "total_mb_transmitted\":"@),
        cpu_usage_percent: centi_fig(s, "\"cpu_usage_percent\":"@),
        memory_used_mb: centi_fig(s, "\"memory_used_mb\":"@),
        bytes_read: u64_fig(s, "bytes_read\":"@, true),
        bytes_written: u64_fig(s, "bytes_written\":"@, true),
        total_mb_read: centi_fig(s, "total_mb_read\":"@),
        total_mb_written: centi_fig(s, "total_mb_written\":"@),
    }
}

/// The failure record after reading the figures of resource report line `s`.
pub open spec fn resources_failure(f: Option<(usize, usize)>, s: Seq<char>) -> Option<(usize, usize)> {
    fail_centi(fail_centi(fail_u64(fail_u64(fail_centi(fail_centi(fail_centi(fail_centi(fail_u64(fail_u64(fail_centi(fail_centi(fail_centi(fail_centi(f, s, "system_cpu_usage_percent\":"@), s, "system_total_memory_mb\":"@), s, "system_memory_used_mb\":"@), s, "system_memory_usage_percent\":"@), s, "bytes_received\":"@, true), s, "bytes_transmitted\":"@, true), s, "total_mb_received\":"@), s, "total_mb_transmitted\":"@), s, "\"cpu_usage_percent\":"@), s, "\"memory_used_mb\":"@), s, "bytes_read\":"@, true), s, "bytes_written\":"@, true), s, "total_mb_read\":"@), s, "total_mb_written\":"@)
}

fn read_resources(s: &Vec<char>, failure: &mut Option<(usize, usize)>) -> (r: Resources)
    ensures
        r == resources_of(s@),
        *final(failure) == resources_failure(*old(failure), s@),
        span_ok(*old(failure), s@.len() as int) ==> span_ok(*final(failure), s@.len() as int),
        span_ok(r.interface_name, s@.len() as int),
{
    let system_cpu = read_centi(s, "system_cpu_usage_percent\":", failure);
    let system_memory = read_centi(s, "system_total_memory_mb\":", failure);
    let system_memory_used_mb = read_centi(s, "system_memory_used_mb\":", failure);
    let system_memory_usage_percent = read_centi(s, "system_memory_usage_percent\":", failure);
    let interface_name = figure_span(s, "interface_name\":", false, false);
    let bytes_received = read_u64(s, "bytes_received\":", true, failure);
    let bytes_transmitted = read_u64(s, "bytes_transmitted\":", true, failure);
    let total_mb_received = read_centi(s, "total_mb_received\":", failure);
    let total_mb_transmitted = read_centi(s, "total_mb_transmitted\":", failure);
    let cpu_usage_percent = read_centi(s, "\"cpu_usage_percent\":", failure);
    let memory_used_mb = read_centi(s, "\"memory_used_mb\":", failure);
    let bytes_read = read_u64(s, "bytes_read\":", true, failure);
    let bytes_written = read_u64(s, "bytes_written\":", true, failure);
    let total_mb_read = read_centi(s, "total_mb_read\":", failure);
    let total_mb_written = read_centi(s, "total_mb_written\":", failure);
    Resources { system_cpu, system_memory, system_memory_used_mb, system_memory_usage_percent, interface_name, bytes_received, bytes_transmitted, total_mb_received, total_mb_transmitted, cpu_usage_percent, memory_used_mb, bytes_read, bytes_written, total_mb_read, total_mb_written }
}


/// What a detector found in a line.
#[derive(Clone, Copy, Debug)]
pub enum Effect {
    /// A data response: claimed, no metric changes.
    Activity,
    Get,
    Put,
    StorageCost(Option<u64>),
    Payment(u64),
    PeersConnected(Option<u64>),
    Status(NodeStatus),
    /// Events skipped by a lagging node: claimed, no metric changes.
    Lag(Option<u64>),
    Resources(Resources),
    UsedSpace(u64),
    MaxCapacity(u64),
    /// Start-up banner; the version follows the banner prefix.
    Start,
    /// Process id and the bounds of the peer id, when they read.
    ProcessId(Option<u64>, Option<(usize, usize)>),
}

/// The detector cascade's verdict on a line: the effect of the first detector that claims
/// it, if any, and the bounds of the last figure that failed to read on the way.
#[derive(Clone, Copy, Debug)]
pub struct Detection {
    pub effect: Option<Effect>,
    pub failure: Option<(usize, usize)>,
}

pub const RESPONSE_PATTERN: &'static str = "Running as Node: SendToSection [ msg: MsgEnvelope { message: QueryResponse { response: QueryResponse::";
pub const START_PREFIX: &'static str = "Running safenode ";

/// Bounds of the text after the first `prefix` up to the next `"` or the end of the line,
/// when that text is not empty.
pub open spec fn string_bounds(s: Seq<char>, prefix: Seq<char>) -> Option<(usize, usize)> {
    match find_from(s, prefix, 0) {
        Some(p) => {
            let b = p + prefix.len();
            let e = match find_from(s, seq!['"'], b) {
                Some(q) => q,
                None => s.len() as int,
            };
            if e > b { Some((b as usize, e as usize)) } else { None }
        },
        None => None,
    }
}

/// Whether `s` begins with `prefix`.
pub open spec fn starts_with(s: Seq<char>, prefix: Seq<char>) -> bool {
    prefix.len() <= s.len() && s.subrange(0, prefix.len() as int) == prefix
}

/// Every position a detection holds lies inside a line of `n` characters.
pub open spec fn detection_ok(d: Detection, n: int) -> bool {
    &&& span_ok(d.failure, n)
    &&& match d.effect {
        Some(Effect::ProcessId(_, p)) => span_ok(p, n),
        Some(Effect::Resources(r)) => span_ok(r.interface_name, n),
        Some(Effect::Start) => START_PREFIX@.len() <= n,
        _ => true,
    }
}

/// Start-up detectors: the banner, then the process id line.
pub open spec fn detect_start(s: Seq<char>, f: Option<(usize, usize)>) -> Detection {
    if starts_with(s, START_PREFIX@) {
        Detection { effect: Some(Effect::Start), failure: f }
    } else if contains(s, "Node (PID: "@) {
        Detection {
            effect: Some(Effect::ProcessId(u64_fig(s, "Node (PID: "@, true), string_bounds(s, "PeerId: "@))),
            failure: fail_u64(f, s, "Node (PID: "@, true),
        }
    } else {
        Detection { effect: None, failure: f }
    }
}

/// Status and state detectors, then the start-up detectors.
pub open spec fn detect_states(s: Seq<char>, f: Option<(usize, usize)>) -> Detection {
    if contains(s, "Getting closest peers"@) {
        Detection { effect: Some(Effect::Status(NodeStatus::Connecting)), failure: f }
    } else if contains(s, "Connected to the Network"@) {
        Detection { effect: Some(Effect::Status(NodeStatus::Connected)), failure: f }
    } else if contains(s, "Node events channel closed"@) {
        Detection { effect: Some(Effect::Status(NodeStatus::Stopped)), failure: f }
    } else if contains(s, "Skipping "@) {
        Detection {
            effect: Some(Effect::Lag(u64_fig(s, "Skipping "@, false))),
            failure: fail_u64(f, s, "Skipping "@, false),
        }
    } else if contains(s, "sn_logging::metrics"@) {
        Detection { effect: Some(Effect::Resources(resources_of(s))), failure: resources_failure(f, s) }
    } else if u64_fig(s, "Used space:"@, true) is Some {
        Detection { effect: Some(Effect::UsedSpace(u64_fig(s, "Used space:"@, true)->0)), failure: f }
    } else if u64_fig(s, "Max capacity:"@, true) is Some {
        Detection {
            effect: Some(Effect::MaxCapacity(u64_fig(s, "Max capacity:"@, true)->0)),
            failure: fail_u64(f, s, "Used space:"@, true),
        }
    } else {
        detect_start(s, fail_u64(fail_u64(f, s, "Used space:"@, true), s, "Max capacity:"@, true))
    }
}

/// The detector cascade, in its fixed order: data responses, timed events, states, start.
pub open spec fn detection(s: Seq<char>) -> Detection {
    if contains(s, RESPONSE_PATTERN@) {
        Detection { effect: Some(Effect::Activity), failure: None }
    } else if contains(s, "Retrieved record from disk"@) {
        Detection { effect: Some(Effect::Get), failure: None }
    } else if contains(s, "Wrote record"@) || contains(s, "ValidSpendRecordPutFromNetwork"@) {
        Detection { effect: Some(Effect::Put), failure: None }
    } else if contains(s, "Editing Register success"@) {
        Detection { effect: Some(Effect::Put), failure: None }
    } else if contains(s, "Cost is now"@) {
        Detection {
            effect: Some(Effect::StorageCost(u64_fig(s, "Cost is now "@, true))),
            failure: fail_u64(None, s, "Cost is now "@, true),
        }
    } else if contains(s, "nanos accepted for record"@) {
        match u64_fig(s, "payment of NanoTokens("@, true) {
            Some(v) => Detection { effect: Some(Effect::Payment(v)), failure: None },
            None => detect_states(s, fail_u64(None, s, "payment of NanoTokens("@, true)),
        }
    } else if contains(s, "PeersInRoutingTable"@) {
        Detection {
            effect: Some(Effect::PeersConnected(u64_fig(s, "PeersInRoutingTable("@, true))),
            failure: fail_u64(None, s, "PeersInRoutingTable("@, true),
        }
    } else {
        detect_states(s, None)
    }
}

fn string_span(s: &Vec<char>, prefix: &str) -> (r: Option<(usize, usize)>)
    ensures
        r == string_bounds(s@, prefix@),
        span_ok(r, s@.len() as int),
{
    let p = chars_of(prefix);
    proof {
        assert(s@.len() <= usize::MAX) by {
            assert(s.len() == s@.len());
        }
    }
    match find(s, &p, 0) {
        Some(pos) => {
            proof {
                crate::text::lemma_find_from_matches(s@, p@, 0);
            }
            let b = pos + p.len();
            let quote = vec!['"'];
            proof {
                assert(quote@ =~= seq!['"']);
            }
            let e = match find(s, &quote, b) {
                Some(q) => q,
                None => s.len(),
            };
            proof {
                crate::text::lemma_find_from_matches(s@, quote@, b as int);
            }
            if e > b {
                Some((b, e))
            } else {
                None
            }
        },
        None => None,
    }
}

fn starts_with_exec(s: &Vec<char>, prefix: &str) -> (r: bool)
    ensures
        r == starts_with(s@, prefix@),
{
    let p = chars_of(prefix);
    if p.len() > s.len() {
        return false;
    }
    let mut i: usize = 0;
    while i < p.len()
        invariant
            p@ == prefix@,
            p@.len() <= s@.len(),
            i <= p@.len(),
            forall|k: int| 0 <= k < i ==> s@[k] == p@[k],
        decreases p@.len() - i,
    {
        if s[i] != p[i] {
            proof {
                assert(s@.subrange(0, p@.len() as int)[i as int] != p@[i as int]);
            }
            return false;
        }
        i = i + 1;
    }
    assert(s@.subrange(0, p@.len() as int) =~= p@);
    true
}

fn detect_start_exec(s: &Vec<char>, f: Option<(usize, usize)>) -> (r: Detection)
    ensures
        r == detect_start(s@, f),
        span_ok(f, s@.len() as int) ==> detection_ok(r, s@.len() as int),
{
    if starts_with_exec(s, START_PREFIX) {
        Detection { effect: Some(Effect::Start), failure: f }
    } else if line_contains(s, "Node (PID: ") {
        let mut failure = f;
        let pid = read_u64(s, "Node (PID: ", true, &mut failure);
        let peer = string_span(s, "PeerId: ");
        Detection { effect: Some(Effect::ProcessId(pid, peer)), failure }
    } else {
        Detection { effect: None, failure: f }
    }
}

fn detect_states_exec(s: &Vec<char>, f: Option<(usize, usize)>) -> (r: Detection)
    ensures
        r == detect_states(s@, f),
        span_ok(f, s@.len() as int) ==> detection_ok(r, s@.len() as int),
{
    if line_contains(s, "Getting closest peers") {
        return Detection { effect: Some(Effect::Status(NodeStatus::Connecting)), failure: f };
    }
    if line_contains(s, "Connected to the Network") {
        return Detection { effect: Some(Effect::Status(NodeStatus::Connected)), failure: f };
    }
    if line_contains(s, "Node events channel closed") {
        return Detection { effect: Some(Effect::Status(NodeStatus::Stopped)), failure: f };
    }
    let mut failure = f;
    if line_contains(s, "Skipping ") {
        let lag = read_u64(s, "Skipping ", false, &mut failure);
        return Detection { effect: Some(Effect::Lag(lag)), failure };
    }
    if line_contains(s, "sn_logging::metrics") {
        let r = read_resources(s, &mut failure);
        return Detection { effect: Some(Effect::Resources(r)), failure };
    }
    match read_u64(s, "Used space:", true, &mut failure) {
        Some(v) => {
            return Detection { effect: Some(Effect::UsedSpace(v)), failure: f };
        },
        None => {},
    }
    match read_u64(s, "Max capacity:", true, &mut failure) {
        Some(v) => {
            return Detection { effect: Some(Effect::MaxCapacity(v)), failure };
        },
        None => {},
    }
    detect_start_exec(s, failure)
}

/// Runs the detector cascade over a line (see `detection`).
pub fn detect(s: &Vec<char>) -> (r: Detection)
    ensures
        r == detection(s@),
        detection_ok(r, s@.len() as int),
{
    if line_contains(s, RESPONSE_PATTERN) {
        return Detection { effect: Some(Effect::Activity), failure: None };
    }
    if line_contains(s, "Retrieved record from disk") {
        return Detection { effect: Some(Effect::Get), failure: None };
    }
    if line_contains(s, "Wrote record") || line_contains(s, "ValidSpendRecordPutFromNetwork") {
        return Detection { effect: Some(Effect::Put), failure: None };
    }
    if line_contains(s, "Editing Register success") {
        return Detection { effect: Some(Effect::Put), failure: None };
    }
    let mut failure: Option<(usize, usize)> = None;
    if line_contains(s, "Cost is now") {
        let cost = read_u64(s, "Cost is now ", true, &mut failure);
        return Detection { effect: Some(Effect::StorageCost(cost)), failure };
    }
    if line_contains(s, "nanos accepted for record") {
        return match read_u64(s, "payment of NanoTokens(", true, &mut failure) {
            Some(v) => Detection { effect: Some(Effect::Payment(v)), failure: None },
            None => detect_states_exec(s, failure),
        };
    }
    if line_contains(s, "PeersInRoutingTable") {
        let peers = read_u64(s, "PeersInRoutingTable(", true, &mut failure);
        return Detection { effect: Some(Effect::PeersConnected(peers)), failure };
    }
    detect_states_exec(s, None)
}

/// Seconds without a log message after which a node counts as inactive.
pub const NODE_INACTIVITY_TIMEOUT_S: i64 = 20;

/// Metrics gathered from one node's log.
pub struct NodeMetrics {
    /// Embedded time of the last start-up banner.
    pub node_started: Option<i64>,
    pub running_message: Option<String>,
    pub running_version: Option<String>,
    pub node_process_id: Option<u64>,
    pub node_peer_id: Option<String>,
    pub app_timelines: AppTimelines,
    /// Metadata of the most recent line that decoded.
    pub entry_metadata: Option<LogMeta>,
    pub node_status: NodeStatus,
    pub node_inactive: bool,
    pub activity_gets: MmmStat,
    pub activity_puts: MmmStat,
    pub activity_errors: MmmStat,
    pub storage_payments: MmmStat,
    pub storage_cost: MmmStat,
    pub peers_connected: MmmStat,
    pub memory_used_mb: MmmStat,
    pub used_space: u64,
    pub max_capacity: u64,
    /// Percentages and megabyte figures below are in hundredths.
    pub system_cpu: u64,
    pub system_memory: u64,
    pub system_memory_used_mb: u64,
    pub system_memory_usage_percent: u64,
    pub interface_name: String,
    pub bytes_received: u64,
    pub bytes_transmitted: u64,
    pub total_mb_received: u64,
    pub total_mb_transmitted: u64,
    pub cpu_usage_percent: u64,
    pub cpu_usage_percent_max: u64,
    pub bytes_read: u64,
    pub bytes_written: u64,
    pub total_mb_read: u64,
    pub total_mb_written: u64,
    /// Text of the last figure that failed to read.
    pub parse_failure: Option<String>,
}

/// `new` took sample `v` at `time` in timeline `k` and the other timelines are unchanged.
pub open spec fn sampled(old: AppTimelines, new: AppTimelines, k: int, time: i64, v: u64) -> bool {
    &&& new.wf()
    &&& new.timelines@[k].same_settings(old.timelines@[k])
    &&& new.timelines@[k].sample_recorded(old.timelines@[k], time, v)
    &&& forall|j: int| 0 <= j < NUM_TIMELINES && j != k ==> #[trigger] new.timelines@[j] == old.timelines@[j]
}

/// `x` when present, else `d`.
pub open spec fn or_keep(x: Option<u64>, d: u64) -> u64 {
    match x {
        Some(v) => v,
        None => d,
    }
}

/// `x` when present, else `d`.
fn keep_or(x: Option<u64>, d: u64) -> (r: u64)
    ensures
        r == or_keep(x, d),
{
    match x {
        Some(v) => v,
        None => d,
    }
}

/// What applying resource figures `r` of line `s` at `time` makes of `old`.
pub open spec fn resources_applied(old: NodeMetrics, new: NodeMetrics, s: Seq<char>, r: Resources, time: i64) -> bool {
    let cpu_max = match r.cpu_usage_percent {
        Some(c) => if c > old.cpu_usage_percent_max { c } else { old.cpu_usage_percent_max },
        None => old.cpu_usage_percent_max,
    };
    &&& new == NodeMetrics {
        app_timelines: new.app_timelines,
        interface_name: new.interface_name,
        memory_used_mb: new.memory_used_mb,
        system_cpu: or_keep(r.system_cpu, old.system_cpu),
        system_memory: or_keep(r.system_memory, old.system_memory),
        system_memory_used_mb: or_keep(r.system_memory_used_mb, old.system_memory_used_mb),
        system_memory_usage_percent: or_keep(r.system_memory_usage_percent, old.system_memory_usage_percent),
        bytes_received: or_keep(r.bytes_received, old.bytes_received),
        bytes_transmitted: or_keep(r.bytes_transmitted, old.bytes_transmitted),
        total_mb_received: or_keep(r.total_mb_received, old.total_mb_received),
        total_mb_transmitted: or_keep(r.total_mb_transmitted, old.total_mb_transmitted),
        cpu_usage_percent: or_keep(r.cpu_usage_percent, old.cpu_usage_percent),
        cpu_usage_percent_max: cpu_max,
        bytes_read: or_keep(r.bytes_read, old.bytes_read),
        bytes_written: or_keep(r.bytes_written, old.bytes_written),
        total_mb_read: or_keep(r.total_mb_read, old.total_mb_read),
        total_mb_written: or_keep(r.total_mb_written, old.total_mb_written),
        ..old
    }
    &&& new.interface_name@ == match r.interface_name {
        Some((b, e)) => s.subrange(b as int, e as int),
        None => old.interface_name@,
    }
    &&& match r.memory_used_mb {
        Some(c) => {
            &&& new.memory_used_mb == old.memory_used_mb.with_sample(c / 100)
            &&& sampled(old.app_timelines, new.app_timelines, RAM as int, time, c / 100)
        },
        None => new.memory_used_mb == old.memory_used_mb && new.app_timelines == old.app_timelines,
    }
}

/// The statistics a start-up banner clears.
pub open spec fn metrics_reset(old: NodeMetrics) -> NodeMetrics {
    NodeMetrics {
        node_status: NodeStatus::Started,
        activity_gets: MmmStat { sample_count: 0, most_recent: 0, total: 0, min: u64::MAX, mean: 0, max: 0 },
        activity_puts: MmmStat { sample_count: 0, most_recent: 0, total: 0, min: u64::MAX, mean: 0, max: 0 },
        activity_errors: MmmStat { sample_count: 0, most_recent: 0, total: 0, min: u64::MAX, mean: 0, max: 0 },
        storage_cost: MmmStat { sample_count: 0, most_recent: 0, total: 0, min: u64::MAX, mean: 0, max: 0 },
        peers_connected: MmmStat { sample_count: 0, most_recent: 0, total: 0, min: u64::MAX, mean: 0, max: 0 },
        memory_used_mb: MmmStat { sample_count: 0, most_recent: 0, total: 0, min: u64::MAX, mean: 0, max: 0 },
        ..old
    }
}

/// What applying effect `e` of line `s` whose embedded time is `time` makes of `old`.
pub open spec fn applied(old: NodeMetrics, new: NodeMetrics, s: Seq<char>, e: Effect, time: i64) -> bool {
    match e {
        Effect::Activity | Effect::Lag(_) | Effect::StorageCost(None) | Effect::PeersConnected(None) => new == old,
        Effect::Get => {
            &&& new == NodeMetrics {
                app_timelines: new.app_timelines,
                activity_gets: old.activity_gets.with_sample(1),
                node_status: NodeStatus::Connected,
                ..old
            }
            &&& sampled(old.app_timelines, new.app_timelines, GETS as int, time, 1)
        },
        Effect::Put => {
            &&& new == NodeMetrics {
                app_timelines: new.app_timelines,
                activity_puts: old.activity_puts.with_sample(1),
                node_status: NodeStatus::Connected,
                ..old
            }
            &&& sampled(old.app_timelines, new.app_timelines, PUTS as int, time, 1)
        },
        Effect::StorageCost(Some(v)) => {
            &&& new == NodeMetrics {
                app_timelines: new.app_timelines,
                storage_cost: old.storage_cost.with_sample(v),
                ..old
            }
            &&& sampled(old.app_timelines, new.app_timelines, STORAGE_COST as int, time, v)
        },
        Effect::Payment(v) => {
            &&& new == NodeMetrics {
                app_timelines: new.app_timelines,
                storage_payments: old.storage_payments.with_sample(v),
                ..old
            }
            &&& sampled(old.app_timelines, new.app_timelines, EARNINGS as int, time, v)
        },
        Effect::PeersConnected(Some(v)) => {
            &&& new == NodeMetrics {
                app_timelines: new.app_timelines,
                peers_connected: old.peers_connected.with_sample(v),
                ..old
            }
            &&& sampled(old.app_timelines, new.app_timelines, CONNECTIONS as int, time, v)
        },
        Effect::Status(st) => new == NodeMetrics { node_status: st, ..old },
        Effect::Resources(r) => resources_applied(old, new, s, r, time),
        Effect::UsedSpace(v) => new == NodeMetrics { used_space: v, ..old },
        Effect::MaxCapacity(v) => new == NodeMetrics { max_capacity: v, ..old },
        Effect::Start => {
            &&& new == NodeMetrics {
                node_started: Some(time),
                running_message: new.running_message,
                running_version: new.running_version,
                ..metrics_reset(old)
            }
            &&& new.running_message matches Some(m) && m@ == s
            &&& new.running_version matches Some(v) && v@ == s.subrange(START_PREFIX@.len() as int, s.len() as int)
        },
        Effect::ProcessId(pid, peer) => {
            &&& new == NodeMetrics { node_process_id: pid, node_peer_id: new.node_peer_id, ..old }
            &&& match peer {
                Some((b, e)) => new.node_peer_id matches Some(p) && p@ == s.subrange(b as int, e as int),
                None => new.node_peer_id == old.node_peer_id,
            }
        },
    }
}

/// What counting an error line at `time` makes of `old`.
pub open spec fn error_counted(old: NodeMetrics, new: NodeMetrics, time: i64) -> bool {
    &&& new == NodeMetrics {
        app_timelines: new.app_timelines,
        activity_errors: old.activity_errors.with_sample(1),
        ..old
    }
    &&& sampled(old.app_timelines, new.app_timelines, ERRORS as int, time, 1)
}

/// The failure record `f` of a detection, as text of line `s`.
pub open spec fn failure_noted(old: NodeMetrics, new: NodeMetrics, s: Seq<char>, f: Option<(usize, usize)>) -> bool {
    match f {
        Some((b, e)) => {
            &&& new == NodeMetrics { parse_failure: new.parse_failure, ..old }
            &&& new.parse_failure matches Some(t) && t@ == s.subrange(b as int, e as int)
        },
        None => new == old,
    }
}


/// Timeline `t`, at position `i`, holds the six granularities in order, each named
/// `scale_name(j)` and an empty set of `steps` slots of `timescale_nanos(j)` anchored at
/// `now`.
pub open spec fn scales_anchored(t: Timeline, steps: int, i: int, now: i64) -> bool {
    &&& t.bucket_sets@.len() == NUM_TIMESCALES
    &&& forall|j: int| 0 <= j < NUM_TIMESCALES ==> {
        &&& (#[trigger] t.bucket_names@[j])@ == scale_name(j)
        &&& t.set_index(scale_name(j)) == Some(j)
        &&& fresh_buckets(t.bucket_sets@[j], timescale_nanos(j), steps, timeline_is_mmm(i), Some(now))
    }
}

/// What `update_timelines(now)` makes of `old`.
pub open spec fn timelines_advanced(old: NodeMetrics, new: NodeMetrics, now: i64) -> bool {
    &&& new == (NodeMetrics { app_timelines: new.app_timelines, ..old })
    &&& forall|i: int| 0 <= i < NUM_TIMELINES ==> {
        &&& (#[trigger] new.app_timelines.timelines@[i]).same_settings(old.app_timelines.timelines@[i])
        &&& new.app_timelines.timelines@[i].last_non_zero_value == old.app_timelines.timelines@[i].last_non_zero_value
        &&& forall|k: int| 0 <= k < old.app_timelines.timelines@[i].bucket_sets@.len() ==> crate::timelines::Buckets::advanced(
            #[trigger] old.app_timelines.timelines@[i].bucket_sets@[k],
            new.app_timelines.timelines@[i].bucket_sets@[k],
            now,
            old.app_timelines.timelines@[i].is_cumulative,
        )
    }
}

/// What processing line `s` of category `category` with embedded time `time` makes of
/// `old`: an error line is counted whatever else it holds; then the failure record and the
/// effect of the cascade's verdict are applied.
pub open spec fn entry_processed(old: NodeMetrics, new: NodeMetrics, s: Seq<char>, category: Seq<char>, time: i64) -> bool {
    let d = detection(s);
    exists|a: NodeMetrics, b: NodeMetrics| {
        &&& (if category == "ERROR"@ { error_counted(old, a, time) } else { a == old })
        &&& failure_noted(a, b, s, d.failure)
        &&& match d.effect {
            Some(e) => applied(b, new, s, e, time),
            None => new == b,
        }
    }
}

/// What processing line `s` of category `category` and embedded time `time` makes of
/// `old`: the timelines move on to `time`, then the line goes through the cascade.
pub open spec fn gathered(old: NodeMetrics, new: NodeMetrics, s: Seq<char>, category: Seq<char>, time: i64) -> bool {
    exists|a: NodeMetrics| {
        &&& timelines_advanced(old, a, time)
        &&& entry_processed(a, new, s, category, time)
    }
}

impl NodeMetrics {
    pub open spec fn wf(&self) -> bool {
        &&& self.app_timelines.wf()
        &&& self.activity_gets.wf()
        &&& self.activity_puts.wf()
        &&& self.activity_errors.wf()
        &&& self.storage_payments.wf()
        &&& self.storage_cost.wf()
        &&& self.peers_connected.wf()
        &&& self.memory_used_mb.wf()
    }

    /// Empty metrics whose timelines have `timeline_steps` slots per granularity and are
    /// anchored at `now`.
    pub fn new(timeline_steps: usize, now: i64) -> (r: NodeMetrics)
        requires
            timeline_steps >= 1,
        ensures
            r.wf(),
            r == (NodeMetrics {
                app_timelines: r.app_timelines,
                interface_name: r.interface_name,
                node_started: None,
                running_message: None,
                running_version: None,
                node_process_id: None,
                node_peer_id: None,
                entry_metadata: None,
                node_status: NodeStatus::Stopped,
                node_inactive: false,
                activity_gets: MmmStat { sample_count: 0, most_recent: 0, total: 0, min: u64::MAX, mean: 0, max: 0 },
                activity_puts: MmmStat { sample_count: 0, most_recent: 0, total: 0, min: u64::MAX, mean: 0, max: 0 },
                activity_errors: MmmStat { sample_count: 0, most_recent: 0, total: 0, min: u64::MAX, mean: 0, max: 0 },
                storage_payments: MmmStat { sample_count: 0, most_recent: 0, total: 0, min: u64::MAX, mean: 0, max: 0 },
                storage_cost: MmmStat { sample_count: 0, most_recent: 0, total: 0, min: u64::MAX, mean: 0, max: 0 },
                peers_connected: MmmStat { sample_count: 0, most_recent: 0, total: 0, min: u64::MAX, mean: 0, max: 0 },
                memory_used_mb: MmmStat { sample_count: 0, most_recent: 0, total: 0, min: u64::MAX, mean: 0, max: 0 },
                used_space: 0,
                max_capacity: 0,
                system_cpu: 0,
                system_memory: 0,
                system_memory_used_mb: 0,
                system_memory_usage_percent: 0,
                bytes_received: 0,
                bytes_transmitted: 0,
                total_mb_received: 0,
                total_mb_transmitted: 0,
                cpu_usage_percent: 0,
                cpu_usage_percent_max: 0,
                bytes_read: 0,
                bytes_written: 0,
                total_mb_read: 0,
                total_mb_written: 0,
                parse_failure: None,
            }),
            r.interface_name@ == "unknown"@,
            forall|i: int| 0 <= i < NUM_TIMELINES ==> scales_anchored(#[trigger] r.app_timelines.timelines@[i], timeline_steps as int, i, now),
    {
        let app0 = AppTimelines::new(timeline_steps);
        let mut app_timelines = app0;
        app_timelines.update_timelines(now);
        proof {
            assert forall|i: int| 0 <= i < NUM_TIMELINES implies scales_anchored(#[trigger] app_timelines.timelines@[i], timeline_steps as int, i, now) by {
                let t0 = app0.timelines@[i];
                let t1 = app_timelines.timelines@[i];
                assert(scales_as_built(t0, timeline_steps as int, i));
                assert forall|j: int| 0 <= j < NUM_TIMESCALES implies {
                    &&& (#[trigger] t1.bucket_names@[j])@ == scale_name(j)
                    &&& t1.set_index(scale_name(j)) == Some(j)
                    &&& fresh_buckets(t1.bucket_sets@[j], timescale_nanos(j), timeline_steps as int, timeline_is_mmm(i), Some(now))
                } by {
                    assert((t0.bucket_names@[j])@ == scale_name(j));
                    lemma_fresh_anchored(t0.bucket_sets@[j], t1.bucket_sets@[j], timescale_nanos(j), timeline_steps as int,
                        timeline_is_mmm(i), now, t0.is_cumulative);
                }
            }
        }
        NodeMetrics {
            node_started: None,
            running_message: None,
            running_version: None,
            node_process_id: None,
            node_peer_id: None,
            app_timelines,
            entry_metadata: None,
            node_status: NodeStatus::Stopped,
            node_inactive: false,
            activity_gets: MmmStat::new(),
            activity_puts: MmmStat::new(),
            activity_errors: MmmStat::new(),
            storage_payments: MmmStat::new(),
            storage_cost: MmmStat::new(),
            peers_connected: MmmStat::new(),
            memory_used_mb: MmmStat::new(),
            used_space: 0,
            max_capacity: 0,
            system_cpu: 0,
            system_memory: 0,
            system_memory_used_mb: 0,
            system_memory_usage_percent: 0,
            interface_name: "unknown".to_owned(),
            bytes_received: 0,
            bytes_transmitted: 0,
            total_mb_received: 0,
            total_mb_transmitted: 0,
            cpu_usage_percent: 0,
            cpu_usage_percent_max: 0,
            bytes_read: 0,
            bytes_written: 0,
            total_mb_read: 0,
            total_mb_written: 0,
            parse_failure: None,
        }
    }

    pub fn is_node_active(&self) -> (r: bool)
        ensures
            r == !self.node_inactive,
    {
        !self.node_inactive
    }

    /// Moves every timeline on to `now`.
    pub fn update_timelines(&mut self, now: i64)
        requires
            old(self).wf(),
        ensures
            final(self).wf(),
            timelines_advanced(*old(self), *final(self), now),
    {
        self.app_timelines.update_timelines(now);
    }

    /// Runs the detector cascade over `line`, whose metadata is `entry_metadata`, and
    /// updates the metrics (see `entry_processed`). Returns whether a detector claimed it.
    pub fn process_logfile_entry(&mut self, line: &str, entry_metadata: &LogMeta) -> (r: bool)
        requires
            old(self).wf(),
        ensures
            final(self).wf(),
            r == (detection(line@).effect is Some),
            entry_processed(*old(self), *final(self), line@, entry_metadata.category@, entry_metadata.message_time),
    {
        let s = chars_of(line);
        let time = entry_metadata.message_time;
        let error_word = "ERROR".to_owned();
        if entry_metadata.category.eq(&error_word) {
            self.activity_errors.add_sample(1);
            self.apply_timeline_sample(ERRORS, time, 1);
        }
        let ghost a = *self;
        let d = detect(&s);
        if let Some((b, e)) = d.failure {
            self.parse_failure = Some(string_of(&s, b, e));
        }
        let ghost b = *self;
        let claimed = match d.effect {
            Some(e) => {
                self.apply_effect(&s, e, time);
                true
            },
            None => false,
        };
        proof {
            assert((if entry_metadata.category@ == "ERROR"@ { error_counted(*old(self), a, time) } else { a == *old(self) }));
            assert(failure_noted(a, b, line@, d.failure));
            assert(match d.effect {
                Some(e) => applied(b, *self, line@, e, time),
                None => *self == b,
            });
        }
        claimed
    }

    /// Processes the line whose metadata is the current `entry_metadata`: moves the
    /// timelines on to its embedded time, then runs the detector cascade over it.
    pub fn gather_metrics(&mut self, line: &str)
        requires
            old(self).wf(),
            old(self).entry_metadata is Some,
        ensures
            final(self).wf(),
            gathered(*old(self), *final(self), line@, old(self).entry_metadata->0@.category, old(self).entry_metadata->0@.message_time),
    {
        let entry = match &self.entry_metadata {
            Some(m) => m.clone(),
            None => {
                return;
            },
        };
        self.update_timelines(entry.message_time);
        let ghost a = *self;
        self.process_logfile_entry(line, &entry);
        proof {
            assert(timelines_advanced(*old(self), a, entry.message_time));
            assert(entry_processed(a, *self, line@, entry.category@, entry.message_time));
            assert(gathered(*old(self), *self, line@, entry.category@, entry.message_time));
        }
    }

    /// Marks the node inactive when more than `NODE_INACTIVITY_TIMEOUT_S` seconds have
    /// passed between reading its last entry and `now`.
    pub fn update_node_status_string(&mut self, now: i64)
        ensures
            *final(self) == (NodeMetrics {
                node_inactive: match old(self).entry_metadata {
                    Some(m) => now - m.system_time > NODE_INACTIVITY_TIMEOUT_S * 1_000_000_000,
                    None => old(self).node_inactive,
                },
                ..*old(self)
            }),
    {
        match &self.entry_metadata {
            Some(m) => {
                let idle = (now as i128) - (m.system_time as i128);
                self.node_inactive = idle > (NODE_INACTIVITY_TIMEOUT_S as i128) * 1_000_000_000;
            },
            None => {},
        }
    }

    /// Records sample `v` at `time` in timeline `k`.
    fn apply_timeline_sample(&mut self, k: usize, time: i64, v: u64)
        requires
            old(self).wf(),
            k < NUM_TIMELINES,
        ensures
            final(self).wf(),
            *final(self) == (NodeMetrics { app_timelines: final(self).app_timelines, ..*old(self) }),
            sampled(old(self).app_timelines, final(self).app_timelines, k as int, time, v),
    {
        let ghost before = self.app_timelines.timelines@;
        self.app_timelines.timelines[k].update_value(time, v);
        proof {
            assert forall|j: int| 0 <= j < NUM_TIMELINES && j != k implies #[trigger] self.app_timelines.timelines@[j] == before[j] by {}
        }
    }

    /// Applies the effect of a detector (see `applied`).
    #[verifier::rlimit(60)]
    pub fn apply_effect(&mut self, s: &Vec<char>, e: Effect, time: i64)
        requires
            old(self).wf(),
            e matches Effect::ProcessId(_, Some((b, x))) ==> b <= x <= s@.len(),
            e matches Effect::Resources(r) ==> (r.interface_name matches Some((b, x)) ==> b <= x <= s@.len()),
            e is Start ==> START_PREFIX@.len() <= s@.len(),
        ensures
            final(self).wf(),
            applied(*old(self), *final(self), s@, e, time),
    {
        match e {
            Effect::Activity => {},
            Effect::Lag(_) => {},
            Effect::Get => {
                self.activity_gets.add_sample(1);
                self.node_status = NodeStatus::Connected;
                self.apply_timeline_sample(GETS, time, 1);
            },
            Effect::Put => {
                self.activity_puts.add_sample(1);
                self.node_status = NodeStatus::Connected;
                self.apply_timeline_sample(PUTS, time, 1);
            },
            Effect::StorageCost(c) => {
                if let Some(v) = c {
                    self.storage_cost.add_sample(v);
                    self.apply_timeline_sample(STORAGE_COST, time, v);
                }
            },
            Effect::Payment(v) => {
                self.storage_payments.add_sample(v);
                self.apply_timeline_sample(EARNINGS, time, v);
            },
            Effect::PeersConnected(c) => {
                if let Some(v) = c {
                    self.peers_connected.add_sample(v);
                    self.apply_timeline_sample(CONNECTIONS, time, v);
                }
            },
            Effect::Status(st) => {
                self.node_status = st;
            },
            Effect::Resources(r) => {
                self.apply_resources(s, r, time);
            },
            Effect::UsedSpace(v) => {
                self.used_space = v;
            },
            Effect::MaxCapacity(v) => {
                self.max_capacity = v;
            },
            Effect::Start => {
                let n = s.len();
                let plen = chars_of(START_PREFIX).len();
                self.node_status = NodeStatus::Started;
                self.node_started = Some(time);
                self.running_message = Some(string_of(s, 0, n));
                self.running_version = Some(string_of(s, plen, n));
                self.activity_gets = MmmStat::new();
                self.activity_puts = MmmStat::new();
                self.activity_errors = MmmStat::new();
                self.storage_cost = MmmStat::new();
                self.peers_connected = MmmStat::new();
                self.memory_used_mb = MmmStat::new();
                proof {
                    assert(s@.subrange(0, n as int) =~= s@);
                }
            },
            Effect::ProcessId(pid, peer) => {
                self.node_process_id = pid;
                if let Some((b, x)) = peer {
                    self.node_peer_id = Some(string_of(s, b, x));
                }
            },
        }
    }

    fn apply_resources(&mut self, s: &Vec<char>, r: Resources, time: i64)
        requires
            old(self).wf(),
            r.interface_name matches Some((b, x)) ==> b <= x <= s@.len(),
        ensures
            final(self).wf(),
            resources_applied(*old(self), *final(self), s@, r, time),
    {
        let cpu_max = match r.cpu_usage_percent {
            Some(c) => if c > self.cpu_usage_percent_max { c } else { self.cpu_usage_percent_max },
            None => self.cpu_usage_percent_max,
        };
        self.system_cpu = keep_or(r.system_cpu, self.system_cpu);
        self.system_memory = keep_or(r.system_memory, self.system_memory);
        self.system_memory_used_mb = keep_or(r.system_memory_used_mb, self.system_memory_used_mb);
        self.system_memory_usage_percent = keep_or(r.system_memory_usage_percent, self.system_memory_usage_percent);
        self.bytes_received = keep_or(r.bytes_received, self.bytes_received);
        self.bytes_transmitted = keep_or(r.bytes_transmitted, self.bytes_transmitted);
        self.total_mb_received = keep_or(r.total_mb_received, self.total_mb_received);
        self.total_mb_transmitted = keep_or(r.total_mb_transmitted, self.total_mb_transmitted);
        self.cpu_usage_percent = keep_or(r.cpu_usage_percent, self.cpu_usage_percent);
        self.cpu_usage_percent_max = cpu_max;
        self.bytes_read = keep_or(r.bytes_read, self.bytes_read);
        self.bytes_written = keep_or(r.bytes_written, self.bytes_written);
        self.total_mb_read = keep_or(r.total_mb_read, self.total_mb_read);
        self.total_mb_written = keep_or(r.total_mb_written, self.total_mb_written);
        if let Some((b, x)) = r.interface_name {
            self.interface_name = string_of(s, b, x);
        }
        if let Some(c) = r.memory_used_mb {
            self.memory_used_mb.add_sample(c / 100);
            self.apply_timeline_sample(RAM, time, c / 100);
        }
    }
}

} // verus!
