use vdash::dash::SummaryStats;
use vdash::decode::LogEntry;
use vdash::logfiles_manager::{resolve_collision, LogfilesManager};
use vdash::monitor::LogMonitor;
use vdash::stat::{node_status_as_string, MmmStat, NodeStatus};
use vdash::timelines::{
    buckets_right_justify, get_duration_text, get_max_buckets_value, DurationUnit, get_min_buckets_value, Buckets, MinMeanMax, Timeline,
    TimelineColour,
};

const SEC: i64 = 1_000_000_000;
const T0: i64 = 1_704_067_200 * SEC;

fn ring_sum(b: &Buckets) -> u128 {
    b.buckets.iter().map(|v| *v as u128).sum()
}

#[test]
fn cumulative_total_tracks_ring_through_evictions() {
    let mut b = Buckets::new(SEC, 3, false);
    b.update_current_time(T0, true);
    for step in 0..10i64 {
        b.bucket_update_value(2, (step as u64) + 1, true);
        assert_eq!(b.values_total, ring_sum(&b));
        b.update_current_time(T0 + (step + 1) * SEC + 1, true);
        assert_eq!(b.values_total, ring_sum(&b));
        assert_eq!(b.buckets.len(), 3);
    }
}

#[test]
fn statistical_slot_min_mean_max() {
    let mut b = Buckets::new(SEC, 4, true);
    b.update_current_time(T0, false);
    for v in [7u64, 3, 12, 5] {
        b.bucket_update_value(3, v, false);
        let s = b.stats[3];
        assert!(s.min <= s.mean && s.mean <= s.max);
        assert_eq!(s.mean as u128, s.total / s.count as u128);
    }
    let s = b.stats[3];
    assert_eq!((s.count, s.total, s.min, s.mean, s.max), (4, 27, 3, 6, 12));
    assert_eq!(b.buckets(Some(MinMeanMax::Min))[3], 3);
    assert_eq!(b.buckets(Some(MinMeanMax::Max))[3], 12);
    assert_eq!(b.buckets(Some(MinMeanMax::Mean))[3], 6);
}

#[test]
fn repeated_time_updates_pass_each_boundary_once() {
    let mut a = Buckets::new(SEC, 5, false);
    a.update_current_time(T0, true);
    a.bucket_update_value(4, 9, true);
    let mut b = Buckets::new(SEC, 5, false);
    b.update_current_time(T0, true);
    b.bucket_update_value(4, 9, true);
    // Step by step versus at once.
    for t in [T0 + SEC / 2, T0 + 2 * SEC, T0 + 2 * SEC, T0 + 3 * SEC + 1] {
        a.update_current_time(t, true);
    }
    b.update_current_time(T0 + 3 * SEC + 1, true);
    assert_eq!(a.buckets, b.buckets);
    assert_eq!(a.bucket_time, b.bucket_time);
    // Three boundaries passed: the old newest slot is three places back.
    assert_eq!(a.buckets, vec![0, 9, 0, 0, 0]);
    assert_eq!(a.bucket_time, Some(T0 + 3 * SEC));
    // More crossings than slots empties the ring.
    a.update_current_time(T0 + 100 * SEC, true);
    assert_eq!(a.buckets, vec![0, 0, 0, 0, 0]);
    assert_eq!(a.values_total, 0);
}

#[test]
fn routing_boundary() {
    let mut b = Buckets::new(10 * SEC, 6, false);
    b.update_current_time(T0, true);
    assert_eq!(b.route_sample(T0 - 10 * SEC * 6), None);
    assert_eq!(b.route_sample(T0 - 10 * SEC * 5), Some(0));
    assert_eq!(b.route_sample(T0 - 1), Some(5));
    assert_eq!(b.route_sample(T0 + 3 * SEC), Some(5));
    assert_eq!(b.route_sample(T0 - 10 * SEC - 1), Some(4));
}

#[test]
fn timeline_sample_too_old_for_one_granularity_only() {
    let mut t = Timeline::new("GETS".to_string(), "".to_string(), false, true, TimelineColour::Green);
    t.add_bucket_set("1 second columns", SEC, 3);
    t.add_bucket_set("1 minute columns", 60 * SEC, 3);
    t.update_current_time(T0);
    t.update_value(T0 - 5 * SEC, 4);
    assert_eq!(t.get_buckets("1 second columns", None).unwrap(), vec![0, 0, 0]);
    assert_eq!(t.get_buckets("1 minute columns", None).unwrap(), vec![0, 0, 4]);
    assert_eq!(t.last_non_zero_value, 4);
    assert!(t.get_buckets("1 hour columns", None).is_none());
}

#[test]
fn increments_61_seconds_apart() {
    let mut t = Timeline::new("PUTS".to_string(), "".to_string(), false, true, TimelineColour::Yellow);
    t.add_bucket_set("1 minute columns", 60 * SEC, 60);
    t.add_bucket_set("1 hour columns", 3600 * SEC, 24);
    t.update_current_time(T0);
    t.increment_value(T0);
    t.update_current_time(T0 + 61 * SEC);
    t.increment_value(T0 + 61 * SEC);
    let minutes = t.get_buckets("1 minute columns", None).unwrap();
    assert_eq!(minutes[58], 1);
    assert_eq!(minutes[59], 1);
    assert_eq!(minutes.iter().sum::<u64>(), 2);
    let hours = t.get_buckets("1 hour columns", None).unwrap();
    assert_eq!(hours[23], 2);
    assert_eq!(hours.iter().sum::<u64>(), 2);
}

#[test]
fn bucket_set_replaced_by_name() {
    let mut t = Timeline::new("RAM".to_string(), "MB".to_string(), true, false, TimelineColour::Magenta);
    t.add_bucket_set("1 second columns", SEC, 3);
    t.add_bucket_set("1 second columns", SEC, 5);
    assert_eq!(t.bucket_sets.len(), 1);
    assert_eq!(t.get_bucket_set("1 second columns").unwrap().num_buckets(), 5);
}

#[test]
fn duration_covered_cases() {
    let mut b = Buckets::new(SEC, 10, false);
    assert_eq!(b.duration_covered(), None);
    b.update_current_time(T0, true);
    assert_eq!(b.duration_covered(), Some(SEC as i128));
    b.update_current_time(T0 + 3 * SEC, true);
    assert_eq!(b.duration_covered(), Some(3 * SEC as i128));
    b.update_current_time(T0 + 30 * SEC, true);
    assert_eq!(b.duration_covered(), Some(10 * SEC as i128));
}

#[test]
fn settled_extremes() {
    assert_eq!(get_max_buckets_value(&vec![3, 9, 4, 100]), 9);
    assert_eq!(get_min_buckets_value(&vec![3, 9, 1, 0]), 1);
    assert_eq!(get_max_buckets_value(&vec![5]), 0);
    assert_eq!(get_min_buckets_value(&vec![5]), u64::MAX);
    assert_eq!(buckets_right_justify(&vec![1, 2, 3, 4], 2), vec![3, 4]);
    assert_eq!(buckets_right_justify(&vec![1, 2], 5), vec![1, 2]);
}

#[test]
fn running_stat() {
    let mut s = MmmStat::new();
    assert_eq!(s.min, u64::MAX);
    s.add_sample(10);
    s.add_sample(3);
    s.add_sample(20);
    assert_eq!((s.sample_count, s.total, s.min, s.mean, s.max, s.most_recent), (3, 33, 3, 11, 20, 20));
}

#[test]
fn status_text() {
    assert_eq!(node_status_as_string(&NodeStatus::Connecting), "Connecting");
    assert_eq!(node_status_as_string(&NodeStatus::Stopped), "Stopped");
}

#[test]
fn collision_resolution_is_symmetric() {
    let cases = [
        (Some(5i64), 0usize, Some(9i64), 1usize),
        (Some(9), 0, Some(5), 1),
        (None, 0, Some(5), 1),
        (Some(5), 0, None, 1),
        (None, 0, None, 1),
        (Some(7), 3, Some(7), 1),
    ];
    for (a_start, a_pos, b_start, b_pos) in cases {
        let ab = resolve_collision(a_start, a_pos, b_start, b_pos, 2, 8);
        let ba = resolve_collision(b_start, b_pos, a_start, a_pos, 2, 8);
        assert_eq!(ab, (ba.1, ba.0));
    }
    assert_eq!(resolve_collision(Some(5), 4, Some(9), 0, 2, 8), (2, 8));
    assert_eq!(resolve_collision(None, 4, None, 0, 2, 8), (8, 2));
}

#[test]
fn restored_index_clash_is_resolved_by_start_time() {
    let mut m = LogfilesManager::new(vec![]);
    let i0 = m.next_unused_index();
    assert!(m.add_monitor(LogMonitor::new("a.log".to_string(), i0, 10, 5, T0, false)));
    let mut b = LogMonitor::new("b.log".to_string(), i0, 10, 5, T0, false);
    b.metrics.node_started = Some(T0 - SEC);
    m.canonicalise_monitor_index(&mut b);
    assert_eq!(b.index, i0);
    assert_ne!(m.monitors[0].index, i0);
    assert!(m.add_monitor(b));
    assert_ne!(m.monitors[0].index, m.monitors[1].index);
}

#[test]
fn rescan_adds_only_new_paths() {
    let mut m = LogfilesManager::new(vec!["*.log".to_string()]);
    let i = m.next_unused_index();
    assert!(m.add_monitor(LogMonitor::new("a.log".to_string(), i, 10, 5, T0, false)));
    assert!(m.scan_globpath("*.log", &vec!["a.log".to_string()]).is_empty());
    let fresh = m.scan_globpath("*.log", &vec!["a.log".to_string(), "b.log".to_string(), "b.log".to_string()]);
    assert_eq!(fresh, vec!["b.log".to_string()]);
    let mut created = 0;
    for p in &fresh {
        let i = m.next_unused_index();
        if m.add_monitor(LogMonitor::new(p.clone(), i, 10, 5, T0, false)) {
            created += 1;
        }
    }
    assert_eq!(created, 1);
    assert_eq!(m.monitors.len(), 2);
    let i = m.next_unused_index();
    assert!(!m.add_monitor(LogMonitor::new("b.log".to_string(), i, 10, 5, T0, false)));
    assert_eq!(m.globpaths.len(), 1);
}

#[test]
fn failures_are_listed_once_and_cleared_on_success() {
    let mut m = LogfilesManager::new(vec![]);
    m.record_failure("x.log");
    m.record_failure("x.log");
    assert_eq!(m.logfiles_failed, vec!["x.log".to_string()]);
    let i = m.next_unused_index();
    assert!(m.add_monitor(LogMonitor::new("x.log".to_string(), i, 10, 5, T0, false)));
    assert!(m.logfiles_failed.is_empty());
}

#[test]
fn glob_rescan_timing() {
    let mut m = LogfilesManager::new(vec![]);
    assert!(m.scan_glob_paths(false, T0, 0));
    assert!(!m.scan_glob_paths(true, T0, 0));
    assert!(m.scan_glob_paths(true, T0, 30));
    assert_eq!(m.next_glob_scan, Some(T0 + 30 * SEC));
    assert!(!m.scan_glob_paths(true, T0 + 10 * SEC, 30));
    assert!(m.scan_glob_paths(true, T0 + 31 * SEC, 30));
}

#[test]
fn duration_text_units() {
    assert_eq!(get_duration_text(0), None);
    assert_eq!(get_duration_text(SEC / 2), None);
    assert_eq!(get_duration_text(45 * SEC), Some((45, DurationUnit::Seconds)));
    assert_eq!(get_duration_text(10 * 60 * SEC), Some((10, DurationUnit::Minutes)));
    assert_eq!(get_duration_text(5 * 3600 * SEC), Some((5, DurationUnit::Hours)));
    assert_eq!(get_duration_text(3 * 86400 * SEC), Some((3, DurationUnit::Days)));
    assert_eq!(get_duration_text(10 * 7 * 86400 * SEC), Some((10, DurationUnit::Weeks)));
    assert_eq!(get_duration_text(3 * 365 * 86400 * SEC), Some((3, DurationUnit::Years)));
}

#[test]
fn summary_over_nodes() {
    let mut a = LogMonitor::new("a.log".to_string(), 0, 10, 5, T0, false);
    a.metrics.activity_gets.add_sample(1);
    a.metrics.activity_gets.add_sample(1);
    let mut b = LogMonitor::new("b.log".to_string(), 1, 10, 5, T0, false);
    b.metrics.activity_gets.add_sample(1);
    b.metrics.node_inactive = true;
    let dbg = LogMonitor::new("d.log".to_string(), 2, 10, 5, T0, true);
    let s = SummaryStats::new(&vec![a, b, dbg]);
    assert_eq!(s.node_count, 2);
    assert_eq!(s.active_node_count, 1);
    assert_eq!((s.gets.total, s.gets.min, s.gets.max), (3, 1, 2));
}

#[test]
fn inactivity_after_timeout() {
    let mut m = LogMonitor::new("a.log".to_string(), 0, 10, 5, T0, false);
    m.metrics.entry_metadata = LogEntry::decode_metadata("INFO 2024-01-01T00:00:00Z [m]: x", T0);
    m.metrics.update_node_status_string(T0 + 20 * SEC);
    assert!(m.metrics.is_node_active());
    m.metrics.update_node_status_string(T0 + 21 * SEC);
    assert!(!m.metrics.is_node_active());
}

#[test]
fn no_clash_changes_nothing() {
    let mut m = LogfilesManager::new(vec![]);
    let i0 = m.next_unused_index();
    assert!(m.add_monitor(LogMonitor::new("a.log".to_string(), i0, 10, 5, T0, false)));
    let next = m.next_index;
    let mut b = LogMonitor::new("b.log".to_string(), 7, 10, 5, T0, false);
    m.canonicalise_monitor_index(&mut b);
    assert_eq!(b.index, 7);
    assert_eq!(m.monitors[0].index, i0);
    assert_eq!(m.next_index, next);
}

#[test]
fn unknown_starts_keep_lower_index_for_tracked_monitor() {
    let mut m = LogfilesManager::new(vec![]);
    let i0 = m.next_unused_index();
    assert!(m.add_monitor(LogMonitor::new("a.log".to_string(), i0, 10, 5, T0, false)));
    let mut b = LogMonitor::new("b.log".to_string(), i0, 10, 5, T0, false);
    m.canonicalise_monitor_index(&mut b);
    assert_eq!(m.monitors[0].index, i0);
    assert!(b.index > i0);
}

#[test]
fn rescan_records_pattern_once() {
    let mut m = LogfilesManager::new(vec![]);
    m.scan_globpath("logs/*.log", &vec![]);
    m.scan_globpath("logs/*.log", &vec![]);
    assert_eq!(m.globpaths, vec!["logs/*.log".to_string()]);
}
