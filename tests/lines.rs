use vdash::app_timelines::{CONNECTIONS, ERRORS, GETS, PUTS, STORAGE_COST};
use vdash::codec::{decode_checkpoint, encode_checkpoint, restore_checkpoint, save_checkpoint};
use vdash::dash::{
    get_app_name, sort_nodes_by_column, DashState, DashViewMain, Focus, Key, KeyAction, NodeMetric, StatusMessage,
};
use vdash::decode::LogEntry;
use vdash::metrics::{detect, Effect};
use vdash::monitor::{do_bracketed_next_previous, LogMonitor, StatefulList};
use vdash::stat::NodeStatus;
use vdash::timelines::MinMeanMax;

const SEC: i64 = 1_000_000_000;
const T0: i64 = 1_704_067_200 * SEC;

fn monitor() -> LogMonitor {
    LogMonitor::new("node.log".to_string(), 0, 100, 60, T0, false)
}

fn one_second(m: &LogMonitor, k: usize, mode: Option<MinMeanMax>) -> Vec<u64> {
    m.metrics.app_timelines.timelines[k].get_buckets("1 second columns", mode).unwrap()
}

#[test]
fn decodes_a_line() {
    let m = LogEntry::decode_metadata("INFO 2024-01-01T00:00:05.000000000Z [m:L2]: Wrote record", 42).unwrap();
    assert_eq!(m.category, "INFO");
    assert_eq!(m.message_time, T0 + 5 * SEC);
    assert_eq!(m.system_time, 42);
    assert_eq!(m.source, "m:L2");
    assert_eq!(m.message, ": Wrote record");
    let lead = LogEntry::decode_metadata("  ERROR 2024-01-01T00:00:00.5Z [x]", 0).unwrap();
    assert_eq!(lead.category, "ERROR");
    assert_eq!(lead.message_time, T0 + SEC / 2);
    assert_eq!(lead.message, "");
}

#[test]
fn decode_misses() {
    assert!(LogEntry::decode_metadata("", 0).is_none());
    assert!(LogEntry::decode_metadata("continuation of a message", 0).is_none());
    assert!(LogEntry::decode_metadata("INFO 2024-13-01T00:00:00Z [m]: x", 0).is_none());
    assert!(LogEntry::decode_metadata("INFO 2024-01-01T00:00:00Z m: x", 0).is_none());
    assert!(LogEntry::decode_metadata("INF 2024-01-01T00:00:00Z [m]: x", 0).is_none());
    assert!(LogEntry::decode_metadata("INFO 2024-01-01T00:00:00Z [m: x", 0).is_none());
}

#[test]
fn gets_and_puts_counted() {
    let mut m = monitor();
    assert!(!m.append_to_content("INFO 2024-01-01T00:00:00.000000000Z [m:L1]: Retrieved record from disk", T0, 0));
    assert!(!m.append_to_content("INFO 2024-01-01T00:00:05.000000000Z [m:L2]: Wrote record", T0, 0));
    assert_eq!(m.metrics.activity_gets.total, 1);
    assert_eq!(m.metrics.activity_puts.total, 1);
    let gets = one_second(&m, GETS, None);
    assert_eq!(gets.iter().sum::<u64>(), 1);
    // Four slot boundaries lie between the two entries.
    assert_eq!(gets[59 - 4], 1);
    assert_eq!(one_second(&m, PUTS, None)[59], 1);
    assert_eq!(m.metrics.node_status, NodeStatus::Connected);
    assert_eq!(m.content.items.len(), 2);
}

#[test]
fn storage_cost_slot_statistics() {
    let mut m = monitor();
    m.append_to_content("INFO 2024-01-01T00:00:00.000000000Z [m:L1]: Cost is now 42", T0, 0);
    m.append_to_content("INFO 2024-01-01T00:00:00.200000000Z [m:L1]: Cost is now 10", T0, 0);
    assert_eq!(one_second(&m, STORAGE_COST, Some(MinMeanMax::Min))[59], 10);
    assert_eq!(one_second(&m, STORAGE_COST, Some(MinMeanMax::Max))[59], 42);
    assert_eq!(one_second(&m, STORAGE_COST, Some(MinMeanMax::Mean))[59], 26);
    let s = m.metrics.storage_cost;
    assert_eq!((s.min, s.mean, s.max), (10, 26, 42));
}

#[test]
fn error_lines_always_count() {
    let mut m = monitor();
    m.append_to_content("ERROR 2024-01-01T00:00:00Z [m]: Retrieved record from disk", T0, 0);
    assert_eq!(m.metrics.activity_errors.total, 1);
    assert_eq!(m.metrics.activity_gets.total, 1);
    assert_eq!(one_second(&m, ERRORS, None)[59], 1);
}

#[test]
fn first_detector_wins() {
    let line: Vec<char> = "x Retrieved record from disk and Wrote record".chars().collect();
    assert!(matches!(detect(&line).effect, Some(Effect::Get)));
    let line: Vec<char> = "Wrote record; Cost is now 5".chars().collect();
    assert!(matches!(detect(&line).effect, Some(Effect::Put)));
    let line: Vec<char> = "nothing to see".chars().collect();
    assert!(detect(&line).effect.is_none());
}

#[test]
fn failed_figure_is_noted_and_line_still_claimed() {
    let mut m = monitor();
    assert!(!m.append_to_content("INFO 2024-01-01T00:00:00Z [m]: Cost is now many, ok", T0, 0));
    assert_eq!(m.metrics.storage_cost.sample_count, 0);
    assert_eq!(m.metrics.parse_failure.as_deref(), Some("many"));
    let line: Vec<char> = "Cost is now many".chars().collect();
    assert!(matches!(detect(&line).effect, Some(Effect::StorageCost(None))));
}

#[test]
fn peers_payment_and_space() {
    let mut m = monitor();
    m.append_to_content("INFO 2024-01-01T00:00:00Z [m]: PeersInRoutingTable(37)", T0, 0);
    assert_eq!(m.metrics.peers_connected.most_recent, 37);
    assert_eq!(one_second(&m, CONNECTIONS, Some(MinMeanMax::Max))[59], 37);
    m.append_to_content("INFO 2024-01-01T00:00:00Z [m]: payment of NanoTokens(1200) nanos accepted for record", T0, 0);
    assert_eq!(m.metrics.storage_payments.total, 1200);
    m.append_to_content("INFO 2024-01-01T00:00:00Z [m]: Used space: 2048", T0, 0);
    assert_eq!(m.metrics.used_space, 2048);
    m.append_to_content("INFO 2024-01-01T00:00:00Z [m]: Max capacity: 4096", T0, 0);
    assert_eq!(m.metrics.max_capacity, 4096);
    m.append_to_content("INFO 2024-01-01T00:00:00Z [m]: Node events channel closed", T0, 0);
    assert_eq!(m.metrics.node_status, NodeStatus::Stopped);
}

#[test]
fn resource_report() {
    let mut m = monitor();
    m.append_to_content(
        "INFO 2024-01-01T00:00:00Z [sn_logging::metrics]: {\"system_cpu_usage_percent\":12.5, \"interface_name\":eth0, \"bytes_received\":77, \"cpu_usage_percent\":3.25, \"memory_used_mb\":150.75}",
        T0,
        0,
    );
    assert_eq!(m.metrics.system_cpu, 1250);
    assert_eq!(m.metrics.interface_name, "eth0");
    assert_eq!(m.metrics.bytes_received, 77);
    assert_eq!(m.metrics.cpu_usage_percent, 325);
    assert_eq!(m.metrics.cpu_usage_percent_max, 325);
    assert_eq!(m.metrics.memory_used_mb.most_recent, 150);
}

#[test]
fn process_id_line() {
    let mut m = monitor();
    m.append_to_content("INFO 2024-01-01T00:00:00Z [m]: Node (PID: 4321) PeerId: 12D3Koo\"", T0, 0);
    assert_eq!(m.metrics.node_process_id, Some(4321));
    assert_eq!(m.metrics.node_peer_id.as_deref(), Some("12D3Koo"));
}

#[test]
fn checkpoint_timing() {
    let mut m = monitor();
    assert!(m.append_to_content("INFO 2024-01-01T00:00:00Z [m]: Wrote record", T0, 60));
    m.checkpoint_saved();
    assert_eq!(m.latest_checkpoint_time, Some(T0));
    assert!(!m.append_to_content("INFO 2024-01-01T00:00:59Z [m]: Wrote record", T0, 60));
    assert!(m.append_to_content("INFO 2024-01-01T00:01:00Z [m]: Wrote record", T0, 60));
    assert!(!m.append_to_content("INFO 2024-01-01T00:05:01Z [m]: Wrote record", T0, 0));
}

#[test]
fn checkpoint_round_trip() {
    let mut m = monitor();
    m.append_to_content("INFO 2024-01-01T00:00:00Z [m]: Retrieved record from disk", T0, 0);
    m.append_to_content("INFO 2024-01-01T00:00:01Z [m]: Cost is now 42", T0, 0);
    m.append_to_content("INFO 2024-01-01T00:00:02Z [m]: Node (PID: 7) PeerId: abc", T0, 0);
    m.append_to_content("INFO 2024-01-01T00:00:03Z [m]: Cost is now x", T0, 0);
    m.index = 3;
    let words = save_checkpoint(&m);
    let c = decode_checkpoint(&words).unwrap();
    assert_eq!(c.monitor_index, 3);
    assert_eq!(c.latest_entry_time, Some(T0 + 3 * SEC));
    let (a, b) = (&m.metrics, &c.monitor_metrics);
    assert_eq!(a.activity_gets, b.activity_gets);
    assert_eq!(a.storage_cost, b.storage_cost);
    assert_eq!(a.node_process_id, b.node_process_id);
    assert_eq!(a.node_peer_id, b.node_peer_id);
    assert_eq!(a.parse_failure, b.parse_failure);
    assert_eq!(a.interface_name, b.interface_name);
    for k in 0..7 {
        let (x, y) = (&a.app_timelines.timelines[k], &b.app_timelines.timelines[k]);
        assert_eq!(x.name, y.name);
        assert_eq!(x.bucket_names, y.bucket_names);
        for s in 0..x.bucket_sets.len() {
            assert_eq!(x.bucket_sets[s].buckets, y.bucket_sets[s].buckets);
            assert_eq!(x.bucket_sets[s].stats, y.bucket_sets[s].stats);
            assert_eq!(x.bucket_sets[s].bucket_time, y.bucket_sets[s].bucket_time);
            assert_eq!(x.bucket_sets[s].values_total, y.bucket_sets[s].values_total);
        }
    }
    assert_eq!(encode_checkpoint(c.latest_entry_time, c.monitor_index, &c.monitor_metrics), words);
    let mut fresh = LogMonitor::new("node.log".to_string(), 9, 100, 60, T0, false);
    assert!(restore_checkpoint(&mut fresh, &words));
    assert_eq!(fresh.index, 3);
    assert_eq!(fresh.metrics.storage_cost.max, 42);
}

#[test]
fn damaged_checkpoints_are_refused() {
    let m = monitor();
    let words = save_checkpoint(&m);
    assert!(decode_checkpoint(&words[..words.len() - 1].to_vec()).is_none());
    let mut longer = words.clone();
    longer.push(0);
    assert!(decode_checkpoint(&longer).is_none());
    let mut wrong = words.clone();
    wrong[0] ^= 1;
    assert!(decode_checkpoint(&wrong).is_none());
    assert!(decode_checkpoint(&vec![]).is_none());
    let mut fresh = monitor();
    assert!(!restore_checkpoint(&mut fresh, &wrong));
    assert_eq!(fresh.index, 0);
}

#[test]
fn replay_after_checkpoint_time() {
    let mut m = monitor();
    m.append_to_content_from_time("INFO 2024-01-01T00:00:00Z [m]: Wrote record", 0, Some(T0));
    m.append_to_content_from_time("not a log line", 0, Some(T0));
    assert_eq!(m.content.items.len(), 0);
    m.append_to_content_from_time("INFO 2024-01-01T00:00:01Z [m]: Wrote record", 0, Some(T0));
    m.append_to_content_from_time("continued text", 0, None);
    assert_eq!(m.content.items.len(), 2);
    assert_eq!(m.metrics.activity_puts.total, 1);
}

#[test]
fn content_ring_is_bounded() {
    let mut m = LogMonitor::new("n.log".to_string(), 0, 2, 5, T0, false);
    for s in 0..4 {
        m.append_to_content(&format!("INFO 2024-01-01T00:00:0{}Z [m]: hello", s), T0, 0);
    }
    assert_eq!(m.content.items.len(), 2);
    assert!(m.content.items[1].contains("00:00:03"));
}

#[test]
fn focus_cycles_through_debug_entry() {
    let mut d = DashState::new(false);
    d.change_focus_next(3);
    assert_eq!(d.focus, Some(Focus::Monitor(0)));
    d.change_focus_next(3);
    d.change_focus_next(3);
    assert_eq!(d.focus, Some(Focus::Monitor(2)));
    d.change_focus_next(3);
    assert_eq!(d.focus, Some(Focus::Monitor(0)));
    d.change_focus_previous(3);
    assert_eq!(d.focus, Some(Focus::Monitor(2)));
    let mut g = DashState::new(true);
    g.set_main_view(DashViewMain::DashNode);
    g.focus = Some(Focus::Monitor(1));
    g.change_focus_next(2);
    assert_eq!(g.focus, Some(Focus::Debug));
    g.change_focus_next(2);
    assert_eq!(g.focus, Some(Focus::Monitor(0)));
    g.change_focus_previous(2);
    assert_eq!(g.focus, Some(Focus::Debug));
}

#[test]
fn keys_drive_the_view() {
    let mut d = DashState::new(false);
    assert_eq!(d.handle_key(Key::Char('q'), 1), KeyAction::Quit);
    assert_eq!(d.handle_key(Key::Char('r'), 1), KeyAction::Rescan);
    assert_eq!(d.handle_key(Key::Char('n'), 1), KeyAction::Continue);
    assert_eq!(d.main_view, DashViewMain::DashNode);
    d.handle_key(Key::Char('?'), 1);
    assert_eq!(d.main_view, DashViewMain::DashHelp);
    d.handle_key(Key::Enter, 1);
    assert_eq!(d.main_view, DashViewMain::DashNode);
    d.handle_key(Key::Char('m'), 1);
    assert_eq!(d.mmm_ui_mode(), MinMeanMax::Max);
    d.handle_key(Key::Char('o'), 1);
    d.handle_key(Key::Char('o'), 1);
    assert_eq!(d.active_timescale, 2);
    d.handle_key(Key::Char('i'), 1);
    assert_eq!(d.get_active_timescale_name(), Some("1 minute columns"));
    d.handle_key(Key::Char('T'), 1);
    assert_eq!(d.top_timeline_index(), 6);
    assert_eq!(get_app_name(), "vdash");
}

#[test]
fn bracketed_selection() {
    let mut l = StatefulList::with_items(vec!["a".to_string(), "b".to_string()]);
    do_bracketed_next_previous(&mut l, true);
    assert_eq!(l.selected, Some(0));
    do_bracketed_next_previous(&mut l, true);
    assert_eq!(l.selected, Some(1));
    do_bracketed_next_previous(&mut l, true);
    assert_eq!(l.selected, Some(1));
    do_bracketed_next_previous(&mut l, false);
    do_bracketed_next_previous(&mut l, false);
    assert_eq!(l.selected, Some(0));
}

#[test]
fn summary_rows_sort_stably() {
    let mut ms = Vec::new();
    for (i, gets) in [3u64, 1, 3, 0].iter().enumerate() {
        let mut m = LogMonitor::new(format!("{}.log", i), 10 - i, 10, 5, T0, false);
        for _ in 0..*gets {
            m.metrics.activity_gets.add_sample(1);
        }
        ms.push(m);
    }
    let mut order = vec![0usize, 1, 2, 3];
    sort_nodes_by_column(&mut order, &ms, NodeMetric::Gets, true);
    assert_eq!(order, vec![3, 1, 0, 2]);
    sort_nodes_by_column(&mut order, &ms, NodeMetric::Gets, false);
    assert_eq!(order, vec![0, 2, 1, 3]);
    sort_nodes_by_column(&mut order, &ms, NodeMetric::Index, true);
    assert_eq!(order, vec![3, 2, 1, 0]);
}

#[test]
fn status_message_expires() {
    let mut st = StatusMessage::new("Press '?' for Help", 5 * SEC);
    assert!(st.message("Checkpoint updated", None, T0));
    assert_eq!(st.get_status(T0 + 5 * SEC), "Checkpoint updated");
    assert_eq!(st.get_status(T0 + 5 * SEC + 1), "Press '?' for Help");
    st.disable_to_console();
    assert!(!st.message("x", Some(SEC), T0));
    st.clear_status();
    assert_eq!(st.get_status(T0), "Press '?' for Help");
}

#[test]
fn undecoded_live_line_is_shown() {
    let mut m = monitor();
    m.append_to_content("INFO 2024-01-01T00:00:00Z [m]: Wrote record", T0, 0);
    assert!(!m.append_to_content("  continuation without a header", T0, 60));
    assert_eq!(m.content.items.len(), 2);
    assert_eq!(m.content.items[1], "  continuation without a header");
    assert!(m.metrics.entry_metadata.is_none());
    assert_eq!(m.metrics.activity_puts.total, 1);
}

#[test]
fn new_registry_has_empty_anchored_sets() {
    let m = monitor();
    for t in &m.metrics.app_timelines.timelines {
        assert_eq!(t.bucket_sets.len(), 6);
        for b in &t.bucket_sets {
            assert_eq!(b.bucket_time, Some(T0));
            assert_eq!(b.num_buckets, 60);
            assert_eq!(b.values_total, 0);
        }
    }
    assert_eq!(one_second(&m, GETS, None), vec![0u64; 60]);
    assert_eq!(m.metrics.interface_name, "unknown");
}
