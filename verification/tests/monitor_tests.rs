use duallink::monitor::{
    chrono_now, failover_start_metrics, finish_tick, format_hms, AdapterStatus, FailoverState,
    MonitorLoop, MonitorState, Settings,
};
use duallink::network::{adapter_from_fields, ConnectivityResult};
use duallink::logger::format_datetime;

#[test]
fn settings_defaults() {
    let s = Settings::default();
    assert_eq!(s.interval_secs, 5);
    assert_eq!(s.ping_target, "8.8.8.8");
    assert_eq!(s.adapter_refresh_secs, 30);
}

#[test]
fn settings_are_clamped() {
    let low = Settings::clamped(0, "1.1.1.1".to_string(), 1);
    assert_eq!(low.interval_secs, 1);
    assert_eq!(low.adapter_refresh_secs, 5);
    assert_eq!(low.ping_target, "1.1.1.1");
    let high = Settings::clamped(5000, "x".to_string(), 100000);
    assert_eq!(high.interval_secs, 300);
    assert_eq!(high.adapter_refresh_secs, 600);
    let mid = Settings::clamped(10, "x".to_string(), 60);
    assert_eq!(mid.interval_secs, 10);
    assert_eq!(mid.adapter_refresh_secs, 60);
    let again = Settings::clamped(high.interval_secs, "x".to_string(), high.adapter_refresh_secs);
    assert_eq!(again.interval_secs, 300);
    assert_eq!(again.adapter_refresh_secs, 600);
}

#[test]
fn state_defaults() {
    let m = MonitorState::default();
    assert!(!m.internet_reachable);
    assert_eq!(m.overall_latency_ms, None);
    assert!(m.adapters.is_empty());
    assert_eq!(m.last_check, "Never");
    assert!(!m.failover.config.enabled);
    assert_eq!(m.failover.last_switch, "Never");
    assert_eq!(m.failover.failover_count, 0);
    assert_eq!(m.failover.config.primary_index, 0);
    assert_eq!(m.failover.config.secondary_index, 0);
    assert_eq!(m.failover.config.primary_name, "");
    assert_eq!(m.failover.config.secondary_name, "");
    assert_eq!(m.failover.consecutive_failures, 0);
}

fn adapter(name: &str, status: &str) -> duallink::network::NetworkAdapter {
    adapter_from_fields(Some(name), Some(1), Some(status), None, None, None)
}

#[test]
fn adapters_refresh_schedule() {
    let settings = Settings::default();
    let mut lp = MonitorLoop::new();
    let p1 = lp.begin_tick(&settings);
    assert_eq!(lp.tick_count, 1);
    assert!(p1.refresh_adapters);
    assert_eq!(p1.interval_secs, 5);
    assert_eq!(p1.ping_target, "8.8.8.8");
    lp.store_adapters(vec![adapter("Wi-Fi", "Up")]);
    for _ in 2..=6 {
        assert!(!lp.begin_tick(&settings).refresh_adapters);
    }
    assert!(lp.begin_tick(&settings).refresh_adapters);
    assert_eq!(lp.tick_count, 7);
}

#[test]
fn refresh_when_nothing_cached() {
    let settings = Settings { interval_secs: 0, ping_target: "h".to_string(), adapter_refresh_secs: 0 };
    let mut lp = MonitorLoop::new();
    let p = lp.begin_tick(&settings);
    assert_eq!(p.interval_secs, 1);
    assert!(p.refresh_adapters);
    let p2 = lp.begin_tick(&settings);
    assert!(p2.refresh_adapters);
}

#[test]
fn refresh_every_tick_when_period_is_one() {
    let settings = Settings { interval_secs: 5, ping_target: "h".to_string(), adapter_refresh_secs: 5 };
    let mut lp = MonitorLoop::new();
    assert!(lp.begin_tick(&settings).refresh_adapters);
    lp.store_adapters(vec![adapter("A", "Up")]);
    assert!(lp.begin_tick(&settings).refresh_adapters);
    assert!(lp.begin_tick(&settings).refresh_adapters);
    let slow = Settings { interval_secs: 300, ping_target: "h".to_string(), adapter_refresh_secs: 5 };
    assert!(lp.begin_tick(&slow).refresh_adapters);
}

#[test]
fn re_enabling_failover_restarts_the_runs() {
    let mut fo = FailoverState::enabled_for(1, 2, "Box".to_string(), "Phone".to_string());
    fo.record_check(false, 0);
    assert_eq!(fo.consecutive_failures, 1);
    fo.disable();
    fo = FailoverState::enabled_for(1, 2, "Box".to_string(), "Phone".to_string());
    assert_eq!(fo.consecutive_failures, 0);
    let d = fo.record_check(false, 0);
    assert!(d.metrics_to_set.is_empty());
    assert!(!fo.is_failed_over);
}

#[test]
fn statuses_of_connected_adapters() {
    let mut lp = MonitorLoop::new();
    lp.store_adapters(vec![adapter("A", "Up"), adapter("B", "Disabled"), adapter("C", "Up")]);
    let c = ConnectivityResult { reachable: true, latency_ms: Some(9) };
    let st = lp.adapter_statuses(&c);
    assert_eq!(st.len(), 2);
    assert_eq!(st[0].name, "A");
    assert_eq!(st[1].name, "C");
    assert!(st[1].reachable);
    assert_eq!(st[1].latency_ms, Some(9));
}

#[test]
fn two_losses_switch_to_secondary() {
    let mut fo = FailoverState::enabled_for(1, 2, "Box".to_string(), "Phone".to_string());
    let d1 = fo.record_check(false, 3661);
    assert!(d1.metrics_to_set.is_empty());
    assert!(d1.action.is_empty());
    assert!(!fo.is_failed_over);
    let d2 = fo.record_check(false, 3661);
    assert_eq!(d2.metrics_to_set, vec![(2, 10), (1, 100)]);
    assert_eq!(d2.action, "🔄 Failover → Phone");
    assert!(fo.is_failed_over);
    assert_eq!(fo.failover_count, 1);
    assert_eq!(fo.last_switch, "01:01:01");
    let d3 = fo.record_check(false, 7200);
    assert!(d3.metrics_to_set.is_empty());
    assert_eq!(fo.failover_count, 1);
    assert_eq!(fo.consecutive_failures, 3);
}

#[test]
fn three_successes_restore_primary() {
    let mut fo = FailoverState::enabled_for(1, 2, "Box".to_string(), "Phone".to_string());
    fo.record_check(false, 0);
    fo.record_check(false, 0);
    assert!(fo.is_failed_over);
    assert!(fo.record_check(true, 10).metrics_to_set.is_empty());
    assert!(fo.record_check(true, 10).metrics_to_set.is_empty());
    assert!(fo.is_failed_over);
    let d = fo.record_check(true, 86399);
    assert_eq!(d.metrics_to_set, vec![(1, 10), (2, 100)]);
    assert_eq!(d.action, "✅ Restauré → Box");
    assert!(!fo.is_failed_over);
    assert_eq!(fo.last_switch, "23:59:59");
    assert_eq!(fo.failover_count, 1);
}

#[test]
fn interrupted_runs_do_not_switch() {
    let mut fo = FailoverState::enabled_for(1, 2, "Box".to_string(), "Phone".to_string());
    for _ in 0..5 {
        assert!(fo.record_check(false, 0).metrics_to_set.is_empty());
        assert!(fo.record_check(true, 0).metrics_to_set.is_empty());
    }
    assert!(!fo.is_failed_over);
}

#[test]
fn disabled_failover_does_nothing() {
    let mut fo = FailoverState::default();
    for _ in 0..4 {
        let d = fo.record_check(false, 0);
        assert!(d.metrics_to_set.is_empty());
    }
    assert_eq!(fo.consecutive_failures, 0);
    assert!(!fo.is_failed_over);
    assert_eq!(fo.last_switch, "Never");
}

#[test]
fn turning_failover_on_and_off() {
    assert_eq!(failover_start_metrics(4, 6), vec![(4, 10), (6, 100)]);
    let mut fo = FailoverState::enabled_for(4, 6, "P".to_string(), "S".to_string());
    assert!(fo.config.enabled);
    assert_eq!(fo.last_switch, "Never");
    assert!(fo.disable_metrics().is_empty());
    fo.is_failed_over = true;
    fo.failover_count = 3;
    assert_eq!(fo.disable_metrics(), vec![(4, 10), (6, 100)]);
    fo.disable();
    assert!(!fo.config.enabled);
    assert!(!fo.is_failed_over);
    assert_eq!(fo.failover_count, 3);
    assert_eq!(fo.config.primary_name, "P");
}

#[test]
fn finish_tick_publishes_state() {
    let mut state = MonitorState::default();
    let c = ConnectivityResult { reachable: true, latency_ms: Some(20) };
    let statuses = vec![AdapterStatus { name: "A".to_string(), reachable: true, latency_ms: Some(20) }];
    let p = finish_tick(&mut state, &c, statuses, "10:00:00", "");
    assert!(state.internet_reachable);
    assert_eq!(state.overall_latency_ms, Some(20));
    assert_eq!(state.last_check, "10:00:00");
    assert_eq!(p.last_check, "10:00:00");
    assert_eq!(p.adapters.len(), 1);
    assert_eq!(p.adapters[0].name, "A");
    let c2 = ConnectivityResult { reachable: false, latency_ms: None };
    let p2 = finish_tick(&mut state, &c2, Vec::new(), "10:00:05", "🔄 Failover → Phone");
    assert_eq!(p2.last_check, "10:00:05 | 🔄 Failover → Phone");
    assert_eq!(state.last_check, "10:00:05");
    assert!(!p2.internet_reachable);
    assert!(state.adapters.is_empty());
}

#[test]
fn monitor_clock_matches_log_clock() {
    for secs in [0u64, 59, 3661, 86399, 86400, 90061, 1_700_000_000, u64::MAX] {
        assert_eq!(format_hms(secs), format_datetime(secs));
    }
    assert_eq!(format_hms(3661), "01:01:01");
}

#[test]
fn chrono_now_has_clock_shape() {
    let now = chrono_now();
    let cs: Vec<char> = now.chars().collect();
    assert_eq!(cs.len(), 8);
    assert_eq!(cs[2], ':');
    assert_eq!(cs[5], ':');
}
