use hydration_service::hyperbeam::{ReservesResult, SlotCheckResult};
use hydration_service::models::{ProcessMetrics, ProcessState, ProcessStatus};
use hydration_service::reserves::{names_token, ReserveEntry, ReserveMap};
use hydration_service::time::{SyncRate, Timestamp};

const TOKEN_A: &str = "AAAAAAAAAAAAAAAAAAAAAAAAAAAAAAAAAAAAAAAAAAA";
const TOKEN_B: &str = "BBBBBBBBBBBBBBBBBBBBBBBBBBBBBBBBBBBBBBBBBBB";

fn record() -> ProcessStatus {
    ProcessStatus::new("pool".to_string(), "pid".to_string())
}

fn reserves(pairs: &[(&str, &str)]) -> ReserveMap {
    let mut m = ReserveMap::new();
    for (k, v) in pairs {
        m.insert(k.to_string(), v.to_string());
    }
    m
}

fn check(computed: u64, current: u64) -> SlotCheckResult {
    SlotCheckResult {
        computed_slot: computed,
        current_slot: current,
        computed_response_time: 11,
        current_response_time: 22,
    }
}

fn secs(s: i64) -> Timestamp {
    Timestamp { secs: s, nanos: 0 }
}

#[test]
fn new_record_is_queued_and_blank() {
    let r = record();
    assert_eq!(r.name, "pool");
    assert_eq!(r.process_id, "pid");
    assert_eq!(r.state, ProcessState::Queued);
    assert!(!r.cron_initialized);
    assert_eq!(r.computed_slot, None);
    assert_eq!(r.current_slot, None);
    assert_eq!(r.last_checked, None);
    assert_eq!(r.error, None);
    assert_eq!(r.queue_position, None);
    assert_eq!(r.activated_at, None);
    assert_eq!(r.synced_at, None);
    assert!(r.hb_reserves.is_none());
    assert!(r.ao_reserves.is_none());
    assert_eq!(r.reserves_last_checked, None);
    assert_eq!(r.cron_created_at, None);
    assert_eq!(r.metrics.check_count, 0);
    assert_eq!(r.metrics.avg_sync_rate, SyncRate { slots: 0, seconds: 0 });
}

#[test]
fn default_metrics_are_initial() {
    let m = ProcessMetrics::default();
    assert_eq!(m.initial_slot_deficit, None);
    assert_eq!(m.slots_advanced_last_check, 0);
    assert_eq!(m.total_slots_advanced, 0);
    assert_eq!(m.sync_start_time, None);
    assert_eq!(m.sync_end_time, None);
    assert_eq!(m.check_count, 0);
    assert!(m.api_response_times.is_empty());
}

#[test]
fn deficit_is_positive_difference_or_zero() {
    let mut r = record();
    assert_eq!(r.deficit(), None);
    r.current_slot = Some(105);
    assert_eq!(r.deficit(), None);
    r.computed_slot = Some(100);
    assert_eq!(r.deficit(), Some(5));
    r.computed_slot = Some(105);
    assert_eq!(r.deficit(), Some(0));
    r.computed_slot = Some(110);
    assert_eq!(r.deficit(), Some(0));
    r.current_slot = None;
    assert_eq!(r.deficit(), None);
}

#[test]
fn deficit_at_the_ends_of_the_range() {
    let mut r = record();
    r.current_slot = Some(u64::MAX);
    r.computed_slot = Some(0);
    assert_eq!(r.deficit(), Some(u64::MAX));
    assert_eq!(check(0, u64::MAX).deficit(), u64::MAX);
    assert_eq!(check(u64::MAX, 0).deficit(), 0);
}

#[test]
fn slot_check_deficit_and_sync() {
    assert_eq!(check(100, 105).deficit(), 5);
    assert_eq!(check(100, 100).deficit(), 0);
    assert_eq!(check(105, 100).deficit(), 0);
    assert!(check(100, 100).is_synced());
    assert!(!check(100, 105).is_synced());
    assert!(!check(105, 100).is_synced());
}

#[test]
fn record_is_synced_only_with_equal_known_slots() {
    let mut r = record();
    assert!(!r.is_synced());
    r.current_slot = Some(7);
    assert!(!r.is_synced());
    r.computed_slot = Some(7);
    assert!(r.is_synced());
    r.current_slot = Some(8);
    assert!(!r.is_synced());
}

#[test]
fn reserves_match_is_unknown_without_both_reports() {
    let mut r = record();
    assert_eq!(r.reserves_match(), None);
    r.hb_reserves = Some(reserves(&[(TOKEN_A, "1")]));
    assert_eq!(r.reserves_match(), None);
    r.hb_reserves = None;
    r.ao_reserves = Some(reserves(&[(TOKEN_A, "1")]));
    assert_eq!(r.reserves_match(), None);
}

#[test]
fn reserves_match_compares_tokens_as_text() {
    let mut r = record();
    r.hb_reserves = Some(reserves(&[(TOKEN_A, "100"), (TOKEN_B, "7")]));
    r.ao_reserves = Some(reserves(&[(TOKEN_B, "7"), (TOKEN_A, "100")]));
    assert_eq!(r.reserves_match(), Some(true));

    r.ao_reserves = Some(reserves(&[(TOKEN_B, "7"), (TOKEN_A, "100.0")]));
    assert_eq!(r.reserves_match(), Some(false));

    r.ao_reserves = Some(reserves(&[(TOKEN_A, "100")]));
    assert_eq!(r.reserves_match(), Some(false));

    r.ao_reserves = Some(reserves(&[(TOKEN_A, "100"), (TOKEN_B, "7"), ("short", "1")]));
    assert_eq!(r.reserves_match(), Some(true));

    r.hb_reserves = Some(reserves(&[(TOKEN_A, "100")]));
    r.ao_reserves = Some(reserves(&[(TOKEN_B, "100")]));
    assert_eq!(r.reserves_match(), Some(false));
}

#[test]
fn reserves_match_ignores_placeholder_keys() {
    let mut r = record();
    r.hb_reserves = Some(reserves(&[(TOKEN_A, "5"), ("TokenA", "x"), ("TokenB", "y"), ("K", "z")]));
    r.ao_reserves = Some(reserves(&[(TOKEN_A, "5")]));
    assert_eq!(r.reserves_match(), Some(true));
    r.hb_reserves = Some(reserves(&[("TokenA", "x")]));
    r.ao_reserves = Some(reserves(&[]));
    assert_eq!(r.reserves_match(), Some(true));
}

#[test]
fn token_ids_have_43_characters() {
    assert!(names_token(&TOKEN_A.to_string()));
    assert!(!names_token(&TOKEN_A[..42].to_string()));
    assert!(!names_token(&format!("{}A", TOKEN_A)));
    assert!(!names_token(&"K".to_string()));
    assert!(!names_token(&String::new()));
}

#[test]
fn reserve_map_replaces_on_insert() {
    let mut m = ReserveMap::new();
    assert_eq!(m.len(), 0);
    m.insert("a".to_string(), "1".to_string());
    m.insert("b".to_string(), "2".to_string());
    m.insert("a".to_string(), "3".to_string());
    assert_eq!(m.len(), 2);
    assert_eq!(m.get(&"a".to_string()).map(|s| s.as_str()), Some("3"));
    assert_eq!(m.get(&"b".to_string()).map(|s| s.as_str()), Some("2"));
    assert_eq!(m.get(&"c".to_string()), None);
    assert!(m.contains_key(&"b".to_string()));
    assert!(!m.contains_key(&"c".to_string()));
    assert_eq!(m.entry(0).token, "a");
    assert_eq!(m.entry(0).amount, "3");
    let copy = m.clone();
    assert_eq!(copy.len(), 2);
    assert!(copy.agrees_with(&m));
}

#[test]
fn reserve_map_from_entries_keeps_the_last_amount() {
    let m = ReserveMap::from_entries(vec![
        ReserveEntry { token: "x".to_string(), amount: "1".to_string() },
        ReserveEntry { token: "y".to_string(), amount: "2".to_string() },
        ReserveEntry { token: "x".to_string(), amount: "9".to_string() },
    ]);
    assert_eq!(m.len(), 2);
    assert_eq!(m.get(&"x".to_string()).map(|s| s.as_str()), Some("9"));
    let back = m.to_entries();
    assert_eq!(back.len(), 2);
    assert_eq!(back[0].token, "x");
    assert_eq!(back[0].amount, "9");
    assert_eq!(back[1].token, "y");
}

#[test]
fn token_ids_lists_token_keys_once() {
    let m = reserves(&[("short", "1"), (TOKEN_B, "2"), (TOKEN_A, "3"), (TOKEN_B, "4")]);
    assert_eq!(m.token_ids(), vec![TOKEN_B.to_string(), TOKEN_A.to_string()]);
}

#[test]
fn first_check_captures_initial_deficit() {
    let mut r = record();
    r.record_first_check(&check(90, 100), secs(50));
    assert_eq!(r.computed_slot, Some(90));
    assert_eq!(r.current_slot, Some(100));
    assert_eq!(r.last_checked, Some(secs(50)));
    assert_eq!(r.metrics.check_count, 1);
    assert_eq!(r.metrics.initial_slot_deficit, Some(10));
    assert_eq!(r.metrics.sync_start_time, Some(secs(50)));

    let mut s = record();
    s.record_first_check(&check(100, 100), secs(50));
    assert_eq!(s.metrics.check_count, 1);
    assert_eq!(s.metrics.initial_slot_deficit, None);
    assert_eq!(s.metrics.sync_start_time, None);
}

#[test]
fn slot_check_updates_metrics() {
    let mut r = record();
    r.record_first_check(&check(90, 100), secs(0));
    r.record_slot_check(Some(90), &check(96, 101), secs(120));
    assert_eq!(r.computed_slot, Some(96));
    assert_eq!(r.current_slot, Some(101));
    assert_eq!(r.last_checked, Some(secs(120)));
    assert_eq!(r.metrics.check_count, 2);
    assert_eq!(r.metrics.slots_advanced_last_check, 6);
    assert_eq!(r.metrics.total_slots_advanced, 6);
    assert_eq!(r.metrics.initial_slot_deficit, Some(10));
    assert_eq!(r.metrics.sync_start_time, Some(secs(0)));
    assert_eq!(r.metrics.avg_sync_rate, SyncRate { slots: 6, seconds: 120 });
    assert_eq!(r.metrics.avg_sync_rate.slots_per_minute_milli(), 3000);
    assert_eq!(r.metrics.api_response_times, vec![11, 22]);
}

#[test]
fn slot_check_captures_deficit_on_first_observation() {
    let mut r = record();
    r.record_slot_check(None, &check(100, 100), secs(9));
    assert_eq!(r.metrics.initial_slot_deficit, Some(0));
    assert_eq!(r.metrics.sync_start_time, Some(secs(9)));
    assert_eq!(r.metrics.check_count, 1);
    assert_eq!(r.metrics.slots_advanced_last_check, 0);
    assert_eq!(r.metrics.total_slots_advanced, 0);
    assert_eq!(r.metrics.avg_sync_rate, SyncRate { slots: 0, seconds: 0 });
    r.record_slot_check(Some(100), &check(100, 130), secs(10));
    assert_eq!(r.metrics.initial_slot_deficit, Some(0));
    assert_eq!(r.metrics.sync_start_time, Some(secs(9)));
}

#[test]
fn backward_step_counts_as_no_advance() {
    let mut r = record();
    r.record_slot_check(Some(10), &check(50, 60), secs(0));
    assert_eq!(r.metrics.total_slots_advanced, 40);
    assert_eq!(r.metrics.slots_advanced_last_check, 40);
    r.record_slot_check(Some(50), &check(30, 60), secs(60));
    assert_eq!(r.metrics.total_slots_advanced, 40);
    assert_eq!(r.metrics.slots_advanced_last_check, 0);
    r.record_slot_check(Some(30), &check(30, 60), secs(90));
    assert_eq!(r.metrics.total_slots_advanced, 40);
    assert_eq!(r.metrics.slots_advanced_last_check, 0);
}

#[test]
fn unknown_previous_slot_leaves_advance_alone() {
    let mut r = record();
    r.metrics.slots_advanced_last_check = 4;
    r.metrics.total_slots_advanced = 9;
    r.record_slot_check(None, &check(50, 60), secs(0));
    assert_eq!(r.metrics.slots_advanced_last_check, 4);
    assert_eq!(r.metrics.total_slots_advanced, 9);
}

#[test]
fn rate_needs_a_full_second_and_progress() {
    let mut r = record();
    r.record_slot_check(Some(0), &check(10, 20), Timestamp { secs: 100, nanos: 0 });
    assert_eq!(r.metrics.avg_sync_rate, SyncRate { slots: 0, seconds: 0 });
    r.record_slot_check(Some(10), &check(12, 20), Timestamp { secs: 100, nanos: 999_999_999 });
    assert_eq!(r.metrics.avg_sync_rate, SyncRate { slots: 0, seconds: 0 });
    r.record_slot_check(Some(12), &check(13, 20), Timestamp { secs: 101, nanos: 0 });
    assert_eq!(r.metrics.avg_sync_rate, SyncRate { slots: 13, seconds: 1 });
    r.record_slot_check(Some(13), &check(13, 20), Timestamp { secs: 90, nanos: 0 });
    assert_eq!(r.metrics.avg_sync_rate, SyncRate { slots: 13, seconds: 1 });
}

#[test]
fn counters_stop_at_the_top() {
    let mut r = record();
    r.metrics.check_count = u64::MAX;
    r.metrics.total_slots_advanced = u64::MAX - 3;
    r.record_slot_check(Some(0), &check(10, 20), secs(1));
    assert_eq!(r.metrics.check_count, u64::MAX);
    assert_eq!(r.metrics.total_slots_advanced, u64::MAX);
    assert_eq!(r.metrics.slots_advanced_last_check, 10);
}

#[test]
fn latency_window_keeps_the_last_twenty() {
    let mut m = ProcessMetrics::default();
    for i in 0..9u64 {
        m.record_latencies(2 * i, 2 * i + 1);
    }
    assert_eq!(m.api_response_times, (0..18).collect::<Vec<u64>>());
    m.record_latencies(18, 19);
    assert_eq!(m.api_response_times, (0..20).collect::<Vec<u64>>());
    m.record_latencies(20, 21);
    assert_eq!(m.api_response_times, (2..22).collect::<Vec<u64>>());
    m.api_response_times = (0..19).collect();
    m.record_latencies(100, 101);
    assert_eq!(m.api_response_times.len(), 20);
    assert_eq!(m.api_response_times[0], 1);
    assert_eq!(m.api_response_times[18], 100);
    assert_eq!(m.api_response_times[19], 101);
}

#[test]
fn current_slot_lookup_touches_two_fields() {
    let mut r = record();
    r.computed_slot = Some(3);
    r.record_current_slot(44, secs(8));
    assert_eq!(r.current_slot, Some(44));
    assert_eq!(r.last_checked, Some(secs(8)));
    assert_eq!(r.computed_slot, Some(3));
    assert_eq!(r.metrics.check_count, 0);
}

#[test]
fn recheck_touches_slots_only() {
    let mut r = record();
    r.metrics.check_count = 5;
    r.record_recheck(&check(10, 12), secs(3));
    assert_eq!(r.computed_slot, Some(10));
    assert_eq!(r.current_slot, Some(12));
    assert_eq!(r.last_checked, Some(secs(3)));
    assert_eq!(r.metrics.check_count, 5);
    assert!(r.metrics.api_response_times.is_empty());
}

#[test]
fn cron_check_measures_from_creation() {
    let mut r = record();
    r.computed_slot = Some(100);
    r.metrics.total_slots_advanced = 20;
    r.record_cron_check(Some(secs(1000)), &check(130, 140), secs(1600));
    assert_eq!(r.cron_created_at, Some(secs(1000)));
    assert_eq!(r.metrics.total_slots_advanced, 50);
    assert_eq!(r.metrics.avg_sync_rate, SyncRate { slots: 50, seconds: 600 });
    assert_eq!(r.metrics.avg_sync_rate.slots_per_minute_milli(), 5000);
    assert_eq!(r.metrics.check_count, 0);

    r.record_cron_check(None, &check(120, 140), secs(1700));
    assert_eq!(r.cron_created_at, None);
    assert_eq!(r.metrics.total_slots_advanced, 50);
    assert_eq!(r.metrics.avg_sync_rate, SyncRate { slots: 50, seconds: 600 });
    assert_eq!(r.computed_slot, Some(120));
}

#[test]
fn reserves_overwrite_both_reports() {
    let mut r = record();
    r.hb_reserves = Some(reserves(&[(TOKEN_A, "1")]));
    r.record_reserves(
        ReservesResult { hb_reserves: None, ao_reserves: Some(reserves(&[(TOKEN_A, "2")])) },
        secs(4),
    );
    assert!(r.hb_reserves.is_none());
    assert_eq!(r.ao_reserves.as_ref().unwrap().len(), 1);
    assert_eq!(r.reserves_last_checked, Some(secs(4)));
}

#[test]
fn initialization_flag_and_recovery() {
    let mut r = record();
    assert!(!r.needs_slot_recovery());
    r.mark_initialized();
    assert!(r.cron_initialized);
    assert!(r.needs_slot_recovery());
    r.computed_slot = Some(1);
    assert!(!r.needs_slot_recovery());
}

#[test]
fn copies_hold_the_same_values() {
    let mut r = record();
    r.error = Some("e".to_string());
    r.metrics.api_response_times = vec![4, 5];
    r.hb_reserves = Some(reserves(&[(TOKEN_A, "1")]));
    let c = r.clone();
    assert_eq!(c.name, r.name);
    assert_eq!(c.error, r.error);
    assert_eq!(c.metrics.api_response_times, vec![4, 5]);
    assert_eq!(c.hb_reserves.unwrap().get(&TOKEN_A.to_string()).map(|s| s.as_str()), Some("1"));
}
