use hydration_service::hyperbeam::{CronItem, ReservesResult, SlotCheckResult};
use hydration_service::models::{ProcessConfig, ProcessState};
use hydration_service::queue::{QueueError, QueueManager};
use hydration_service::reserves::ReserveMap;
use hydration_service::sync::{cron_created_at, Recheck};
use hydration_service::time::{SyncRate, Timestamp};

fn watch(id: &str) -> ProcessConfig {
    ProcessConfig { name: id.to_uppercase(), process_id: id.to_string(), base_url: None }
}

fn t(secs: i64) -> Timestamp {
    Timestamp { secs, nanos: 0 }
}

fn seen(computed: u64, current: u64) -> SlotCheckResult {
    SlotCheckResult {
        computed_slot: computed,
        current_slot: current,
        computed_response_time: 3,
        current_response_time: 4,
    }
}

fn one_active() -> QueueManager {
    let mut q = QueueManager::new(1);
    q.add_to_queue(watch("p")).unwrap();
    q.add_to_queue(watch("w")).unwrap();
    q.activate_next_at(t(0)).unwrap();
    q
}

#[test]
fn equal_slots_move_an_active_process_to_synced() {
    let mut q = one_active();
    q.apply_initialized("p").unwrap();
    q.apply_first_check("p", &seen(90, 100), t(1)).unwrap();
    assert_eq!(q.apply_slot_check("p", Some(90), &seen(95, 100), t(61)), Ok(false));
    assert_eq!(q.get_process("p").unwrap().state, ProcessState::Active);
    assert_eq!(q.apply_slot_check("p", Some(95), &seen(100, 100), t(121)), Ok(true));
    let r = q.get_process("p").unwrap();
    assert_eq!(r.state, ProcessState::Synced);
    assert_eq!(r.synced_at, Some(t(121)));
    assert_eq!(r.computed_slot, Some(100));
    assert_eq!(r.current_slot, Some(100));
    assert_eq!(r.metrics.check_count, 3);
    assert_eq!(r.metrics.total_slots_advanced, 10);
    assert_eq!(r.metrics.avg_sync_rate, SyncRate { slots: 10, seconds: 120 });
    assert_eq!(r.metrics.api_response_times, vec![3, 4, 3, 4]);
    assert_eq!(q.get_status(), (0, 1, 1));
    assert_eq!(q.activate_next_at(t(122)).unwrap().process_id, "w");
}

#[test]
fn regression_is_reported_and_state_stays_synced() {
    let mut q = one_active();
    assert_eq!(q.apply_slot_check("p", None, &seen(100, 100), t(5)), Ok(true));
    assert_eq!(q.get_process("p").unwrap().state, ProcessState::Synced);

    let again = q.apply_synced_recheck("p", &seen(100, 105), t(65)).unwrap();
    assert_eq!(again, Recheck { changed: true, regressed: true });
    let r = q.get_process("p").unwrap();
    assert_eq!(r.state, ProcessState::Synced);
    assert_eq!(r.current_slot, Some(105));
    assert_eq!(r.computed_slot, Some(100));
    assert_eq!(r.last_checked, Some(t(65)));
    assert_eq!(r.synced_at, Some(t(5)));
    assert_eq!(q.get_status(), (0, 1, 1));

    let same = q.apply_synced_recheck("p", &seen(100, 105), t(125)).unwrap();
    assert_eq!(same, Recheck { changed: false, regressed: true });
    let caught_up = q.apply_synced_recheck("p", &seen(105, 105), t(185)).unwrap();
    assert_eq!(caught_up, Recheck { changed: true, regressed: false });
}

#[test]
fn recheck_of_a_process_that_is_not_synced_reports_no_regression() {
    let mut q = one_active();
    let r = q.apply_synced_recheck("p", &seen(1, 9), t(1)).unwrap();
    assert_eq!(r, Recheck { changed: true, regressed: false });
    assert_eq!(q.get_process("p").unwrap().state, ProcessState::Active);
    assert_eq!(q.apply_synced_recheck("none", &seen(1, 9), t(1)), Err(QueueError::NotFound));
}

#[test]
fn slot_check_of_unknown_or_inactive_process() {
    let mut q = one_active();
    assert_eq!(q.apply_slot_check("none", None, &seen(1, 1), t(1)), Err(QueueError::NotFound));
    assert_eq!(q.apply_slot_check("w", None, &seen(4, 9), t(1)), Ok(false));
    assert_eq!(q.get_process("w").unwrap().computed_slot, Some(4));
    assert_eq!(q.apply_slot_check("w", Some(4), &seen(9, 9), t(2)), Err(QueueError::NotActive));
    let w = q.get_process("w").unwrap();
    assert_eq!(w.state, ProcessState::Queued);
    assert_eq!(w.computed_slot, Some(9));
    assert_eq!(w.queue_position, Some(0));
}

#[test]
fn initialization_steps_are_recorded() {
    let mut q = one_active();
    assert_eq!(q.apply_initialized("none"), Err(QueueError::NotFound));
    assert_eq!(q.apply_initialized("p"), Ok(()));
    assert!(q.get_process("p").unwrap().cron_initialized);
    assert_eq!(q.apply_first_check("none", &seen(1, 2), t(1)), Err(QueueError::NotFound));
    assert_eq!(q.apply_first_check("p", &seen(7, 9), t(3)), Ok(()));
    let r = q.get_process("p").unwrap();
    assert_eq!(r.metrics.initial_slot_deficit, Some(2));
    assert_eq!(r.metrics.sync_start_time, Some(t(3)));
    assert_eq!(r.state, ProcessState::Active);
}

#[test]
fn failed_initialization_is_marked_by_the_caller() {
    let mut q = one_active();
    assert_eq!(q.get_process("p").unwrap().state, ProcessState::Active);
    assert!(!q.get_process("p").unwrap().cron_initialized);
    q.mark_error("p", "HTTP 500".to_string()).unwrap();
    assert_eq!(q.get_process("p").unwrap().state, ProcessState::Error);
    q.restart_process("p").unwrap();
    assert_eq!(q.activate_next_at(t(9)).unwrap().process_id, "w");
}

#[test]
fn queue_prefetch_records_the_live_head() {
    let mut q = one_active();
    assert_eq!(q.apply_queue_slot("w", 500, t(7)), Ok(()));
    let w = q.get_process("w").unwrap();
    assert_eq!(w.current_slot, Some(500));
    assert_eq!(w.last_checked, Some(t(7)));
    assert_eq!(w.state, ProcessState::Queued);
    assert_eq!(q.apply_queue_slot("none", 1, t(7)), Err(QueueError::NotFound));
}

#[test]
fn reserves_are_recorded_per_source() {
    let mut q = one_active();
    let mut hb = ReserveMap::new();
    hb.insert("k".to_string(), "1".to_string());
    let r = q.apply_reserves("p", ReservesResult { hb_reserves: Some(hb), ao_reserves: None }, t(2));
    assert_eq!(r, Ok(()));
    let p = q.get_process("p").unwrap();
    assert_eq!(p.hb_reserves.unwrap().len(), 1);
    assert!(p.ao_reserves.is_none());
    assert_eq!(p.reserves_last_checked, Some(t(2)));
    assert_eq!(
        q.apply_reserves("none", ReservesResult { hb_reserves: None, ao_reserves: None }, t(2)),
        Err(QueueError::NotFound)
    );
}

#[test]
fn cron_check_marks_synced_when_active() {
    let mut q = one_active();
    q.apply_first_check("p", &seen(10, 50), t(0)).unwrap();
    assert_eq!(q.apply_cron_check("p", 1_000_000, &seen(30, 50), t(1600)), Ok(false));
    let r = q.get_process("p").unwrap();
    assert_eq!(r.cron_created_at, Some(t(1000)));
    assert_eq!(r.metrics.total_slots_advanced, 20);
    assert_eq!(r.metrics.avg_sync_rate, SyncRate { slots: 20, seconds: 600 });
    assert_eq!(q.apply_cron_check("p", 1_000_000, &seen(50, 50), t(1700)), Ok(true));
    assert_eq!(q.get_process("p").unwrap().state, ProcessState::Synced);
    assert_eq!(q.apply_cron_check("p", 1_000_000, &seen(51, 51), t(1800)), Ok(false));
    assert_eq!(q.get_process("p").unwrap().state, ProcessState::Synced);
    assert_eq!(q.apply_cron_check("w", 1_000_000, &seen(5, 5), t(1800)), Ok(false));
    assert_eq!(q.get_process("w").unwrap().state, ProcessState::Queued);
    assert_eq!(q.apply_cron_check("none", 0, &seen(5, 5), t(1)), Err(QueueError::NotFound));
}

#[test]
fn cron_creation_time_comes_from_milliseconds() {
    assert_eq!(cron_created_at(0), Some(Timestamp { secs: 0, nanos: 0 }));
    assert_eq!(cron_created_at(1_500), Some(Timestamp { secs: 1, nanos: 500_000_000 }));
    assert_eq!(
        cron_created_at(1_700_000_000_123),
        Some(Timestamp { secs: 1_700_000_000, nanos: 123_000_000 })
    );
    assert_eq!(cron_created_at(u64::MAX), Some(Timestamp { secs: -1, nanos: 999_000_000 }));
    assert_eq!(cron_created_at(i64::MAX as u64), None);
    assert_eq!(cron_created_at(1u64 << 63), None);
}

#[test]
fn cron_target_is_a_registered_process() {
    let q = one_active();
    let item = |path: &str| CronItem {
        created_at: 0,
        path: path.to_string(),
        pid: "pid".to_string(),
        task_id: "task".to_string(),
        cron_type: "once".to_string(),
    };
    assert_eq!(q.cron_target(&item("/p~process@1.0/now")).as_deref(), Some("p"));
    assert_eq!(q.cron_target(&item("/w")).as_deref(), Some("w"));
    assert_eq!(q.cron_target(&item("/x~process@1.0/now")), None);
    assert_eq!(q.cron_target(&item("p~process@1.0/now")), None);
    assert_eq!(q.cron_target(&item("")), None);
}

#[test]
fn only_initialized_active_processes_are_polled() {
    let mut q = QueueManager::new(2);
    for id in ["a", "b", "c"] {
        q.add_to_queue(watch(id)).unwrap();
    }
    q.activate_next_at(t(0)).unwrap();
    q.activate_next_at(t(0)).unwrap();
    assert!(q.get_processes_to_poll().is_empty());
    q.apply_initialized("b").unwrap();
    q.apply_initialized("c").unwrap();
    let due: Vec<String> = q.get_processes_to_poll().into_iter().map(|r| r.process_id).collect();
    assert_eq!(due, vec!["b"]);
    q.apply_initialized("a").unwrap();
    q.mark_synced_at("b", t(1)).unwrap();
    let due: Vec<String> = q.get_processes_to_poll().into_iter().map(|r| r.process_id).collect();
    assert_eq!(due, vec!["a"]);
}
