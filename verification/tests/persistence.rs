use hydration_service::models::{
    PersistedProcess, ProcessConfig, ProcessMetricsData, ProcessState, ProcessStatusData, StateFile,
};
use hydration_service::queue::QueueManager;
use hydration_service::reserves::ReserveMap;
use hydration_service::state::{load_state, save_state, snapshot_at};
use hydration_service::time::{SyncRate, Timestamp};

fn wanted(id: &str) -> ProcessConfig {
    ProcessConfig { name: format!("name of {}", id), process_id: id.to_string(), base_url: None }
}

fn when(secs: i64) -> Timestamp {
    Timestamp { secs, nanos: 0 }
}

fn data(state: ProcessState) -> ProcessStatusData {
    ProcessStatusData {
        state,
        cron_initialized: true,
        computed_slot: Some(5),
        current_slot: Some(6),
        last_checked: Some(when(1)),
        synced_at: None,
        activated_at: Some(when(2)),
        metrics: ProcessMetricsData {
            initial_slot_deficit: Some(3),
            total_slots_advanced: 4,
            sync_start_time: Some(when(3)),
            sync_end_time: None,
            avg_sync_rate: SyncRate { slots: 4, seconds: 60 },
            check_count: 8,
        },
    }
}

fn entry(id: &str, state: ProcessState) -> PersistedProcess {
    PersistedProcess { process_id: id.to_string(), data: data(state) }
}

fn file(queued: &[&str], processes: Vec<PersistedProcess>) -> StateFile {
    StateFile {
        version: "2.0".to_string(),
        last_updated: when(0),
        queued_process_ids: queued.iter().map(|s| s.to_string()).collect(),
        active_process_ids: vec![],
        synced_process_ids: vec![],
        processes,
    }
}

fn line(q: &QueueManager) -> Vec<String> {
    q.queued_configs().into_iter().map(|c| c.process_id).collect()
}

fn busy_registry() -> QueueManager {
    let mut q = QueueManager::new(2);
    for id in ["s", "a", "q2", "e", "q1"] {
        q.add_to_queue(wanted(id)).unwrap();
    }
    q.activate_next_at(when(10)).unwrap();
    q.activate_next_at(when(11)).unwrap();
    q.mark_synced_at("s", when(12)).unwrap();
    q.restart_process("q2").unwrap();
    q.activate_next_at(when(13)).unwrap();
    q.mark_error("e", "failed".to_string()).unwrap();
    q.update_process_status("a", |r| {
        r.computed_slot = Some(70);
        r.current_slot = Some(90);
        r.cron_initialized = true;
        r.metrics.api_response_times = vec![5, 6];
        r.metrics.total_slots_advanced = 12;
        r.metrics.check_count = 3;
        let mut m = ReserveMap::new();
        m.insert("k".to_string(), "v".to_string());
        r.hb_reserves = Some(m.clone());
        r.ao_reserves = Some(m);
    })
    .unwrap();
    q
}

#[test]
fn snapshot_lists_every_index() {
    let q = busy_registry();
    let f = snapshot_at(&q, when(99));
    assert_eq!(f.version, "2.0");
    assert_eq!(f.last_updated, when(99));
    assert_eq!(f.queued_process_ids, vec!["q1", "q2"]);
    assert_eq!(f.active_process_ids, vec!["a"]);
    assert_eq!(f.synced_process_ids, vec!["s"]);
    let ids: Vec<&str> = f.processes.iter().map(|p| p.process_id.as_str()).collect();
    assert_eq!(ids, vec!["s", "a", "q2", "e", "q1"]);
    let a = &f.processes[1].data;
    assert_eq!(a.state, ProcessState::Active);
    assert!(a.cron_initialized);
    assert_eq!(a.computed_slot, Some(70));
    assert_eq!(a.current_slot, Some(90));
    assert_eq!(a.activated_at, Some(when(11)));
    assert_eq!(a.metrics.total_slots_advanced, 12);
    assert_eq!(a.metrics.check_count, 3);
    assert_eq!(f.processes[0].data.synced_at, Some(when(12)));
    assert_eq!(f.processes[3].data.state, ProcessState::Error);
}

#[test]
fn save_state_dates_the_snapshot() {
    let q = busy_registry();
    let f = save_state(&q);
    assert!(f.last_updated.secs > 1_600_000_000);
    assert_eq!(f.queued_process_ids, vec!["q1", "q2"]);
    assert_eq!(f.processes.len(), 5);
}

#[test]
fn round_trip_preserves_membership_state_slots_and_order() {
    let q = busy_registry();
    let f = snapshot_at(&q, when(99));
    let mut back = QueueManager::new(2);
    load_state(&mut back, &f);

    assert_eq!(back.process_ids(), q.process_ids());
    assert_eq!(back.get_status(), q.get_status());
    assert_eq!(line(&back), vec!["q1", "q2"]);
    for id in ["s", "a", "q2", "e", "q1"] {
        let was = q.get_process(id).unwrap();
        let is = back.get_process(id).unwrap();
        assert_eq!(is.state, was.state);
        assert_eq!(is.computed_slot, was.computed_slot);
        assert_eq!(is.current_slot, was.current_slot);
        assert_eq!(is.queue_position, was.queue_position);
        assert_eq!(is.cron_initialized, was.cron_initialized);
        assert_eq!(is.activated_at, was.activated_at);
        assert_eq!(is.synced_at, was.synced_at);
        assert_eq!(is.metrics.total_slots_advanced, was.metrics.total_slots_advanced);
        assert_eq!(is.metrics.check_count, was.metrics.check_count);
        assert!(is.metrics.api_response_times.is_empty());
        assert!(is.hb_reserves.is_none());
        assert!(is.ao_reserves.is_none());
        assert_eq!(is.error, None);
        assert_eq!(is.name, id);
    }
    assert_eq!(back.get_process("q1").unwrap().queue_position, Some(0));
    assert_eq!(back.get_process("q2").unwrap().queue_position, Some(1));
    assert_eq!(back.activate_next_at(when(100)).unwrap().process_id, "q1");
}

#[test]
fn round_trip_of_an_empty_registry() {
    let q = QueueManager::new(4);
    let f = snapshot_at(&q, when(1));
    assert!(f.queued_process_ids.is_empty());
    assert!(f.processes.is_empty());
    let mut back = QueueManager::new(4);
    load_state(&mut back, &f);
    assert_eq!(back.get_status(), (0, 0, 0));
    assert_eq!(back.process_count(), 0);
}

#[test]
fn recovered_record_takes_everything_persisted() {
    let mut q = QueueManager::new(1);
    load_state(&mut q, &file(&[], vec![entry("x", ProcessState::Synced)]));
    let r = q.get_process("x").unwrap();
    assert_eq!(r.name, "x");
    assert_eq!(r.state, ProcessState::Synced);
    assert!(r.cron_initialized);
    assert_eq!(r.computed_slot, Some(5));
    assert_eq!(r.current_slot, Some(6));
    assert_eq!(r.last_checked, Some(when(1)));
    assert_eq!(r.activated_at, Some(when(2)));
    assert_eq!(r.metrics.initial_slot_deficit, Some(3));
    assert_eq!(r.metrics.total_slots_advanced, 4);
    assert_eq!(r.metrics.sync_start_time, Some(when(3)));
    assert_eq!(r.metrics.avg_sync_rate, SyncRate { slots: 4, seconds: 60 });
    assert_eq!(r.metrics.check_count, 8);
    assert_eq!(r.metrics.slots_advanced_last_check, 0);
    assert_eq!(r.queue_position, None);
    assert_eq!(r.reserves_last_checked, None);
    assert_eq!(r.cron_created_at, None);
    assert_eq!(q.get_status(), (0, 0, 1));
}

#[test]
fn empty_list_falls_back_to_sorted_ids() {
    let mut q = QueueManager::new(1);
    let f = file(
        &[],
        vec![
            entry("pear", ProcessState::Queued),
            entry("apple", ProcessState::Queued),
            entry("busy", ProcessState::Active),
            entry("fig", ProcessState::Queued),
            entry("Zed", ProcessState::Queued),
        ],
    );
    load_state(&mut q, &f);
    assert_eq!(line(&q), vec!["Zed", "apple", "fig", "pear"]);
    assert_eq!(q.get_process("Zed").unwrap().queue_position, Some(0));
    assert_eq!(q.get_process("pear").unwrap().queue_position, Some(3));
    assert_eq!(q.get_process("busy").unwrap().queue_position, None);
    assert_eq!(q.get_status(), (1, 4, 0));
    let waiting = q.queued_configs();
    assert_eq!(waiting[1].name, "apple");
    assert_eq!(waiting[1].base_url, None);
}

#[test]
fn listed_order_wins_over_id_order() {
    let mut q = QueueManager::new(1);
    let f = file(
        &["pear", "apple"],
        vec![entry("apple", ProcessState::Queued), entry("pear", ProcessState::Queued)],
    );
    load_state(&mut q, &f);
    assert_eq!(line(&q), vec!["pear", "apple"]);
    assert_eq!(q.get_process("pear").unwrap().queue_position, Some(0));
    assert_eq!(q.get_process("apple").unwrap().queue_position, Some(1));
}

#[test]
fn inconsistent_snapshot_still_gives_a_sound_queue() {
    let mut q = QueueManager::new(1);
    let f = file(
        &["ghost", "b", "b", "act"],
        vec![
            entry("c", ProcessState::Queued),
            entry("b", ProcessState::Queued),
            entry("act", ProcessState::Active),
            entry("a", ProcessState::Queued),
            entry("b", ProcessState::Synced),
            entry("done", ProcessState::Synced),
        ],
    );
    load_state(&mut q, &f);
    assert_eq!(q.process_ids(), vec!["c", "b", "act", "a", "done"]);
    assert_eq!(line(&q), vec!["b", "act", "a", "c"]);
    assert_eq!(q.get_process("b").unwrap().state, ProcessState::Queued);
    assert_eq!(q.get_process("act").unwrap().state, ProcessState::Queued);
    assert_eq!(q.get_process("act").unwrap().queue_position, Some(1));
    assert_eq!(q.get_process("c").unwrap().queue_position, Some(3));
    assert_eq!(q.get_status(), (0, 4, 1));
    assert!(!q.contains("ghost"));
}

#[test]
fn loading_replaces_what_was_there() {
    let mut q = QueueManager::new(3);
    q.add_to_queue(wanted("old")).unwrap();
    load_state(&mut q, &file(&["new"], vec![entry("new", ProcessState::Queued)]));
    assert!(!q.contains("old"));
    assert_eq!(line(&q), vec!["new"]);
    assert_eq!(q.max_active(), 3);
}

#[test]
fn loading_trusts_persisted_state_beyond_the_limit() {
    let mut q = QueueManager::new(1);
    let f = file(
        &["w"],
        vec![
            entry("a1", ProcessState::Active),
            entry("a2", ProcessState::Active),
            entry("w", ProcessState::Queued),
        ],
    );
    load_state(&mut q, &f);
    assert_eq!(q.get_status(), (2, 1, 0));
    assert!(q.activate_next_at(when(1)).is_none());
    q.mark_synced_at("a1", when(2)).unwrap();
    assert!(q.activate_next_at(when(3)).is_none());
    q.mark_synced_at("a2", when(4)).unwrap();
    assert_eq!(q.activate_next_at(when(5)).unwrap().process_id, "w");
}
