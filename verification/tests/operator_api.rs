use hydration_service::api::{add_process, reconcile, restart, status, ReconcileSummary};
use hydration_service::config::ServiceConfig;
use hydration_service::models::{AddProcessRequest, ApiResponse, ProcessConfig, ProcessState};
use hydration_service::queue::QueueManager;
use hydration_service::time::Timestamp;

fn desired(id: &str, name: &str, base: Option<&str>) -> ProcessConfig {
    ProcessConfig {
        name: name.to_string(),
        process_id: id.to_string(),
        base_url: base.map(|b| b.to_string()),
    }
}

fn moment(secs: i64) -> Timestamp {
    Timestamp { secs, nanos: 0 }
}

#[test]
fn default_settings() {
    let c = ServiceConfig::default();
    assert_eq!(c.server.port, 8080);
    assert_eq!(c.server.host, "0.0.0.0");
    assert_eq!(c.hyperbeam.base_url, "http://65.108.7.125:8734");
    assert_eq!(c.ao.cu_url, "https://cu.ao-testnet.xyz");
    assert_eq!(c.monitoring.cron_list_interval, 15);
    assert_eq!(c.monitoring.queue_slots_interval, 30);
    assert_eq!(c.monitoring.synced_pools_interval, 60);
    assert_eq!(c.monitoring.monitor_loop_interval, 15);
    assert_eq!(c.monitoring.queue_slots_delay, 10);
    assert_eq!(c.limits.max_active_processes, 5);
    assert_eq!(c.limits.queue_preview_limit, 10);
    assert_eq!(c.limits.queue_check_limit, 20);
    assert_eq!(c.ui.refresh_interval, 5);
    assert_eq!(c.logging.level, "info");
    assert_eq!(c.logging.format, "full");
}

#[test]
fn add_request_answers_with_confirmation_or_error() {
    let mut q = QueueManager::new(1);
    let first = add_process(
        &mut q,
        AddProcessRequest {
            name: "Pool".to_string(),
            process_id: "pool-a".to_string(),
            base_url: Some("http://x".to_string()),
        },
    );
    assert!(first.success);
    assert_eq!(first.data.as_deref(), Some("Process pool-a added to queue"));
    assert_eq!(first.error, None);
    assert_eq!(q.queued_configs()[0].base_url.as_deref(), Some("http://x"));
    assert_eq!(q.get_process("pool-a").unwrap().name, "Pool");

    let second = add_process(
        &mut q,
        AddProcessRequest { name: "Again".to_string(), process_id: "pool-a".to_string(), base_url: None },
    );
    assert!(!second.success);
    assert_eq!(second.data, None);
    assert_eq!(second.error.as_deref(), Some("Process pool-a already exists"));
    assert_eq!(q.process_count(), 1);
}

#[test]
fn restart_request_answers_with_confirmation_or_error() {
    let mut q = QueueManager::new(1);
    q.add_to_queue(desired("pool-a", "n", None)).unwrap();
    q.activate_next_at(moment(1)).unwrap();
    let ok = restart(&mut q, "pool-a");
    assert!(ok.success);
    assert_eq!(ok.data.as_deref(), Some("Process pool-a restarted"));
    assert_eq!(q.get_process("pool-a").unwrap().state, ProcessState::Queued);
    let missing = restart(&mut q, "pool-b");
    assert!(!missing.success);
    assert_eq!(missing.data, None);
    assert_eq!(missing.error.as_deref(), Some("Process pool-b not found"));
}

#[test]
fn response_envelopes() {
    let ok: ApiResponse<u8> = ApiResponse::ok(7);
    assert!(ok.success);
    assert_eq!(ok.data, Some(7));
    assert_eq!(ok.error, None);
    let bad: ApiResponse<u8> = ApiResponse::failure("no".to_string());
    assert!(!bad.success);
    assert_eq!(bad.data, None);
    assert_eq!(bad.error.as_deref(), Some("no"));
}

#[test]
fn request_becomes_a_configuration() {
    let c = AddProcessRequest {
        name: "n".to_string(),
        process_id: "i".to_string(),
        base_url: Some("b".to_string()),
    }
    .into_config();
    assert_eq!(c.name, "n");
    assert_eq!(c.process_id, "i");
    assert_eq!(c.base_url.as_deref(), Some("b"));
}

#[test]
fn status_summarises_the_registry() {
    let mut q = QueueManager::new(2);
    for i in 0..15 {
        q.add_to_queue(desired(&format!("p{:02}", i), "n", None)).unwrap();
    }
    q.activate_next_at(moment(1)).unwrap();
    q.activate_next_at(moment(2)).unwrap();
    q.mark_synced_at("p00", moment(3)).unwrap();
    q.activate_next_at(moment(4)).unwrap();
    q.mark_error("p01", "e".to_string()).unwrap();
    let s = status(&q, 321);
    assert_eq!(s.active_count, 1);
    assert_eq!(s.queued_count, 12);
    assert_eq!(s.synced_count, 1);
    assert_eq!(s.total_count, 14);
    assert_eq!(s.runtime_seconds, 321);
    assert_eq!(s.active_processes.len(), 1);
    assert_eq!(s.active_processes[0].process_id, "p02");
    assert_eq!(s.queue_preview.len(), 10);
    assert_eq!(s.queue_preview[0].process_id, "p03");
    assert_eq!(s.queue_preview[9].process_id, "p12");
    assert_eq!(s.recent_synced.len(), 1);
    assert_eq!(s.recent_synced[0].process_id, "p00");
}

#[test]
fn reconciliation_updates_known_and_enqueues_new() {
    let mut q = QueueManager::new(1);
    q.add_to_queue(desired("known", "old name", None)).unwrap();
    q.add_to_queue(desired("busy", "busy old", None)).unwrap();
    q.activate_next_at(moment(1)).unwrap();
    q.update_process_status("known", |r| r.computed_slot = Some(9)).unwrap();

    let summary = reconcile(
        &mut q,
        &vec![
            desired("new1", "first", Some("http://n1")),
            desired("known", "new name", Some("http://k")),
            desired("new1", "again", None),
            desired("busy", "busy new", Some("http://b")),
            desired("new2", "second", None),
        ],
    );
    assert_eq!(summary, ReconcileSummary { added: 2, existing: 2, rejected: 1 });

    let known = q.get_process("known").unwrap();
    assert_eq!(known.name, "new name");
    assert_eq!(known.state, ProcessState::Active);
    assert_eq!(known.computed_slot, Some(9));
    let busy = q.get_process("busy").unwrap();
    assert_eq!(busy.name, "busy new");
    assert_eq!(busy.queue_position, Some(0));
    assert_eq!(q.get_process("new1").unwrap().name, "first");

    let waiting = q.queued_configs();
    let ids: Vec<&str> = waiting.iter().map(|c| c.process_id.as_str()).collect();
    assert_eq!(ids, vec!["busy", "new1", "new2"]);
    assert_eq!(waiting[0].name, "busy new");
    assert_eq!(waiting[0].base_url.as_deref(), Some("http://b"));
    assert_eq!(waiting[1].base_url.as_deref(), Some("http://n1"));
    assert_eq!(q.get_status(), (1, 3, 0));
}

#[test]
fn reconciliation_with_nothing_desired_changes_nothing() {
    let mut q = QueueManager::new(1);
    q.add_to_queue(desired("a", "n", None)).unwrap();
    let summary = reconcile(&mut q, &vec![]);
    assert_eq!(summary, ReconcileSummary { added: 0, existing: 0, rejected: 0 });
    assert_eq!(q.get_status(), (0, 1, 0));
}
