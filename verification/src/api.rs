//! What the operator-facing surface computes from the registry: the
//! answers to its requests and the reconciliation with a list of desired
//! processes at startup.
use crate::model::{lemma_record_ids, record_ids, QueueView};
use crate::models::{
    text_opt, AddProcessRequest, ApiResponse, ApiStatus, ConfigView, ProcessConfig,
};
use crate::queue::{config_views, status_views, QueueError, QueueManager};
use crate::text::{find_text, text_views};
use vstd::prelude::*;
use vstd::string::StringExecFns;

verus! {

/// How many processes of the preview and of the recently synced the status
/// summary shows.
pub const SUMMARY_LIMIT: usize = 10;

/// How a reconciliation went: how many configurations were registered anew,
/// how many named a process that was registered before, and how many were
/// turned down because the list had named their id before.
#[derive(Clone, Copy, Debug, PartialEq, Eq, Structural)]
pub struct ReconcileSummary {
    pub added: usize,
    pub existing: usize,
    pub rejected: usize,
}

/// The registry after one configuration of a desired list was reconciled.
/// `initial` is the registry as it was before the list was read: a process
/// that it knew takes name and endpoint from the configuration and keeps
/// its progress; an unknown one is registered, unless the list has named it
/// before.
pub open spec fn reconcile_one(initial: QueueView, q: QueueView, c: ConfigView) -> QueueView {
    if initial.contains(c.process_id) {
        q.reconfigure(c.process_id, c.name, c.base_url)
    } else if q.contains(c.process_id) {
        q
    } else {
        q.enqueue(c)
    }
}

/// The registry after a list of desired configurations was reconciled, in
/// the order of the list.
pub open spec fn reconciled(initial: QueueView, configs: Seq<ConfigView>) -> QueueView
    decreases configs.len(),
{
    if configs.len() == 0 {
        initial
    } else {
        reconcile_one(initial, reconciled(initial, configs.drop_last()), configs.last())
    }
}

/// How many configurations of a list were registered anew.
pub open spec fn added_count(initial: QueueView, configs: Seq<ConfigView>) -> nat
    decreases configs.len(),
{
    if configs.len() == 0 {
        0
    } else {
        let c = configs.last();
        added_count(initial, configs.drop_last()) + if !initial.contains(c.process_id)
            && !reconciled(initial, configs.drop_last()).contains(c.process_id) {
            1nat
        } else {
            0nat
        }
    }
}

/// How many configurations of a list named a process that was registered
/// before.
pub open spec fn existing_count(initial: QueueView, configs: Seq<ConfigView>) -> nat
    decreases configs.len(),
{
    if configs.len() == 0 {
        0
    } else {
        existing_count(initial, configs.drop_last()) + if initial.contains(
            configs.last().process_id,
        ) {
            1nat
        } else {
            0nat
        }
    }
}

/// Reconciles the registry with a list of desired configurations, as at
/// startup: a process that was registered before the list was read takes
/// name and endpoint from it and keeps its progress; every other one is
/// registered at the tail of the queue, once.
pub fn reconcile(queue: &mut QueueManager, configs: &Vec<ProcessConfig>) -> (r: ReconcileSummary)
    requires
        old(queue)@.wf(),
    ensures
        final(queue)@.wf(),
        final(queue)@ == reconciled(old(queue)@, config_views(configs@)),
        r.added == added_count(old(queue)@, config_views(configs@)),
        r.existing == existing_count(old(queue)@, config_views(configs@)),
        r.added + r.existing + r.rejected == configs@.len(),
        old(queue)@.within_limit() ==> final(queue)@.within_limit(),
{
    let known = queue.process_ids();
    let ghost initial = queue@;
    let ghost wanted = config_views(configs@);
    let mut added: usize = 0;
    let mut existing: usize = 0;
    let mut rejected: usize = 0;
    let mut i: usize = 0;
    proof {
        assert(wanted.take(0) =~= Seq::empty());
    }
    while i < configs.len()
        invariant
            i <= configs@.len(),
            initial == old(queue)@,
            wanted == config_views(configs@),
            text_views(known@) == record_ids(initial.records),
            queue@.wf(),
            queue@ == reconciled(initial, wanted.take(i as int)),
            added == added_count(initial, wanted.take(i as int)),
            existing == existing_count(initial, wanted.take(i as int)),
            added + existing + rejected == i,
            initial.within_limit() ==> queue@.within_limit(),
        decreases configs@.len() - i,
    {
        let config = configs[i].clone();
        proof {
            assert(wanted.take(i + 1).drop_last() == wanted.take(i as int));
            assert(wanted.take(i + 1).last() == config@);
            lemma_record_ids(initial.records, config@.process_id);
        }
        if find_text(&known, &config.process_id).is_some() {
            existing += 1;
            queue.update_process_config(config.process_id.as_str(), config.name, config.base_url);
        } else {
            match queue.add_to_queue(config) {
                Ok(()) => {
                    added += 1;
                },
                Err(_) => {
                    rejected += 1;
                },
            }
        }
        i += 1;
    }
    proof {
        assert(wanted.take(configs@.len() as int) == wanted);
    }
    ReconcileSummary { added, existing, rejected }
}

/// The text that tells an operator that a process was added.
pub open spec fn added_text(process_id: Seq<char>) -> Seq<char> {
    "Process "@ + process_id + " added to queue"@
}

/// The text that tells an operator that a process was restarted.
pub open spec fn restarted_text(process_id: Seq<char>) -> Seq<char> {
    "Process "@ + process_id + " restarted"@
}

/// Handles a request to track one more process: registers it and answers
/// with a confirmation, or with the error where the id is registered
/// already.
pub fn add_process(queue: &mut QueueManager, request: AddProcessRequest) -> (r: ApiResponse<String>)
    requires
        old(queue)@.wf(),
    ensures
        final(queue)@.wf(),
        r.success == !old(queue)@.contains(request.process_id@),
        r.success ==> final(queue)@ == old(queue)@.enqueue(
            ConfigView {
                name: request.name@,
                process_id: request.process_id@,
                base_url: text_opt(request.base_url),
            },
        ) && text_opt(r.data) == Some(added_text(request.process_id@)) && r.error is None,
        !r.success ==> final(queue)@ == old(queue)@ && r.data is None && text_opt(r.error) == Some(
            QueueError::Duplicate.message(request.process_id@),
        ),
        old(queue)@.within_limit() ==> final(queue)@.within_limit(),
{
    let id = request.process_id.clone();
    proof {
        if !old(queue)@.contains(request.process_id@) {
            let c = ConfigView {
                name: request.name@,
                process_id: request.process_id@,
                base_url: text_opt(request.base_url),
            };
            let grown = old(queue)@.enqueue(c);
            assert(grown.records.drop_last() == old(queue)@.records);
        }
    }
    match queue.add_to_queue(request.into_config()) {
        Ok(()) => ApiResponse::ok(
            String::from_str("Process ").concat(id.as_str()).concat(" added to queue"),
        ),
        Err(e) => ApiResponse::failure(e.describe(id.as_str())),
    }
}

/// Handles a request to restart a process: restarts it and answers with a
/// confirmation, or with the error where the id is unknown.
pub fn restart(queue: &mut QueueManager, process_id: &str) -> (r: ApiResponse<String>)
    requires
        old(queue)@.wf(),
    ensures
        final(queue)@.wf(),
        final(queue)@ == old(queue)@.restart(process_id@),
        r.success == old(queue)@.contains(process_id@),
        r.success ==> text_opt(r.data) == Some(restarted_text(process_id@)) && r.error is None,
        !r.success ==> r.data is None && text_opt(r.error) == Some(
            QueueError::NotFound.message(process_id@),
        ),
        old(queue)@.within_limit() ==> final(queue)@.within_limit(),
{
    match queue.restart_process(process_id) {
        Ok(()) => ApiResponse::ok(
            String::from_str("Process ").concat(process_id).concat(" restarted"),
        ),
        Err(e) => ApiResponse::failure(e.describe(process_id)),
    }
}

/// The status summary: the sizes of the active index, the queue and the
/// synced index and their sum, the running time handed in, the active
/// records, the head of the queue and the most recently synced records.
pub fn status(queue: &QueueManager, runtime_seconds: u64) -> (r: ApiStatus)
    requires
        queue@.wf(),
    ensures
        r.active_count == queue@.active_count(),
        r.queued_count == queue@.queue.len(),
        r.synced_count == queue@.synced_count(),
        r.total_count == r.active_count + r.queued_count + r.synced_count,
        r.runtime_seconds == runtime_seconds,
        status_views(r.active_processes@) == queue@.records_in(crate::models::ProcessState::Active),
        status_views(r.queue_preview@) == queue@.preview(SUMMARY_LIMIT),
        status_views(r.recent_synced@) == queue@.recent_synced(SUMMARY_LIMIT),
{
    let (active_count, queued_count, synced_count) = queue.get_status();
    let registered = queue.process_count();
    proof {
        queue@.lemma_sizes();
    }
    ApiStatus {
        active_count,
        queued_count,
        synced_count,
        total_count: active_count + queued_count + synced_count,
        runtime_seconds,
        active_processes: queue.get_active_processes(),
        queue_preview: queue.get_queue_preview(SUMMARY_LIMIT),
        recent_synced: queue.get_recent_synced(SUMMARY_LIMIT),
    }
}

} // verus!
