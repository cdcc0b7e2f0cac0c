//! What holds of the registry whatever is done to it, proved on its model.
use crate::hyperbeam::SlotCheckResult;
use crate::model::{count_in_state, index_of, QueueView};
use crate::models::{ConfigView, MetricsView, ProcessState, StatusView, LATENCY_WINDOW};
use crate::time::Timestamp;
use vstd::prelude::*;

verus! {

/// One operation on the registry.
pub enum Step {
    /// Register a process; an id that is registered already is turned down.
    Enqueue(ConfigView),
    /// Try to admit the head of the queue at an instant.
    ActivateNext(Timestamp),
    /// Mark a process synced at an instant.
    MarkSynced(Seq<char>, Timestamp),
    /// Mark a process failed, with a reason.
    MarkError(Seq<char>, Seq<char>),
    /// Restart a process.
    Restart(Seq<char>),
    /// Rename a process and give it an endpoint.
    Reconfigure(Seq<char>, Seq<char>, Option<Seq<char>>),
    /// Overwrite the free fields of a record.
    Overwrite(Seq<char>, StatusView),
}

/// The registry after one operation.
pub open spec fn step(q: QueueView, s: Step) -> QueueView {
    match s {
        Step::Enqueue(config) => if q.contains(config.process_id) {
            q
        } else {
            q.enqueue(config)
        },
        Step::ActivateNext(now) => q.activate_next(now),
        Step::MarkSynced(id, now) => q.mark_synced(id, now),
        Step::MarkError(id, reason) => q.mark_error(id, reason),
        Step::Restart(id) => q.restart(id),
        Step::Reconfigure(id, name, base_url) => q.reconfigure(id, name, base_url),
        Step::Overwrite(id, update) => q.overwrite(id, update),
    }
}

/// The registry after a sequence of operations, applied in order.
pub open spec fn run(q: QueueView, steps: Seq<Step>) -> QueueView
    decreases steps.len(),
{
    if steps.len() == 0 {
        q
    } else {
        step(run(q, steps.drop_last()), steps.last())
    }
}

/// The registry after admission was tried at each of the instants, in
/// order.
pub open spec fn after_admissions(q: QueueView, times: Seq<Timestamp>) -> QueueView
    decreases times.len(),
{
    if times.len() == 0 {
        q
    } else {
        after_admissions(q, times.drop_last()).activate_next(times.last())
    }
}

/// The registry after the configurations were registered, in order.
pub open spec fn enqueue_all(q: QueueView, configs: Seq<ConfigView>) -> QueueView
    decreases configs.len(),
{
    if configs.len() == 0 {
        q
    } else {
        enqueue_all(q, configs.drop_last()).enqueue(configs.last())
    }
}

/// One operation keeps a well-formed registry well formed and within its
/// limit, and lengthens the queue by at most one entry.
pub proof fn lemma_step_keeps_invariant(q: QueueView, s: Step)
    requires
        q.wf(),
        q.within_limit(),
        q.queue.len() < usize::MAX,
    ensures
        step(q, s).wf(),
        step(q, s).within_limit(),
        step(q, s).limit == q.limit,
        step(q, s).queue.len() <= q.queue.len() + 1,
{
    match s {
        Step::Enqueue(config) => {
            if !q.contains(config.process_id) {
                q.lemma_enqueue_wf(config);
            }
        },
        Step::ActivateNext(now) => {
            q.lemma_activate_next_wf(now);
        },
        Step::MarkSynced(id, now) => {
            q.lemma_mark_synced_wf(id, now);
        },
        Step::MarkError(id, reason) => {
            q.lemma_mark_error_wf(id, reason);
        },
        Step::Restart(id) => {
            if q.contains(id) {
                q.lemma_record(id);
                assert(q.position_sound(q.records[index_of(q.records, id)]));
            }
            q.lemma_restart_wf(id);
        },
        Step::Reconfigure(id, name, base_url) => {
            q.lemma_reconfigure_wf(id, name, base_url);
        },
        Step::Overwrite(id, update) => {
            q.lemma_overwrite_wf(id, update);
        },
    }
}

/// Whatever sequence of operations is applied to a well-formed registry
/// that is within its limit, the registry stays well formed and the active
/// index never outgrows the limit.
pub proof fn lemma_limit_holds(q: QueueView, steps: Seq<Step>)
    requires
        q.wf(),
        q.within_limit(),
        q.queue.len() + steps.len() <= usize::MAX,
    ensures
        run(q, steps).wf(),
        run(q, steps).within_limit(),
        run(q, steps).limit == q.limit,
        run(q, steps).active_count() <= q.limit,
        run(q, steps).queue.len() <= q.queue.len() + steps.len(),
    decreases steps.len(),
{
    if steps.len() > 0 {
        lemma_limit_holds(q, steps.drop_last());
        lemma_step_keeps_invariant(run(q, steps.drop_last()), steps.last());
    }
}

/// Starting from an empty registry, no sequence of operations takes the
/// active index beyond the configured limit.
pub proof fn lemma_limit_holds_from_start(limit: usize, steps: Seq<Step>)
    requires
        steps.len() <= usize::MAX,
    ensures
        run(QueueView::empty(limit), steps).wf(),
        run(QueueView::empty(limit), steps).active_count() <= limit,
{
    QueueView::lemma_empty_wf(limit);
    lemma_limit_holds(QueueView::empty(limit), steps);
}

/// Admissions take the queue from its head, one process each: while the
/// limit leaves room, the admission after `j` earlier ones hands out the
/// entry that stood at place `j`, and the rest of the queue keeps its order.
pub proof fn lemma_admissions_in_order(q: QueueView, times: Seq<Timestamp>)
    requires
        q.wf(),
        q.active_count() + times.len() <= q.limit,
        times.len() <= q.queue.len(),
    ensures
        after_admissions(q, times).wf(),
        after_admissions(q, times).limit == q.limit,
        after_admissions(q, times).queue == q.queue.skip(times.len() as int),
        after_admissions(q, times).active_count() == q.active_count() + times.len(),
        forall|j: int|
            0 <= j < times.len() ==> (#[trigger] after_admissions(q, times.take(j))).admitted()
                == Some(q.queue[j]),
    decreases times.len(),
{
    if times.len() == 0 {
        assert(q.queue.skip(0) =~= q.queue);
    } else {
        let front = times.drop_last();
        let before = after_admissions(q, front);
        lemma_admissions_in_order(q, front);
        before.lemma_activate_next_wf(times.last());
        assert(before.can_admit());
        assert(before.queue.drop_first() =~= q.queue.skip(times.len() as int));
        assert forall|j: int| 0 <= j < times.len() implies (#[trigger] after_admissions(
            q,
            times.take(j),
        )).admitted() == Some(q.queue[j]) by {
            if j < front.len() {
                assert(times.take(j) =~= front.take(j));
            } else {
                assert(times.take(j) =~= front);
            }
        }
    }
}

/// Registering new processes appends them to the queue in the order in
/// which they were submitted, and adds nobody to the active index.
pub proof fn lemma_enqueue_all(q: QueueView, configs: Seq<ConfigView>)
    requires
        q.wf(),
        q.queue.len() + configs.len() <= usize::MAX,
        forall|i: int| 0 <= i < configs.len() ==> !q.contains((#[trigger] configs[i]).process_id),
        forall|i: int, j: int|
            0 <= i < j < configs.len() ==> (#[trigger] configs[i]).process_id != (
            #[trigger] configs[j]).process_id,
    ensures
        enqueue_all(q, configs).wf(),
        enqueue_all(q, configs).limit == q.limit,
        enqueue_all(q, configs).queue == q.queue + configs,
        enqueue_all(q, configs).active_count() == q.active_count(),
        forall|id: Seq<char>|
            enqueue_all(q, configs).contains(id) <==> q.contains(id) || exists|i: int|
                0 <= i < configs.len() && (#[trigger] configs[i]).process_id == id,
    decreases configs.len(),
{
    if configs.len() == 0 {
        assert(q.queue + configs =~= q.queue);
    } else {
        let front = configs.drop_last();
        let before = enqueue_all(q, front);
        let last = configs.last();
        lemma_enqueue_all(q, front);
        assert(!before.contains(last.process_id)) by {
            if before.contains(last.process_id) {
                assert(!q.contains(configs[configs.len() - 1].process_id));
                let i = choose|i: int|
                    0 <= i < front.len() && (#[trigger] front[i]).process_id == last.process_id;
                assert(configs[i].process_id != configs[configs.len() - 1].process_id);
            }
        }
        before.lemma_enqueue_wf(last);
        let after = before.enqueue(last);
        assert(after.queue =~= q.queue + configs);
        assert forall|id: Seq<char>| after.contains(id) <==> q.contains(id) || exists|i: int|
            0 <= i < configs.len() && (#[trigger] configs[i]).process_id == id by {
            if after.contains(id) {
                let a = choose|a: int|
                    0 <= a < after.records.len() && (#[trigger] after.records[a]).process_id == id;
                if a < before.records.len() {
                    assert(before.records[a].process_id == id);
                    assert(before.contains(id));
                    if !q.contains(id) {
                        let i = choose|i: int|
                            0 <= i < front.len() && (#[trigger] front[i]).process_id == id;
                        assert(configs[i].process_id == id);
                    }
                } else {
                    assert(configs[configs.len() - 1].process_id == id);
                }
            }
            if q.contains(id) || exists|i: int|
                0 <= i < configs.len() && (#[trigger] configs[i]).process_id == id {
                if q.contains(id) {
                    assert(before.contains(id));
                    let a = choose|a: int|
                        0 <= a < before.records.len() && (#[trigger] before.records[a]).process_id
                            == id;
                    assert(after.records[a].process_id == id);
                } else {
                    let i = choose|i: int|
                        0 <= i < configs.len() && (#[trigger] configs[i]).process_id == id;
                    if i < front.len() {
                        assert(front[i].process_id == id);
                        assert(before.contains(id));
                        let a = choose|a: int|
                            0 <= a < before.records.len() && (
                            #[trigger] before.records[a]).process_id == id;
                        assert(after.records[a].process_id == id);
                    } else {
                        assert(after.records[after.records.len() - 1].process_id == id);
                    }
                }
            }
        }
    }
}

/// First in, first out: processes that are registered one after another
/// onto an empty queue are admitted in the order in which they were
/// submitted, one per admission, as long as the limit leaves room.
pub proof fn lemma_fifo(q: QueueView, configs: Seq<ConfigView>, times: Seq<Timestamp>)
    requires
        q.wf(),
        q.queue.len() == 0,
        configs.len() <= usize::MAX,
        forall|i: int| 0 <= i < configs.len() ==> !q.contains((#[trigger] configs[i]).process_id),
        forall|i: int, j: int|
            0 <= i < j < configs.len() ==> (#[trigger] configs[i]).process_id != (
            #[trigger] configs[j]).process_id,
        times.len() <= configs.len(),
        q.active_count() + times.len() <= q.limit,
    ensures
        forall|j: int|
            0 <= j < times.len() ==> (#[trigger] after_admissions(
                enqueue_all(q, configs),
                times.take(j),
            )).admitted() == Some(configs[j]),
{
    lemma_enqueue_all(q, configs);
    let filled = enqueue_all(q, configs);
    assert(filled.queue =~= configs);
    lemma_admissions_in_order(filled, times);
}

/// After an admission attempt the queued records and the queue entries
/// still correspond one to one: the record of the entry at place `k` is
/// queued and holds position `k`, and a record that is not queued holds no
/// position. So the positions are exactly `0..n-1`, in FIFO order.
pub proof fn lemma_positions_after_admission(q: QueueView, now: Timestamp)
    requires
        q.wf(),
    ensures
        ({
            let next = q.activate_next(now);
            &&& next.wf()
            &&& forall|k: int|
                0 <= k < next.queue.len() ==> next.contains((#[trigger] next.queue[k]).process_id)
                    && next.record(next.queue[k].process_id).state == ProcessState::Queued
                    && next.record(next.queue[k].process_id).queue_position == Some(k as usize)
            &&& forall|i: int|
                0 <= i < next.records.len() ==> ((#[trigger] next.records[i]).queue_position is Some
                    <==> next.records[i].state == ProcessState::Queued)
            &&& forall|i: int|
                0 <= i < next.records.len() && (#[trigger] next.records[i]).state
                    == ProcessState::Queued ==> next.records[i].queue_position->0
                    < next.queue.len() && next.queue[next.records[i].queue_position->0 as int].process_id
                    == next.records[i].process_id
        }),
{
    q.lemma_activate_next_wf(now);
    let next = q.activate_next(now);
    next.lemma_positions();
}

/// A restart resets the record whatever state it was in: afterwards it is
/// queued, has no error, its metrics are the initial ones, and it stands at
/// the tail of the queue with the position of that place.
pub proof fn lemma_restart_resets(q: QueueView, id: Seq<char>)
    requires
        q.wf(),
        q.contains(id),
        q.restart(id).queue.len() <= usize::MAX,
    ensures
        ({
            let next = q.restart(id);
            &&& next.wf()
            &&& next.contains(id)
            &&& next.record(id).state == ProcessState::Queued
            &&& next.record(id).error is None
            &&& next.record(id).metrics == MetricsView::initial()
            &&& next.record(id).cron_initialized == false
            &&& next.record(id).activated_at is None
            &&& next.record(id).synced_at is None
            &&& next.queue.len() > 0
            &&& next.queue.last().process_id == id
            &&& next.record(id).queue_position == Some((next.queue.len() - 1) as usize)
            &&& next.record(id).name == q.record(id).name
            &&& next.record(id).computed_slot == q.record(id).computed_slot
            &&& next.record(id).current_slot == q.record(id).current_slot
        }),
{
    q.lemma_restart_wf(id);
    q.lemma_record(id);
    let next = q.restart(id);
    let t = index_of(q.records, id);
    assert(next.records[t].process_id == id);
    next.lemma_record(id);
}

/// The total of slots advanced never goes down: a slot check adds the
/// forward progress of the computed slot, and nothing where the slot stood
/// still or fell back.
pub proof fn lemma_total_never_decreases(
    r: StatusView,
    previous: Option<u64>,
    created: Option<Timestamp>,
    result: SlotCheckResult,
    now: Timestamp,
)
    ensures
        r.after_slot_check(previous, result, now).metrics.total_slots_advanced
            >= r.metrics.total_slots_advanced,
        r.after_cron_check(created, result, now).metrics.total_slots_advanced
            >= r.metrics.total_slots_advanced,
        r.after_first_check(result, now).metrics.total_slots_advanced
            == r.metrics.total_slots_advanced,
        r.with_slots(result, now).metrics.total_slots_advanced == r.metrics.total_slots_advanced,
        previous matches Some(p) && result.computed_slot <= p ==> r.after_slot_check(
            previous,
            result,
            now,
        ).metrics.total_slots_advanced == r.metrics.total_slots_advanced,
{
}

/// The initial deficit is captured once: a check that finds it recorded
/// leaves it and the start of syncing as they are.
pub proof fn lemma_initial_deficit_is_kept(
    r: StatusView,
    previous: Option<u64>,
    result: SlotCheckResult,
    now: Timestamp,
)
    requires
        r.metrics.initial_slot_deficit is Some,
    ensures
        r.after_slot_check(previous, result, now).metrics.initial_slot_deficit
            == r.metrics.initial_slot_deficit,
        r.after_slot_check(previous, result, now).metrics.sync_start_time
            == r.metrics.sync_start_time,
{
}

/// The latency window never holds more than its bound, and always ends
/// with the two samples of the latest check.
pub proof fn lemma_latency_window(
    r: StatusView,
    previous: Option<u64>,
    result: SlotCheckResult,
    now: Timestamp,
)
    requires
        r.metrics.api_response_times.len() <= LATENCY_WINDOW,
    ensures
        ({
            let after = r.after_slot_check(previous, result, now).metrics.api_response_times;
            &&& 2 <= after.len() <= LATENCY_WINDOW
            &&& after[after.len() - 2] == result.computed_response_time
            &&& after[after.len() - 1] == result.current_response_time
            &&& r.metrics.api_response_times.len() + 2 <= LATENCY_WINDOW ==> after
                == r.metrics.api_response_times.push(result.computed_response_time).push(
                result.current_response_time,
            )
        }),
{
}

/// A check that sees the slots equal moves an active process to the synced
/// index and touches no other process; a check that sees them differ moves
/// nobody.
pub proof fn lemma_equal_slots_sync(
    q: QueueView,
    id: Seq<char>,
    previous: Option<u64>,
    result: SlotCheckResult,
    now: Timestamp,
)
    requires
        q.wf(),
        q.in_state(id, ProcessState::Active),
    ensures
        q.after_slot_check(id, previous, result, now).wf(),
        q.after_slot_check(id, previous, result, now).contains(id),
        result.synced() ==> q.after_slot_check(id, previous, result, now).record(id).state
            == ProcessState::Synced && q.after_slot_check(id, previous, result, now).record(
            id,
        ).synced_at == Some(now) && q.after_slot_check(id, previous, result, now).active_count() + 1
            == q.active_count(),
        !result.synced() ==> q.after_slot_check(id, previous, result, now).record(id).state
            == ProcessState::Active && q.after_slot_check(id, previous, result, now).active_count()
            == q.active_count(),
{
    let update = q.record(id).after_slot_check(previous, result, now);
    let checked = q.overwrite(id, update);
    q.lemma_overwrite_wf(id, update);
    q.lemma_overwrite_keeps_state(id, update, id);
    if result.synced() {
        checked.lemma_mark_synced_wf(id, now);
        checked.lemma_record(id);
        let next = checked.mark_synced(id, now);
        let t = index_of(checked.records, id);
        assert(next.records[t].process_id == id);
        next.lemma_record(id);
    }
}

/// Admission never takes the active index beyond the limit, also where the
/// index was beyond it before, as it may be after a recovery: then nobody is
/// admitted.
pub proof fn lemma_admission_never_overshoots(q: QueueView, now: Timestamp)
    requires
        q.wf(),
    ensures
        q.activate_next(now).active_count() <= q.limit || q.activate_next(now) == q,
        q.active_count() >= q.limit ==> q.activate_next(now) == q && q.admitted() is None,
{
    q.lemma_activate_next_wf(now);
}

/// The indices agree with the states: the active index holds exactly the
/// records whose state is `Active`, the synced index exactly those whose
/// state is `Synced`, so that no record is in both and a queued or failed
/// record is in neither.
pub proof fn lemma_indices_follow_state(q: QueueView, state: ProcessState, r: StatusView)
    ensures
        q.records_in(state).contains(r) <==> q.records.contains(r) && r.state == state,
        q.records_in(state).len() == count_in_state(q.records, state),
{
    let wanted = |x: StatusView| x.state == state;
    if q.records_in(state).contains(r) {
        let i = choose|i: int| 0 <= i < q.records_in(state).len() && q.records_in(state)[i] == r;
        q.records.lemma_filter_pred(wanted, i);
        q.records.lemma_filter_contains_rev(wanted, r);
    }
    if q.records.contains(r) && r.state == state {
        let i = choose|i: int| 0 <= i < q.records.len() && q.records[i] == r;
        q.records.lemma_filter_contains(wanted, i);
    }
    lemma_count_is_filter(q.records, state);
}

/// Counting the records in a state is measuring the records in that state.
pub proof fn lemma_count_is_filter(records: Seq<StatusView>, state: ProcessState)
    ensures
        records.filter(|x: StatusView| x.state == state).len() == count_in_state(records, state),
    decreases records.len(),
{
    reveal(Seq::filter);
    if records.len() > 0 {
        lemma_count_is_filter(records.drop_last(), state);
    }
}

} // verus!
