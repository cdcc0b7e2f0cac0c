//! The snapshot in which the registry survives a restart of the service,
//! and the recovery of the registry from it.
use crate::model::{distinct_ids, has_id, index_of, lemma_index_of, record_ids, QueueView};
use crate::models::{
    persisted_views, ConfigView, PersistedProcess, PersistedView, ProcessConfig, ProcessState,
    ProcessStatus, StateFile, StateFileView, StatusView,
};
use crate::queue::{config_views, status_views, QueueManager};
use crate::text::{find_text, lemma_sorted_members, sort_texts, text_order, text_views};
use crate::time::Timestamp;
use std::collections::VecDeque;
use vstd::prelude::*;
use vstd::string::StringExecFns;

verus! {

/// The ids of the waiting configurations, head of the queue first.
pub open spec fn queue_ids(queue: Seq<ConfigView>) -> Seq<Seq<char>> {
    queue.map_values(|c: ConfigView| c.process_id)
}

/// What is persisted of each record, in order of registration.
pub open spec fn persisted_records(records: Seq<StatusView>) -> Seq<PersistedView> {
    records.map_values(
        |r: StatusView| PersistedView { process_id: r.process_id, data: r.persisted() },
    )
}

/// The snapshot of a registry taken at `now`.
pub open spec fn snapshot_of(q: QueueView, now: Timestamp) -> StateFileView {
    StateFileView {
        version: "2.0"@,
        last_updated: now,
        queued_process_ids: queue_ids(q.queue),
        active_process_ids: record_ids(q.records_in(ProcessState::Active)),
        synced_process_ids: record_ids(q.records_in(ProcessState::Synced)),
        processes: persisted_records(q.records),
    }
}

/// The records rebuilt from the persisted table, in its order. Of two
/// entries under one id the first counts.
pub open spec fn recovered_records(entries: Seq<PersistedView>) -> Seq<StatusView>
    decreases entries.len(),
{
    if entries.len() == 0 {
        Seq::empty()
    } else {
        let before = recovered_records(entries.drop_last());
        let e = entries.last();
        if has_id(before, e.process_id) {
            before
        } else {
            before.push(StatusView::recovered(e.process_id, e.data))
        }
    }
}

/// The ids of the persisted queue list that can be queued again: those that
/// are registered, each at its first mention, in the order of the list.
pub open spec fn listed_ids(records: Seq<StatusView>, ids: Seq<Seq<char>>) -> Seq<Seq<char>>
    decreases ids.len(),
{
    if ids.len() == 0 {
        Seq::empty()
    } else {
        let before = listed_ids(records, ids.drop_last());
        if has_id(records, ids.last()) && !before.contains(ids.last()) {
            before.push(ids.last())
        } else {
            before
        }
    }
}

/// The ids of the records that were persisted as queued but that the queue
/// list does not name, in order of registration.
pub open spec fn unlisted_ids(records: Seq<StatusView>, listed: Seq<Seq<char>>) -> Seq<Seq<char>>
    decreases records.len(),
{
    if records.len() == 0 {
        Seq::empty()
    } else {
        let before = unlisted_ids(records.drop_last(), listed);
        let r = records.last();
        if r.state == ProcessState::Queued && !listed.contains(r.process_id) {
            before.push(r.process_id)
        } else {
            before
        }
    }
}

/// The order of the recovered queue: first the ids of the persisted queue
/// list, in its order; then the queued records that the list does not name,
/// sorted by id. With an empty list this is the order of older snapshots,
/// which kept no list: all queued records by id, not by time of submission.
pub open spec fn recovered_queue(records: Seq<StatusView>, ids: Seq<Seq<char>>) -> Seq<Seq<char>> {
    let listed = listed_ids(records, ids);
    listed + unlisted_ids(records, listed).sort_by(text_order())
}

/// The records once the recovered queue is known: whoever is in line is
/// queued at its place, everyone else is as persisted.
pub open spec fn placed_records(records: Seq<StatusView>, line: Seq<Seq<char>>) -> Seq<StatusView> {
    records.map_values(
        |r: StatusView|
            if line.contains(r.process_id) {
                StatusView {
                    state: ProcessState::Queued,
                    queue_position: Some(line.index_of(r.process_id) as usize),
                    ..r
                }
            } else {
                r
            },
    )
}

/// The configuration under which a recovered process waits: named by its
/// id, without an endpoint of its own, until a configuration says more.
pub open spec fn recovered_config(id: Seq<char>) -> ConfigView {
    ConfigView { name: id, process_id: id, base_url: None }
}

/// The registry recovered from a snapshot, for a concurrency limit.
/// Membership in the active and the synced index follows the persisted
/// state of each record.
pub open spec fn restored(limit: usize, file: StateFileView) -> QueueView {
    let records = recovered_records(file.processes);
    let line = recovered_queue(records, file.queued_process_ids);
    QueueView {
        limit,
        records: placed_records(records, line),
        queue: line.map_values(|id: Seq<char>| recovered_config(id)),
    }
}

/// The recovered records carry distinct ids, and exactly the ids of the
/// persisted table.
pub proof fn lemma_recovered_records(entries: Seq<PersistedView>)
    ensures
        distinct_ids(recovered_records(entries)),
        forall|id: Seq<char>|
            has_id(recovered_records(entries), id) <==> exists|k: int|
                0 <= k < entries.len() && (#[trigger] entries[k]).process_id == id,
        forall|i: int|
            0 <= i < recovered_records(entries).len() ==> (#[trigger] recovered_records(
                entries,
            )[i]).queue_position is None,
    decreases entries.len(),
{
    if entries.len() > 0 {
        let front = entries.drop_last();
        let before = recovered_records(front);
        let after = recovered_records(entries);
        let e = entries.last();
        lemma_recovered_records(front);
        assert forall|id: Seq<char>| has_id(after, id) <==> exists|k: int|
            0 <= k < entries.len() && (#[trigger] entries[k]).process_id == id by {
            if has_id(after, id) {
                let i = choose|i: int| 0 <= i < after.len() && (#[trigger] after[i]).process_id == id;
                if i < before.len() {
                    assert(before[i].process_id == id);
                    assert(has_id(before, id));
                    let k = choose|k: int|
                        0 <= k < front.len() && (#[trigger] front[k]).process_id == id;
                    assert(entries[k].process_id == id);
                } else {
                    assert(entries[entries.len() - 1].process_id == id);
                }
            }
            if exists|k: int| 0 <= k < entries.len() && (#[trigger] entries[k]).process_id == id {
                let k = choose|k: int|
                    0 <= k < entries.len() && (#[trigger] entries[k]).process_id == id;
                if k < front.len() {
                    assert(front[k].process_id == id);
                    assert(has_id(before, id));
                    let i = choose|i: int|
                        0 <= i < before.len() && (#[trigger] before[i]).process_id == id;
                    assert(after[i].process_id == id);
                } else {
                    if has_id(before, id) {
                        let i = choose|i: int|
                            0 <= i < before.len() && (#[trigger] before[i]).process_id == id;
                        assert(after[i].process_id == id);
                    } else {
                        assert(after[after.len() - 1].process_id == id);
                    }
                }
            }
        }
        assert forall|i: int, j: int| 0 <= i < j < after.len() implies (#[trigger] after[i]).process_id
            != (#[trigger] after[j]).process_id by {
            if j < before.len() {
                assert(before[i].process_id != before[j].process_id);
            } else {
                assert(before[i].process_id != e.process_id);
            }
        }
        assert forall|i: int| 0 <= i < after.len() implies (#[trigger] after[i]).queue_position is None by {
            if i < before.len() {
                assert(before[i].queue_position is None);
            }
        }
    }
}

/// The listed ids are registered, name nobody twice, and are exactly the
/// registered ids of the list.
pub proof fn lemma_listed_ids(records: Seq<StatusView>, ids: Seq<Seq<char>>)
    ensures
        listed_ids(records, ids).no_duplicates(),
        forall|id: Seq<char>| #[trigger]
            listed_ids(records, ids).contains(id) <==> has_id(records, id) && ids.contains(id),
    decreases ids.len(),
{
    if ids.len() > 0 {
        let front = ids.drop_last();
        let before = listed_ids(records, front);
        let after = listed_ids(records, ids);
        lemma_listed_ids(records, front);
        assert forall|id: Seq<char>| #[trigger] after.contains(id) <==> has_id(records, id)
            && ids.contains(id) by {
            if after.contains(id) {
                let i = choose|i: int| 0 <= i < after.len() && after[i] == id;
                if i < before.len() {
                    assert(before[i] == id);
                    assert(before.contains(id));
                    let k = choose|k: int| 0 <= k < front.len() && front[k] == id;
                    assert(ids[k] == id);
                } else {
                    assert(ids[ids.len() - 1] == id);
                }
            }
            if has_id(records, id) && ids.contains(id) {
                let k = choose|k: int| 0 <= k < ids.len() && ids[k] == id;
                if k < front.len() {
                    assert(front[k] == id);
                    assert(before.contains(id));
                    let i = choose|i: int| 0 <= i < before.len() && before[i] == id;
                    assert(after[i] == id);
                } else {
                    if before.contains(id) {
                        let i = choose|i: int| 0 <= i < before.len() && before[i] == id;
                        assert(after[i] == id);
                    } else {
                        assert(after[after.len() - 1] == id);
                    }
                }
            }
        }
    }
}

/// The unlisted ids are exactly the ids of the queued records that the list
/// does not name, each once.
pub proof fn lemma_unlisted_ids(records: Seq<StatusView>, listed: Seq<Seq<char>>)
    requires
        distinct_ids(records),
    ensures
        unlisted_ids(records, listed).no_duplicates(),
        forall|id: Seq<char>| #[trigger]
            unlisted_ids(records, listed).contains(id) <==> !listed.contains(id) && exists|i: int|
                0 <= i < records.len() && (#[trigger] records[i]).process_id == id
                    && records[i].state == ProcessState::Queued,
    decreases records.len(),
{
    if records.len() > 0 {
        let front = records.drop_last();
        let before = unlisted_ids(front, listed);
        let after = unlisted_ids(records, listed);
        let r = records.last();
        assert(distinct_ids(front)) by {
            assert forall|i: int, j: int| 0 <= i < j < front.len() implies (#[trigger] front[i]).process_id
                != (#[trigger] front[j]).process_id by {
                assert(records[i].process_id != records[j].process_id);
            }
        }
        lemma_unlisted_ids(front, listed);
        assert forall|id: Seq<char>| #[trigger] after.contains(id) <==> !listed.contains(id)
            && exists|i: int|
            0 <= i < records.len() && (#[trigger] records[i]).process_id == id && records[i].state
                == ProcessState::Queued by {
            if after.contains(id) {
                let a = choose|a: int| 0 <= a < after.len() && after[a] == id;
                if a < before.len() {
                    assert(before[a] == id);
                    assert(before.contains(id));
                    let i = choose|i: int|
                        0 <= i < front.len() && (#[trigger] front[i]).process_id == id
                            && front[i].state == ProcessState::Queued;
                    assert(records[i].process_id == id);
                } else {
                    assert(records[records.len() - 1].process_id == id);
                }
            }
            if !listed.contains(id) && exists|i: int|
                0 <= i < records.len() && (#[trigger] records[i]).process_id == id
                    && records[i].state == ProcessState::Queued {
                let i = choose|i: int|
                    0 <= i < records.len() && (#[trigger] records[i]).process_id == id
                        && records[i].state == ProcessState::Queued;
                if i < front.len() {
                    assert(front[i].process_id == id);
                    assert(before.contains(id));
                    let a = choose|a: int| 0 <= a < before.len() && before[a] == id;
                    assert(after[a] == id);
                } else {
                    assert(after[after.len() - 1] == id);
                }
            }
        }
        if after.len() > before.len() {
            assert forall|a: int, b: int| 0 <= a < after.len() && 0 <= b < after.len() && a
                != b implies after[a] != after[b] by {
                let low = if a < b {
                    a
                } else {
                    b
                };
                let high = if a < b {
                    b
                } else {
                    a
                };
                if high == before.len() && before[low] == r.process_id {
                    assert(before.contains(r.process_id));
                    let i = choose|i: int|
                        0 <= i < front.len() && (#[trigger] front[i]).process_id == r.process_id
                            && front[i].state == ProcessState::Queued;
                    assert(records[i].process_id != records[records.len() - 1].process_id);
                }
            }
        }
    }
}

/// The recovered queue names nobody twice, names registered processes
/// only, and names every record that was persisted as queued.
pub proof fn lemma_recovered_queue(records: Seq<StatusView>, ids: Seq<Seq<char>>)
    requires
        distinct_ids(records),
    ensures
        recovered_queue(records, ids).no_duplicates(),
        forall|id: Seq<char>| #[trigger]
            recovered_queue(records, ids).contains(id) ==> has_id(records, id),
        forall|i: int|
            0 <= i < records.len() && (#[trigger] records[i]).state == ProcessState::Queued
                ==> recovered_queue(records, ids).contains(records[i].process_id),
{
    let listed = listed_ids(records, ids);
    let unlisted = unlisted_ids(records, listed);
    let sorted = unlisted.sort_by(text_order());
    let line = recovered_queue(records, ids);
    lemma_listed_ids(records, ids);
    lemma_unlisted_ids(records, listed);
    lemma_sorted_members(unlisted);
    assert forall|a: int, b: int| 0 <= a < line.len() && 0 <= b < line.len() && a != b implies line[a]
        != line[b] by {
        if a < listed.len() && b >= listed.len() {
            assert(sorted.contains(sorted[b - listed.len()]));
            assert(listed.contains(listed[a]));
        }
        if b < listed.len() && a >= listed.len() {
            assert(sorted.contains(sorted[a - listed.len()]));
            assert(listed.contains(listed[b]));
        }
    }
    assert forall|id: Seq<char>| #[trigger] line.contains(id) implies has_id(records, id) by {
        let a = choose|a: int| 0 <= a < line.len() && line[a] == id;
        if a < listed.len() {
            assert(listed.contains(listed[a]));
        } else {
            assert(sorted.contains(sorted[a - listed.len()]));
            assert(unlisted.contains(id));
        }
    }
    assert forall|i: int|
        0 <= i < records.len() && (#[trigger] records[i]).state
            == ProcessState::Queued implies line.contains(records[i].process_id) by {
        let id = records[i].process_id;
        if listed.contains(id) {
            let a = choose|a: int| 0 <= a < listed.len() && listed[a] == id;
            assert(line[a] == id);
        } else {
            assert(unlisted.contains(id));
            assert(sorted.contains(id));
            let a = choose|a: int| 0 <= a < sorted.len() && sorted[a] == id;
            assert(line[listed.len() + a] == id);
        }
    }
}

/// Placing records along a line that names nobody twice, names registered
/// processes only and names every queued record gives a well-formed
/// registry.
pub proof fn lemma_placed_wf(limit: usize, records: Seq<StatusView>, line: Seq<Seq<char>>)
    requires
        distinct_ids(records),
        forall|i: int| 0 <= i < records.len() ==> (#[trigger] records[i]).queue_position is None,
        line.no_duplicates(),
        line.len() <= usize::MAX,
        forall|id: Seq<char>| #[trigger] line.contains(id) ==> has_id(records, id),
        forall|i: int|
            0 <= i < records.len() && (#[trigger] records[i]).state == ProcessState::Queued
                ==> line.contains(records[i].process_id),
    ensures
        (QueueView {
            limit,
            records: placed_records(records, line),
            queue: line.map_values(|id: Seq<char>| recovered_config(id)),
        }).wf(),
{
    let q = QueueView {
        limit,
        records: placed_records(records, line),
        queue: line.map_values(|id: Seq<char>| recovered_config(id)),
    };
    assert forall|k: int| 0 <= k < q.queue.len() implies #[trigger] q.entry_backed(k) by {
        let id = line[k];
        assert(line.contains(id));
        let i = index_of(records, id);
        assert(records[i].process_id == id);
        assert(line.index_of(id) == k);
        assert(q.waits_at(i, k));
    }
    assert forall|i: int| 0 <= i < q.records.len() implies q.position_sound(
        #[trigger] q.records[i],
    ) by {
        let id = records[i].process_id;
        if line.contains(id) {
            let k = line.index_of(id);
            assert(line[k] == id);
        } else {
            assert(records[i].queue_position is None);
        }
    }
    assert(distinct_ids(q.records)) by {
        assert forall|i: int, j: int| 0 <= i < j < q.records.len() implies (
        #[trigger] q.records[i]).process_id != (#[trigger] q.records[j]).process_id by {
            assert(records[i].process_id != records[j].process_id);
        }
    }
}

/// Recovery yields a well-formed registry, whatever the snapshot holds.
pub proof fn lemma_restored_wf(limit: usize, file: StateFileView)
    requires
        restored(limit, file).queue.len() <= usize::MAX,
    ensures
        restored(limit, file).wf(),
{
    let records = recovered_records(file.processes);
    let line = recovered_queue(records, file.queued_process_ids);
    lemma_recovered_records(file.processes);
    lemma_recovered_queue(records, file.queued_process_ids);
    lemma_placed_wf(limit, records, line);
}

/// Copies of the ids of records, in their order.
fn ids_of(records: &Vec<ProcessStatus>) -> (r: Vec<String>)
    ensures
        text_views(r@) == record_ids(status_views(records@)),
{
    let mut out: Vec<String> = Vec::new();
    let mut i: usize = 0;
    while i < records.len()
        invariant
            i <= records@.len(),
            out@.len() == i,
            forall|j: int| 0 <= j < i ==> (#[trigger] out@[j])@ == records@[j].process_id@,
        decreases records@.len() - i,
    {
        out.push(records[i].process_id.clone());
        i += 1;
    }
    proof {
        assert(text_views(out@) =~= record_ids(status_views(records@)));
    }
    out
}

/// The snapshot of the registry, dated `now`.
pub fn snapshot_at(queue: &QueueManager, now: Timestamp) -> (r: StateFile)
    ensures
        r@ == snapshot_of(queue@, now),
{
    let configs = queue.queued_configs();
    let mut queued_ids: Vec<String> = Vec::new();
    let mut i: usize = 0;
    while i < configs.len()
        invariant
            i <= configs@.len(),
            queued_ids@.len() == i,
            forall|j: int| 0 <= j < i ==> (#[trigger] queued_ids@[j])@ == configs@[j].process_id@,
        decreases configs@.len() - i,
    {
        queued_ids.push(configs[i].process_id.clone());
        i += 1;
    }
    let all = queue.all_processes();
    let mut processes: Vec<PersistedProcess> = Vec::new();
    let mut k: usize = 0;
    while k < all.len()
        invariant
            k <= all@.len(),
            processes@.len() == k,
            forall|j: int|
                0 <= j < k ==> (#[trigger] processes@[j])@ == (PersistedView {
                    process_id: all@[j]@.process_id,
                    data: all@[j]@.persisted(),
                }),
        decreases all@.len() - k,
    {
        processes.push(
            PersistedProcess { process_id: all[k].process_id.clone(), data: all[k].to_data() },
        );
        k += 1;
    }
    let active = queue.get_active_processes();
    let synced = queue.get_synced_processes();
    let file = StateFile {
        version: String::from_str("2.0"),
        last_updated: now,
        queued_process_ids: queued_ids,
        active_process_ids: ids_of(&active),
        synced_process_ids: ids_of(&synced),
        processes,
    };
    proof {
        assert(file@.queued_process_ids =~= queue_ids(queue@.queue));
        assert(file@.processes =~= persisted_records(queue@.records));
    }
    file
}

/// The snapshot of the registry, dated by the system clock. See
/// `snapshot_at`, which this calls with the current instant.
pub fn save_state(queue: &QueueManager) -> (r: StateFile)
    ensures
        exists|now: Timestamp| r@ == snapshot_of(queue@, now),
{
    let now = Timestamp::now();
    snapshot_at(queue, now)
}

/// The place of the record that carries the id.
fn place_of(records: &Vec<ProcessStatus>, id: &String) -> (r: Option<usize>)
    ensures
        r is Some <==> has_id(status_views(records@), id@),
        r matches Some(i) ==> i < records@.len() && records@[i as int].process_id@ == id@,
{
    let mut i: usize = 0;
    while i < records.len()
        invariant
            i <= records@.len(),
            forall|j: int|
                0 <= j < i ==> (#[trigger] status_views(records@)[j]).process_id != id@,
        decreases records@.len() - i,
    {
        if records[i].process_id == *id {
            assert(status_views(records@)[i as int].process_id == id@);
            return Some(i);
        }
        i += 1;
    }
    None
}

/// Rebuilds the registry from a snapshot, keeping its concurrency limit;
/// what the registry held before is dropped. Every persisted record comes
/// back under its id as name, in the state that was persisted, without
/// latency samples and reserve reports. The queue is the persisted list,
/// followed by the queued records that the list does not name, sorted by
/// id. The active index is whoever was persisted as active: where that is
/// more than the limit allows, admission waits until enough of them have
/// left.
pub fn load_state(queue: &mut QueueManager, state: &StateFile)
    ensures
        final(queue)@ == restored(old(queue)@.limit, state@),
        final(queue)@.wf(),
{
    let ghost file = state@;
    let ghost entries = file.processes;
    let mut records: Vec<ProcessStatus> = Vec::new();
    let mut i: usize = 0;
    proof {
        assert(entries.take(0) =~= Seq::empty());
        assert(status_views(records@) =~= recovered_records(entries.take(0)));
    }
    while i < state.processes.len()
        invariant
            i <= state.processes@.len(),
            entries == persisted_views(state.processes@),
            status_views(records@) == recovered_records(entries.take(i as int)),
        decreases state.processes@.len() - i,
    {
        let e = &state.processes[i];
        proof {
            assert(entries.take(i + 1).drop_last() == entries.take(i as int));
            assert(entries.take(i + 1).last() == e@);
        }
        if place_of(&records, &e.process_id).is_none() {
            let ghost sofar = records@;
            records.push(ProcessStatus::from_data(&e.process_id, &e.data));
            proof {
                assert(status_views(records@) =~= status_views(sofar).push(
                    StatusView::recovered(e@.process_id, e@.data),
                ));
            }
        }
        i += 1;
    }
    let ghost found = status_views(records@);
    proof {
        assert(entries.take(state.processes@.len() as int) == entries);
        lemma_recovered_records(entries);
    }
    let ghost named = file.queued_process_ids;
    let mut line: Vec<String> = Vec::new();
    let mut k: usize = 0;
    proof {
        assert(named.take(0) =~= Seq::empty());
        assert(text_views(line@) =~= listed_ids(found, named.take(0)));
    }
    while k < state.queued_process_ids.len()
        invariant
            k <= state.queued_process_ids@.len(),
            named == text_views(state.queued_process_ids@),
            found == status_views(records@),
            text_views(line@) == listed_ids(found, named.take(k as int)),
        decreases state.queued_process_ids@.len() - k,
    {
        let id = &state.queued_process_ids[k];
        proof {
            assert(named.take(k + 1).drop_last() == named.take(k as int));
            assert(named.take(k + 1).last() == id@);
        }
        if place_of(&records, id).is_some() && find_text(&line, id).is_none() {
            let ghost sofar = line@;
            line.push(id.clone());
            proof {
                assert(text_views(line@) =~= text_views(sofar).push(id@));
            }
        }
        k += 1;
    }
    let ghost listed = text_views(line@);
    proof {
        assert(named.take(state.queued_process_ids@.len() as int) == named);
    }
    let mut unlisted: Vec<String> = Vec::new();
    let mut j: usize = 0;
    proof {
        assert(found.take(0) =~= Seq::empty());
        assert(text_views(unlisted@) =~= unlisted_ids(found.take(0), listed));
    }
    while j < records.len()
        invariant
            j <= records@.len(),
            found == status_views(records@),
            listed == text_views(line@),
            text_views(unlisted@) == unlisted_ids(found.take(j as int), listed),
        decreases records@.len() - j,
    {
        proof {
            assert(found.take(j + 1).drop_last() == found.take(j as int));
            assert(found.take(j + 1).last() == records@[j as int]@);
        }
        if records[j].state == ProcessState::Queued && find_text(&line, &records[j].process_id).is_none() {
            let ghost sofar = unlisted@;
            unlisted.push(records[j].process_id.clone());
            proof {
                assert(text_views(unlisted@) =~= text_views(sofar).push(
                    records@[j as int].process_id@,
                ));
            }
        }
        j += 1;
    }
    proof {
        assert(found.take(records@.len() as int) == found);
    }
    let sorted = sort_texts(unlisted);
    let mut s: usize = 0;
    while s < sorted.len()
        invariant
            s <= sorted@.len(),
            text_views(line@) == listed + text_views(sorted@).take(s as int),
        decreases sorted@.len() - s,
    {
        let ghost sofar = line@;
        line.push(sorted[s].clone());
        proof {
            assert(text_views(line@) =~= text_views(sofar).push(sorted@[s as int]@));
            assert(text_views(line@) =~= listed + text_views(sorted@).take(s + 1));
        }
        s += 1;
    }
    let ghost order = text_views(line@);
    proof {
        assert(text_views(sorted@).take(sorted@.len() as int) == text_views(sorted@));
        assert(order == recovered_queue(found, named));
        lemma_recovered_queue(found, named);
    }
    let mut p: usize = 0;
    while p < records.len()
        invariant
            p <= records@.len(),
            records@.len() == found.len(),
            order == text_views(line@),
            order.no_duplicates(),
            forall|a: int| 0 <= a < p ==> (#[trigger] records@[a])@ == placed_records(found, order)[a],
            forall|a: int| p <= a < records@.len() ==> (#[trigger] records@[a])@ == found[a],
        decreases records@.len() - p,
    {
        match find_text(&line, &records[p].process_id) {
            Some(at) => {
                proof {
                    assert(order[at as int] == found[p as int].process_id);
                    assert(order.index_of(found[p as int].process_id) == at);
                }
                records[p].state = ProcessState::Queued;
                records[p].queue_position = Some(at);
            },
            None => {},
        }
        p += 1;
    }
    let mut waiting: VecDeque<ProcessConfig> = VecDeque::new();
    let mut w: usize = 0;
    while w < line.len()
        invariant
            w <= line@.len(),
            waiting@.len() == w,
            forall|a: int|
                0 <= a < w ==> (#[trigger] waiting@[a])@ == recovered_config(line@[a]@),
        decreases line@.len() - w,
    {
        waiting.push_back(
            ProcessConfig { name: line[w].clone(), process_id: line[w].clone(), base_url: None },
        );
        w += 1;
    }
    let limit = queue.max_active();
    let length = waiting.len();
    proof {
        assert(status_views(records@) =~= placed_records(found, order));
        assert(config_views(waiting@) =~= order.map_values(|id: Seq<char>| recovered_config(id)));
        lemma_restored_wf(limit, file);
    }
    *queue = QueueManager::from_parts(limit, records, waiting);
}

/// What comes back of a record that went through a snapshot: everything
/// that is persisted, its place in line, and the id as its name.
pub open spec fn survived(r: StatusView) -> StatusView {
    StatusView {
        queue_position: r.queue_position,
        ..StatusView::recovered(r.process_id, r.persisted())
    }
}

proof fn lemma_recover_distinct(records: Seq<StatusView>)
    requires
        distinct_ids(records),
    ensures
        recovered_records(persisted_records(records)) == records.map_values(
            |r: StatusView| StatusView::recovered(r.process_id, r.persisted()),
        ),
    decreases records.len(),
{
    let target = records.map_values(
        |r: StatusView| StatusView::recovered(r.process_id, r.persisted()),
    );
    if records.len() == 0 {
        assert(recovered_records(persisted_records(records)) =~= target);
    } else {
        let front = records.drop_last();
        assert(distinct_ids(front)) by {
            assert forall|i: int, j: int| 0 <= i < j < front.len() implies (#[trigger] front[i]).process_id
                != (#[trigger] front[j]).process_id by {
                assert(records[i].process_id != records[j].process_id);
            }
        }
        lemma_recover_distinct(front);
        assert(persisted_records(records).drop_last() =~= persisted_records(front));
        let before = recovered_records(persisted_records(front));
        let id = records.last().process_id;
        if has_id(before, id) {
            let i = choose|i: int| 0 <= i < before.len() && (#[trigger] before[i]).process_id == id;
            assert(records[i].process_id != records[records.len() - 1].process_id);
        }
        assert(recovered_records(persisted_records(records)) =~= target);
    }
}

proof fn lemma_listed_all(records: Seq<StatusView>, ids: Seq<Seq<char>>)
    requires
        ids.no_duplicates(),
        forall|k: int| 0 <= k < ids.len() ==> has_id(records, #[trigger] ids[k]),
    ensures
        listed_ids(records, ids) == ids,
    decreases ids.len(),
{
    if ids.len() == 0 {
        assert(listed_ids(records, ids) =~= ids);
    } else {
        let front = ids.drop_last();
        lemma_listed_all(records, front);
        assert(has_id(records, ids[ids.len() - 1]));
        if front.contains(ids.last()) {
            let k = choose|k: int| 0 <= k < front.len() && front[k] == ids.last();
            assert(ids[k] == ids[ids.len() - 1]);
        }
        assert(listed_ids(records, ids) =~= ids);
    }
}

/// Saving and loading again brings the registry back: the same processes
/// in the same order of registration, each in the state it was in, with
/// both slot values, everything else that is persisted and its place in
/// line; the queue in the same FIFO order. Names fall back to ids, and
/// errors, latency samples and reserve reports are gone.
pub proof fn lemma_round_trip(q: QueueView, now: Timestamp)
    requires
        q.wf(),
    ensures
        restored(q.limit, snapshot_of(q, now)).wf(),
        restored(q.limit, snapshot_of(q, now)).limit == q.limit,
        restored(q.limit, snapshot_of(q, now)).records == q.records.map_values(
            |r: StatusView| survived(r),
        ),
        queue_ids(restored(q.limit, snapshot_of(q, now)).queue) == queue_ids(q.queue),
        forall|i: int|
            #![trigger restored(q.limit, snapshot_of(q, now)).records[i]]
            0 <= i < q.records.len() ==> {
                let back = restored(q.limit, snapshot_of(q, now)).records[i];
                &&& back.process_id == q.records[i].process_id
                &&& back.state == q.records[i].state
                &&& back.computed_slot == q.records[i].computed_slot
                &&& back.current_slot == q.records[i].current_slot
                &&& back.queue_position == q.records[i].queue_position
                &&& back.metrics.api_response_times.len() == 0
                &&& back.hb_reserves is None
                &&& back.ao_reserves is None
            },
{
    let file = snapshot_of(q, now);
    let back = restored(q.limit, file);
    let records = recovered_records(file.processes);
    let ids = queue_ids(q.queue);
    lemma_recover_distinct(q.records);
    q.lemma_positions();
    assert(ids.no_duplicates()) by {
        assert forall|a: int, b: int| 0 <= a < ids.len() && 0 <= b < ids.len() && a
            != b implies ids[a] != ids[b] by {
            if ids[a] == ids[b] {
                q.lemma_queue_ids_distinct(a, b);
            }
        }
    }
    assert forall|k: int| 0 <= k < ids.len() implies has_id(records, #[trigger] ids[k]) by {
        assert(q.contains(q.queue[k].process_id));
        let i = index_of(q.records, ids[k]);
        assert(records[i].process_id == ids[k]);
    }
    lemma_listed_all(records, ids);
    let unlisted = unlisted_ids(records, ids);
    assert(distinct_ids(records)) by {
        assert forall|i: int, j: int| 0 <= i < j < records.len() implies (#[trigger] records[i]).process_id
            != (#[trigger] records[j]).process_id by {
            assert(q.records[i].process_id != q.records[j].process_id);
        }
    }
    lemma_unlisted_ids(records, ids);
    assert(unlisted.len() == 0) by {
        if unlisted.len() > 0 {
            let id = unlisted[0];
            assert(unlisted.contains(id));
            let i = choose|i: int|
                0 <= i < records.len() && (#[trigger] records[i]).process_id == id
                    && records[i].state == ProcessState::Queued;
            assert(q.records[i].state == ProcessState::Queued);
            let p = q.records[i].queue_position->0;
            assert(ids[p as int] == id);
        }
    }
    lemma_sorted_members(unlisted);
    let line = recovered_queue(records, file.queued_process_ids);
    assert(line =~= ids);
    assert(back.queue =~= ids.map_values(|id: Seq<char>| recovered_config(id)));
    assert(queue_ids(back.queue) =~= ids);
    assert forall|i: int| 0 <= i < q.records.len() implies back.records[i] == survived(
        q.records[i],
    ) by {
        let r = q.records[i];
        assert(q.position_sound(r));
        if r.state == ProcessState::Queued {
            let p = r.queue_position->0;
            assert(ids[p as int] == r.process_id);
            assert(ids.contains(r.process_id));
            assert(ids.index_of(r.process_id) == p);
        } else {
            if ids.contains(r.process_id) {
                let k = choose|k: int| 0 <= k < ids.len() && ids[k] == r.process_id;
                assert(q.contains(q.queue[k].process_id));
                q.lemma_record(r.process_id);
                lemma_index_of(q.records, i);
            }
        }
    }
    assert(back.records =~= q.records.map_values(|r: StatusView| survived(r)));
    lemma_restored_wf(q.limit, file);
}

} // verus!
