//! The mathematical model of the process registry and its admission queue:
//! what each operation does to the records, stated on views alone.
use crate::models::{ConfigView, MetricsView, ProcessState, StatusView};
use crate::time::{earlier, Timestamp};
use vstd::prelude::*;

verus! {

/// No two records carry the same process id.
pub open spec fn distinct_ids(records: Seq<StatusView>) -> bool {
    forall|i: int, j: int|
        0 <= i < j < records.len() ==> (#[trigger] records[i]).process_id != (
        #[trigger] records[j]).process_id
}

/// Some record carries the id.
pub open spec fn has_id(records: Seq<StatusView>, id: Seq<char>) -> bool {
    exists|i: int| 0 <= i < records.len() && (#[trigger] records[i]).process_id == id
}

/// The place of the record that carries the id.
pub open spec fn index_of(records: Seq<StatusView>, id: Seq<char>) -> int {
    choose|i: int| 0 <= i < records.len() && (#[trigger] records[i]).process_id == id
}

/// How many records are in a state.
pub open spec fn count_in_state(records: Seq<StatusView>, state: ProcessState) -> nat
    decreases records.len(),
{
    if records.len() == 0 {
        0
    } else {
        count_in_state(records.drop_last(), state) + if records.last().state == state {
            1nat
        } else {
            0nat
        }
    }
}

/// The ids of records, in their order.
pub open spec fn record_ids(records: Seq<StatusView>) -> Seq<Seq<char>> {
    records.map_values(|r: StatusView| r.process_id)
}

/// An id is among the ids of the records exactly when a record carries it.
pub proof fn lemma_record_ids(records: Seq<StatusView>, id: Seq<char>)
    ensures
        record_ids(records).contains(id) <==> has_id(records, id),
{
    if record_ids(records).contains(id) {
        let i = choose|i: int| 0 <= i < record_ids(records).len() && record_ids(records)[i] == id;
        assert(records[i].process_id == id);
    }
    if has_id(records, id) {
        let i = choose|i: int| 0 <= i < records.len() && (#[trigger] records[i]).process_id == id;
        assert(record_ids(records)[i] == id);
    }
}

/// Whether the instant `a` is not later than `b`; no instant is earlier
/// than any.
pub open spec fn not_later(a: Option<Timestamp>, b: Option<Timestamp>) -> bool {
    match (a, b) {
        (None, _) => true,
        (Some(_), None) => false,
        (Some(x), Some(y)) => !earlier(y, x),
    }
}

/// Where a record goes into a list that is ordered latest sync first: in
/// front of the first entry that was not synced later than it.
pub open spec fn recency_slot(ordered: Seq<StatusView>, r: StatusView) -> int
    decreases ordered.len(),
{
    if ordered.len() == 0 || not_later(ordered[0].synced_at, r.synced_at) {
        0
    } else {
        1 + recency_slot(ordered.drop_first(), r)
    }
}

/// The records ordered by the time of their sync, latest first; of two that
/// were synced at the same instant the one registered later comes first.
pub open spec fn latest_first(records: Seq<StatusView>) -> Seq<StatusView>
    decreases records.len(),
{
    if records.len() == 0 {
        Seq::empty()
    } else {
        let before = latest_first(records.drop_last());
        before.insert(recency_slot(before, records.last()), records.last())
    }
}

/// The slot of a record is the first place whose entry was not synced
/// later, or the end of the list.
pub proof fn lemma_recency_slot(ordered: Seq<StatusView>, r: StatusView, at: int)
    requires
        0 <= at <= ordered.len(),
        forall|j: int| 0 <= j < at ==> !not_later((#[trigger] ordered[j]).synced_at, r.synced_at),
        at < ordered.len() ==> not_later(ordered[at].synced_at, r.synced_at),
    ensures
        recency_slot(ordered, r) == at,
    decreases at,
{
    if at > 0 {
        assert(!not_later(ordered[0].synced_at, r.synced_at));
        let rest = ordered.drop_first();
        assert forall|j: int| 0 <= j < at - 1 implies !not_later(
            (#[trigger] rest[j]).synced_at,
            r.synced_at,
        ) by {
            assert(rest[j] == ordered[j + 1]);
        }
        lemma_recency_slot(rest, r, at - 1);
    }
}

/// Ordering by recency keeps every record, each as often as it occurred,
/// and puts no record in front of one that was synced later.
pub proof fn lemma_latest_first(records: Seq<StatusView>)
    ensures
        latest_first(records).len() == records.len(),
        latest_first(records).to_multiset() == records.to_multiset(),
        forall|i: int, j: int|
            0 <= i < j < latest_first(records).len() ==> not_later(
                (#[trigger] latest_first(records)[j]).synced_at,
                (#[trigger] latest_first(records)[i]).synced_at,
            ),
    decreases records.len(),
{
    if records.len() == 0 {
        assert(records =~= latest_first(records));
    } else {
        let front = records.drop_last();
        let before = latest_first(front);
        let r = records.last();
        let at = recency_slot(before, r);
        lemma_latest_first(front);
        lemma_slot_bounds(before, r);
        let after = latest_first(records);
        assert(after.remove(at) =~= before);
        vstd::seq_lib::to_multiset_remove(after, at);
        after.to_multiset_ensures();
        assert(after.contains(r)) by {
            assert(after[at] == r);
        }
        assert(after.to_multiset().count(r) > 0);
        assert(after.to_multiset() =~= before.to_multiset().insert(r));
        assert(records =~= front.push(r));
        vstd::seq_lib::to_multiset_build(front, r);
        assert forall|i: int, j: int| 0 <= i < j < after.len() implies not_later(
            (#[trigger] after[j]).synced_at,
            (#[trigger] after[i]).synced_at,
        ) by {
            if j < at {
                assert(not_later(before[j].synced_at, before[i].synced_at));
            } else if j == at {
                assert(!not_later(before[i].synced_at, r.synced_at));
            } else if i < at {
                assert(not_later(before[j - 1].synced_at, before[i].synced_at));
            } else if i == at {
                assert(not_later(before[at].synced_at, r.synced_at));
                if j - 1 > at {
                    assert(not_later(before[j - 1].synced_at, before[at].synced_at));
                }
            } else {
                assert(not_later(before[j - 1].synced_at, before[i - 1].synced_at));
            }
        }
    }
}

/// The slot of a record lies within the list or at its end, behind every
/// entry that was synced later and in front of one that was not.
pub proof fn lemma_slot_bounds(ordered: Seq<StatusView>, r: StatusView)
    ensures
        0 <= recency_slot(ordered, r) <= ordered.len(),
        forall|j: int|
            0 <= j < recency_slot(ordered, r) ==> !not_later(
                (#[trigger] ordered[j]).synced_at,
                r.synced_at,
            ),
        recency_slot(ordered, r) < ordered.len() ==> not_later(
            ordered[recency_slot(ordered, r)].synced_at,
            r.synced_at,
        ),
    decreases ordered.len(),
{
    if !(ordered.len() == 0 || not_later(ordered[0].synced_at, r.synced_at)) {
        let rest = ordered.drop_first();
        lemma_slot_bounds(rest, r);
        assert forall|j: int| 0 <= j < recency_slot(ordered, r) implies !not_later(
            (#[trigger] ordered[j]).synced_at,
            r.synced_at,
        ) by {
            if j > 0 {
                assert(rest[j - 1] == ordered[j]);
            }
        }
    }
}

impl StatusView {
    /// The record of a process as it enters the queue at a position.
    pub open spec fn enqueued(name: Seq<char>, process_id: Seq<char>, position: usize) -> StatusView {
        StatusView { queue_position: Some(position), ..StatusView::fresh(name, process_id) }
    }

    /// The record after admission: active since `now`, no longer in line.
    pub open spec fn activated(self, now: Timestamp) -> StatusView {
        StatusView {
            state: ProcessState::Active,
            activated_at: Some(now),
            queue_position: None,
            ..self
        }
    }

    /// The record one place further to the front of the line, if it is in
    /// line at all.
    pub open spec fn moved_up(self) -> StatusView {
        match self.queue_position {
            Some(p) => StatusView { queue_position: Some((p - 1) as usize), ..self },
            None => self,
        }
    }

    /// The record after the entry at `gap` has left the line: one place
    /// further to the front if it stood behind the gap.
    pub open spec fn closed_up(self, gap: Option<usize>) -> StatusView {
        match (gap, self.queue_position) {
            (Some(q), Some(p)) => if p > q {
                StatusView { queue_position: Some((p - 1) as usize), ..self }
            } else {
                self
            },
            _ => self,
        }
    }

    /// The record once its slots were seen equal at `now`.
    pub open spec fn synced(self, now: Timestamp) -> StatusView {
        StatusView { state: ProcessState::Synced, synced_at: Some(now), ..self }
    }

    /// The record after an unrecoverable failure.
    pub open spec fn failed(self, reason: Seq<char>) -> StatusView {
        StatusView { state: ProcessState::Error, error: Some(reason), ..self }
    }

    /// The record after a restart: queued again at `position`, its error,
    /// initialization flag, activation and sync times cleared and its metrics
    /// back to their initial values. Name, slots, last check and reserves
    /// stay.
    pub open spec fn restarted(self, position: usize) -> StatusView {
        StatusView {
            state: ProcessState::Queued,
            error: None,
            cron_initialized: false,
            activated_at: None,
            synced_at: None,
            metrics: MetricsView::initial(),
            queue_position: Some(position),
            ..self
        }
    }

    /// The record with its fields taken from `update`, except for the three
    /// that the registry owns: id, state and queue position.
    pub open spec fn overwritten_by(self, update: StatusView) -> StatusView {
        StatusView {
            process_id: self.process_id,
            state: self.state,
            queue_position: self.queue_position,
            ..update
        }
    }
}

/// The registry and the queue as mathematical values: the concurrency limit,
/// every record in order of registration, and the waiting configurations,
/// head first.
pub struct QueueView {
    pub limit: usize,
    pub records: Seq<StatusView>,
    pub queue: Seq<ConfigView>,
}

impl QueueView {
    /// A registry without processes.
    pub open spec fn empty(limit: usize) -> QueueView {
        QueueView { limit, records: Seq::empty(), queue: Seq::empty() }
    }

    pub open spec fn contains(self, id: Seq<char>) -> bool {
        has_id(self.records, id)
    }

    /// The record registered under an id.
    pub open spec fn record(self, id: Seq<char>) -> StatusView {
        self.records[index_of(self.records, id)]
    }

    /// The id is registered and its record is in the state.
    pub open spec fn in_state(self, id: Seq<char>, state: ProcessState) -> bool {
        self.contains(id) && self.record(id).state == state
    }

    /// The records that are in a state, in order of registration.
    pub open spec fn records_in(self, state: ProcessState) -> Seq<StatusView> {
        self.records.filter(|r: StatusView| r.state == state)
    }

    /// The records that the periodic slot check visits: the active ones
    /// whose remote initialization has succeeded, in order of registration.
    pub open spec fn to_poll(self) -> Seq<StatusView> {
        self.records.filter(
            |r: StatusView| r.state == ProcessState::Active && r.cron_initialized,
        )
    }

    /// The records of the first `limit` processes in line, head first.
    pub open spec fn preview(self, limit: usize) -> Seq<StatusView> {
        Seq::new(
            if limit < self.queue.len() {
                limit as nat
            } else {
                self.queue.len()
            },
            |k: int| self.record(self.queue[k].process_id),
        )
    }

    /// The `limit` most recently synced records, latest first.
    pub open spec fn recent_synced(self, limit: usize) -> Seq<StatusView> {
        let ordered = latest_first(self.records_in(ProcessState::Synced));
        if limit < ordered.len() {
            ordered.take(limit as int)
        } else {
            ordered
        }
    }

    /// The size of the active index.
    pub open spec fn active_count(self) -> nat {
        count_in_state(self.records, ProcessState::Active)
    }

    /// The size of the synced index.
    pub open spec fn synced_count(self) -> nat {
        count_in_state(self.records, ProcessState::Synced)
    }

    /// The active index has not outgrown the limit.
    pub open spec fn within_limit(self) -> bool {
        self.active_count() <= self.limit
    }

    /// Record `i` is the queued record of queue entry `k`.
    pub open spec fn waits_at(self, i: int, k: int) -> bool {
        &&& self.records[i].process_id == self.queue[k].process_id
        &&& self.records[i].state == ProcessState::Queued
        &&& self.records[i].queue_position == Some(k as usize)
    }

    /// Queue entry `k` belongs to a queued record that knows its place.
    pub open spec fn entry_backed(self, k: int) -> bool {
        exists|i: int| 0 <= i < self.records.len() && #[trigger] self.waits_at(i, k)
    }

    /// A record has a position exactly when it is queued, and the position is
    /// the place of its own entry in the queue.
    pub open spec fn position_sound(self, r: StatusView) -> bool {
        if r.state == ProcessState::Queued {
            r.queue_position matches Some(p) && p < self.queue.len() && self.queue[p as
                int].process_id == r.process_id
        } else {
            r.queue_position is None
        }
    }

    /// The invariant of the registry: ids are unique; the queued records and
    /// the queue entries correspond one to one, each queued record holding
    /// the index of its entry, so that the positions are `0..n-1` in FIFO
    /// order; no other record has a position.
    pub open spec fn wf(self) -> bool {
        &&& distinct_ids(self.records)
        &&& self.queue.len() <= usize::MAX
        &&& forall|k: int| 0 <= k < self.queue.len() ==> #[trigger] self.entry_backed(k)
        &&& forall|i: int|
            0 <= i < self.records.len() ==> self.position_sound(#[trigger] self.records[i])
    }

    /// Registers a new process at the tail of the queue.
    pub open spec fn enqueue(self, config: ConfigView) -> QueueView {
        QueueView {
            records: self.records.push(
                StatusView::enqueued(config.name, config.process_id, self.queue.len() as usize),
            ),
            queue: self.queue.push(config),
            ..self
        }
    }

    /// Admission is possible: there is spare capacity and someone waits.
    pub open spec fn can_admit(self) -> bool {
        self.active_count() < self.limit && self.queue.len() > 0
    }

    /// The configuration that the next admission hands out.
    pub open spec fn admitted(self) -> Option<ConfigView> {
        if self.can_admit() {
            Some(self.queue[0])
        } else {
            None
        }
    }

    /// The registry after one admission attempt at `now`: where admission is
    /// possible the head of the queue becomes active and everyone behind it
    /// moves up one place; otherwise nothing changes.
    pub open spec fn activate_next(self, now: Timestamp) -> QueueView {
        if self.can_admit() {
            let head = self.queue[0].process_id;
            QueueView {
                records: self.records.map_values(
                    |r: StatusView|
                        if r.process_id == head {
                            r.activated(now)
                        } else {
                            r.moved_up()
                        },
                ),
                queue: self.queue.drop_first(),
                ..self
            }
        } else {
            self
        }
    }

    /// The registry after an active process was seen synchronized.
    pub open spec fn mark_synced(self, id: Seq<char>, now: Timestamp) -> QueueView {
        if self.in_state(id, ProcessState::Active) {
            QueueView {
                records: self.records.map_values(
                    |r: StatusView|
                        if r.process_id == id {
                            r.synced(now)
                        } else {
                            r
                        },
                ),
                ..self
            }
        } else {
            self
        }
    }

    /// The registry after an active process failed for good.
    pub open spec fn mark_error(self, id: Seq<char>, reason: Seq<char>) -> QueueView {
        if self.in_state(id, ProcessState::Active) {
            QueueView {
                records: self.records.map_values(
                    |r: StatusView|
                        if r.process_id == id {
                            r.failed(reason)
                        } else {
                            r
                        },
                ),
                ..self
            }
        } else {
            self
        }
    }

    /// The queue without the entry of a record that is about to restart.
    pub open spec fn queue_without(self, position: Option<usize>) -> Seq<ConfigView> {
        match position {
            Some(q) => self.queue.remove(q as int),
            None => self.queue,
        }
    }

    /// The registry after a restart: the record is reset and waits at the
    /// tail, whatever its state was; the entry it may have had in the queue
    /// is gone and the records behind that entry have moved up.
    pub open spec fn restart(self, id: Seq<char>) -> QueueView {
        if self.contains(id) {
            let r = self.record(id);
            let rest = self.queue_without(r.queue_position);
            QueueView {
                records: self.records.map_values(
                    |x: StatusView|
                        if x.process_id == id {
                            x.restarted(rest.len() as usize)
                        } else {
                            x.closed_up(r.queue_position)
                        },
                ),
                queue: rest.push(ConfigView { name: r.name, process_id: id, base_url: None }),
                ..self
            }
        } else {
            self
        }
    }

    /// The registry after a process was given a new name and endpoint: the
    /// record takes the name, the queue entry, if there is one, both.
    pub open spec fn reconfigure(
        self,
        id: Seq<char>,
        name: Seq<char>,
        base_url: Option<Seq<char>>,
    ) -> QueueView {
        QueueView {
            records: self.records.map_values(
                |r: StatusView|
                    if r.process_id == id {
                        StatusView { name, ..r }
                    } else {
                        r
                    },
            ),
            queue: self.queue.map_values(
                |c: ConfigView|
                    if c.process_id == id {
                        ConfigView { name, base_url, ..c }
                    } else {
                        c
                    },
            ),
            ..self
        }
    }

    /// The registry after the record of `id` took its fields from `update`.
    pub open spec fn overwrite(self, id: Seq<char>, update: StatusView) -> QueueView {
        QueueView {
            records: self.records.map_values(
                |r: StatusView|
                    if r.process_id == id {
                        r.overwritten_by(update)
                    } else {
                        r
                    },
            ),
            ..self
        }
    }
}

/// Under unique ids, the record that carries an id is found at its place.
pub proof fn lemma_index_of(records: Seq<StatusView>, i: int)
    requires
        distinct_ids(records),
        0 <= i < records.len(),
    ensures
        has_id(records, records[i].process_id),
        index_of(records, records[i].process_id) == i,
{
    let id = records[i].process_id;
    let j = index_of(records, id);
    assert(records[j].process_id == id);
    if j < i {
        assert(records[j].process_id != records[i].process_id);
    }
    if i < j {
        assert(records[i].process_id != records[j].process_id);
    }
}

/// Changing one record changes each count by what that record adds to it.
pub proof fn lemma_count_one_changed(
    before: Seq<StatusView>,
    after: Seq<StatusView>,
    i: int,
    state: ProcessState,
)
    requires
        before.len() == after.len(),
        0 <= i < before.len(),
        forall|j: int| 0 <= j < before.len() && j != i ==> (#[trigger] after[j]).state == before[j].state,
    ensures
        count_in_state(after, state) + (if before[i].state == state {
            1nat
        } else {
            0nat
        }) == count_in_state(before, state) + (if after[i].state == state {
            1nat
        } else {
            0nat
        }),
    decreases before.len(),
{
    let n = before.len() - 1;
    if i == n {
        lemma_count_same_states(before.drop_last(), after.drop_last(), state);
    } else {
        assert(after[n].state == before[n].state);
        lemma_count_one_changed(before.drop_last(), after.drop_last(), i, state);
    }
}

/// Records that agree in state, place by place, count alike.
pub proof fn lemma_count_same_states(
    before: Seq<StatusView>,
    after: Seq<StatusView>,
    state: ProcessState,
)
    requires
        before.len() == after.len(),
        forall|j: int| 0 <= j < before.len() ==> (#[trigger] after[j]).state == before[j].state,
    ensures
        count_in_state(after, state) == count_in_state(before, state),
    decreases before.len(),
{
    if before.len() > 0 {
        let n = before.len() - 1;
        assert(after[n].state == before[n].state);
        lemma_count_same_states(before.drop_last(), after.drop_last(), state);
    }
}

/// No more records are in a state than there are records.
pub proof fn lemma_count_bounded(records: Seq<StatusView>, state: ProcessState)
    ensures
        count_in_state(records, state) <= records.len(),
    decreases records.len(),
{
    if records.len() > 0 {
        lemma_count_bounded(records.drop_last(), state);
    }
}

impl QueueView {
    /// In a well-formed registry the queue names every process at most once.
    pub proof fn lemma_queue_ids_distinct(self, a: int, b: int)
        requires
            self.wf(),
            0 <= a < self.queue.len(),
            0 <= b < self.queue.len(),
            self.queue[a].process_id == self.queue[b].process_id,
        ensures
            a == b,
    {
        assert(self.entry_backed(a));
        assert(self.entry_backed(b));
        let i = choose|i: int| 0 <= i < self.records.len() && #[trigger] self.waits_at(i, a);
        let j = choose|j: int| 0 <= j < self.records.len() && #[trigger] self.waits_at(j, b);
        lemma_index_of(self.records, i);
        lemma_index_of(self.records, j);
    }

    /// The record of a registered id carries that id, and is the only one.
    pub proof fn lemma_record(self, id: Seq<char>)
        requires
            distinct_ids(self.records),
            self.contains(id),
        ensures
            0 <= index_of(self.records, id) < self.records.len(),
            self.record(id).process_id == id,
            forall|j: int|
                0 <= j < self.records.len() && (#[trigger] self.records[j]).process_id == id ==> j
                    == index_of(self.records, id),
    {
        let i = index_of(self.records, id);
        assert forall|j: int|
            0 <= j < self.records.len() && (#[trigger] self.records[j]).process_id == id implies j
            == i by {
            lemma_index_of(self.records, j);
        }
    }

    /// An empty registry is well formed and within its limit.
    pub proof fn lemma_empty_wf(limit: usize)
        ensures
            QueueView::empty(limit).wf(),
            QueueView::empty(limit).within_limit(),
    {
    }

    /// Registering a new id keeps the registry well formed and leaves the
    /// active index as it was.
    pub proof fn lemma_enqueue_wf(self, config: ConfigView)
        requires
            self.wf(),
            !self.contains(config.process_id),
            self.queue.len() < usize::MAX,
        ensures
            self.enqueue(config).wf(),
            self.enqueue(config).active_count() == self.active_count(),
            self.enqueue(config).synced_count() == self.synced_count(),
    {
        let next = self.enqueue(config);
        let n = self.records.len() as int;
        let q = self.queue.len() as int;
        assert(next.records.drop_last() == self.records);
        assert forall|k: int| 0 <= k < next.queue.len() implies #[trigger] next.entry_backed(k) by {
            if k < q {
                assert(self.entry_backed(k));
                let i = choose|i: int| 0 <= i < self.records.len() && #[trigger] self.waits_at(i, k);
                assert(next.waits_at(i, k));
            } else {
                assert(next.waits_at(n, k));
            }
        }
        assert forall|i: int| 0 <= i < next.records.len() implies next.position_sound(
            #[trigger] next.records[i],
        ) by {
            if i < n {
                assert(self.position_sound(self.records[i]));
            }
        }
        assert(distinct_ids(next.records)) by {
            assert forall|i: int, j: int| 0 <= i < j < next.records.len() implies (
            #[trigger] next.records[i]).process_id != (#[trigger] next.records[j]).process_id by {
                if j < n {
                    assert(self.records[i].process_id != self.records[j].process_id);
                } else {
                    assert(self.records[i].process_id != config.process_id);
                }
            }
        }
    }

    /// An admission keeps the registry well formed: afterwards the positions
    /// of the queued records are again `0..n-1` in FIFO order. It adds one
    /// process to the active index where it admits, and none where it does
    /// not.
    pub proof fn lemma_activate_next_wf(self, now: Timestamp)
        requires
            self.wf(),
        ensures
            self.activate_next(now).wf(),
            self.can_admit() ==> self.activate_next(now).active_count() == self.active_count() + 1,
            self.activate_next(now).synced_count() == self.synced_count(),
    {
        if self.can_admit() {
            let next = self.activate_next(now);
            let head = self.queue[0].process_id;
            assert(self.entry_backed(0));
            let h = choose|i: int| 0 <= i < self.records.len() && #[trigger] self.waits_at(i, 0);
            lemma_index_of(self.records, h);
            assert forall|k: int| 0 <= k < next.queue.len() implies #[trigger] next.entry_backed(
                k,
            ) by {
                assert(self.entry_backed(k + 1));
                let i = choose|i: int|
                    0 <= i < self.records.len() && #[trigger] self.waits_at(i, k + 1);
                if self.records[i].process_id == head {
                    self.lemma_queue_ids_distinct(0, k + 1);
                }
                assert(next.waits_at(i, k));
            }
            assert forall|i: int| 0 <= i < next.records.len() implies next.position_sound(
                #[trigger] next.records[i],
            ) by {
                let r = self.records[i];
                assert(self.position_sound(r));
                if r.process_id != head && r.state == ProcessState::Queued {
                    let p = r.queue_position->0;
                    assert(p != 0);
                    assert(next.queue[p - 1] == self.queue[p as int]);
                }
            }
            assert(distinct_ids(next.records)) by {
                assert forall|i: int, j: int| 0 <= i < j < next.records.len() implies (
                #[trigger] next.records[i]).process_id != (#[trigger] next.records[j]).process_id by {
                    assert(self.records[i].process_id != self.records[j].process_id);
                }
            }
            assert forall|j: int| 0 <= j < self.records.len() && j != h implies (
            #[trigger] next.records[j]).state == self.records[j].state by {
                lemma_index_of(self.records, j);
            }
            lemma_count_one_changed(self.records, next.records, h, ProcessState::Active);
            lemma_count_one_changed(self.records, next.records, h, ProcessState::Synced);
        }
    }

    /// Rewriting records without touching id, state or position, and queue
    /// entries without touching their id, keeps the registry well formed and
    /// every count as it was.
    pub proof fn lemma_same_shape_wf(self, next: QueueView)
        requires
            self.wf(),
            next.limit == self.limit,
            next.records.len() == self.records.len(),
            next.queue.len() == self.queue.len(),
            forall|i: int|
                0 <= i < self.records.len() ==> (#[trigger] next.records[i]).process_id
                    == self.records[i].process_id && next.records[i].state == self.records[i].state
                    && next.records[i].queue_position == self.records[i].queue_position,
            forall|k: int|
                0 <= k < self.queue.len() ==> (#[trigger] next.queue[k]).process_id
                    == self.queue[k].process_id,
        ensures
            next.wf(),
            next.active_count() == self.active_count(),
            next.synced_count() == self.synced_count(),
    {
        assert forall|k: int| 0 <= k < next.queue.len() implies #[trigger] next.entry_backed(k) by {
            assert(self.entry_backed(k));
            let i = choose|i: int| 0 <= i < self.records.len() && #[trigger] self.waits_at(i, k);
            assert(next.records[i].state == self.records[i].state);
            assert(next.queue[k].process_id == self.queue[k].process_id);
            assert(next.waits_at(i, k));
        }
        assert forall|i: int| 0 <= i < next.records.len() implies next.position_sound(
            #[trigger] next.records[i],
        ) by {
            assert(self.position_sound(self.records[i]));
            if self.records[i].state == ProcessState::Queued {
                let p = self.records[i].queue_position->0;
                assert(next.queue[p as int].process_id == self.queue[p as int].process_id);
            }
        }
        assert(distinct_ids(next.records)) by {
            assert forall|i: int, j: int| 0 <= i < j < next.records.len() implies (
            #[trigger] next.records[i]).process_id != (#[trigger] next.records[j]).process_id by {
                assert(self.records[i].process_id != self.records[j].process_id);
            }
        }
        lemma_count_same_states(self.records, next.records, ProcessState::Active);
        lemma_count_same_states(self.records, next.records, ProcessState::Synced);
    }

    /// Moving one record that is not queued to another state that is not
    /// `Queued`, with no position, keeps the registry well formed.
    pub proof fn lemma_leave_active_wf(self, next: QueueView, id: Seq<char>)
        requires
            self.wf(),
            self.in_state(id, ProcessState::Active),
            next.limit == self.limit,
            next.queue == self.queue,
            next.records.len() == self.records.len(),
            forall|i: int|
                0 <= i < self.records.len() ==> (#[trigger] next.records[i]).process_id
                    == self.records[i].process_id && next.records[i].queue_position
                    == self.records[i].queue_position,
            forall|i: int|
                0 <= i < self.records.len() && self.records[i].process_id != id ==> (
                #[trigger] next.records[i]).state == self.records[i].state,
            next.records[index_of(self.records, id)].state != ProcessState::Queued,
            next.records[index_of(self.records, id)].state != ProcessState::Active,
        ensures
            next.wf(),
            next.active_count() + 1 == self.active_count(),
            next.records[index_of(self.records, id)].state == ProcessState::Synced
                ==> next.synced_count() == self.synced_count() + 1,
            next.records[index_of(self.records, id)].state != ProcessState::Synced
                ==> next.synced_count() == self.synced_count(),
    {
        self.lemma_record(id);
        let t = index_of(self.records, id);
        assert forall|k: int| 0 <= k < next.queue.len() implies #[trigger] next.entry_backed(k) by {
            assert(self.entry_backed(k));
            let i = choose|i: int| 0 <= i < self.records.len() && #[trigger] self.waits_at(i, k);
            assert(next.records[i].state == self.records[i].state);
            assert(next.waits_at(i, k));
        }
        assert forall|i: int| 0 <= i < next.records.len() implies next.position_sound(
            #[trigger] next.records[i],
        ) by {
            assert(self.position_sound(self.records[i]));
            if i != t {
                assert(next.records[i].state == self.records[i].state);
            }
        }
        assert(distinct_ids(next.records)) by {
            assert forall|i: int, j: int| 0 <= i < j < next.records.len() implies (
            #[trigger] next.records[i]).process_id != (#[trigger] next.records[j]).process_id by {
                assert(self.records[i].process_id != self.records[j].process_id);
            }
        }
        assert forall|j: int| 0 <= j < self.records.len() && j != t implies (
        #[trigger] next.records[j]).state == self.records[j].state by {}
        lemma_count_one_changed(self.records, next.records, t, ProcessState::Active);
        lemma_count_one_changed(self.records, next.records, t, ProcessState::Synced);
    }

    /// Marking an active process synced keeps the registry well formed and
    /// moves it from the active index to the synced one.
    pub proof fn lemma_mark_synced_wf(self, id: Seq<char>, now: Timestamp)
        requires
            self.wf(),
        ensures
            self.mark_synced(id, now).wf(),
            self.in_state(id, ProcessState::Active) ==> self.mark_synced(id, now).active_count() + 1
                == self.active_count() && self.mark_synced(id, now).synced_count()
                == self.synced_count() + 1,
    {
        if self.in_state(id, ProcessState::Active) {
            self.lemma_record(id);
            self.lemma_leave_active_wf(self.mark_synced(id, now), id);
        }
    }

    /// Marking an active process failed keeps the registry well formed and
    /// takes it out of the active index.
    pub proof fn lemma_mark_error_wf(self, id: Seq<char>, reason: Seq<char>)
        requires
            self.wf(),
        ensures
            self.mark_error(id, reason).wf(),
            self.in_state(id, ProcessState::Active) ==> self.mark_error(id, reason).active_count()
                + 1 == self.active_count() && self.mark_error(id, reason).synced_count()
                == self.synced_count(),
    {
        if self.in_state(id, ProcessState::Active) {
            self.lemma_record(id);
            self.lemma_leave_active_wf(self.mark_error(id, reason), id);
        }
    }

    /// Renaming a process keeps the registry well formed.
    pub proof fn lemma_reconfigure_wf(self, id: Seq<char>, name: Seq<char>, base_url: Option<Seq<char>>)
        requires
            self.wf(),
        ensures
            self.reconfigure(id, name, base_url).wf(),
            self.reconfigure(id, name, base_url).active_count() == self.active_count(),
            self.reconfigure(id, name, base_url).synced_count() == self.synced_count(),
    {
        self.lemma_same_shape_wf(self.reconfigure(id, name, base_url));
    }

    /// Overwriting the free fields of a record keeps the registry well
    /// formed.
    pub proof fn lemma_overwrite_wf(self, id: Seq<char>, update: StatusView)
        requires
            self.wf(),
        ensures
            self.overwrite(id, update).wf(),
            self.overwrite(id, update).active_count() == self.active_count(),
            self.overwrite(id, update).synced_count() == self.synced_count(),
    {
        self.lemma_same_shape_wf(self.overwrite(id, update));
    }

    /// A restart keeps the registry well formed, and never adds to the
    /// active index.
    pub proof fn lemma_restart_wf(self, id: Seq<char>)
        requires
            self.wf(),
            self.restart(id).queue.len() <= usize::MAX,
        ensures
            self.restart(id).wf(),
            self.restart(id).active_count() <= self.active_count(),
            self.restart(id).synced_count() <= self.synced_count(),
    {
        if self.contains(id) {
            self.lemma_record(id);
            let next = self.restart(id);
            let t = index_of(self.records, id);
            let r = self.records[t];
            let gap = r.queue_position;
            let rest = self.queue_without(gap);
            assert(self.position_sound(r));
            assert forall|k: int| 0 <= k < next.queue.len() implies #[trigger] next.entry_backed(
                k,
            ) by {
                if k < rest.len() {
                    let k0 = if gap is Some && k >= gap->0 {
                        k + 1
                    } else {
                        k
                    };
                    assert(rest[k] == self.queue[k0]);
                    assert(self.entry_backed(k0));
                    let i = choose|i: int|
                        0 <= i < self.records.len() && #[trigger] self.waits_at(i, k0);
                    if i == t {
                        assert(gap == Some(k0 as usize));
                    }
                    assert(next.waits_at(i, k));
                } else {
                    assert(next.waits_at(t, k));
                }
            }
            assert forall|i: int| 0 <= i < next.records.len() implies next.position_sound(
                #[trigger] next.records[i],
            ) by {
                let x = self.records[i];
                assert(self.position_sound(x));
                if i != t && x.state == ProcessState::Queued {
                    let p = x.queue_position->0;
                    if gap is Some {
                        if p == gap->0 {
                            self.lemma_queue_ids_distinct(p as int, gap->0 as int);
                            assert(self.queue[p as int].process_id == r.process_id);
                        }
                        if p > gap->0 {
                            assert(rest[p - 1] == self.queue[p as int]);
                        } else {
                            assert(rest[p as int] == self.queue[p as int]);
                        }
                    }
                }
            }
            assert(distinct_ids(next.records)) by {
                assert forall|i: int, j: int| 0 <= i < j < next.records.len() implies (
                #[trigger] next.records[i]).process_id != (#[trigger] next.records[j]).process_id by {
                    assert(self.records[i].process_id != self.records[j].process_id);
                }
            }
            assert forall|j: int| 0 <= j < self.records.len() && j != t implies (
            #[trigger] next.records[j]).state == self.records[j].state by {}
            lemma_count_one_changed(self.records, next.records, t, ProcessState::Active);
            lemma_count_one_changed(self.records, next.records, t, ProcessState::Synced);
        }
    }
}

/// The records in three different states are together no more than all
/// records.
pub proof fn lemma_counts_bounded(
    records: Seq<StatusView>,
    a: ProcessState,
    b: ProcessState,
    c: ProcessState,
)
    requires
        a != b,
        b != c,
        a != c,
    ensures
        count_in_state(records, a) + count_in_state(records, b) + count_in_state(records, c)
            <= records.len(),
    decreases records.len(),
{
    if records.len() > 0 {
        lemma_counts_bounded(records.drop_last(), a, b, c);
    }
}

/// The record is queued and holds the position `p`.
pub open spec fn stands_at(r: StatusView, p: int) -> bool {
    r.state == ProcessState::Queued && r.queue_position is Some && r.queue_position->0 as int == p
}

/// Places that are all taken by queued records are no more than the queued
/// records.
proof fn lemma_places_bounded(records: Seq<StatusView>, places: Set<int>)
    requires
        places.finite(),
        forall|p: int| #[trigger]
            places.contains(p) ==> exists|i: int|
                0 <= i < records.len() && stands_at(#[trigger] records[i], p),
    ensures
        places.len() <= count_in_state(records, ProcessState::Queued),
    decreases records.len(),
{
    if records.len() == 0 {
        if places.len() > 0 {
            let p = places.choose();
            assert(places.contains(p));
        }
    } else {
        let front = records.drop_last();
        let r = records.last();
        let taken = r.state == ProcessState::Queued && r.queue_position is Some;
        let rest = if taken {
            places.remove(r.queue_position->0 as int)
        } else {
            places
        };
        assert forall|p: int| #[trigger] rest.contains(p) implies exists|i: int|
            0 <= i < front.len() && stands_at(#[trigger] front[i], p) by {
            assert(places.contains(p));
            let i = choose|i: int|
                0 <= i < records.len() && stands_at(#[trigger] records[i], p);
            assert(i < front.len());
            assert(front[i] == records[i]);
        }
        lemma_places_bounded(front, rest);
    }
}

impl QueueView {
    /// In a well-formed registry the queue is no longer than there are
    /// queued records, so that the active, the waiting and the synced
    /// processes together are no more than all records.
    pub proof fn lemma_sizes(self)
        requires
            self.wf(),
        ensures
            self.queue.len() <= count_in_state(self.records, ProcessState::Queued),
            self.active_count() + self.queue.len() + self.synced_count() <= self.records.len(),
    {
        let places = Set::new(|p: int| 0 <= p < self.queue.len());
        assert(places =~= vstd::set_lib::set_int_range(0, self.queue.len() as int));
        vstd::set_lib::lemma_int_range(0, self.queue.len() as int);
        assert forall|p: int| #[trigger] places.contains(p) implies exists|i: int|
            0 <= i < self.records.len() && stands_at(#[trigger] self.records[i], p) by {
            assert(self.entry_backed(p));
            let i = choose|i: int| 0 <= i < self.records.len() && #[trigger] self.waits_at(i, p);
            assert(self.records[i].state == ProcessState::Queued);
        }
        lemma_places_bounded(self.records, places);
        lemma_counts_bounded(
            self.records,
            ProcessState::Active,
            ProcessState::Queued,
            ProcessState::Synced,
        );
    }
}

impl QueueView {
    /// In a well-formed registry the positions are the places in the queue.
    pub proof fn lemma_positions(self)
        requires
            self.wf(),
        ensures
            forall|k: int|
                0 <= k < self.queue.len() ==> self.contains((#[trigger] self.queue[k]).process_id)
                    && self.record(self.queue[k].process_id).state == ProcessState::Queued
                    && self.record(self.queue[k].process_id).queue_position == Some(k as usize),
            forall|i: int|
                0 <= i < self.records.len() ==> ((#[trigger] self.records[i]).queue_position is Some
                    <==> self.records[i].state == ProcessState::Queued),
            forall|i: int|
                0 <= i < self.records.len() && (#[trigger] self.records[i]).state
                    == ProcessState::Queued ==> self.records[i].queue_position->0
                    < self.queue.len() && self.queue[self.records[i].queue_position->0 as int].process_id
                    == self.records[i].process_id,
    {
        assert forall|k: int| 0 <= k < self.queue.len() implies self.contains(
            (#[trigger] self.queue[k]).process_id,
        ) && self.record(self.queue[k].process_id).state == ProcessState::Queued && self.record(
            self.queue[k].process_id,
        ).queue_position == Some(k as usize) by {
            assert(self.entry_backed(k));
            let i = choose|i: int| 0 <= i < self.records.len() && #[trigger] self.waits_at(i, k);
            lemma_index_of(self.records, i);
        }
        assert forall|i: int| 0 <= i < self.records.len() implies ((
        #[trigger] self.records[i]).queue_position is Some <==> self.records[i].state
            == ProcessState::Queued) by {
            assert(self.position_sound(self.records[i]));
        }
        assert forall|i: int|
            0 <= i < self.records.len() && (#[trigger] self.records[i]).state
                == ProcessState::Queued implies self.records[i].queue_position->0
            < self.queue.len() && self.queue[self.records[i].queue_position->0 as int].process_id
            == self.records[i].process_id by {
            assert(self.position_sound(self.records[i]));
        }
    }
}

} // verus!
