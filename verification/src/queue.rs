//! The process registry with its bounded admission queue.
use crate::model::{
    count_in_state, distinct_ids, index_of, latest_first, lemma_index_of, lemma_latest_first,
    lemma_recency_slot, not_later, record_ids, QueueView,
};
use crate::models::{
    config_opt, copy_text_opt, text_opt, ConfigView, ProcessConfig, ProcessMetrics, ProcessState,
    ProcessStatus, StatusView,
};
use crate::text::text_views;
use crate::time::Timestamp;
use std::collections::VecDeque;
use vstd::prelude::*;
use vstd::string::StringExecFns;

verus! {

/// Why the registry turned an operation down.
#[derive(Clone, Copy, Debug, PartialEq, Eq, Structural)]
pub enum QueueError {
    /// The id is registered already.
    Duplicate,
    /// No process is registered under the id.
    NotFound,
    /// The process is not in the active index.
    NotActive,
}

impl QueueError {
    /// The text of the error for a process id.
    pub open spec fn message(self, process_id: Seq<char>) -> Seq<char> {
        match self {
            QueueError::Duplicate => "Process "@ + process_id + " already exists"@,
            QueueError::NotFound => "Process "@ + process_id + " not found"@,
            QueueError::NotActive => "Process "@ + process_id + " not in active list"@,
        }
    }

    /// The error as a sentence that names the process.
    pub fn describe(&self, process_id: &str) -> (r: String)
        ensures
            r@ == self.message(process_id@),
    {
        let head = String::from_str("Process ").concat(process_id);
        match self {
            QueueError::Duplicate => head.concat(" already exists"),
            QueueError::NotFound => head.concat(" not found"),
            QueueError::NotActive => head.concat(" not in active list"),
        }
    }
}

/// The views of a sequence of records.
pub open spec fn status_views(records: Seq<ProcessStatus>) -> Seq<StatusView> {
    records.map_values(|r: ProcessStatus| r@)
}

/// The views of a sequence of configurations.
pub open spec fn config_views(configs: Seq<ProcessConfig>) -> Seq<ConfigView> {
    configs.map_values(|c: ProcessConfig| c@)
}

/// The registry of every process ever submitted, together with the FIFO
/// queue of those that wait for one of the `max_active` places.
#[derive(Debug)]
pub struct QueueManager {
    max_active: usize,
    records: Vec<ProcessStatus>,
    queued: VecDeque<ProcessConfig>,
}

impl View for QueueManager {
    type V = QueueView;

    closed spec fn view(&self) -> QueueView {
        QueueView {
            limit: self.max_active,
            records: status_views(self.records@),
            queue: config_views(self.queued@),
        }
    }
}

impl QueueManager {
    /// An empty registry that admits at most `max_active` processes at once.
    pub fn new(max_active: usize) -> (r: QueueManager)
        ensures
            r@ == QueueView::empty(max_active),
            r@.wf(),
    {
        let r = QueueManager { max_active, records: Vec::new(), queued: VecDeque::new() };
        assert(r@.records =~= Seq::empty());
        assert(r@.queue =~= Seq::empty());
        r
    }

    /// The registry that holds the given records and queue.
    pub(crate) fn from_parts(
        max_active: usize,
        records: Vec<ProcessStatus>,
        queued: VecDeque<ProcessConfig>,
    ) -> (r: QueueManager)
        ensures
            r@ == (QueueView {
                limit: max_active,
                records: status_views(records@),
                queue: config_views(queued@),
            }),
    {
        QueueManager { max_active, records, queued }
    }

    /// The concurrency limit.
    pub fn max_active(&self) -> (r: usize)
        ensures
            r == self@.limit,
    {
        self.max_active
    }

    /// The place of the record that carries the id.
    fn find(&self, process_id: &String) -> (r: Option<usize>)
        ensures
            match r {
                Some(i) => i < self.records@.len() && self.records@[i as int].process_id@
                    == process_id@ && self@.contains(process_id@) && (distinct_ids(self@.records)
                    ==> index_of(self@.records, process_id@) == i),
                None => !self@.contains(process_id@),
            },
    {
        let mut i: usize = 0;
        while i < self.records.len()
            invariant
                i <= self.records@.len(),
                forall|j: int| 0 <= j < i ==> (#[trigger] self@.records[j]).process_id != process_id@,
            decreases self.records@.len() - i,
        {
            if self.records[i].process_id == *process_id {
                proof {
                    assert(self@.records[i as int].process_id == process_id@);
                    if distinct_ids(self@.records) {
                        lemma_index_of(self@.records, i as int);
                    }
                }
                return Some(i);
            }
            i += 1;
        }
        None
    }

    /// Whether a process is registered under the id.
    pub fn contains(&self, process_id: &str) -> (r: bool)
        ensures
            r == self@.contains(process_id@),
    {
        let id = process_id.to_owned();
        self.find(&id).is_some()
    }

    /// Registers a process and puts it at the tail of the queue. An id that
    /// is registered already is turned down and nothing changes.
    pub fn add_to_queue(&mut self, config: ProcessConfig) -> (r: Result<(), QueueError>)
        requires
            old(self)@.wf(),
        ensures
            final(self)@.wf(),
            old(self)@.contains(config@.process_id) ==> r == Err::<(), QueueError>(
                QueueError::Duplicate,
            ) && final(self)@ == old(self)@,
            !old(self)@.contains(config@.process_id) ==> r is Ok && final(self)@ == old(self)@.enqueue(
                config@,
            ),
            final(self)@.active_count() == old(self)@.active_count(),
            old(self)@.within_limit() ==> final(self)@.within_limit(),
    {
        if self.find(&config.process_id).is_some() {
            return Err(QueueError::Duplicate);
        }
        let mut status = ProcessStatus::new(config.name.clone(), config.process_id.clone());
        status.queue_position = Some(self.queued.len());
        let ghost cfg = config@;
        self.queued.push_back(config);
        self.records.push(status);
        let grown = self.queued.len();
        proof {
            assert(final(self)@.records =~= old(self)@.enqueue(cfg).records);
            assert(final(self)@.queue =~= old(self)@.enqueue(cfg).queue);
            old(self)@.lemma_enqueue_wf(cfg);
        }
        Ok(())
    }

    /// How many records are in a state.
    fn count(&self, state: ProcessState) -> (r: usize)
        ensures
            r == count_in_state(self@.records, state),
    {
        let mut n: usize = 0;
        let mut i: usize = 0;
        while i < self.records.len()
            invariant
                i <= self.records@.len(),
                n <= i,
                n == count_in_state(self@.records.take(i as int), state),
            decreases self.records@.len() - i,
        {
            proof {
                assert(self@.records.take(i + 1).drop_last() == self@.records.take(i as int));
            }
            if self.records[i].state == state {
                n += 1;
            }
            i += 1;
        }
        proof {
            assert(self@.records.take(self.records@.len() as int) == self@.records);
        }
        n
    }

    /// Admits the head of the queue at `now` if the active index has room:
    /// its record becomes active and leaves the line, and every record behind
    /// it moves up one place. Returns the admitted configuration, or `None`
    /// where the index is full or nobody waits. The caller initializes the
    /// process; admission is not undone if that fails.
    pub fn activate_next_at(&mut self, now: Timestamp) -> (r: Option<ProcessConfig>)
        requires
            old(self)@.wf(),
        ensures
            final(self)@.wf(),
            final(self)@ == old(self)@.activate_next(now),
            config_opt(r) == old(self)@.admitted(),
            r is Some ==> final(self)@.active_count() == old(self)@.active_count() + 1,
            old(self)@.within_limit() ==> final(self)@.within_limit(),
    {
        proof {
            old(self)@.lemma_activate_next_wf(now);
        }
        if self.count(ProcessState::Active) >= self.max_active {
            return None;
        }
        let config = match self.queued.pop_front() {
            Some(c) => c,
            None => {
                return None;
            },
        };
        let ghost before = old(self)@;
        let ghost head = config@.process_id;
        assert(config_views(self.queued@) =~= before.queue.drop_first());
        let mut i: usize = 0;
        while i < self.records.len()
            invariant
                before.wf(),
                before.queue.len() > 0,
                head == before.queue[0].process_id,
                before == old(self)@,
                self.max_active == old(self).max_active,
                self.records@.len() == before.records.len(),
                i <= self.records@.len(),
                config_views(self.queued@) == before.queue.drop_first(),
                config@.process_id == head,
                forall|j: int|
                    0 <= j < i ==> (#[trigger] self.records@[j])@ == if before.records[j].process_id
                        == head {
                        before.records[j].activated(now)
                    } else {
                        before.records[j].moved_up()
                    },
                forall|j: int| i <= j < self.records@.len() ==> (#[trigger] self.records@[j])@
                    == before.records[j],
            decreases self.records@.len() - i,
        {
            assert(before.position_sound(before.records[i as int]));
            assert(self.records@[i as int]@ == before.records[i as int]);
            if self.records[i].process_id == config.process_id {
                self.records[i].state = ProcessState::Active;
                self.records[i].activated_at = Some(now);
                self.records[i].queue_position = None;
            } else {
                match self.records[i].queue_position {
                    Some(p) => {
                        assert(p != 0);
                        self.records[i].queue_position = Some(p - 1);
                    },
                    None => {},
                }
            }
            i += 1;
        }
        proof {
            assert(final(self)@.records =~= before.activate_next(now).records);
            assert(final(self)@.queue =~= before.activate_next(now).queue);
        }
        Some(config)
    }

    /// Admits the head of the queue at the current time of the system clock.
    /// See `activate_next_at`, which this calls with that instant.
    pub fn activate_next(&mut self) -> (r: Option<ProcessConfig>)
        requires
            old(self)@.wf(),
        ensures
            final(self)@.wf(),
            exists|now: Timestamp| final(self)@ == old(self)@.activate_next(now),
            config_opt(r) == old(self)@.admitted(),
            r is Some ==> final(self)@.active_count() == old(self)@.active_count() + 1,
            old(self)@.within_limit() ==> final(self)@.within_limit(),
    {
        let now = Timestamp::now();
        self.activate_next_at(now)
    }

    /// Moves an active process to the synced index, synchronized since
    /// `now`. A process that is not active, or not known, is turned down.
    pub fn mark_synced_at(&mut self, process_id: &str, now: Timestamp) -> (r: Result<
        (),
        QueueError,
    >)
        requires
            old(self)@.wf(),
        ensures
            final(self)@.wf(),
            final(self)@ == old(self)@.mark_synced(process_id@, now),
            r is Ok <==> old(self)@.in_state(process_id@, ProcessState::Active),
            r is Err ==> r == Err::<(), QueueError>(QueueError::NotActive),
            r is Ok ==> final(self)@.active_count() + 1 == old(self)@.active_count() && final(self)@.synced_count() == old(self)@.synced_count() + 1,
            old(self)@.within_limit() ==> final(self)@.within_limit(),
    {
        proof {
            old(self)@.lemma_mark_synced_wf(process_id@, now);
        }
        let id = process_id.to_owned();
        match self.find(&id) {
            Some(i) => {
                if self.records[i].state == ProcessState::Active {
                    self.records[i].state = ProcessState::Synced;
                    self.records[i].synced_at = Some(now);
                    proof {
                        old(self)@.lemma_record(process_id@);
                        assert(final(self)@.records =~= old(self)@.mark_synced(
                            process_id@,
                            now,
                        ).records);
                    }
                    Ok(())
                } else {
                    Err(QueueError::NotActive)
                }
            },
            None => Err(QueueError::NotActive),
        }
    }

    /// Moves an active process to the synced index at the current time of
    /// the system clock. See `mark_synced_at`.
    pub fn mark_synced(&mut self, process_id: &str) -> (r: Result<(), QueueError>)
        requires
            old(self)@.wf(),
        ensures
            final(self)@.wf(),
            exists|now: Timestamp| final(self)@ == old(self)@.mark_synced(process_id@, now),
            r is Ok <==> old(self)@.in_state(process_id@, ProcessState::Active),
            r is Err ==> r == Err::<(), QueueError>(QueueError::NotActive),
            r is Ok ==> final(self)@.active_count() + 1 == old(self)@.active_count() && final(self)@.synced_count() == old(self)@.synced_count() + 1,
            old(self)@.within_limit() ==> final(self)@.within_limit(),
    {
        let now = Timestamp::now();
        self.mark_synced_at(process_id, now)
    }

    /// Takes an active process out of the active index for good, with the
    /// reason. A process that is not active, or not known, is turned down.
    pub fn mark_error(&mut self, process_id: &str, error: String) -> (r: Result<(), QueueError>)
        requires
            old(self)@.wf(),
        ensures
            final(self)@.wf(),
            final(self)@ == old(self)@.mark_error(process_id@, error@),
            r is Ok <==> old(self)@.in_state(process_id@, ProcessState::Active),
            r is Err ==> r == Err::<(), QueueError>(QueueError::NotActive),
            r is Ok ==> final(self)@.active_count() + 1 == old(self)@.active_count(),
            old(self)@.within_limit() ==> final(self)@.within_limit(),
    {
        proof {
            old(self)@.lemma_mark_error_wf(process_id@, error@);
        }
        let id = process_id.to_owned();
        match self.find(&id) {
            Some(i) => {
                if self.records[i].state == ProcessState::Active {
                    self.records[i].state = ProcessState::Error;
                    self.records[i].error = Some(error);
                    proof {
                        old(self)@.lemma_record(process_id@);
                        assert(final(self)@.records =~= old(self)@.mark_error(
                            process_id@,
                            error@,
                        ).records);
                    }
                    Ok(())
                } else {
                    Err(QueueError::NotActive)
                }
            },
            None => Err(QueueError::NotActive),
        }
    }

    /// Starts a process over: its record is reset and put at the tail of
    /// the queue, whatever state it was in. If it was waiting already, its old
    /// place in line is given up. An unknown id is turned down.
    pub fn restart_process(&mut self, process_id: &str) -> (r: Result<(), QueueError>)
        requires
            old(self)@.wf(),
        ensures
            final(self)@.wf(),
            final(self)@ == old(self)@.restart(process_id@),
            r is Ok <==> old(self)@.contains(process_id@),
            r is Err ==> r == Err::<(), QueueError>(QueueError::NotFound),
            old(self)@.within_limit() ==> final(self)@.within_limit(),
    {
        let id = process_id.to_owned();
        let t = match self.find(&id) {
            Some(t) => t,
            None => {
                return Err(QueueError::NotFound);
            },
        };
        let ghost before = old(self)@;
        proof {
            before.lemma_record(process_id@);
            assert(before.position_sound(before.records[t as int]));
        }
        let gap = self.records[t].queue_position;
        match gap {
            Some(q) => {
                let _ = self.queued.remove(q);
            },
            None => {},
        }
        assert(config_views(self.queued@) =~= before.queue_without(gap));
        let mut i: usize = 0;
        while i < self.records.len()
            invariant
                self.max_active == old(self).max_active,
                self.records@.len() == before.records.len(),
                t < self.records@.len(),
                i <= self.records@.len(),
                config_views(self.queued@) == before.queue_without(gap),
                forall|j: int|
                    0 <= j < i && j != t ==> (#[trigger] self.records@[j])@
                        == before.records[j].closed_up(gap),
                forall|j: int|
                    0 <= j < self.records@.len() && (j >= i || j == t) ==> (
                    #[trigger] self.records@[j])@ == before.records[j],
            decreases self.records@.len() - i,
        {
            if i != t {
                match (gap, self.records[i].queue_position) {
                    (Some(q), Some(p)) => {
                        if p > q {
                            self.records[i].queue_position = Some(p - 1);
                        }
                    },
                    _ => {},
                }
            }
            i += 1;
        }
        let name = self.records[t].name.clone();
        self.records[t].state = ProcessState::Queued;
        self.records[t].error = None;
        self.records[t].cron_initialized = false;
        self.records[t].activated_at = None;
        self.records[t].synced_at = None;
        self.records[t].metrics = ProcessMetrics::default();
        self.records[t].queue_position = Some(self.queued.len());
        self.queued.push_back(ProcessConfig { name, process_id: id, base_url: None });
        let grown = self.queued.len();
        proof {
            assert(final(self)@.records =~= before.restart(process_id@).records);
            assert(final(self)@.queue =~= before.restart(process_id@).queue);
            before.lemma_restart_wf(process_id@);
        }
        Ok(())
    }

    /// Gives a registered process a new name and endpoint: the record takes
    /// the name, and the queue entry, if the process waits, takes both.
    /// Nothing happens for an unknown id.
    pub fn update_process_config(&mut self, process_id: &str, name: String, base_url: Option<String>)
        requires
            old(self)@.wf(),
        ensures
            final(self)@.wf(),
            final(self)@ == old(self)@.reconfigure(process_id@, name@, text_opt(base_url)),
            final(self)@.active_count() == old(self)@.active_count(),
    {
        let id = process_id.to_owned();
        let ghost before = old(self)@;
        proof {
            before.lemma_reconfigure_wf(process_id@, name@, text_opt(base_url));
        }
        match self.find(&id) {
            Some(t) => {
                self.records[t].name = name.clone();
                proof {
                    before.lemma_record(process_id@);
                }
            },
            None => {},
        }
        assert(self@.records =~= before.reconfigure(process_id@, name@, text_opt(base_url)).records);
        let ghost renamed = self@.records;
        let mut k: usize = 0;
        while k < self.queued.len()
            invariant
                self.max_active == old(self).max_active,
                self@.records == renamed,
                self.queued@.len() == before.queue.len(),
                k <= self.queued@.len(),
                id@ == process_id@,
                forall|j: int|
                    0 <= j < k ==> (#[trigger] self.queued@[j])@ == if before.queue[j].process_id
                        == id@ {
                        ConfigView { name: name@, base_url: text_opt(base_url), ..before.queue[j] }
                    } else {
                        before.queue[j]
                    },
                forall|j: int| k <= j < self.queued@.len() ==> (#[trigger] self.queued@[j])@
                    == before.queue[j],
            decreases self.queued@.len() - k,
        {
            if self.queued[k].process_id == id {
                match self.queued.remove(k) {
                    Some(mut entry) => {
                        entry.name = name.clone();
                        entry.base_url = copy_text_opt(&base_url);
                        self.queued.insert(k, entry);
                    },
                    None => {},
                }
            }
            k += 1;
        }
        assert(self@.queue =~= before.reconfigure(process_id@, name@, text_opt(base_url)).queue);
    }

    /// Overwrites the record of a process with `update`, except for what the
    /// registry owns: id, state and queue position stay as they are. An
    /// unknown id is turned down.
    pub fn replace_process(&mut self, process_id: &str, update: ProcessStatus) -> (r: Result<
        (),
        QueueError,
    >)
        requires
            old(self)@.wf(),
        ensures
            final(self)@.wf(),
            final(self)@ == old(self)@.overwrite(process_id@, update@),
            r is Ok <==> old(self)@.contains(process_id@),
            r is Err ==> r == Err::<(), QueueError>(QueueError::NotFound) && final(self)@ == old(self)@,
            final(self)@.active_count() == old(self)@.active_count(),
    {
        let id = process_id.to_owned();
        proof {
            old(self)@.lemma_overwrite_wf(process_id@, update@);
        }
        match self.find(&id) {
            Some(t) => {
                let mut record = update;
                record.process_id = id;
                record.state = self.records[t].state;
                record.queue_position = self.records[t].queue_position;
                self.records[t] = record;
                proof {
                    old(self)@.lemma_record(process_id@);
                    assert(final(self)@.records =~= old(self)@.overwrite(process_id@, update@).records);
                }
                Ok(())
            },
            None => {
                assert(old(self)@.records =~= old(self)@.overwrite(process_id@, update@).records);
                Err(QueueError::NotFound)
            },
        }
    }

    /// Applies a transform to the record of a process. The registry keeps
    /// the record's id, state and queue position whatever the transform does
    /// to them. An unknown id is turned down and the transform is not run.
    pub fn update_process_status<F: FnOnce(&mut ProcessStatus)>(
        &mut self,
        process_id: &str,
        update_fn: F,
    ) -> (r: Result<(), QueueError>)
        requires
            old(self)@.wf(),
            forall|x: &mut ProcessStatus| update_fn.requires((x,)),
        ensures
            final(self)@.wf(),
            r is Ok <==> old(self)@.contains(process_id@),
            r is Err ==> r == Err::<(), QueueError>(QueueError::NotFound) && final(self)@ == old(self)@,
            r is Ok ==> exists|x: &mut ProcessStatus|
                (*x)@ == old(self)@.record(process_id@) && update_fn.ensures((x,), ()) && final(self)@ == old(self)@.overwrite(process_id@, (*final(x))@),
            final(self)@.active_count() == old(self)@.active_count(),
    {
        let id = process_id.to_owned();
        match self.find(&id) {
            Some(t) => {
                let mut record = self.records[t].clone();
                update_fn(&mut record);
                let ghost updated = record@;
                record.process_id = id;
                record.state = self.records[t].state;
                record.queue_position = self.records[t].queue_position;
                self.records[t] = record;
                proof {
                    old(self)@.lemma_record(process_id@);
                    old(self)@.lemma_overwrite_wf(process_id@, updated);
                    assert(final(self)@.records =~= old(self)@.overwrite(process_id@, updated).records);
                }
                Ok(())
            },
            None => Err(QueueError::NotFound),
        }
    }

    /// The sizes of the active index, of the queue and of the synced index.
    pub fn get_status(&self) -> (r: (usize, usize, usize))
        ensures
            r.0 == self@.active_count(),
            r.1 == self@.queue.len(),
            r.2 == self@.synced_count(),
    {
        (self.count(ProcessState::Active), self.queued.len(), self.count(ProcessState::Synced))
    }

    /// Copies of the records that are in a state, in order of registration.
    fn collect(&self, state: ProcessState) -> (r: Vec<ProcessStatus>)
        ensures
            status_views(r@) == self@.records_in(state),
    {
        let mut out: Vec<ProcessStatus> = Vec::new();
        let mut i: usize = 0;
        let ghost wanted = |r: StatusView| r.state == state;
        proof {
            reveal(Seq::filter);
            assert(status_views(out@) =~= self@.records.take(0).filter(wanted));
        }
        while i < self.records.len()
            invariant
                i <= self.records@.len(),
                wanted == |r: StatusView| r.state == state,
                status_views(out@) == self@.records.take(i as int).filter(wanted),
            decreases self.records@.len() - i,
        {
            proof {
                reveal(Seq::filter);
                assert(self@.records.take(i + 1).drop_last() == self@.records.take(i as int));
            }
            if self.records[i].state == state {
                out.push(self.records[i].clone());
                proof {
                    assert(status_views(out@) =~= self@.records.take(i + 1).filter(wanted));
                }
            }
            i += 1;
        }
        proof {
            assert(self@.records.take(self.records@.len() as int) == self@.records);
        }
        out
    }

    /// Copies of the records that the periodic slot check visits: the active
    /// ones whose remote initialization has succeeded. A process that was
    /// admitted and is not initialized yet is left alone.
    pub fn get_processes_to_poll(&self) -> (r: Vec<ProcessStatus>)
        ensures
            status_views(r@) == self@.to_poll(),
    {
        let mut out: Vec<ProcessStatus> = Vec::new();
        let mut i: usize = 0;
        let ghost wanted = |r: StatusView| r.state == ProcessState::Active && r.cron_initialized;
        proof {
            reveal(Seq::filter);
            assert(status_views(out@) =~= self@.records.take(0).filter(wanted));
        }
        while i < self.records.len()
            invariant
                i <= self.records@.len(),
                wanted == |r: StatusView| r.state == ProcessState::Active && r.cron_initialized,
                status_views(out@) == self@.records.take(i as int).filter(wanted),
            decreases self.records@.len() - i,
        {
            proof {
                reveal(Seq::filter);
                assert(self@.records.take(i + 1).drop_last() == self@.records.take(i as int));
            }
            if self.records[i].state == ProcessState::Active && self.records[i].cron_initialized {
                out.push(self.records[i].clone());
                proof {
                    assert(status_views(out@) =~= self@.records.take(i + 1).filter(wanted));
                }
            }
            i += 1;
        }
        proof {
            assert(self@.records.take(self.records@.len() as int) == self@.records);
        }
        out
    }

    /// Copies of the records in the active index, in order of registration.
    pub fn get_active_processes(&self) -> (r: Vec<ProcessStatus>)
        ensures
            status_views(r@) == self@.records_in(ProcessState::Active),
    {
        self.collect(ProcessState::Active)
    }

    /// Copies of the records in the synced index, in order of registration.
    pub fn get_synced_processes(&self) -> (r: Vec<ProcessStatus>)
        ensures
            status_views(r@) == self@.records_in(ProcessState::Synced),
    {
        self.collect(ProcessState::Synced)
    }

    /// Copies of all records, in order of registration.
    pub fn all_processes(&self) -> (r: Vec<ProcessStatus>)
        ensures
            status_views(r@) == self@.records,
    {
        let mut out: Vec<ProcessStatus> = Vec::new();
        let mut i: usize = 0;
        while i < self.records.len()
            invariant
                i <= self.records@.len(),
                status_views(out@) == self@.records.take(i as int),
            decreases self.records@.len() - i,
        {
            let ghost sofar = out@;
            out.push(self.records[i].clone());
            proof {
                assert(status_views(out@) =~= status_views(sofar).push(self@.records[i as int]));
                assert(status_views(out@) =~= self@.records.take(i + 1));
            }
            i += 1;
        }
        proof {
            assert(self@.records.take(self.records@.len() as int) == self@.records);
        }
        out
    }

    /// The number of registered processes.
    pub fn process_count(&self) -> (r: usize)
        ensures
            r == self@.records.len(),
    {
        self.records.len()
    }

    /// Copies of the ids of all records, in order of registration.
    pub fn process_ids(&self) -> (r: Vec<String>)
        ensures
            text_views(r@) == record_ids(self@.records),
    {
        let mut out: Vec<String> = Vec::new();
        let mut i: usize = 0;
        while i < self.records.len()
            invariant
                i <= self.records@.len(),
                out@.len() == i,
                forall|j: int| 0 <= j < i ==> (#[trigger] out@[j])@ == self.records@[j].process_id@,
            decreases self.records@.len() - i,
        {
            out.push(self.records[i].process_id.clone());
            i += 1;
        }
        proof {
            assert(text_views(out@) =~= record_ids(self@.records));
        }
        out
    }

    /// Copies of the waiting configurations, head of the queue first.
    pub fn queued_configs(&self) -> (r: Vec<ProcessConfig>)
        ensures
            config_views(r@) == self@.queue,
    {
        let mut out: Vec<ProcessConfig> = Vec::new();
        let mut i: usize = 0;
        while i < self.queued.len()
            invariant
                i <= self.queued@.len(),
                config_views(out@) == self@.queue.take(i as int),
            decreases self.queued@.len() - i,
        {
            let ghost sofar = out@;
            out.push(self.queued[i].clone());
            proof {
                assert(config_views(out@) =~= config_views(sofar).push(self@.queue[i as int]));
                assert(config_views(out@) =~= self@.queue.take(i + 1));
            }
            i += 1;
        }
        proof {
            assert(self@.queue.take(self.queued@.len() as int) == self@.queue);
        }
        out
    }

    /// A copy of the record registered under an id.
    pub fn get_process(&self, process_id: &str) -> (r: Option<ProcessStatus>)
        requires
            self@.wf(),
        ensures
            r is Some <==> self@.contains(process_id@),
            r matches Some(record) ==> record@ == self@.record(process_id@),
    {
        let id = process_id.to_owned();
        match self.find(&id) {
            Some(i) => Some(self.records[i].clone()),
            None => None,
        }
    }

    /// Copies of the records of the first `limit` processes in line, head
    /// first.
    pub fn get_queue_preview(&self, limit: usize) -> (r: Vec<ProcessStatus>)
        requires
            self@.wf(),
        ensures
            status_views(r@) == self@.preview(limit),
    {
        let mut out: Vec<ProcessStatus> = Vec::new();
        let n = if limit < self.queued.len() {
            limit
        } else {
            self.queued.len()
        };
        let mut k: usize = 0;
        while k < n
            invariant
                self@.wf(),
                n <= self.queued@.len(),
                k <= n,
                out@.len() == k,
                forall|j: int|
                    0 <= j < k ==> (#[trigger] out@[j])@ == self@.record(self@.queue[j].process_id),
            decreases n - k,
        {
            proof {
                assert(self@.entry_backed(k as int));
                let i = choose|i: int|
                    0 <= i < self@.records.len() && #[trigger] self@.waits_at(i, k as int);
                assert(self@.records[i].process_id == self@.queue[k as int].process_id);
            }
            match self.find(&self.queued[k].process_id) {
                Some(i) => {
                    out.push(self.records[i].clone());
                },
                None => {
                    assert(false);
                },
            }
            k += 1;
        }
        proof {
            assert(status_views(out@) =~= self@.preview(limit));
        }
        out
    }

    /// Copies of the `limit` most recently synced records, latest first.
    pub fn get_recent_synced(&self, limit: usize) -> (r: Vec<ProcessStatus>)
        ensures
            status_views(r@) == self@.recent_synced(limit),
    {
        let synced = self.collect(ProcessState::Synced);
        let ghost all = status_views(synced@);
        let mut out: Vec<ProcessStatus> = Vec::new();
        let mut i: usize = 0;
        proof {
            assert(all.take(0) =~= Seq::empty());
            assert(status_views(out@) =~= latest_first(all.take(0)));
        }
        while i < synced.len()
            invariant
                i <= synced@.len(),
                all == status_views(synced@),
                status_views(out@) == latest_first(all.take(i as int)),
            decreases synced@.len() - i,
        {
            let x = synced[i].clone();
            let mut at: usize = 0;
            while at < out.len() && !is_not_later(out[at].synced_at, x.synced_at)
                invariant
                    at <= out@.len(),
                    forall|j: int|
                        0 <= j < at ==> !not_later(
                            (#[trigger] status_views(out@)[j]).synced_at,
                            x@.synced_at,
                        ),
                decreases out@.len() - at,
            {
                at += 1;
            }
            let ghost before = status_views(out@);
            proof {
                lemma_recency_slot(before, x@, at as int);
                assert(all.take(i + 1).drop_last() == all.take(i as int));
                assert(all.take(i + 1).last() == x@);
            }
            out.insert(at, x);
            proof {
                assert(status_views(out@) =~= before.insert(at as int, x@));
            }
            i += 1;
        }
        proof {
            assert(all.take(synced@.len() as int) == all);
            lemma_latest_first(all);
        }
        out.truncate(limit);
        proof {
            assert(status_views(out@) =~= self@.recent_synced(limit));
        }
        out
    }
}

/// Whether the instant `a` is not later than `b`.
fn is_not_later(a: Option<Timestamp>, b: Option<Timestamp>) -> (r: bool)
    ensures
        r == not_later(a, b),
{
    match (a, b) {
        (None, _) => true,
        (Some(_), None) => false,
        (Some(x), Some(y)) => !y.is_before(&x),
    }
}

} // verus!
