//! The bookkeeping that follows every observation of a process: what a slot
//! check, a reserve fetch or a cron listing does to its record, and which
//! lifecycle step follows.
use crate::hyperbeam::{
    path_process_id, process_id_of_path, CronItem, ReservesResult, ReservesView, SlotCheckResult,
};
use crate::model::QueueView;
use crate::models::{
    text_opt, MetricsView, ProcessMetrics, ProcessState, ProcessStatus, StatusView, LATENCY_WINDOW,
};
use crate::queue::{QueueError, QueueManager};
use crate::time::{elapsed_seconds_saturating, instant_of_millis, SyncRate, Timestamp};
use vstd::prelude::*;

verus! {

/// The latest `LATENCY_WINDOW` samples of a series, oldest first.
pub open spec fn latest_samples(samples: Seq<u64>) -> Seq<u64> {
    if samples.len() > LATENCY_WINDOW {
        samples.subrange(samples.len() - LATENCY_WINDOW, samples.len() as int)
    } else {
        samples
    }
}

/// The sum of two counters, held at `u64::MAX` where it would pass it.
pub open spec fn capped_sum(a: u64, b: u64) -> u64 {
    if a + b > u64::MAX {
        u64::MAX
    } else {
        (a + b) as u64
    }
}

/// The forward progress from a previous computed slot to a new one: the
/// difference where the slot advanced, zero where it stood still or fell
/// back.
pub open spec fn slots_gained(previous: u64, computed: u64) -> u64 {
    if computed > previous {
        (computed - previous) as u64
    } else {
        0
    }
}

/// The average rate after a check at `now`: the total advanced over the
/// whole seconds since `start`, once at least one second has passed and
/// something was advanced; the rate it had before, otherwise.
pub open spec fn rate_after(
    rate: SyncRate,
    total: u64,
    start: Option<Timestamp>,
    now: Timestamp,
) -> SyncRate {
    match start {
        Some(s) => if elapsed_seconds_saturating(s, now) > 0 && total > 0 {
            SyncRate { slots: total, seconds: elapsed_seconds_saturating(s, now) }
        } else {
            rate
        },
        None => rate,
    }
}

impl MetricsView {
    /// The metrics after a periodic slot check. `previous` is the computed
    /// slot that the caller last knew.
    pub open spec fn after_slot_check(
        self,
        previous: Option<u64>,
        result: SlotCheckResult,
        now: Timestamp,
    ) -> MetricsView {
        let last = match previous {
            Some(p) => slots_gained(p, result.computed_slot),
            None => self.slots_advanced_last_check,
        };
        let total = match previous {
            Some(p) => capped_sum(self.total_slots_advanced, slots_gained(p, result.computed_slot)),
            None => self.total_slots_advanced,
        };
        let first = self.initial_slot_deficit is None;
        let start = if first {
            Some(now)
        } else {
            self.sync_start_time
        };
        MetricsView {
            initial_slot_deficit: if first {
                Some(result.lag())
            } else {
                self.initial_slot_deficit
            },
            slots_advanced_last_check: last,
            total_slots_advanced: total,
            sync_start_time: start,
            sync_end_time: self.sync_end_time,
            avg_sync_rate: rate_after(self.avg_sync_rate, total, start, now),
            check_count: capped_sum(self.check_count, 1),
            api_response_times: latest_samples(
                self.api_response_times.push(result.computed_response_time).push(
                    result.current_response_time,
                ),
            ),
        }
    }
}

impl StatusView {
    /// The record after its remote initialization succeeded.
    pub open spec fn initialized(self) -> StatusView {
        StatusView { cron_initialized: true, ..self }
    }

    /// The record with both slots as a check at `now` saw them.
    pub open spec fn with_slots(self, result: SlotCheckResult, now: Timestamp) -> StatusView {
        StatusView {
            computed_slot: Some(result.computed_slot),
            current_slot: Some(result.current_slot),
            last_checked: Some(now),
            ..self
        }
    }

    /// The record after the first slot check that follows initialization:
    /// the slots are known, the check count is one, and where the
    /// computation lags the initial deficit and the start of syncing are
    /// captured.
    pub open spec fn after_first_check(self, result: SlotCheckResult, now: Timestamp) -> StatusView {
        let lagging = result.computed_slot < result.current_slot;
        StatusView {
            metrics: MetricsView {
                check_count: 1,
                initial_slot_deficit: if lagging {
                    Some(result.lag())
                } else {
                    self.metrics.initial_slot_deficit
                },
                sync_start_time: if lagging {
                    Some(now)
                } else {
                    self.metrics.sync_start_time
                },
                ..self.metrics
            },
            ..self.with_slots(result, now)
        }
    }

    /// The record after a periodic slot check.
    pub open spec fn after_slot_check(
        self,
        previous: Option<u64>,
        result: SlotCheckResult,
        now: Timestamp,
    ) -> StatusView {
        StatusView {
            metrics: self.metrics.after_slot_check(previous, result, now),
            ..self.with_slots(result, now)
        }
    }

    /// The record after the live head of a waiting process was looked up.
    pub open spec fn with_current_slot(self, current: u64, now: Timestamp) -> StatusView {
        StatusView { current_slot: Some(current), last_checked: Some(now), ..self }
    }

    /// The record after a slot check that a cron listing set off. `created`
    /// is when the cron was created, if the calendar can tell.
    pub open spec fn after_cron_check(
        self,
        created: Option<Timestamp>,
        result: SlotCheckResult,
        now: Timestamp,
    ) -> StatusView {
        let total = match self.computed_slot {
            Some(p) => capped_sum(
                self.metrics.total_slots_advanced,
                slots_gained(p, result.computed_slot),
            ),
            None => self.metrics.total_slots_advanced,
        };
        StatusView {
            cron_created_at: created,
            metrics: MetricsView {
                total_slots_advanced: total,
                avg_sync_rate: rate_after(self.metrics.avg_sync_rate, total, created, now),
                ..self.metrics
            },
            ..self.with_slots(result, now)
        }
    }

    /// The record after both reserve sources were asked at `now`; a source
    /// that failed leaves its report absent.
    pub open spec fn with_reserves(self, reserves: ReservesView, now: Timestamp) -> StatusView {
        StatusView {
            hb_reserves: reserves.hb_reserves,
            ao_reserves: reserves.ao_reserves,
            reserves_last_checked: Some(now),
            ..self
        }
    }
}

/// Adds two counters, stopping at `u64::MAX`.
pub fn add_capped(a: u64, b: u64) -> (r: u64)
    ensures
        r == capped_sum(a, b),
{
    if a > u64::MAX - b {
        u64::MAX
    } else {
        a + b
    }
}

/// The forward progress from a previous computed slot to a new one.
pub fn gained(previous: u64, computed: u64) -> (r: u64)
    ensures
        r == slots_gained(previous, computed),
{
    if computed > previous {
        computed - previous
    } else {
        0
    }
}

/// The average rate after a check at `now`.
pub fn updated_rate(rate: SyncRate, total: u64, start: Option<Timestamp>, now: Timestamp) -> (r:
    SyncRate)
    ensures
        r == rate_after(rate, total, start, now),
{
    match start {
        Some(s) => {
            let seconds = now.seconds_since(&s);
            if seconds > 0 && total > 0 {
                SyncRate { slots: total, seconds }
            } else {
                rate
            }
        },
        None => rate,
    }
}

impl ProcessMetrics {
    /// Appends the two latencies of a check and keeps the latest
    /// `LATENCY_WINDOW` samples, dropping the oldest first.
    pub fn record_latencies(&mut self, computed_ms: u64, current_ms: u64)
        ensures
            final(self)@ == (MetricsView {
                api_response_times: latest_samples(
                    old(self)@.api_response_times.push(computed_ms).push(current_ms),
                ),
                ..old(self)@
            }),
    {
        self.api_response_times.push(computed_ms);
        self.api_response_times.push(current_ms);
        let ghost all = self.api_response_times@;
        let n = self.api_response_times.len();
        if n > LATENCY_WINDOW {
            let mut kept: Vec<u64> = Vec::new();
            let mut i: usize = n - LATENCY_WINDOW;
            while i < n
                invariant
                    n == all.len(),
                    n > LATENCY_WINDOW,
                    self.api_response_times@ == all,
                    n - LATENCY_WINDOW <= i <= n,
                    kept@ == all.subrange(n - LATENCY_WINDOW, i as int),
                decreases n - i,
            {
                kept.push(self.api_response_times[i]);
                proof {
                    assert(kept@ =~= all.subrange(n - LATENCY_WINDOW, i + 1));
                }
                i += 1;
            }
            self.api_response_times = kept;
        }
    }

    /// Updates the metrics after a periodic slot check at `now`.
    /// `previous` is the computed slot that the caller last knew. The
    /// counters stop at `u64::MAX`.
    pub fn record_slot_check(
        &mut self,
        previous: Option<u64>,
        result: &SlotCheckResult,
        now: Timestamp,
    )
        ensures
            final(self)@ == old(self)@.after_slot_check(previous, *result, now),
    {
        self.check_count = add_capped(self.check_count, 1);
        self.record_latencies(result.computed_response_time, result.current_response_time);
        match previous {
            Some(p) => {
                self.slots_advanced_last_check = gained(p, result.computed_slot);
                self.total_slots_advanced = add_capped(
                    self.total_slots_advanced,
                    self.slots_advanced_last_check,
                );
            },
            None => {},
        }
        if self.initial_slot_deficit.is_none() {
            self.initial_slot_deficit = Some(result.deficit());
            self.sync_start_time = Some(now);
        }
        self.avg_sync_rate = updated_rate(
            self.avg_sync_rate,
            self.total_slots_advanced,
            self.sync_start_time,
            now,
        );
    }
}

impl ProcessStatus {
    /// Notes that the remote initialization succeeded.
    pub fn mark_initialized(&mut self)
        ensures
            final(self)@ == old(self)@.initialized(),
    {
        self.cron_initialized = true;
    }

    /// Takes over the slots of the first check after initialization.
    pub fn record_first_check(&mut self, result: &SlotCheckResult, now: Timestamp)
        ensures
            final(self)@ == old(self)@.after_first_check(*result, now),
    {
        self.computed_slot = Some(result.computed_slot);
        self.current_slot = Some(result.current_slot);
        self.last_checked = Some(now);
        self.metrics.check_count = 1;
        if result.computed_slot < result.current_slot {
            self.metrics.initial_slot_deficit = Some(result.current_slot - result.computed_slot);
            self.metrics.sync_start_time = Some(now);
        }
    }

    /// Takes over the slots of a periodic check and updates the metrics.
    /// `previous` is the computed slot that the caller last knew.
    pub fn record_slot_check(
        &mut self,
        previous: Option<u64>,
        result: &SlotCheckResult,
        now: Timestamp,
    )
        ensures
            final(self)@ == old(self)@.after_slot_check(previous, *result, now),
    {
        self.computed_slot = Some(result.computed_slot);
        self.current_slot = Some(result.current_slot);
        self.last_checked = Some(now);
        self.metrics.record_slot_check(previous, result, now);
    }

    /// Takes over the live head that was looked up for a waiting process.
    pub fn record_current_slot(&mut self, current: u64, now: Timestamp)
        ensures
            final(self)@ == old(self)@.with_current_slot(current, now),
    {
        self.current_slot = Some(current);
        self.last_checked = Some(now);
    }

    /// Takes over the slots of a re-check of a synced process.
    pub fn record_recheck(&mut self, result: &SlotCheckResult, now: Timestamp)
        ensures
            final(self)@ == old(self)@.with_slots(*result, now),
    {
        self.computed_slot = Some(result.computed_slot);
        self.current_slot = Some(result.current_slot);
        self.last_checked = Some(now);
    }

    /// Takes over the slots of a check that a cron listing set off, counts
    /// the advance since the slot the record held, and measures the rate
    /// from the creation of the cron.
    pub fn record_cron_check(
        &mut self,
        created: Option<Timestamp>,
        result: &SlotCheckResult,
        now: Timestamp,
    )
        ensures
            final(self)@ == old(self)@.after_cron_check(created, *result, now),
    {
        let old_computed = self.computed_slot;
        self.computed_slot = Some(result.computed_slot);
        self.current_slot = Some(result.current_slot);
        self.last_checked = Some(now);
        self.cron_created_at = created;
        match old_computed {
            Some(p) => {
                self.metrics.total_slots_advanced = add_capped(
                    self.metrics.total_slots_advanced,
                    gained(p, result.computed_slot),
                );
            },
            None => {},
        }
        self.metrics.avg_sync_rate = updated_rate(
            self.metrics.avg_sync_rate,
            self.metrics.total_slots_advanced,
            created,
            now,
        );
    }

    /// Takes over what the two reserve sources reported at `now`.
    pub fn record_reserves(&mut self, reserves: ReservesResult, now: Timestamp)
        ensures
            final(self)@ == old(self)@.with_reserves(reserves@, now),
    {
        self.hb_reserves = reserves.hb_reserves;
        self.ao_reserves = reserves.ao_reserves;
        self.reserves_last_checked = Some(now);
    }
}

/// What a re-check of a synced process found.
#[derive(Clone, Copy, Debug, PartialEq, Eq, Structural)]
pub struct Recheck {
    /// One of the two slots differs from what the record held.
    pub changed: bool,
    /// The process was synced and the live head has moved away from the
    /// computed slot again. The record stays in the synced index; this is
    /// for the caller to report.
    pub regressed: bool,
}

impl QueueView {
    /// The registry after a periodic slot check of `id` was applied: the
    /// record takes the slots and the metrics move on; where the slots are
    /// equal and the process is active it moves to the synced index.
    pub open spec fn after_slot_check(
        self,
        id: Seq<char>,
        previous: Option<u64>,
        result: SlotCheckResult,
        now: Timestamp,
    ) -> QueueView {
        let checked = self.overwrite(id, self.record(id).after_slot_check(previous, result, now));
        if result.synced() {
            checked.mark_synced(id, now)
        } else {
            checked
        }
    }

    /// The registry after a slot check of `id` that a cron listing set off.
    pub open spec fn after_cron_check(
        self,
        id: Seq<char>,
        created: Option<Timestamp>,
        result: SlotCheckResult,
        now: Timestamp,
    ) -> QueueView {
        let checked = self.overwrite(id, self.record(id).after_cron_check(created, result, now));
        if result.synced() {
            checked.mark_synced(id, now)
        } else {
            checked
        }
    }

    /// What a re-check of `id` reports.
    pub open spec fn recheck_of(self, id: Seq<char>, result: SlotCheckResult) -> Recheck {
        let r = self.record(id);
        Recheck {
            changed: r.computed_slot != Some(result.computed_slot) || r.current_slot != Some(
                result.current_slot,
            ),
            regressed: r.state == ProcessState::Synced && !result.synced(),
        }
    }

    /// Overwriting a record leaves every id in the state it was in.
    pub proof fn lemma_overwrite_keeps_state(self, id: Seq<char>, update: StatusView, other: Seq<char>)
        requires
            self.wf(),
        ensures
            self.overwrite(id, update).contains(other) == self.contains(other),
            self.contains(other) ==> self.overwrite(id, update).record(other).state == self.record(
                other,
            ).state,
            self.contains(id) ==> self.overwrite(id, update).record(id) == self.record(
                id,
            ).overwritten_by(update),
    {
        let next = self.overwrite(id, update);
        self.lemma_overwrite_wf(id, update);
        if self.contains(other) {
            self.lemma_record(other);
            let i = crate::model::index_of(self.records, other);
            assert(next.records[i].process_id == other);
            next.lemma_record(other);
        }
        if next.contains(other) {
            let i = crate::model::index_of(next.records, other);
            assert(self.records[i].process_id == other);
        }
        if self.contains(id) {
            self.lemma_record(id);
            let i = crate::model::index_of(self.records, id);
            assert(next.records[i].process_id == id);
            next.lemma_record(id);
        }
    }
}

impl QueueManager {
    /// Notes that the remote initialization of a process succeeded. An
    /// unknown id is turned down.
    pub fn apply_initialized(&mut self, process_id: &str) -> (r: Result<(), QueueError>)
        requires
            old(self)@.wf(),
        ensures
            final(self)@.wf(),
            r is Ok <==> old(self)@.contains(process_id@),
            r is Err ==> r == Err::<(), QueueError>(QueueError::NotFound) && final(self)@ == old(self)@,
            r is Ok ==> final(self)@ == old(self)@.overwrite(
                process_id@,
                old(self)@.record(process_id@).initialized(),
            ),
            final(self)@.active_count() == old(self)@.active_count(),
            old(self)@.within_limit() ==> final(self)@.within_limit(),
    {
        let mut record = match self.get_process(process_id) {
            Some(r) => r,
            None => {
                return Err(QueueError::NotFound);
            },
        };
        record.mark_initialized();
        self.replace_process(process_id, record)
    }

    /// Applies the first slot check after initialization. An unknown id is
    /// turned down.
    pub fn apply_first_check(
        &mut self,
        process_id: &str,
        result: &SlotCheckResult,
        now: Timestamp,
    ) -> (r: Result<(), QueueError>)
        requires
            old(self)@.wf(),
        ensures
            final(self)@.wf(),
            r is Ok <==> old(self)@.contains(process_id@),
            r is Err ==> r == Err::<(), QueueError>(QueueError::NotFound) && final(self)@ == old(self)@,
            r is Ok ==> final(self)@ == old(self)@.overwrite(
                process_id@,
                old(self)@.record(process_id@).after_first_check(*result, now),
            ),
            final(self)@.active_count() == old(self)@.active_count(),
            old(self)@.within_limit() ==> final(self)@.within_limit(),
    {
        let mut record = match self.get_process(process_id) {
            Some(r) => r,
            None => {
                return Err(QueueError::NotFound);
            },
        };
        record.record_first_check(result, now);
        self.replace_process(process_id, record)
    }

    /// Applies the live head that was looked up for a waiting process. An
    /// unknown id is turned down.
    pub fn apply_queue_slot(&mut self, process_id: &str, current: u64, now: Timestamp) -> (r: Result<
        (),
        QueueError,
    >)
        requires
            old(self)@.wf(),
        ensures
            final(self)@.wf(),
            r is Ok <==> old(self)@.contains(process_id@),
            r is Err ==> r == Err::<(), QueueError>(QueueError::NotFound) && final(self)@ == old(self)@,
            r is Ok ==> final(self)@ == old(self)@.overwrite(
                process_id@,
                old(self)@.record(process_id@).with_current_slot(current, now),
            ),
            final(self)@.active_count() == old(self)@.active_count(),
            old(self)@.within_limit() ==> final(self)@.within_limit(),
    {
        let mut record = match self.get_process(process_id) {
            Some(r) => r,
            None => {
                return Err(QueueError::NotFound);
            },
        };
        record.record_current_slot(current, now);
        self.replace_process(process_id, record)
    }

    /// Applies what the two reserve sources reported for a process at `now`.
    /// An unknown id is turned down.
    pub fn apply_reserves(&mut self, process_id: &str, reserves: ReservesResult, now: Timestamp) -> (r:
        Result<(), QueueError>)
        requires
            old(self)@.wf(),
        ensures
            final(self)@.wf(),
            r is Ok <==> old(self)@.contains(process_id@),
            r is Err ==> r == Err::<(), QueueError>(QueueError::NotFound) && final(self)@ == old(self)@,
            r is Ok ==> final(self)@ == old(self)@.overwrite(
                process_id@,
                old(self)@.record(process_id@).with_reserves(reserves@, now),
            ),
            final(self)@.active_count() == old(self)@.active_count(),
            old(self)@.within_limit() ==> final(self)@.within_limit(),
    {
        let mut record = match self.get_process(process_id) {
            Some(r) => r,
            None => {
                return Err(QueueError::NotFound);
            },
        };
        record.record_reserves(reserves, now);
        self.replace_process(process_id, record)
    }

    /// Applies a periodic slot check of a process. The record takes the
    /// slots and its metrics move on. Where the check saw the slots equal,
    /// the process moves to the synced index and the result is `Ok(true)`:
    /// the caller then fetches the reserves. An unknown id is turned down
    /// with nothing changed; a process that reached equality without being
    /// active keeps the new slots and is reported as not active.
    pub fn apply_slot_check(
        &mut self,
        process_id: &str,
        previous: Option<u64>,
        result: &SlotCheckResult,
        now: Timestamp,
    ) -> (r: Result<bool, QueueError>)
        requires
            old(self)@.wf(),
        ensures
            final(self)@.wf(),
            !old(self)@.contains(process_id@) ==> r == Err::<bool, QueueError>(QueueError::NotFound)
                && final(self)@ == old(self)@,
            old(self)@.contains(process_id@) ==> final(self)@ == old(self)@.after_slot_check(
                process_id@,
                previous,
                *result,
                now,
            ),
            old(self)@.contains(process_id@) && !result.synced() ==> r == Ok::<bool, QueueError>(
                false,
            ),
            old(self)@.contains(process_id@) && result.synced() ==> r == (if old(self)@.in_state(
                process_id@,
                ProcessState::Active,
            ) {
                Ok::<bool, QueueError>(true)
            } else {
                Err::<bool, QueueError>(QueueError::NotActive)
            }),
            old(self)@.within_limit() ==> final(self)@.within_limit(),
    {
        let mut record = match self.get_process(process_id) {
            Some(r) => r,
            None => {
                return Err(QueueError::NotFound);
            },
        };
        record.record_slot_check(previous, result, now);
        proof {
            old(self)@.lemma_overwrite_keeps_state(process_id@, record@, process_id@);
        }
        let _ = self.replace_process(process_id, record);
        if result.is_synced() {
            match self.mark_synced_at(process_id, now) {
                Ok(()) => Ok(true),
                Err(e) => Err(e),
            }
        } else {
            Ok(false)
        }
    }

    /// Applies a re-check of a process in the synced index: the record
    /// takes the slots and stays in the state it is in, also where the live
    /// head has moved on again. The result says what there is to report. An
    /// unknown id is turned down.
    pub fn apply_synced_recheck(
        &mut self,
        process_id: &str,
        result: &SlotCheckResult,
        now: Timestamp,
    ) -> (r: Result<Recheck, QueueError>)
        requires
            old(self)@.wf(),
        ensures
            final(self)@.wf(),
            !old(self)@.contains(process_id@) ==> r == Err::<Recheck, QueueError>(
                QueueError::NotFound,
            ) && final(self)@ == old(self)@,
            old(self)@.contains(process_id@) ==> r == Ok::<Recheck, QueueError>(
                old(self)@.recheck_of(process_id@, *result),
            ) && final(self)@ == old(self)@.overwrite(
                process_id@,
                old(self)@.record(process_id@).with_slots(*result, now),
            ) && final(self)@.record(process_id@).state == old(self)@.record(process_id@).state,
            final(self)@.active_count() == old(self)@.active_count(),
    {
        let mut record = match self.get_process(process_id) {
            Some(r) => r,
            None => {
                return Err(QueueError::NotFound);
            },
        };
        let changed = !slot_is(record.computed_slot, result.computed_slot) || !slot_is(
            record.current_slot,
            result.current_slot,
        );
        let regressed = record.state == ProcessState::Synced && !result.is_synced();
        record.record_recheck(result, now);
        proof {
            old(self)@.lemma_overwrite_keeps_state(process_id@, record@, process_id@);
        }
        let _ = self.replace_process(process_id, record);
        Ok(Recheck { changed, regressed })
    }

    /// Applies a slot check that a cron listing set off, for a cron created
    /// at `created`. The record takes the slots, the creation time and the
    /// advance. Where the check saw the slots equal and the process is
    /// active, it moves to the synced index and the result is `Ok(true)`;
    /// a process that is not active stays where it is. An unknown id is
    /// turned down.
    pub fn apply_cron_check_created(
        &mut self,
        process_id: &str,
        created: Option<Timestamp>,
        result: &SlotCheckResult,
        now: Timestamp,
    ) -> (r: Result<bool, QueueError>)
        requires
            old(self)@.wf(),
        ensures
            final(self)@.wf(),
            !old(self)@.contains(process_id@) ==> r == Err::<bool, QueueError>(QueueError::NotFound)
                && final(self)@ == old(self)@,
            old(self)@.contains(process_id@) ==> final(self)@ == old(self)@.after_cron_check(
                process_id@,
                created,
                *result,
                now,
            ) && r == Ok::<bool, QueueError>(
                result.synced() && old(self)@.in_state(process_id@, ProcessState::Active),
            ),
            old(self)@.within_limit() ==> final(self)@.within_limit(),
    {
        let mut record = match self.get_process(process_id) {
            Some(r) => r,
            None => {
                return Err(QueueError::NotFound);
            },
        };
        record.record_cron_check(created, result, now);
        proof {
            old(self)@.lemma_overwrite_keeps_state(process_id@, record@, process_id@);
        }
        let _ = self.replace_process(process_id, record);
        if result.is_synced() {
            Ok(self.mark_synced_at(process_id, now).is_ok())
        } else {
            Ok(false)
        }
    }
}

/// Whether a known slot holds a value.
fn slot_is(slot: Option<u64>, value: u64) -> (r: bool)
    ensures
        r == (slot == Some(value)),
{
    match slot {
        Some(s) => s == value,
        None => false,
    }
}

/// An unsigned count of milliseconds read as a signed one of the same 64
/// bits.
pub open spec fn signed_millis(created_at: u64) -> i64 {
    if created_at <= i64::MAX {
        created_at as i64
    } else {
        (created_at - 0x1_0000_0000_0000_0000) as i64
    }
}

/// When a cron was created, from the milliseconds of its listing entry;
/// nothing where the calendar cannot represent them.
pub open spec fn cron_created(created_at: u64) -> Option<Timestamp> {
    instant_of_millis(signed_millis(created_at))
}

/// The process that a cron listing entry asks to check: the one its path
/// names, if it is registered.
pub open spec fn cron_target_of(q: QueueView, path: Seq<char>) -> Option<Seq<char>> {
    match path_process_id(path) {
        Some(id) => if q.contains(id) {
            Some(id)
        } else {
            None
        },
        None => None,
    }
}

/// An unsigned count of milliseconds read as a signed one.
fn read_signed(created_at: u64) -> (r: i64)
    ensures
        r == signed_millis(created_at),
{
    if created_at <= 0x7fff_ffff_ffff_ffff {
        created_at as i64
    } else {
        let high: u64 = created_at - 0x8000_0000_0000_0000;
        (high as i64) + i64::MIN
    }
}

/// When a cron was created, from the milliseconds of its listing entry.
pub fn cron_created_at(created_at: u64) -> (r: Option<Timestamp>)
    ensures
        r == cron_created(created_at),
{
    Timestamp::from_millis(read_signed(created_at))
}

impl ProcessStatus {
    /// Whether an active process has to be checked right after a restart of
    /// the service: it was initialized, but its slots were never seen.
    pub fn needs_slot_recovery(&self) -> (r: bool)
        ensures
            r == (self.cron_initialized && self.computed_slot is None),
    {
        self.cron_initialized && self.computed_slot.is_none()
    }
}

impl QueueManager {
    /// The process whose slots are to be checked for an entry of the cron
    /// listing: the one that the entry's path names, if it is registered.
    pub fn cron_target(&self, item: &CronItem) -> (r: Option<String>)
        ensures
            text_opt(r) == cron_target_of(self@, item.path@),
    {
        match process_id_of_path(item.path.as_str()) {
            Some(id) => {
                if self.contains(id.as_str()) {
                    Some(id)
                } else {
                    None
                }
            },
            None => None,
        }
    }

    /// Applies a slot check that an entry of the cron listing set off. The
    /// entry tells in milliseconds when the cron was created. See
    /// `apply_cron_check_created`, which this calls with that instant.
    pub fn apply_cron_check(
        &mut self,
        process_id: &str,
        created_at: u64,
        result: &SlotCheckResult,
        now: Timestamp,
    ) -> (r: Result<bool, QueueError>)
        requires
            old(self)@.wf(),
        ensures
            final(self)@.wf(),
            !old(self)@.contains(process_id@) ==> r == Err::<bool, QueueError>(QueueError::NotFound)
                && final(self)@ == old(self)@,
            old(self)@.contains(process_id@) ==> final(self)@ == old(self)@.after_cron_check(
                process_id@,
                cron_created(created_at),
                *result,
                now,
            ) && r == Ok::<bool, QueueError>(
                result.synced() && old(self)@.in_state(process_id@, ProcessState::Active),
            ),
            old(self)@.within_limit() ==> final(self)@.within_limit(),
    {
        let created = cron_created_at(created_at);
        self.apply_cron_check_created(process_id, created, result, now)
    }
}

} // verus!
