//! The records kept for every process that is followed, and their mathematical views.
use crate::reserves::{tokens_agree, ReserveMap};
use crate::text::text_views;
use crate::time::{SyncRate, Timestamp};
use vstd::prelude::*;
use vstd::string::StringExecFns;

verus! {

/// Where a process stands in its lifecycle.
#[derive(Clone, Copy, Debug, PartialEq, Eq, Structural)]
pub enum ProcessState {
    Queued,
    Active,
    Synced,
    Error,
}

/// The view of an optional text.
pub open spec fn text_opt(o: Option<String>) -> Option<Seq<char>> {
    match o {
        Some(s) => Some(s@),
        None => None,
    }
}

/// The view of an optional reserve report.
pub open spec fn reserves_opt(o: Option<ReserveMap>) -> Option<Map<Seq<char>, Seq<char>>> {
    match o {
        Some(m) => Some(m@),
        None => None,
    }
}

/// A copy of an optional text.
pub fn copy_text_opt(o: &Option<String>) -> (r: Option<String>)
    ensures
        r == *o,
{
    match o {
        Some(s) => Some(s.clone()),
        None => None,
    }
}

/// A copy of an optional reserve report.
pub fn copy_reserves_opt(o: &Option<ReserveMap>) -> (r: Option<ReserveMap>)
    ensures
        reserves_opt(r) == reserves_opt(*o),
{
    match o {
        Some(m) => Some(m.clone()),
        None => None,
    }
}

/// The desired state of one process, as a caller supplies it.
#[derive(Debug)]
pub struct ProcessConfig {
    pub name: String,
    pub process_id: String,
    pub base_url: Option<String>,
}

/// What a `ProcessConfig` holds.
pub struct ConfigView {
    pub name: Seq<char>,
    pub process_id: Seq<char>,
    pub base_url: Option<Seq<char>>,
}

impl View for ProcessConfig {
    type V = ConfigView;

    open spec fn view(&self) -> ConfigView {
        ConfigView {
            name: self.name@,
            process_id: self.process_id@,
            base_url: text_opt(self.base_url),
        }
    }
}

impl Clone for ProcessConfig {
    fn clone(&self) -> (r: ProcessConfig)
        ensures
            r == *self,
    {
        ProcessConfig {
            name: self.name.clone(),
            process_id: self.process_id.clone(),
            base_url: copy_text_opt(&self.base_url),
        }
    }
}

/// The view of an optional configuration.
pub open spec fn config_opt(o: Option<ProcessConfig>) -> Option<ConfigView> {
    match o {
        Some(c) => Some(c@),
        None => None,
    }
}

/// The most latency samples a record keeps.
pub const LATENCY_WINDOW: usize = 20;

/// Progress bookkeeping of one process.
#[derive(Debug)]
pub struct ProcessMetrics {
    pub initial_slot_deficit: Option<u64>,
    pub slots_advanced_last_check: u64,
    pub total_slots_advanced: u64,
    pub sync_start_time: Option<Timestamp>,
    pub sync_end_time: Option<Timestamp>,
    pub avg_sync_rate: SyncRate,
    pub check_count: u64,
    /// Round-trip latencies of the latest slot reads, in milliseconds, oldest
    /// first.
    pub api_response_times: Vec<u64>,
}

/// What a `ProcessMetrics` holds.
pub struct MetricsView {
    pub initial_slot_deficit: Option<u64>,
    pub slots_advanced_last_check: u64,
    pub total_slots_advanced: u64,
    pub sync_start_time: Option<Timestamp>,
    pub sync_end_time: Option<Timestamp>,
    pub avg_sync_rate: SyncRate,
    pub check_count: u64,
    pub api_response_times: Seq<u64>,
}

impl MetricsView {
    /// The metrics of a process that has not been checked yet.
    pub open spec fn initial() -> MetricsView {
        MetricsView {
            initial_slot_deficit: None,
            slots_advanced_last_check: 0,
            total_slots_advanced: 0,
            sync_start_time: None,
            sync_end_time: None,
            avg_sync_rate: SyncRate::zero(),
            check_count: 0,
            api_response_times: Seq::empty(),
        }
    }
}

impl View for ProcessMetrics {
    type V = MetricsView;

    open spec fn view(&self) -> MetricsView {
        MetricsView {
            initial_slot_deficit: self.initial_slot_deficit,
            slots_advanced_last_check: self.slots_advanced_last_check,
            total_slots_advanced: self.total_slots_advanced,
            sync_start_time: self.sync_start_time,
            sync_end_time: self.sync_end_time,
            avg_sync_rate: self.avg_sync_rate,
            check_count: self.check_count,
            api_response_times: self.api_response_times@,
        }
    }
}

impl Default for ProcessMetrics {
    fn default() -> (r: ProcessMetrics)
        ensures
            r@ == MetricsView::initial(),
    {
        ProcessMetrics {
            initial_slot_deficit: None,
            slots_advanced_last_check: 0,
            total_slots_advanced: 0,
            sync_start_time: None,
            sync_end_time: None,
            avg_sync_rate: SyncRate::new_zero(),
            check_count: 0,
            api_response_times: Vec::new(),
        }
    }
}

impl Clone for ProcessMetrics {
    fn clone(&self) -> (r: ProcessMetrics)
        ensures
            r@ == self@,
    {
        let samples = self.api_response_times.clone();
        assert(samples@ =~= self.api_response_times@);
        ProcessMetrics {
            initial_slot_deficit: self.initial_slot_deficit,
            slots_advanced_last_check: self.slots_advanced_last_check,
            total_slots_advanced: self.total_slots_advanced,
            sync_start_time: self.sync_start_time,
            sync_end_time: self.sync_end_time,
            avg_sync_rate: self.avg_sync_rate,
            check_count: self.check_count,
            api_response_times: samples,
        }
    }
}

/// How far the computed slot lags behind the current one: the difference
/// where the current slot is ahead, zero where it is not, and nothing while
/// either slot is unknown.
pub open spec fn slot_deficit(current: Option<u64>, computed: Option<u64>) -> Option<u64> {
    match (current, computed) {
        (Some(cur), Some(comp)) => Some(
            if cur > comp {
                (cur - comp) as u64
            } else {
                0
            },
        ),
        _ => None,
    }
}

/// Both slots are known and equal.
pub open spec fn slots_synced(current: Option<u64>, computed: Option<u64>) -> bool {
    current is Some && computed is Some && current->0 == computed->0
}

/// Whether two reserve reports agree; nothing while either is missing.
pub open spec fn reserves_agreement(
    hb: Option<Map<Seq<char>, Seq<char>>>,
    ao: Option<Map<Seq<char>, Seq<char>>>,
) -> Option<bool> {
    match (hb, ao) {
        (Some(h), Some(a)) => Some(tokens_agree(h, a)),
        _ => None,
    }
}

/// The canonical record of one registered process.
#[derive(Debug)]
pub struct ProcessStatus {
    pub name: String,
    pub process_id: String,
    pub state: ProcessState,
    pub cron_initialized: bool,
    pub computed_slot: Option<u64>,
    pub current_slot: Option<u64>,
    pub last_checked: Option<Timestamp>,
    pub error: Option<String>,
    pub metrics: ProcessMetrics,
    pub queue_position: Option<usize>,
    pub activated_at: Option<Timestamp>,
    pub synced_at: Option<Timestamp>,
    pub hb_reserves: Option<ReserveMap>,
    pub ao_reserves: Option<ReserveMap>,
    pub reserves_last_checked: Option<Timestamp>,
    pub cron_created_at: Option<Timestamp>,
}

/// What a `ProcessStatus` holds.
pub struct StatusView {
    pub name: Seq<char>,
    pub process_id: Seq<char>,
    pub state: ProcessState,
    pub cron_initialized: bool,
    pub computed_slot: Option<u64>,
    pub current_slot: Option<u64>,
    pub last_checked: Option<Timestamp>,
    pub error: Option<Seq<char>>,
    pub metrics: MetricsView,
    pub queue_position: Option<usize>,
    pub activated_at: Option<Timestamp>,
    pub synced_at: Option<Timestamp>,
    pub hb_reserves: Option<Map<Seq<char>, Seq<char>>>,
    pub ao_reserves: Option<Map<Seq<char>, Seq<char>>>,
    pub reserves_last_checked: Option<Timestamp>,
    pub cron_created_at: Option<Timestamp>,
}

impl StatusView {
    /// The record of a process that was just registered under a name and an
    /// id: queued, without a position yet, nothing known of it.
    pub open spec fn fresh(name: Seq<char>, process_id: Seq<char>) -> StatusView {
        StatusView {
            name,
            process_id,
            state: ProcessState::Queued,
            cron_initialized: false,
            computed_slot: None,
            current_slot: None,
            last_checked: None,
            error: None,
            metrics: MetricsView::initial(),
            queue_position: None,
            activated_at: None,
            synced_at: None,
            hb_reserves: None,
            ao_reserves: None,
            reserves_last_checked: None,
            cron_created_at: None,
        }
    }

    pub open spec fn deficit(self) -> Option<u64> {
        slot_deficit(self.current_slot, self.computed_slot)
    }

    pub open spec fn is_synced(self) -> bool {
        slots_synced(self.current_slot, self.computed_slot)
    }

    pub open spec fn reserves_match(self) -> Option<bool> {
        reserves_agreement(self.hb_reserves, self.ao_reserves)
    }
}

impl View for ProcessStatus {
    type V = StatusView;

    open spec fn view(&self) -> StatusView {
        StatusView {
            name: self.name@,
            process_id: self.process_id@,
            state: self.state,
            cron_initialized: self.cron_initialized,
            computed_slot: self.computed_slot,
            current_slot: self.current_slot,
            last_checked: self.last_checked,
            error: text_opt(self.error),
            metrics: self.metrics@,
            queue_position: self.queue_position,
            activated_at: self.activated_at,
            synced_at: self.synced_at,
            hb_reserves: reserves_opt(self.hb_reserves),
            ao_reserves: reserves_opt(self.ao_reserves),
            reserves_last_checked: self.reserves_last_checked,
            cron_created_at: self.cron_created_at,
        }
    }
}

impl Clone for ProcessStatus {
    fn clone(&self) -> (r: ProcessStatus)
        ensures
            r@ == self@,
    {
        ProcessStatus {
            name: self.name.clone(),
            process_id: self.process_id.clone(),
            state: self.state,
            cron_initialized: self.cron_initialized,
            computed_slot: self.computed_slot,
            current_slot: self.current_slot,
            last_checked: self.last_checked,
            error: copy_text_opt(&self.error),
            metrics: self.metrics.clone(),
            queue_position: self.queue_position,
            activated_at: self.activated_at,
            synced_at: self.synced_at,
            hb_reserves: copy_reserves_opt(&self.hb_reserves),
            ao_reserves: copy_reserves_opt(&self.ao_reserves),
            reserves_last_checked: self.reserves_last_checked,
            cron_created_at: self.cron_created_at,
        }
    }
}

impl ProcessStatus {
    /// The record of a newly registered process.
    pub fn new(name: String, process_id: String) -> (r: ProcessStatus)
        ensures
            r@ == StatusView::fresh(name@, process_id@),
    {
        ProcessStatus {
            name,
            process_id,
            state: ProcessState::Queued,
            cron_initialized: false,
            computed_slot: None,
            current_slot: None,
            last_checked: None,
            error: None,
            metrics: ProcessMetrics::default(),
            queue_position: None,
            activated_at: None,
            synced_at: None,
            hb_reserves: None,
            ao_reserves: None,
            reserves_last_checked: None,
            cron_created_at: None,
        }
    }

    /// How many slots the computation lags behind; `None` while either slot
    /// is unknown.
    pub fn deficit(&self) -> (r: Option<u64>)
        ensures
            r == self@.deficit(),
    {
        match (self.current_slot, self.computed_slot) {
            (Some(current), Some(computed)) => {
                if current > computed {
                    Some(current - computed)
                } else {
                    Some(0)
                }
            },
            _ => None,
        }
    }

    /// Whether both slots are known and equal.
    pub fn is_synced(&self) -> (r: bool)
        ensures
            r == self@.is_synced(),
    {
        match (self.current_slot, self.computed_slot) {
            (Some(current), Some(computed)) => current == computed,
            _ => false,
        }
    }

    /// Whether the two reserve reports agree token by token; `None` while
    /// either report is missing.
    pub fn reserves_match(&self) -> (r: Option<bool>)
        ensures
            r == self@.reserves_match(),
    {
        match (&self.hb_reserves, &self.ao_reserves) {
            (Some(hb), Some(ao)) => Some(hb.agrees_with(ao)),
            _ => None,
        }
    }
}

/// What is kept of a record's metrics across restarts of the service.
#[derive(Clone, Copy, Debug, PartialEq, Eq, Structural)]
pub struct ProcessMetricsData {
    pub initial_slot_deficit: Option<u64>,
    pub total_slots_advanced: u64,
    pub sync_start_time: Option<Timestamp>,
    pub sync_end_time: Option<Timestamp>,
    pub avg_sync_rate: SyncRate,
    pub check_count: u64,
}

/// What is kept of a record across restarts of the service. The latency
/// samples and the reserve reports are not kept.
#[derive(Clone, Copy, Debug, PartialEq, Eq, Structural)]
pub struct ProcessStatusData {
    pub state: ProcessState,
    pub cron_initialized: bool,
    pub computed_slot: Option<u64>,
    pub current_slot: Option<u64>,
    pub last_checked: Option<Timestamp>,
    pub synced_at: Option<Timestamp>,
    pub activated_at: Option<Timestamp>,
    pub metrics: ProcessMetricsData,
}

/// One entry of the persisted process table: an id and what is kept of its
/// record.
#[derive(Debug)]
pub struct PersistedProcess {
    pub process_id: String,
    pub data: ProcessStatusData,
}

/// What a `PersistedProcess` holds.
pub struct PersistedView {
    pub process_id: Seq<char>,
    pub data: ProcessStatusData,
}

impl View for PersistedProcess {
    type V = PersistedView;

    open spec fn view(&self) -> PersistedView {
        PersistedView { process_id: self.process_id@, data: self.data }
    }
}

/// The document in which the registry survives a restart of the service.
#[derive(Debug)]
pub struct StateFile {
    pub version: String,
    pub last_updated: Timestamp,
    pub queued_process_ids: Vec<String>,
    pub active_process_ids: Vec<String>,
    pub synced_process_ids: Vec<String>,
    pub processes: Vec<PersistedProcess>,
}

/// The views of a sequence of persisted processes.
pub open spec fn persisted_views(entries: Seq<PersistedProcess>) -> Seq<PersistedView> {
    entries.map_values(|e: PersistedProcess| e@)
}

/// What a `StateFile` holds.
pub struct StateFileView {
    pub version: Seq<char>,
    pub last_updated: Timestamp,
    pub queued_process_ids: Seq<Seq<char>>,
    pub active_process_ids: Seq<Seq<char>>,
    pub synced_process_ids: Seq<Seq<char>>,
    pub processes: Seq<PersistedView>,
}

impl View for StateFile {
    type V = StateFileView;

    open spec fn view(&self) -> StateFileView {
        StateFileView {
            version: self.version@,
            last_updated: self.last_updated,
            queued_process_ids: text_views(self.queued_process_ids@),
            active_process_ids: text_views(self.active_process_ids@),
            synced_process_ids: text_views(self.synced_process_ids@),
            processes: persisted_views(self.processes@),
        }
    }
}

impl StatusView {
    /// The part of the record that is persisted.
    pub open spec fn persisted(self) -> ProcessStatusData {
        ProcessStatusData {
            state: self.state,
            cron_initialized: self.cron_initialized,
            computed_slot: self.computed_slot,
            current_slot: self.current_slot,
            last_checked: self.last_checked,
            synced_at: self.synced_at,
            activated_at: self.activated_at,
            metrics: ProcessMetricsData {
                initial_slot_deficit: self.metrics.initial_slot_deficit,
                total_slots_advanced: self.metrics.total_slots_advanced,
                sync_start_time: self.metrics.sync_start_time,
                sync_end_time: self.metrics.sync_end_time,
                avg_sync_rate: self.metrics.avg_sync_rate,
                check_count: self.metrics.check_count,
            },
        }
    }

    /// The record rebuilt from what was persisted under an id: its name is
    /// the id until a configuration names it, it has no error, no position,
    /// no latency samples and no reserve reports.
    pub open spec fn recovered(process_id: Seq<char>, data: ProcessStatusData) -> StatusView {
        StatusView {
            name: process_id,
            process_id,
            state: data.state,
            cron_initialized: data.cron_initialized,
            computed_slot: data.computed_slot,
            current_slot: data.current_slot,
            last_checked: data.last_checked,
            error: None,
            metrics: MetricsView {
                initial_slot_deficit: data.metrics.initial_slot_deficit,
                slots_advanced_last_check: 0,
                total_slots_advanced: data.metrics.total_slots_advanced,
                sync_start_time: data.metrics.sync_start_time,
                sync_end_time: data.metrics.sync_end_time,
                avg_sync_rate: data.metrics.avg_sync_rate,
                check_count: data.metrics.check_count,
                api_response_times: Seq::empty(),
            },
            queue_position: None,
            activated_at: data.activated_at,
            synced_at: data.synced_at,
            hb_reserves: None,
            ao_reserves: None,
            reserves_last_checked: None,
            cron_created_at: None,
        }
    }
}

impl ProcessStatus {
    /// The part of the record that is persisted.
    pub fn to_data(&self) -> (r: ProcessStatusData)
        ensures
            r == self@.persisted(),
    {
        ProcessStatusData {
            state: self.state,
            cron_initialized: self.cron_initialized,
            computed_slot: self.computed_slot,
            current_slot: self.current_slot,
            last_checked: self.last_checked,
            synced_at: self.synced_at,
            activated_at: self.activated_at,
            metrics: ProcessMetricsData {
                initial_slot_deficit: self.metrics.initial_slot_deficit,
                total_slots_advanced: self.metrics.total_slots_advanced,
                sync_start_time: self.metrics.sync_start_time,
                sync_end_time: self.metrics.sync_end_time,
                avg_sync_rate: self.metrics.avg_sync_rate,
                check_count: self.metrics.check_count,
            },
        }
    }

    /// The record rebuilt from what was persisted under an id.
    pub fn from_data(process_id: &String, data: &ProcessStatusData) -> (r: ProcessStatus)
        ensures
            r@ == StatusView::recovered(process_id@, *data),
    {
        ProcessStatus {
            name: process_id.clone(),
            process_id: process_id.clone(),
            state: data.state,
            cron_initialized: data.cron_initialized,
            computed_slot: data.computed_slot,
            current_slot: data.current_slot,
            last_checked: data.last_checked,
            error: None,
            metrics: ProcessMetrics {
                initial_slot_deficit: data.metrics.initial_slot_deficit,
                slots_advanced_last_check: 0,
                total_slots_advanced: data.metrics.total_slots_advanced,
                sync_start_time: data.metrics.sync_start_time,
                sync_end_time: data.metrics.sync_end_time,
                avg_sync_rate: data.metrics.avg_sync_rate,
                check_count: data.metrics.check_count,
                api_response_times: Vec::new(),
            },
            queue_position: None,
            activated_at: data.activated_at,
            synced_at: data.synced_at,
            hb_reserves: None,
            ao_reserves: None,
            reserves_last_checked: None,
            cron_created_at: None,
        }
    }
}

/// The list of processes that an operator wants followed.
#[derive(Debug)]
pub struct Config {
    pub base_url: Option<String>,
    pub processes: Vec<ProcessConfig>,
}

/// The summary that the status endpoint answers with.
#[derive(Debug)]
pub struct ApiStatus {
    pub active_count: usize,
    pub queued_count: usize,
    pub synced_count: usize,
    pub total_count: usize,
    pub runtime_seconds: u64,
    pub active_processes: Vec<ProcessStatus>,
    pub queue_preview: Vec<ProcessStatus>,
    pub recent_synced: Vec<ProcessStatus>,
}

/// The body of a request to track one more process.
#[derive(Debug)]
pub struct AddProcessRequest {
    pub name: String,
    pub process_id: String,
    pub base_url: Option<String>,
}

impl AddProcessRequest {
    /// The configuration that the request asks for.
    pub fn into_config(self) -> (r: ProcessConfig)
        ensures
            r@ == (ConfigView {
                name: self.name@,
                process_id: self.process_id@,
                base_url: text_opt(self.base_url),
            }),
    {
        ProcessConfig { name: self.name, process_id: self.process_id, base_url: self.base_url }
    }
}

/// The envelope of every answer of the operator-facing API.
#[derive(Debug)]
pub struct ApiResponse<T> {
    pub success: bool,
    pub data: Option<T>,
    pub error: Option<String>,
}

impl<T> ApiResponse<T> {
    /// The answer to a request that succeeded.
    pub fn ok(data: T) -> (r: ApiResponse<T>)
        ensures
            r.success,
            r.data == Some(data),
            r.error is None,
    {
        ApiResponse { success: true, data: Some(data), error: None }
    }

    /// The answer to a request that was turned down.
    pub fn failure(error: String) -> (r: ApiResponse<T>)
        ensures
            !r.success,
            r.data is None,
            r.error == Some(error),
    {
        ApiResponse { success: false, data: None, error: Some(error) }
    }
}

/// A name and a value attached to a message.
#[derive(Debug)]
pub struct AOTag {
    pub name: String,
    pub value: String,
}

impl AOTag {
    /// The tag with the given name and value.
    pub fn new(name: &str, value: &str) -> (r: AOTag)
        ensures
            r.name@ == name@,
            r.value@ == value@,
    {
        AOTag { name: String::from_str(name), value: String::from_str(value) }
    }
}

/// The body of a dry-run call to the second reserve source.
#[derive(Debug)]
pub struct AODryRunRequest {
    pub id: String,
    pub target: String,
    pub owner: String,
    pub anchor: String,
    pub data: String,
    pub tags: Vec<AOTag>,
}

impl AODryRunRequest {
    /// Whether this is the dry run that asks a process for its reserves:
    /// fixed placeholder fields, the process as target, and the four tags
    /// that name the action, the protocol, the type and the variant.
    pub open spec fn asks_reserves_of(self, process_id: Seq<char>) -> bool {
        &&& self.id@ == "1234"@
        &&& self.target@ == process_id
        &&& self.owner@ == "1234"@
        &&& self.anchor@ == "0"@
        &&& self.data@ == "1234"@
        &&& self.tags@.len() == 4
        &&& self.tags@[0].name@ == "Action"@
        &&& self.tags@[0].value@ == "Get-Reserves"@
        &&& self.tags@[1].name@ == "Data-Protocol"@
        &&& self.tags@[1].value@ == "ao"@
        &&& self.tags@[2].name@ == "Type"@
        &&& self.tags@[2].value@ == "Message"@
        &&& self.tags@[3].name@ == "Variant"@
        &&& self.tags@[3].value@ == "ao.TN.1"@
    }

    /// The dry run that asks a process for its reserves.
    pub fn reserves_query(process_id: &str) -> (r: AODryRunRequest)
        ensures
            r.asks_reserves_of(process_id@),
    {
        let mut tags: Vec<AOTag> = Vec::new();
        tags.push(AOTag::new("Action", "Get-Reserves"));
        tags.push(AOTag::new("Data-Protocol", "ao"));
        tags.push(AOTag::new("Type", "Message"));
        tags.push(AOTag::new("Variant", "ao.TN.1"));
        AODryRunRequest {
            id: String::from_str("1234"),
            target: String::from_str(process_id),
            owner: String::from_str("1234"),
            anchor: String::from_str("0"),
            data: String::from_str("1234"),
            tags,
        }
    }
}

/// One message of a dry-run answer.
#[derive(Debug)]
pub struct AOMessage {
    pub tags: Vec<AOTag>,
}

/// The answer to a dry-run call.
#[derive(Debug)]
pub struct AODryRunResponse {
    pub messages: Option<Vec<AOMessage>>,
    pub gas_used: Option<u64>,
}

} // verus!
