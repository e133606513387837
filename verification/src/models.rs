//! The data of the node ranking.

use vstd::prelude::*;

use crate::floats::FloatBits;
use crate::settings::BenchmarkSettings;
use crate::speed::{DownloadSpeedTestResult, SpeedTestOptions, UploadSpeedTestResult};
use crate::status::BenchmarkTaskStatus;
use crate::text::same_text;

verus! {

/// Cautious estimate of the bytes that one latency test downloads.
pub const LATENCY_ESTIMATED_DOWNLOAD_BYTES: u64 = 16384;

/// Cautious estimate of the bytes that one latency test uploads.
pub const LATENCY_ESTIMATED_UPLOAD_BYTES: u64 = 4096;

/// How a node takes part in the ranking.
#[derive(Debug, Clone, Copy, PartialEq, Eq, Structural)]
pub enum ParticipationState {
    Participating,
    Observe,
    Excluded,
    Changed,
    Removed,
}

impl ParticipationState {
    /// The stable text of a state in the database.
    pub open spec fn text(self) -> Seq<char> {
        match self {
            ParticipationState::Participating => "participating"@,
            ParticipationState::Observe => "observe"@,
            ParticipationState::Excluded => "excluded"@,
            ParticipationState::Changed => "changed"@,
            ParticipationState::Removed => "removed"@,
        }
    }

    /// The state that a text of the database stands for; unknown texts stand for removal.
    pub open spec fn of_text(text: Seq<char>) -> ParticipationState {
        if text == "participating"@ {
            ParticipationState::Participating
        } else if text == "observe"@ {
            ParticipationState::Observe
        } else if text == "excluded"@ {
            ParticipationState::Excluded
        } else if text == "changed"@ {
            ParticipationState::Changed
        } else {
            ParticipationState::Removed
        }
    }

    /// The stable text of a state in the database.
    pub fn as_str(self) -> (text: &'static str)
        ensures
            text@ == self.text(),
    {
        match self {
            ParticipationState::Participating => "participating",
            ParticipationState::Observe => "observe",
            ParticipationState::Excluded => "excluded",
            ParticipationState::Changed => "changed",
            ParticipationState::Removed => "removed",
        }
    }

    /// Restores a state from its text in the database.
    pub fn from_db(value: &str) -> (state: ParticipationState)
        ensures
            state == ParticipationState::of_text(value@),
    {
        if same_text(value, "participating") {
            ParticipationState::Participating
        } else if same_text(value, "observe") {
            ParticipationState::Observe
        } else if same_text(value, "excluded") {
            ParticipationState::Excluded
        } else if same_text(value, "changed") {
            ParticipationState::Changed
        } else {
            ParticipationState::Removed
        }
    }
}

/// A state read back from its database text is the state that was written.
pub proof fn law_state_text_round_trip(state: ParticipationState)
    ensures
        ParticipationState::of_text(state.text()) == state,
{
    reveal_strlit("participating");
    reveal_strlit("observe");
    reveal_strlit("excluded");
    reveal_strlit("changed");
    reveal_strlit("removed");
    assert("participating"@[0] == 'p');
    assert("observe"@[0] == 'o');
    assert("excluded"@[0] == 'e');
    assert("changed"@[0] == 'c');
    assert("removed"@[0] == 'r');
}

/// The time windows over which results are summarised.
#[derive(Debug, Clone, Copy, PartialEq, Eq, Structural)]
pub enum BenchmarkWindow {
    SixHours,
    TwelveHours,
    OneDay,
    SevenDays,
    LongTerm,
}

impl BenchmarkWindow {
    /// The length of a window in seconds; the long-term window has none.
    pub open spec fn seconds(self) -> Option<int> {
        match self {
            BenchmarkWindow::SixHours => Some((6 * 60 * 60) as int),
            BenchmarkWindow::TwelveHours => Some((12 * 60 * 60) as int),
            BenchmarkWindow::OneDay => Some((24 * 60 * 60) as int),
            BenchmarkWindow::SevenDays => Some((7 * 24 * 60 * 60) as int),
            BenchmarkWindow::LongTerm => None,
        }
    }

    /// The first second of a window that ends now; the long-term window starts at zero.
    pub open spec fn start(self, now: int) -> int {
        match self.seconds() {
            Some(seconds) => now - seconds,
            None => 0,
        }
    }

    /// The first second of a window that ends now; the long-term window starts at zero.
    pub fn start_timestamp(self, now: i64) -> (start: i64)
        requires
            self.start(now as int) >= i64::MIN,
        ensures
            start == self.start(now as int),
    {
        match self {
            BenchmarkWindow::SixHours => now - 6 * 60 * 60,
            BenchmarkWindow::TwelveHours => now - 12 * 60 * 60,
            BenchmarkWindow::OneDay => now - 24 * 60 * 60,
            BenchmarkWindow::SevenDays => now - 7 * 24 * 60 * 60,
            BenchmarkWindow::LongTerm => 0,
        }
    }
}

/// What a profile looks like to a user who selects profiles.
#[derive(Debug)]
pub struct BenchmarkProfileSummary {
    pub uid: String,
    pub name: String,
    pub available: bool,
    pub selected: bool,
    pub node_count: usize,
    pub scan_error: Option<String>,
    pub last_scanned_at: Option<i64>,
}

impl Clone for BenchmarkProfileSummary {
    fn clone(&self) -> (copy: Self)
        ensures
            copy == *self,
    {
        BenchmarkProfileSummary {
            uid: self.uid.clone(),
            name: self.name.clone(),
            available: self.available,
            selected: self.selected,
            node_count: self.node_count,
            scan_error: copy_text(&self.scan_error),
            last_scanned_at: self.last_scanned_at,
        }
    }
}

/// A node found in a profile.
#[derive(Debug)]
pub struct DiscoveredNode {
    pub node_id: String,
    pub profile_uid: String,
    pub profile_name: String,
    pub node_name: String,
    pub node_type: String,
    pub fingerprint: String,
}

/// What a found node stands for.
pub struct DiscoveredView {
    pub node_id: Seq<char>,
    pub profile_uid: Seq<char>,
    pub profile_name: Seq<char>,
    pub node_name: Seq<char>,
    pub node_type: Seq<char>,
    pub fingerprint: Seq<char>,
}

impl View for DiscoveredNode {
    type V = DiscoveredView;

    open spec fn view(&self) -> DiscoveredView {
        DiscoveredView {
            node_id: self.node_id@,
            profile_uid: self.profile_uid@,
            profile_name: self.profile_name@,
            node_name: self.node_name@,
            node_type: self.node_type@,
            fingerprint: self.fingerprint@,
        }
    }
}

impl Clone for DiscoveredNode {
    fn clone(&self) -> (copy: Self)
        ensures
            copy == *self,
    {
        DiscoveredNode {
            node_id: self.node_id.clone(),
            profile_uid: self.profile_uid.clone(),
            profile_name: self.profile_name.clone(),
            node_name: self.node_name.clone(),
            node_type: self.node_type.clone(),
            fingerprint: self.fingerprint.clone(),
        }
    }
}

/// A stored node with its schedule.
#[derive(Debug)]
pub struct StoredNode {
    pub node_id: String,
    pub profile_uid: String,
    pub profile_name: String,
    pub node_name: String,
    pub node_type: String,
    pub fingerprint: String,
    pub state: ParticipationState,
    pub manual_override: bool,
    pub first_seen_at: i64,
    pub last_seen_at: i64,
    pub bootstrap_stage: u8,
    pub next_latency_at: i64,
    pub next_speed_at: i64,
    pub download_bootstrap_stage: u8,
    pub upload_bootstrap_stage: u8,
    pub next_download_at: i64,
    pub next_upload_at: i64,
    pub snoozed_until: Option<i64>,
    pub ignore_reminder: bool,
}

/// What a stored node stands for.
#[verifier::ext_equal]
pub struct NodeView {
    pub node_id: Seq<char>,
    pub profile_uid: Seq<char>,
    pub profile_name: Seq<char>,
    pub node_name: Seq<char>,
    pub node_type: Seq<char>,
    pub fingerprint: Seq<char>,
    pub state: ParticipationState,
    pub manual_override: bool,
    pub first_seen_at: i64,
    pub last_seen_at: i64,
    pub bootstrap_stage: u8,
    pub next_latency_at: i64,
    pub next_speed_at: i64,
    pub download_bootstrap_stage: u8,
    pub upload_bootstrap_stage: u8,
    pub next_download_at: i64,
    pub next_upload_at: i64,
    pub snoozed_until: Option<i64>,
    pub ignore_reminder: bool,
}

impl View for StoredNode {
    type V = NodeView;

    open spec fn view(&self) -> NodeView {
        NodeView {
            node_id: self.node_id@,
            profile_uid: self.profile_uid@,
            profile_name: self.profile_name@,
            node_name: self.node_name@,
            node_type: self.node_type@,
            fingerprint: self.fingerprint@,
            state: self.state,
            manual_override: self.manual_override,
            first_seen_at: self.first_seen_at,
            last_seen_at: self.last_seen_at,
            bootstrap_stage: self.bootstrap_stage,
            next_latency_at: self.next_latency_at,
            next_speed_at: self.next_speed_at,
            download_bootstrap_stage: self.download_bootstrap_stage,
            upload_bootstrap_stage: self.upload_bootstrap_stage,
            next_download_at: self.next_download_at,
            next_upload_at: self.next_upload_at,
            snoozed_until: self.snoozed_until,
            ignore_reminder: self.ignore_reminder,
        }
    }
}

impl Clone for StoredNode {
    fn clone(&self) -> (copy: Self)
        ensures
            copy == *self,
    {
        StoredNode {
            node_id: self.node_id.clone(),
            profile_uid: self.profile_uid.clone(),
            profile_name: self.profile_name.clone(),
            node_name: self.node_name.clone(),
            node_type: self.node_type.clone(),
            fingerprint: self.fingerprint.clone(),
            state: self.state,
            manual_override: self.manual_override,
            first_seen_at: self.first_seen_at,
            last_seen_at: self.last_seen_at,
            bootstrap_stage: self.bootstrap_stage,
            next_latency_at: self.next_latency_at,
            next_speed_at: self.next_speed_at,
            download_bootstrap_stage: self.download_bootstrap_stage,
            upload_bootstrap_stage: self.upload_bootstrap_stage,
            next_download_at: self.next_download_at,
            next_upload_at: self.next_upload_at,
            snoozed_until: self.snoozed_until,
            ignore_reminder: self.ignore_reminder,
        }
    }
}

/// What is measured.
#[derive(Debug, Clone, Copy, PartialEq, Eq, Structural)]
pub enum MeasurementKind {
    Latency,
    Download,
    Upload,
}

impl MeasurementKind {
    /// The stable text of a kind in the database.
    pub open spec fn text(self) -> Seq<char> {
        match self {
            MeasurementKind::Latency => "latency"@,
            MeasurementKind::Download => "download"@,
            MeasurementKind::Upload => "upload"@,
        }
    }

    /// The kind that a text of the database stands for; unknown texts stand for latency.
    pub open spec fn of_text(text: Seq<char>) -> MeasurementKind {
        if text == "download"@ {
            MeasurementKind::Download
        } else if text == "upload"@ {
            MeasurementKind::Upload
        } else {
            MeasurementKind::Latency
        }
    }

    /// The stable text of a kind in the database.
    pub fn as_str(self) -> (text: &'static str)
        ensures
            text@ == self.text(),
    {
        match self {
            MeasurementKind::Latency => "latency",
            MeasurementKind::Download => "download",
            MeasurementKind::Upload => "upload",
        }
    }

    /// Restores a kind from its text in the database.
    pub fn from_db(value: &str) -> (kind: MeasurementKind)
        ensures
            kind == MeasurementKind::of_text(value@),
    {
        if same_text(value, "download") {
            MeasurementKind::Download
        } else if same_text(value, "upload") {
            MeasurementKind::Upload
        } else {
            MeasurementKind::Latency
        }
    }
}

/// A kind read back from its database text is the kind that was written.
pub proof fn law_kind_text_round_trip(kind: MeasurementKind)
    ensures
        MeasurementKind::of_text(kind.text()) == kind,
{
    reveal_strlit("latency");
    reveal_strlit("download");
    reveal_strlit("upload");
    assert("latency"@[0] == 'l');
    assert("download"@[0] == 'd');
    assert("upload"@[0] == 'u');
}

/// The result of one test.
#[derive(Debug)]
pub struct MeasurementRecord {
    pub node_id: String,
    pub kind: MeasurementKind,
    pub success: bool,
    pub value: Option<FloatBits>,
    pub bytes_down: u64,
    pub bytes_up: u64,
    pub duration_ms: u64,
    pub trigger: String,
    pub rank_eligible: bool,
    pub error: Option<String>,
    pub created_at: i64,
}

/// What a test result stands for.
#[verifier::ext_equal]
pub struct RecordView {
    pub node_id: Seq<char>,
    pub kind: MeasurementKind,
    pub success: bool,
    pub value: Option<FloatBits>,
    pub bytes_down: u64,
    pub bytes_up: u64,
    pub duration_ms: u64,
    pub trigger: Seq<char>,
    pub rank_eligible: bool,
    pub error: Option<Seq<char>>,
    pub created_at: i64,
}

/// What an optional text stands for.
pub open spec fn text_view(text: Option<String>) -> Option<Seq<char>> {
    match text {
        Some(value) => Some(value@),
        None => None,
    }
}

impl View for MeasurementRecord {
    type V = RecordView;

    open spec fn view(&self) -> RecordView {
        RecordView {
            node_id: self.node_id@,
            kind: self.kind,
            success: self.success,
            value: self.value,
            bytes_down: self.bytes_down,
            bytes_up: self.bytes_up,
            duration_ms: self.duration_ms,
            trigger: self.trigger@,
            rank_eligible: self.rank_eligible,
            error: text_view(self.error),
            created_at: self.created_at,
        }
    }
}

/// Copies an optional text.
pub fn copy_text(text: &Option<String>) -> (copy: Option<String>)
    ensures
        copy == *text,
{
    match text {
        Some(value) => Some(value.clone()),
        None => None,
    }
}

impl Clone for MeasurementRecord {
    fn clone(&self) -> (copy: Self)
        ensures
            copy == *self,
    {
        MeasurementRecord {
            node_id: self.node_id.clone(),
            kind: self.kind,
            success: self.success,
            value: self.value,
            bytes_down: self.bytes_down,
            bytes_up: self.bytes_up,
            duration_ms: self.duration_ms,
            trigger: self.trigger.clone(),
            rank_eligible: self.rank_eligible,
            error: copy_text(&self.error),
            created_at: self.created_at,
        }
    }
}

/// What a window says of one metric of a node.
#[derive(Debug)]
pub struct MetricSummary {
    pub median: Option<FloatBits>,
    pub average: Option<FloatBits>,
    pub p95: Option<FloatBits>,
    pub peak: Option<FloatBits>,
    pub samples: usize,
    pub attempts: usize,
    pub failures: usize,
    pub last_attempted_at: Option<i64>,
    pub last_success_at: Option<i64>,
    pub last_error: Option<String>,
    pub last_error_at: Option<i64>,
    pub rank: Option<usize>,
}

impl Clone for MetricSummary {
    fn clone(&self) -> (copy: Self)
        ensures
            copy == *self,
    {
        MetricSummary {
            median: self.median,
            average: self.average,
            p95: self.p95,
            peak: self.peak,
            samples: self.samples,
            attempts: self.attempts,
            failures: self.failures,
            last_attempted_at: self.last_attempted_at,
            last_success_at: self.last_success_at,
            last_error: copy_text(&self.last_error),
            last_error_at: self.last_error_at,
            rank: self.rank,
        }
    }
}

/// One row of the ranking table.
#[derive(Debug)]
pub struct BenchmarkNodeRow {
    pub node_id: String,
    pub profile_uid: String,
    pub profile_name: String,
    pub node_name: String,
    pub node_type: String,
    pub fingerprint: String,
    pub last_seen_at: i64,
    pub state: ParticipationState,
    pub stability_percent: Option<FloatBits>,
    pub latency_attempts: usize,
    pub latency_successes: usize,
    pub latency: MetricSummary,
    pub download: MetricSummary,
    pub upload: MetricSummary,
    /// The spread between the 95th percentile and the median of the latency.
    pub latency_jitter: FloatBits,
    pub total_rank_score: Option<usize>,
    pub official_eligible: bool,
    pub confidence: String,
    pub last_tested_at: Option<i64>,
    pub bootstrap_stage: u8,
    pub download_bootstrap_stage: u8,
    pub upload_bootstrap_stage: u8,
    pub next_latency_at: i64,
    pub next_speed_at: i64,
    pub next_download_at: i64,
    pub next_upload_at: i64,
}

impl Clone for BenchmarkNodeRow {
    fn clone(&self) -> (copy: Self)
        ensures
            copy == *self,
    {
        BenchmarkNodeRow {
            node_id: self.node_id.clone(),
            profile_uid: self.profile_uid.clone(),
            profile_name: self.profile_name.clone(),
            node_name: self.node_name.clone(),
            node_type: self.node_type.clone(),
            fingerprint: self.fingerprint.clone(),
            last_seen_at: self.last_seen_at,
            state: self.state,
            stability_percent: self.stability_percent,
            latency_attempts: self.latency_attempts,
            latency_successes: self.latency_successes,
            latency: self.latency.clone(),
            download: self.download.clone(),
            upload: self.upload.clone(),
            latency_jitter: self.latency_jitter,
            total_rank_score: self.total_rank_score,
            official_eligible: self.official_eligible,
            confidence: self.confidence.clone(),
            last_tested_at: self.last_tested_at,
            bootstrap_stage: self.bootstrap_stage,
            download_bootstrap_stage: self.download_bootstrap_stage,
            upload_bootstrap_stage: self.upload_bootstrap_stage,
            next_latency_at: self.next_latency_at,
            next_speed_at: self.next_speed_at,
            next_download_at: self.next_download_at,
            next_upload_at: self.next_upload_at,
        }
    }
}

/// The best node of one discipline.
#[derive(Debug)]
pub struct ChampionSummary {
    pub node_id: String,
    pub node_name: String,
    pub profile_name: String,
    pub value: FloatBits,
    pub official: bool,
}

/// The best nodes of the four disciplines.
#[derive(Debug)]
pub struct ChampionCollection {
    pub overall: Option<ChampionSummary>,
    pub download: Option<ChampionSummary>,
    pub upload: Option<ChampionSummary>,
    pub latency: Option<ChampionSummary>,
}

/// The traffic of one profile.
#[derive(Debug)]
pub struct ProfileTrafficSummary {
    pub profile_uid: String,
    pub profile_name: String,
    pub estimated_download_bytes: u64,
    pub estimated_upload_bytes: u64,
    pub actual_download_bytes: u64,
    pub actual_upload_bytes: u64,
    pub multiplier: FloatBits,
}

impl Clone for ProfileTrafficSummary {
    fn clone(&self) -> (copy: Self)
        ensures
            copy == *self,
    {
        ProfileTrafficSummary {
            profile_uid: self.profile_uid.clone(),
            profile_name: self.profile_name.clone(),
            estimated_download_bytes: self.estimated_download_bytes,
            estimated_upload_bytes: self.estimated_upload_bytes,
            actual_download_bytes: self.actual_download_bytes,
            actual_upload_bytes: self.actual_upload_bytes,
            multiplier: self.multiplier,
        }
    }
}

/// The estimated and actual traffic of a day with its limits.
#[derive(Debug)]
pub struct TrafficSummary {
    pub estimated_download_bytes: u64,
    pub estimated_upload_bytes: u64,
    pub actual_download_bytes: u64,
    pub actual_upload_bytes: u64,
    pub download_limit_bytes: u64,
    pub upload_limit_bytes: u64,
    pub profiles: Vec<ProfileTrafficSummary>,
}

/// The advice to exclude a node that has been slow for long.
#[derive(Debug)]
pub struct ExclusionReminder {
    pub node_id: String,
    pub node_name: String,
    pub profile_name: String,
    pub latency_rank: usize,
    pub total_nodes: usize,
    pub median_latency: FloatBits,
    pub reference_latency: FloatBits,
    pub download_rank: Option<usize>,
    pub upload_rank: Option<usize>,
    pub stability_percent: Option<FloatBits>,
    pub saved_download_bytes_per_day: u64,
    pub saved_upload_bytes_per_day: u64,
}

/// A change that a scan of the profiles found.
#[derive(Debug)]
pub struct BenchmarkChangeEvent {
    pub id: i64,
    pub profile_uid: String,
    pub profile_name: String,
    pub node_name: Option<String>,
    pub change_type: String,
    pub created_at: i64,
}

/// What a change stands for.
#[verifier::ext_equal]
pub struct ChangeView {
    pub id: i64,
    pub profile_uid: Seq<char>,
    pub profile_name: Seq<char>,
    pub node_name: Option<Seq<char>>,
    pub change_type: Seq<char>,
    pub created_at: i64,
}

impl View for BenchmarkChangeEvent {
    type V = ChangeView;

    open spec fn view(&self) -> ChangeView {
        ChangeView {
            id: self.id,
            profile_uid: self.profile_uid@,
            profile_name: self.profile_name@,
            node_name: text_view(self.node_name),
            change_type: self.change_type@,
            created_at: self.created_at,
        }
    }
}

impl Clone for BenchmarkChangeEvent {
    fn clone(&self) -> (copy: Self)
        ensures
            copy == *self,
    {
        BenchmarkChangeEvent {
            id: self.id,
            profile_uid: self.profile_uid.clone(),
            profile_name: self.profile_name.clone(),
            node_name: copy_text(&self.node_name),
            change_type: self.change_type.clone(),
            created_at: self.created_at,
        }
    }
}

/// A node that can be chosen before the settings are stored.
#[derive(Debug)]
pub struct BenchmarkCandidateNode {
    pub node_id: String,
    pub profile_uid: String,
    pub profile_name: String,
    pub node_name: String,
    pub node_type: String,
    pub fingerprint: String,
}

/// The nodes that can be chosen, with the settings in normal form.
#[derive(Debug)]
pub struct BenchmarkPreview {
    pub settings: BenchmarkSettings,
    pub nodes: Vec<BenchmarkCandidateNode>,
}

/// The wish to store settings and the participants that the user chose.
#[derive(Debug)]
pub struct BenchmarkSaveRequest {
    pub settings: BenchmarkSettings,
    pub participating_node_ids: Vec<String>,
}

/// Everything that one look at the ranking shows.
#[derive(Debug)]
pub struct BenchmarkSnapshot {
    pub settings: BenchmarkSettings,
    pub selection_confirmed: bool,
    pub profiles: Vec<BenchmarkProfileSummary>,
    pub nodes: Vec<BenchmarkNodeRow>,
    pub champions: ChampionCollection,
    pub traffic: TrafficSummary,
    pub reminders: Vec<ExclusionReminder>,
    pub changes: Vec<BenchmarkChangeEvent>,
    pub task: BenchmarkTaskStatus,
    pub generated_at: i64,
}

/// The wish to change the state or the reminders of a node.
#[derive(Debug)]
pub struct NodeUpdateRequest {
    pub node_id: String,
    pub state: Option<ParticipationState>,
    pub reminder_action: Option<ReminderAction>,
}

/// What a user does about a reminder.
#[derive(Debug, Clone, Copy, PartialEq, Eq, Structural)]
pub enum ReminderAction {
    SnoozeSevenDays,
    Ignore,
    Reset,
}

/// The direction of a manual speed test.
#[derive(Debug, Clone, Copy, PartialEq, Eq, Structural)]
pub enum ManualSpeedMode {
    Download,
    Upload,
}

/// The wish to run a manual batch of speed tests.
#[derive(Debug)]
pub struct ManualBatchRequest {
    pub profile_uid: Option<String>,
    pub node_names: Vec<String>,
    pub mode: ManualSpeedMode,
    pub options: SpeedTestOptions,
    pub include_in_ranking: bool,
}

/// Whether a request without the flag takes part in the ranking.
pub fn default_true() -> (value: bool)
    ensures
        value,
{
    true
}

/// The result of a speed test in either direction.
#[derive(Debug)]
pub enum SpeedTestResult {
    Download(DownloadSpeedTestResult),
    Upload(UploadSpeedTestResult),
}

impl Clone for SpeedTestResult {
    fn clone(&self) -> (copy: Self)
        ensures
            copy == *self,
    {
        match self {
            SpeedTestResult::Download(result) => SpeedTestResult::Download(result.clone()),
            SpeedTestResult::Upload(result) => SpeedTestResult::Upload(result.clone()),
        }
    }
}

/// One row of a manual batch.
#[derive(Debug)]
pub struct ManualBatchRow {
    pub node_name: String,
    pub status: String,
    pub error: Option<String>,
    pub result: Option<SpeedTestResult>,
}

impl Clone for ManualBatchRow {
    fn clone(&self) -> (copy: Self)
        ensures
            copy == *self,
    {
        ManualBatchRow {
            node_name: self.node_name.clone(),
            status: self.status.clone(),
            error: copy_text(&self.error),
            result: match &self.result {
                Some(result) => Some(result.clone()),
                None => None,
            },
        }
    }
}

/// The progress of a manual batch.
#[derive(Debug)]
pub struct ManualBatchSnapshot {
    pub job_id: String,
    pub running: bool,
    pub mode: ManualSpeedMode,
    pub rows: Vec<ManualBatchRow>,
}

} // verus!
