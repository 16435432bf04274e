//! The data types that the library's operations exchange.
use vstd::prelude::*;
use vstd::string::StringExecFns;

verus! {

// ---------------------------------------------------------------------------
// String views
// ---------------------------------------------------------------------------
/// The characters of an optional string.
pub open spec fn opt_str(o: Option<String>) -> Option<Seq<char>> {
    match o {
        Some(s) => Some(s@),
        None => None,
    }
}

/// The characters of each string.
pub open spec fn strs(v: Seq<String>) -> Seq<Seq<char>> {
    Seq::new(v.len(), |i: int| v[i]@)
}

/// The characters of each key and value.
pub open spec fn str_pairs(v: Seq<(String, String)>) -> Seq<(Seq<char>, Seq<char>)> {
    Seq::new(v.len(), |i: int| (v[i].0@, v[i].1@))
}

/// No key occurs twice.
pub open spec fn keys_unique<V>(v: Seq<(Seq<char>, V)>) -> bool {
    forall|i: int, j: int| 0 <= i < j < v.len() ==> v[i].0 != v[j].0
}

/// The operating system the app runs on, as far as its behaviour differs.
#[derive(Clone, Copy, PartialEq, Eq, Debug, Structural)]
pub enum Platform {
    MacOs,
    Windows,
    Other,
}

// ---------------------------------------------------------------------------
// Errors
// ---------------------------------------------------------------------------
/// Why an operation failed; outside errors are carried as their messages.
#[derive(Debug, Clone, PartialEq, Eq)]
pub enum CoreError {
    Io(String),
    Json(String),
    TomlParse(String),
    TomlSerialize(String),
    Http(String),
    NotFound(String),
    InvalidData(String),
    OperationFailed(String),
}

// ---------------------------------------------------------------------------
// MCP
// ---------------------------------------------------------------------------
#[derive(Debug, Clone, Copy, PartialEq, Eq, Hash, Structural)]
pub enum McpTransport {
    Stdio,
    Http,
    Sse,
    Unknown,
}

/// One MCP server of the configuration.  `headers` and `environment` hold
/// each key at most once.
#[derive(Debug, Clone, PartialEq)]
pub struct McpServerSummary {
    pub name: String,
    pub transport: McpTransport,
    pub enabled: bool,
    pub source_path: String,
    pub command: Option<String>,
    pub args: Vec<String>,
    pub url: Option<String>,
    pub headers: Vec<(String, String)>,
    pub environment: Vec<(String, String)>,
}

/// An MCP server as plain values.
pub struct McpServerView {
    pub name: Seq<char>,
    pub transport: McpTransport,
    pub enabled: bool,
    pub source_path: Seq<char>,
    pub command: Option<Seq<char>>,
    pub args: Seq<Seq<char>>,
    pub url: Option<Seq<char>>,
    pub headers: Seq<(Seq<char>, Seq<char>)>,
    pub environment: Seq<(Seq<char>, Seq<char>)>,
}

impl View for McpServerSummary {
    type V = McpServerView;

    open spec fn view(&self) -> McpServerView {
        McpServerView {
            name: self.name@,
            transport: self.transport,
            enabled: self.enabled,
            source_path: self.source_path@,
            command: opt_str(self.command),
            args: strs(self.args@),
            url: opt_str(self.url),
            headers: str_pairs(self.headers@),
            environment: str_pairs(self.environment@),
        }
    }
}

impl McpServerSummary {
    /// Each header and each environment variable occurs once.
    pub open spec fn wf(&self) -> bool {
        keys_unique(str_pairs(self.headers@)) && keys_unique(str_pairs(self.environment@))
    }
}

// ---------------------------------------------------------------------------
// Custom instructions
// ---------------------------------------------------------------------------
#[derive(Debug, Clone, Copy, PartialEq, Eq, Hash, Structural)]
pub enum CustomInstructionProtectionState {
    Ready,
    Unmanaged,
    Protected,
}

#[derive(Debug, Clone, Copy, PartialEq, Eq, Hash, Structural)]
pub enum CustomInstructionHistoryAction {
    Apply,
    Clear,
    Rollback,
}

#[derive(Debug, Clone, PartialEq)]
pub struct CustomInstructionCurrentState {
    pub global_path: String,
    pub file_exists: bool,
    pub managed_block_present: bool,
    pub protection_state: CustomInstructionProtectionState,
    pub issue_message: Option<String>,
    pub managed_content: String,
    pub last_applied_at: Option<i64>,
    pub last_template_code: Option<String>,
    pub last_template_title: Option<String>,
}

#[derive(Debug, Clone, PartialEq)]
pub struct CustomInstructionHistoryEntry {
    pub id: String,
    pub created_at: i64,
    pub action: CustomInstructionHistoryAction,
    pub source: String,
    pub template_code: Option<String>,
    pub template_title: Option<String>,
}

#[derive(Debug, Clone, PartialEq)]
pub struct CustomInstructionStatePayload {
    pub current: CustomInstructionCurrentState,
    pub history: Vec<CustomInstructionHistoryEntry>,
}

#[derive(Debug, Clone, PartialEq)]
pub struct CustomInstructionPreviewPayload {
    pub global_path: String,
    pub protection_state: CustomInstructionProtectionState,
    pub issue_message: Option<String>,
    pub current_managed_content: String,
    pub next_managed_content: String,
    pub resulting_content: String,
}

// ---------------------------------------------------------------------------
// Payloads of the app's operations
// ---------------------------------------------------------------------------
#[derive(Debug, Clone, Copy, PartialEq, Eq, Hash, Structural)]
pub enum PlanType {
    Free,
    Plus,
    Pro5x,
    Pro20x,
    Team,
    Business,
    Enterprise,
    Edu,
    Unknown,
}

#[derive(Debug, Clone, Copy, PartialEq, Eq, Hash, Structural)]
pub enum AuthMode {
    Chatgpt,
    Apikey,
}

#[derive(Debug, Clone, Copy, PartialEq, Eq, Hash, Structural)]
pub enum UsageSource {
    Local,
    Api,
}

#[derive(Debug, Clone, Copy, PartialEq, Eq, Hash, Default, Structural)]
pub enum ApiProxyMode {
    #[default]
    Direct,
    Manual,
}

#[derive(Debug, Clone, Copy, PartialEq, Eq, Hash, Structural)]
pub enum AutoSwitchRuntimeState {
    Running,
    Stopped,
    NotInstalled,
    Unknown,
}

#[derive(Debug, Clone, Copy, PartialEq, Eq, Hash, Structural)]
pub enum VoiceTemplateKind {
    Dictation,
    Task,
    Review,
    Translation,
    Summary,
    Custom,
}

#[derive(Debug, Clone, Copy, PartialEq, Eq, Hash, Structural)]
pub enum VoiceVocabularyKind {
    Hotword,
    Mapping,
}

#[derive(Debug, Clone, Copy, PartialEq, Eq, Hash, Structural)]
pub enum VoiceSpeechModel {
    AppleSpeech,
    AliyunFunAsr,
    Openai,
}

#[derive(Debug, Clone, Copy, PartialEq, Eq, Hash, Structural)]
pub enum VoiceProcessingMode {
    Dictation,
    Task,
    Review,
    Summary,
}

#[derive(Debug, Clone, Copy, PartialEq, Eq, Hash, Structural)]
pub enum VoicePermissionState {
    Authorized,
    Denied,
    Restricted,
    NotDetermined,
    Unsupported,
}

#[derive(Debug, Clone, Copy, PartialEq, Eq, Hash, Structural)]
pub enum VoiceCaptureState {
    Idle,
    Starting,
    Recording,
    Stopping,
    Error,
}

#[derive(Debug, Clone, Copy, PartialEq, Eq, Hash, Structural)]
pub enum VoiceTriggerStyle {
    Hold,
    Toggle,
}

#[derive(Debug, Clone, PartialEq)]
pub struct CoreWarning {
    pub code: String,
    pub message: String,
}

#[derive(Debug, Clone, PartialEq)]
pub struct AppPathState {
    pub codex_home: String,
    pub accounts_path: String,
    pub auth_path: String,
    pub registry_path: String,
    pub sessions_path: String,
    pub launch_agent_path: String,
    pub auto_switch_log_path: String,
    pub auth_exists: bool,
    pub registry_exists: bool,
    pub sessions_exists: bool,
}

#[derive(Debug, Clone, PartialEq)]
pub struct ApiProxyConfigPayload {
    pub mode: ApiProxyMode,
    pub url: Option<String>,
}

#[derive(Debug, Clone, PartialEq)]
pub struct AutoSwitchStatusPayload {
    pub enabled: bool,
    pub threshold_5h_percent: i32,
    pub threshold_weekly_percent: i32,
    pub service_state: AutoSwitchRuntimeState,
    pub service_label: String,
}

#[derive(Debug, Clone, PartialEq)]
pub struct ApiConfigPayload {
    pub proxy: ApiProxyConfigPayload,
}

#[derive(Debug, Clone, Copy, PartialEq)]
pub enum ApiReachabilityStatus {
    Unknown,
    Reachable,
    Unreachable,
}

#[derive(Debug, Clone, PartialEq)]
pub struct ApiConnectivityPayload {
    pub usage_status: ApiReachabilityStatus,
    pub usage_last_error: Option<String>,
}

#[derive(Debug, Clone, PartialEq)]
pub struct AppStatusPayload {
    pub paths: AppPathState,
    pub last_scan_at: i64,
    pub usage_source: UsageSource,
    pub auto_switch: AutoSwitchStatusPayload,
    pub api: ApiConfigPayload,
    pub api_connectivity: ApiConnectivityPayload,
}

#[derive(Debug, Clone, PartialEq)]
pub struct CoreSnapshotPayload {
    pub status: AppStatusPayload,
}

#[derive(Debug, Clone, PartialEq)]
pub struct VoicePromptTemplate {
    pub id: String,
    pub title: String,
    pub description: String,
    pub kind: VoiceTemplateKind,
    pub content: String,
    pub built_in: bool,
    pub updated_at: i64,
}

#[derive(Debug, Clone, PartialEq)]
pub struct VoiceVocabularyEntry {
    pub id: String,
    pub source: String,
    pub replacement: String,
    pub kind: VoiceVocabularyKind,
    pub app_bundle_id: Option<String>,
    pub app_name: Option<String>,
    pub notes: Option<String>,
    pub updated_at: i64,
}

#[derive(Debug, Clone, PartialEq)]
pub struct VoiceVocabularyAppPayload {
    pub bundle_id: String,
    pub name: String,
    pub path: String,
}

#[derive(Debug, Clone, PartialEq)]
pub struct VoiceHistoryEntry {
    pub id: String,
    pub template_id: String,
    pub template_title: String,
    pub template_kind: VoiceTemplateKind,
    pub prompt_content: String,
    pub raw_text: String,
    pub rendered_text: String,
    pub selected_text: String,
    pub clipboard_text: String,
    pub target_bundle_id: String,
    pub target_app_name: String,
    pub status: String,
    pub processing_error: Option<String>,
    pub asr_provider: String,
    pub asr_model: String,
    pub asr_language: String,
    pub asr_emotion: String,
    pub asr_duration_ms: Option<u64>,
    pub asr_error_code: Option<String>,
    pub created_at: i64,
}

#[derive(Debug, Clone, PartialEq)]
pub struct VoiceWorkspacePayload {
    pub templates: Vec<VoicePromptTemplate>,
    pub vocabulary: Vec<VoiceVocabularyEntry>,
    pub vocabulary_apps: Vec<VoiceVocabularyAppPayload>,
    pub history: Vec<VoiceHistoryEntry>,
    pub source_path: String,
    pub last_updated_at: i64,
}

#[derive(Debug, Clone, PartialEq)]
pub struct VoiceTemplateMutationPayload {
    pub workspace: VoiceWorkspacePayload,
    pub template: VoicePromptTemplate,
}

#[derive(Debug, Clone, PartialEq)]
pub struct VoiceVocabularyMutationPayload {
    pub workspace: VoiceWorkspacePayload,
    pub entry: VoiceVocabularyEntry,
}

#[derive(Debug, Clone, PartialEq)]
pub struct VoiceGeneratePayload {
    pub output: String,
    pub history_entry: VoiceHistoryEntry,
    pub workspace: VoiceWorkspacePayload,
    pub processing_status: String,
    pub processing_error: Option<String>,
}

#[derive(Debug, Clone, PartialEq)]
pub struct VoiceLlmConfigPayload {
    pub provider: String,
    pub api_key: String,
    pub model: String,
    pub base_url: String,
    pub configured: bool,
}

#[derive(Debug, Clone, PartialEq)]
pub struct VoiceAsrConfigPayload {
    pub provider: String,
    pub api_key: String,
    pub model: String,
    pub base_url: String,
    pub configured: bool,
}

#[derive(Debug, Clone, PartialEq)]
pub struct VoiceRuntimePermissionsPayload {
    pub microphone: VoicePermissionState,
    pub speech_recognition: VoicePermissionState,
    pub accessibility: VoicePermissionState,
}

#[derive(Debug, Clone, PartialEq)]
pub struct PerModeShortcutPayload {
    pub key_code: i64,
    pub key_label: String,
    pub key_kind: String,
    pub style: VoiceTriggerStyle,
    pub modifier_mask: u64,
}

#[derive(Debug, Clone, PartialEq)]
pub struct VoiceRuntimeStatusPayload {
    pub supported: bool,
    pub enabled: bool,
    pub capture_state: VoiceCaptureState,
    pub permissions: VoiceRuntimePermissionsPayload,
    pub global_shortcut: String,
    pub trigger_key_code: i64,
    pub trigger_key_label: String,
    pub trigger_key_kind: String,
    pub trigger_style: VoiceTriggerStyle,
    pub trigger_modifier_mask: u64,
    pub hold_trigger_key_code: i64,
    pub hold_trigger_key_label: String,
    pub hold_trigger_key_kind: String,
    pub hold_trigger_modifier_mask: u64,
    pub toggle_trigger_key_code: i64,
    pub toggle_trigger_key_label: String,
    pub toggle_trigger_key_kind: String,
    pub toggle_trigger_modifier_mask: u64,
    pub speech_model: VoiceSpeechModel,
    pub recognition_language: String,
    pub processing_mode: VoiceProcessingMode,
    pub processing_mode_id: String,
    pub session_processing_mode_id: Option<String>,
    pub per_mode_shortcuts: Vec<(String, PerModeShortcutPayload)>,
    pub live_text: String,
    pub committed_text: String,
    pub captured_selected_text: String,
    pub captured_clipboard_text: String,
    pub captured_target_bundle_id: String,
    pub captured_target_app_name: String,
    pub active_asr_provider: String,
    pub active_asr_model: String,
    pub detected_asr_language: String,
    pub detected_asr_emotion: String,
    pub last_asr_duration_ms: Option<u64>,
    pub last_asr_error_code: Option<String>,
    pub last_error: Option<String>,
    pub config_path: String,
    pub sidecar_path: Option<String>,
    pub auto_inject: bool,
}

#[derive(Debug, Clone, PartialEq)]
pub struct McpServerListPayload {
    pub items: Vec<McpServerSummary>,
    pub total: i32,
    pub source_path: String,
    pub last_scan_at: i64,
}

#[derive(Debug, Clone, PartialEq)]
pub struct McpServerMutationPayload {
    pub server: McpServerSummary,
    pub total: i32,
    pub source_path: String,
}

#[derive(Debug, Clone, PartialEq)]
pub struct McpServerRemovePayload {
    pub removed_name: String,
    pub total: i32,
    pub source_path: String,
}

#[derive(Debug, Clone, PartialEq)]
pub struct InstalledSkillSummary {
    pub id: String,
    pub name: String,
    pub title: Option<String>,
    pub summary: Option<String>,
    pub relative_path: String,
    pub directory_path: String,
    pub skill_file_path: String,
    pub updated_at: Option<i64>,
}

#[derive(Debug, Clone, PartialEq)]
pub struct SkillListPayload {
    pub items: Vec<InstalledSkillSummary>,
    pub total: i32,
    pub root_path: String,
    pub last_scan_at: i64,
}

#[derive(Debug, Clone, PartialEq)]
pub struct SkillBackupSummary {
    pub id: String,
    pub skill_id: String,
    pub name: String,
    pub title: Option<String>,
    pub relative_path: String,
    pub backup_path: String,
    pub created_at: i64,
}

#[derive(Debug, Clone, PartialEq)]
pub struct SkillBackupListPayload {
    pub items: Vec<SkillBackupSummary>,
    pub total: i32,
    pub root_path: String,
    pub last_scan_at: i64,
}

#[derive(Debug, Clone, PartialEq)]
pub struct SkillImportPayload {
    pub skill: InstalledSkillSummary,
    pub replaced_existing: bool,
    pub backup: Option<SkillBackupSummary>,
}

#[derive(Debug, Clone, PartialEq)]
pub struct SkillRemovePayload {
    pub removed_skill_id: String,
    pub backup: SkillBackupSummary,
    pub remaining_installed_count: i32,
}

#[derive(Debug, Clone, PartialEq)]
pub struct SkillRestorePayload {
    pub restored_skill: InstalledSkillSummary,
    pub backup: SkillBackupSummary,
    pub rollback_backup: Option<SkillBackupSummary>,
}

#[derive(Debug, Clone, PartialEq)]
pub struct SkillDeleteBackupPayload {
    pub deleted_backup_id: String,
    pub remaining_backup_count: i32,
}

#[derive(Debug, Clone, PartialEq)]
pub struct SkillTranslationEntry {
    pub skill_id: String,
    pub source_hash: String,
    pub source: String,
    pub zh: String,
    pub updated_at: i64,
}

#[derive(Debug, Clone, PartialEq)]
pub struct SkillTranslationCachePayload {
    pub configured: bool,
    pub translations: Vec<(String, SkillTranslationEntry)>,
    pub source_path: String,
}

#[derive(Debug, Clone, PartialEq)]
pub struct SkillTranslationRequestItem {
    pub id: String,
    pub text: String,
}

#[derive(Debug, Clone, PartialEq)]
pub struct SkillTranslationPayload {
    pub configured: bool,
    pub translated_count: i32,
    pub skipped_count: i32,
    pub failed_count: i32,
    pub translations: Vec<(String, SkillTranslationEntry)>,
    pub source_path: String,
}

#[derive(Debug, Clone, PartialEq)]
pub struct CleanPayload {
    pub auth_backups_removed: i32,
    pub registry_backups_removed: i32,
    pub stale_entries_removed: i32,
}

#[derive(Debug, Clone, PartialEq)]
pub struct BackupCleanupPayload {
    pub backups_root: String,
    pub removed: i32,
    pub kept: i32,
    pub errors: Vec<String>,
}

#[derive(Debug, Clone, PartialEq)]
pub struct RebuildRegistryPayload {
    pub account_count: i32,
    pub active_account_key: Option<String>,
    pub registry_updated: bool,
}

#[derive(Debug, Clone, PartialEq)]
pub struct AutoSwitchConfigPayload {
    pub auto_switch: AutoSwitchStatusPayload,
}

#[derive(Debug, Clone, PartialEq)]
pub struct ApiModePayload {
    pub api: ApiConfigPayload,
}

#[derive(Debug, Clone, PartialEq)]
pub struct ApiProxyTestPayload {
    pub code: String,
    pub reachable: bool,
    pub status_code: Option<i32>,
    pub message: String,
}

#[derive(Debug, Clone, PartialEq)]
pub struct ApiProxyDetectPayload {
    pub found: bool,
    pub mode: Option<ApiProxyMode>,
    pub url: Option<String>,
    pub probe: ApiProxyTestPayload,
}

#[derive(Debug, Clone, PartialEq)]
pub struct UpdateInstallabilityPayload {
    pub can_install: bool,
    pub code: String,
    pub executable_path: Option<String>,
    pub bundle_path: Option<String>,
    pub translocated: bool,
    pub quarantined: bool,
}

#[derive(Debug, Clone, PartialEq)]
pub struct DaemonRunPayload {
    pub executed_at: i64,
    pub run_once: bool,
    pub auto_switch_enabled: bool,
    pub service_state: AutoSwitchRuntimeState,
}

#[derive(Debug, Clone, PartialEq)]
pub struct EnhancerSettingsPayload {
    pub chat_info_move_enabled: bool,
    pub one_click_handoff_enabled: bool,
    pub hide_official_quota_notice_enabled: bool,
    pub must_install_plugins_enabled: bool,
}

#[derive(Debug, Clone, PartialEq)]
pub struct DiagnosePlatform {
    pub os: String,
    pub arch: String,
}

#[derive(Debug, Clone, PartialEq)]
pub struct DiagnoseRegistryState {
    pub account_count: i32,
}

#[derive(Debug, Clone, PartialEq)]
pub struct DiagnoseSessionState {
    pub latest_rollout_found: bool,
}

#[derive(Debug, Clone, PartialEq)]
pub struct DiagnoseApiState {
    pub usage_attempt_count: i32,
    pub usage_success_count: i32,
    pub name_attempt_count: i32,
    pub name_success_count: i32,
    pub last_usage_failure: Option<String>,
    pub last_usage_failure_account: Option<String>,
    pub last_name_failure: Option<String>,
    pub last_name_failure_account: Option<String>,
}

#[derive(Debug, Clone, PartialEq)]
pub struct RuntimeResolutionEntry {
    pub path: String,
    pub source: String,
}

#[derive(Debug, Clone, PartialEq)]
pub struct RuntimeDiagnosticsPayload {
    pub python: RuntimeResolutionEntry,
    pub codex_cli: Option<RuntimeResolutionEntry>,
    pub codex_desktop: Option<RuntimeResolutionEntry>,
    pub threadripper: Option<RuntimeResolutionEntry>,
}

#[derive(Debug, Clone, PartialEq)]
pub struct FirstRunCheckItemPayload {
    pub key: String,
    pub label: String,
    pub state: String,
    pub detail: String,
}

#[derive(Debug, Clone, PartialEq)]
pub struct FirstRunCheckStatusPayload {
    pub state: String,
    pub summary: String,
    pub action_label: Option<String>,
    pub checks: Vec<FirstRunCheckItemPayload>,
    pub repaired_count: i32,
    pub blocked_count: i32,
}

#[derive(Debug, Clone, PartialEq)]
pub struct DiagnosePayload {
    pub paths: AppPathState,
    pub core_version: String,
    pub platform: DiagnosePlatform,
    pub registry_state: DiagnoseRegistryState,
    pub session_state: DiagnoseSessionState,
    pub api_state: DiagnoseApiState,
    pub runtimes: RuntimeDiagnosticsPayload,
    pub first_run_check: FirstRunCheckStatusPayload,
}

#[derive(Debug, Clone, PartialEq)]
pub struct DiagnosticsBundlePayload {
    pub generated_at: i64,
    pub app_version: String,
    pub os: String,
    pub arch: String,
    pub codex_path_used: Option<String>,
    pub python_runtime_path_used: String,
    pub helper_tool_availability: Vec<(String, String)>,
    pub permission_check_results: Vec<FirstRunCheckItemPayload>,
    pub runtime_resolution_results: RuntimeDiagnosticsPayload,
    pub latest_failure_summary: Option<String>,
    pub bundle_path: String,
}

#[derive(Debug, Clone, PartialEq)]
pub struct TokenDaySeries {
    pub date: String,
    pub input_tokens: i64,
    pub output_tokens: i64,
    pub reasoning_tokens: i64,
    pub total_tokens: i64,
    pub cumulative: i64,
}

#[derive(Debug, Clone, PartialEq)]
pub struct ToolRankItem {
    pub name: String,
    pub count: i32,
}

#[derive(Debug, Clone, PartialEq)]
pub struct ToolAnalyticsPayload {
    pub total_calls: i32,
    pub distinct_count: i32,
    pub search_count: i32,
    pub edit_count: i32,
    pub top_tools: Vec<ToolRankItem>,
}

#[derive(Debug, Clone, PartialEq)]
pub struct ChangeDaySeries {
    pub date: String,
    pub commands: i32,
    pub write_ops: i32,
    pub read_ops: i32,
}

#[derive(Debug, Clone, PartialEq)]
pub struct ChangeAnalyticsPayload {
    pub total_commands: i32,
    pub write_commands: i32,
    pub read_commands: i32,
    pub other_commands: i32,
    pub series: Vec<ChangeDaySeries>,
}

impl PlanType {
    /// The plan's display title.
    pub fn title(&self) -> (t: &'static str)
        ensures
            t@ == (match self {
                PlanType::Free => "Free"@,
                PlanType::Plus => "Plus"@,
                PlanType::Pro5x => "5x Pro"@,
                PlanType::Pro20x => "20x Pro"@,
                PlanType::Team => "Team"@,
                PlanType::Business => "Business"@,
                PlanType::Enterprise => "Enterprise"@,
                PlanType::Edu => "Edu"@,
                PlanType::Unknown => "Unknown"@,
            }),
    {
        match self {
            PlanType::Free => "Free",
            PlanType::Plus => "Plus",
            PlanType::Pro5x => "5x Pro",
            PlanType::Pro20x => "20x Pro",
            PlanType::Team => "Team",
            PlanType::Business => "Business",
            PlanType::Enterprise => "Enterprise",
            PlanType::Edu => "Edu",
            PlanType::Unknown => "Unknown",
        }
    }
}

impl InstalledSkillSummary {
    /// The skill's title when it has a nonempty one, its name otherwise.
    pub fn display_title(&self) -> (t: &str)
        ensures
            t@ == (match self.title {
                Some(x) => if x@.len() > 0 {
                    x@
                } else {
                    self.name@
                },
                None => self.name@,
            }),
    {
        match &self.title {
            Some(x) => {
                if !x.as_str().is_empty() {
                    x.as_str()
                } else {
                    self.name.as_str()
                }
            },
            None => self.name.as_str(),
        }
    }
}

impl Default for ApiProxyConfigPayload {
    fn default() -> (r: Self)
        ensures
            r.mode == ApiProxyMode::Direct,
            r.url is None,
    {
        ApiProxyConfigPayload { mode: ApiProxyMode::Direct, url: None }
    }
}

/// The status stored for a voice history entry that names none.
pub fn default_voice_history_status() -> (s: String)
    ensures
        s@ == "completed"@,
{
    String::from_str("completed")
}

/// The recognition language stored when none is named.
pub fn default_recognition_language() -> (s: String)
    ensures
        s@ == "auto"@,
{
    String::from_str("auto")
}

/// Whether dictated text is injected when the setting is absent.
pub fn default_auto_inject() -> (b: bool)
    ensures
        b,
{
    true
}

// ---------------------------------------------------------------------------
// The envelope around every answer
// ---------------------------------------------------------------------------
#[derive(Debug, Clone)]
pub struct CoreEnvelope<T> {
    pub schema_version: i32,
    pub success: bool,
    pub code: String,
    pub message: String,
    pub warnings: Vec<CoreWarning>,
    pub data: T,
}

impl<T> CoreEnvelope<T> {
    /// A successful answer without warnings.
    pub fn ok(data: T) -> (r: Self)
        ensures
            r.schema_version == 1,
            r.success,
            r.code@ == "ok"@,
            r.message@ == "Success"@,
            r.warnings@.len() == 0,
            r.data == data,
    {
        CoreEnvelope {
            schema_version: 1,
            success: true,
            code: String::from_str("ok"),
            message: String::from_str("Success"),
            warnings: Vec::new(),
            data,
        }
    }

    /// A successful answer with warnings.
    pub fn ok_with_warnings(data: T, warnings: Vec<CoreWarning>) -> (r: Self)
        ensures
            r.schema_version == 1,
            r.success,
            r.code@ == "ok"@,
            r.message@ == "Success"@,
            r.warnings == warnings,
            r.data == data,
    {
        CoreEnvelope {
            schema_version: 1,
            success: true,
            code: String::from_str("ok"),
            message: String::from_str("Success"),
            warnings,
            data,
        }
    }

    /// A failed answer with its code and message.
    pub fn error(code: &str, message: &str, data: T) -> (r: Self)
        ensures
            r.schema_version == 1,
            !r.success,
            r.code@ == code@,
            r.message@ == message@,
            r.warnings@.len() == 0,
            r.data == data,
    {
        CoreEnvelope {
            schema_version: 1,
            success: false,
            code: String::from_str(code),
            message: String::from_str(message),
            warnings: Vec::new(),
            data,
        }
    }
}

} // verus!
