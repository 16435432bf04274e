//! The app's own settings (`settings.json`) and the operations that read and
//! change them.  The repository holds the settings in memory; loading and
//! saving the file is the caller's part.
use vstd::prelude::*;
use vstd::string::StringExecFns;
use crate::api_client::{sanitize_proxy_config, sanitized_url};
use crate::models::{
    opt_str, ApiConfigPayload, ApiModePayload, ApiProxyConfigPayload, ApiProxyMode,
    AutoSwitchStatusPayload, AutoSwitchRuntimeState, CoreError, EnhancerSettingsPayload,
    AppPathState, CoreEnvelope, DiagnoseApiState, DiagnosePayload, DiagnosePlatform,
    DiagnoseRegistryState, DiagnoseSessionState, FirstRunCheckItemPayload,
    FirstRunCheckStatusPayload, RuntimeDiagnosticsPayload, RuntimeResolutionEntry,
};
use crate::paths::CodexPaths;
use crate::runtime_resolver::ResolvedRuntime;
use crate::text::{chars_of, push_str, string_of};

verus! {

// ---------------------------------------------------------------------------
// Settings
// ---------------------------------------------------------------------------
#[derive(Debug, Clone, Copy, PartialEq)]
pub struct AutoSwitchConfig {
    pub enabled: bool,
    pub threshold_5h_percent: i32,
    pub threshold_weekly_percent: i32,
}

impl Default for AutoSwitchConfig {
    fn default() -> (c: Self)
        ensures
            !c.enabled,
            c.threshold_5h_percent == 0,
            c.threshold_weekly_percent == 0,
    {
        AutoSwitchConfig { enabled: false, threshold_5h_percent: 0, threshold_weekly_percent: 0 }
    }
}

/// The 5-hour threshold stored when the setting is absent.
pub fn default_5h_threshold() -> (t: i32)
    ensures
        t == 15,
{
    15
}

/// The weekly threshold stored when the setting is absent.
pub fn default_weekly_threshold() -> (t: i32)
    ensures
        t == 10,
{
    10
}

#[derive(Debug, Clone, Copy, PartialEq)]
pub struct ApiConfig {
    pub usage_refresh_enabled: bool,
    pub account_metadata_refresh_enabled: bool,
}

impl Default for ApiConfig {
    fn default() -> (c: Self)
        ensures
            c.usage_refresh_enabled,
            c.account_metadata_refresh_enabled,
    {
        ApiConfig { usage_refresh_enabled: true, account_metadata_refresh_enabled: true }
    }
}

/// The API settings in effect: always the defaults, whatever is stored.
pub fn effective_api_config(api: Option<&ApiConfig>) -> (c: ApiConfig)
    ensures
        c.usage_refresh_enabled,
        c.account_metadata_refresh_enabled,
{
    ApiConfig { usage_refresh_enabled: true, account_metadata_refresh_enabled: true }
}

#[derive(Debug, Clone, PartialEq, Default)]
pub struct HotspotConfig {
    pub enabled: bool,
}

#[derive(Debug, Clone, PartialEq, Default)]
pub struct EnhancerConfig {
    pub chat_info_move_enabled: bool,
    pub one_click_handoff_enabled: bool,
    pub hide_official_quota_notice_enabled: bool,
}

#[derive(Debug, Clone, PartialEq)]
pub struct CodexMateSettings {
    pub hotspot: HotspotConfig,
    pub enhancer: EnhancerConfig,
    pub usage_refresh_interval: String,
    pub device_id: Option<String>,
    pub api_proxy: ApiProxyConfigPayload,
}

/// The settings as plain values.
pub struct SettingsView {
    pub hotspot_enabled: bool,
    pub chat_info_move_enabled: bool,
    pub one_click_handoff_enabled: bool,
    pub hide_official_quota_notice_enabled: bool,
    pub usage_refresh_interval: Seq<char>,
    pub device_id: Option<Seq<char>>,
    pub proxy_mode: ApiProxyMode,
    pub proxy_url: Option<Seq<char>>,
}

impl View for CodexMateSettings {
    type V = SettingsView;

    open spec fn view(&self) -> SettingsView {
        SettingsView {
            hotspot_enabled: self.hotspot.enabled,
            chat_info_move_enabled: self.enhancer.chat_info_move_enabled,
            one_click_handoff_enabled: self.enhancer.one_click_handoff_enabled,
            hide_official_quota_notice_enabled: self.enhancer.hide_official_quota_notice_enabled,
            usage_refresh_interval: self.usage_refresh_interval@,
            device_id: opt_str(self.device_id),
            proxy_mode: self.api_proxy.mode,
            proxy_url: opt_str(self.api_proxy.url),
        }
    }
}

impl Default for CodexMateSettings {
    /// The settings when none are stored: everything off, no interval, no
    /// device id, direct connection.
    fn default() -> (s: Self)
        ensures
            s@ == (SettingsView {
                hotspot_enabled: false,
                chat_info_move_enabled: false,
                one_click_handoff_enabled: false,
                hide_official_quota_notice_enabled: false,
                usage_refresh_interval: Seq::empty(),
                device_id: None,
                proxy_mode: ApiProxyMode::Direct,
                proxy_url: None,
            }),
    {
        CodexMateSettings {
            hotspot: HotspotConfig { enabled: false },
            enhancer: EnhancerConfig {
                chat_info_move_enabled: false,
                one_click_handoff_enabled: false,
                hide_official_quota_notice_enabled: false,
            },
            usage_refresh_interval: String::new(),
            device_id: None,
            api_proxy: ApiProxyConfigPayload { mode: ApiProxyMode::Direct, url: None },
        }
    }
}

// ---------------------------------------------------------------------------
// Usage refresh intervals
// ---------------------------------------------------------------------------
/// The interval stored when the setting is absent.
pub fn default_usage_refresh_interval() -> (s: String)
    ensures
        s@ == "1m"@,
{
    String::from_str("1m")
}

/// The supported refresh intervals: `30s`, `1m`, `3m` and `5m`.
pub open spec fn supported_interval(s: Seq<char>) -> bool {
    s == "30s"@ || s == "1m"@ || s == "3m"@ || s == "5m"@
}

/// A supported interval as it is (`normalize_usage_refresh_interval`).
pub fn normalize_usage_refresh_interval(interval: &str) -> (r: Option<&'static str>)
    ensures
        match r {
            Some(s) => supported_interval(interval@) && s@ == interval@,
            None => !supported_interval(interval@),
        },
{
    let c = chars_of(interval);
    if crate::text::eq_chars(c.as_slice(), chars_of("30s").as_slice()) {
        Some("30s")
    } else if crate::text::eq_chars(c.as_slice(), chars_of("1m").as_slice()) {
        Some("1m")
    } else if crate::text::eq_chars(c.as_slice(), chars_of("3m").as_slice()) {
        Some("3m")
    } else if crate::text::eq_chars(c.as_slice(), chars_of("5m").as_slice()) {
        Some("5m")
    } else {
        None
    }
}

/// The interval in effect: a supported interval as it is, one minute otherwise.
pub open spec fn effective_interval(s: Seq<char>) -> Seq<char> {
    if supported_interval(s) {
        s
    } else {
        "1m"@
    }
}

/// The seconds of an interval.
pub open spec fn interval_seconds(s: Seq<char>) -> u64 {
    let e = effective_interval(s);
    if e == "30s"@ {
        30
    } else if e == "3m"@ {
        180
    } else if e == "5m"@ {
        300
    } else {
        60
    }
}

/// The seconds between usage refreshes (`usage_refresh_interval_seconds`);
/// unsupported intervals count as one minute.
pub fn usage_refresh_interval_seconds(interval: &str) -> (n: u64)
    ensures
        n == interval_seconds(interval@),
{
    proof {
        reveal_strlit("30s");
        reveal_strlit("1m");
        reveal_strlit("3m");
        reveal_strlit("5m");
    }
    assert("1m"@.len() == 2 && "30s"@.len() == 3);
    assert("1m"@[0] == '1' && "3m"@[0] == '3' && "5m"@[0] == '5');
    assert("1m"@ != "30s"@);
    assert("1m"@ != "3m"@);
    assert("1m"@ != "5m"@);
    let c = chars_of(interval);
    if crate::text::eq_chars(c.as_slice(), chars_of("30s").as_slice()) {
        30
    } else if crate::text::eq_chars(c.as_slice(), chars_of("3m").as_slice()) {
        180
    } else if crate::text::eq_chars(c.as_slice(), chars_of("5m").as_slice()) {
        300
    } else {
        60
    }
}

// ---------------------------------------------------------------------------
// The repository
// ---------------------------------------------------------------------------
/// The app's paths and its settings as last loaded.
pub struct Repository {
    paths: CodexPaths,
    settings: CodexMateSettings,
}

pub open spec fn enhancer_payload(s: SettingsView, p: EnhancerSettingsPayload) -> bool {
    p.chat_info_move_enabled == s.chat_info_move_enabled && p.one_click_handoff_enabled
        == s.one_click_handoff_enabled && p.hide_official_quota_notice_enabled
        == s.hide_official_quota_notice_enabled && !p.must_install_plugins_enabled
}

pub open spec fn unsupported_interval_message(interval: Seq<char>) -> Seq<char> {
    "Unsupported refresh interval: "@ + interval
}

impl Repository {
    /// A repository over the given paths with the settings loaded from them.
    pub fn new(paths: CodexPaths, settings: CodexMateSettings) -> (r: Repository)
        ensures
            r.paths_view() == paths,
            r.settings_view() == settings@,
    {
        Repository { paths, settings }
    }

    pub closed spec fn paths_view(&self) -> CodexPaths {
        self.paths
    }

    pub closed spec fn settings_view(&self) -> SettingsView {
        self.settings@
    }

    /// The app's paths.
    pub fn paths(&self) -> (p: &CodexPaths)
        ensures
            *p == self.paths_view(),
    {
        &self.paths
    }

    /// The settings as they are now, to be saved.
    pub fn settings(&self) -> (s: &CodexMateSettings)
        ensures
            s@ == self.settings_view(),
    {
        &self.settings
    }

    /// Whether the hotspot window is on.
    pub fn get_hotspot_enabled(&self) -> (b: bool)
        ensures
            b == self.settings_view().hotspot_enabled,
    {
        self.settings.hotspot.enabled
    }

    /// Turns the hotspot window on or off; nothing else changes.
    pub fn set_hotspot_enabled(&mut self, enabled: bool)
        ensures
            final(self).settings_view() == (SettingsView { hotspot_enabled: enabled, ..old(self).settings_view() }),
            final(self).paths_view() == old(self).paths_view(),
    {
        self.settings.hotspot = HotspotConfig { enabled };
    }

    /// The usage refresh interval in effect.
    pub fn get_usage_refresh_interval(&self) -> (s: String)
        ensures
            s@ == effective_interval(self.settings_view().usage_refresh_interval),
    {
        proof {
            reveal_strlit("1m");
        }
        match normalize_usage_refresh_interval(self.settings.usage_refresh_interval.as_str()) {
            Some(s) => String::from_str(s),
            None => String::from_str("1m"),
        }
    }

    fn enhancer_settings_payload(settings: &CodexMateSettings) -> (p: EnhancerSettingsPayload)
        ensures
            enhancer_payload(settings@, p),
    {
        EnhancerSettingsPayload {
            chat_info_move_enabled: settings.enhancer.chat_info_move_enabled,
            one_click_handoff_enabled: settings.enhancer.one_click_handoff_enabled,
            hide_official_quota_notice_enabled: settings.enhancer.hide_official_quota_notice_enabled,
            must_install_plugins_enabled: false,
        }
    }

    /// The enhancer's switches.
    pub fn get_enhancer_settings(&self) -> (p: EnhancerSettingsPayload)
        ensures
            enhancer_payload(self.settings_view(), p),
    {
        Self::enhancer_settings_payload(&self.settings)
    }

    /// Turns moving the chat info on or off; the other settings stay.
    pub fn set_chat_info_move_enabled(&mut self, enabled: bool) -> (p: EnhancerSettingsPayload)
        ensures
            final(self).settings_view() == (SettingsView {
                chat_info_move_enabled: enabled,
                ..old(self).settings_view()
            }),
            final(self).paths_view() == old(self).paths_view(),
            enhancer_payload(final(self).settings_view(), p),
    {
        self.settings.enhancer.chat_info_move_enabled = enabled;
        Self::enhancer_settings_payload(&self.settings)
    }

    /// Turns one-click handoff on or off; the other settings stay.
    pub fn set_one_click_handoff_enabled(&mut self, enabled: bool) -> (p: EnhancerSettingsPayload)
        ensures
            final(self).settings_view() == (SettingsView {
                one_click_handoff_enabled: enabled,
                ..old(self).settings_view()
            }),
            final(self).paths_view() == old(self).paths_view(),
            enhancer_payload(final(self).settings_view(), p),
    {
        self.settings.enhancer.one_click_handoff_enabled = enabled;
        Self::enhancer_settings_payload(&self.settings)
    }

    /// Turns hiding the official quota notice on or off; the other settings stay.
    pub fn set_hide_official_quota_notice_enabled(&mut self, enabled: bool) -> (p: EnhancerSettingsPayload)
        ensures
            final(self).settings_view() == (SettingsView {
                hide_official_quota_notice_enabled: enabled,
                ..old(self).settings_view()
            }),
            final(self).paths_view() == old(self).paths_view(),
            enhancer_payload(final(self).settings_view(), p),
    {
        self.settings.enhancer.hide_official_quota_notice_enabled = enabled;
        Self::enhancer_settings_payload(&self.settings)
    }

    /// Sets the usage refresh interval: a supported interval is stored and
    /// returned; any other is refused and nothing changes.
    pub fn set_usage_refresh_interval(&mut self, interval: &str) -> (r: Result<String, CoreError>)
        ensures
            final(self).paths_view() == old(self).paths_view(),
            supported_interval(interval@) ==> (r matches Ok(s) && s@ == interval@
                && final(self).settings_view() == (SettingsView {
                usage_refresh_interval: interval@,
                ..old(self).settings_view()
            })),
            !supported_interval(interval@) ==> (r matches Err(CoreError::InvalidData(m)) && m@
                == unsupported_interval_message(interval@) && final(self).settings_view() == old(
                self,
            ).settings_view()),
    {
        match normalize_usage_refresh_interval(interval) {
            Some(s) => {
                self.settings.usage_refresh_interval = String::from_str(s);
                Ok(String::from_str(s))
            },
            None => {
                let mut m = chars_of("Unsupported refresh interval: ");
                push_str(&mut m, interval);
                Err(CoreError::InvalidData(string_of(m.as_slice())))
            },
        }
    }

    /// Stores the proxy settings, cleaned, and returns them.
    pub fn set_api_proxy_config(&mut self, mode: ApiProxyMode, url: Option<String>) -> (r: Result<ApiModePayload, CoreError>)
        ensures
            final(self).paths_view() == old(self).paths_view(),
            r matches Ok(p) && p.api.proxy.mode == mode && opt_str(p.api.proxy.url)
                == sanitized_url(mode, opt_str(url)),
            final(self).settings_view() == (SettingsView {
                proxy_mode: mode,
                proxy_url: sanitized_url(mode, opt_str(url)),
                ..old(self).settings_view()
            }),
    {
        let input = ApiProxyConfigPayload { mode, url };
        match sanitize_proxy_config(&input) {
            Ok(n) => {
                let stored = ApiProxyConfigPayload { mode: n.mode, url: copy_opt_string(&n.url) };
                self.settings.api_proxy = stored;
                Ok(ApiModePayload { api: ApiConfigPayload { proxy: n } })
            },
            Err(e) => Err(e),
        }
    }

    /// The device id, created from a fresh random UUID when none is stored
    /// (`get_or_create_device_id`); a stored id is returned unchanged.
    pub fn get_or_create_device_id(&mut self) -> (id: String)
        ensures
            final(self).paths_view() == old(self).paths_view(),
            match old(self).settings_view().device_id {
                Some(d) => id@ == d && final(self).settings_view() == old(self).settings_view(),
                None => final(self).settings_view() == (SettingsView {
                    device_id: Some(id@),
                    ..old(self).settings_view()
                }),
            },
    {
        match &self.settings.device_id {
            Some(d) => d.clone(),
            None => {
                let id = crate::custom_instructions::fresh_uuid_string();
                self.settings.device_id = Some(id.clone());
                id
            },
        }
    }
}

fn copy_opt_string(o: &Option<String>) -> (out: Option<String>)
    ensures
        opt_str(out) == opt_str(*o),
{
    match o {
        Some(s) => Some(s.clone()),
        None => None,
    }
}

// ---------------------------------------------------------------------------
// Laws of the settings
// ---------------------------------------------------------------------------
/// Reading a switch back gives what was last set, and setting one switch of
/// the enhancer leaves the other switches, the interval, the device id and
/// the proxy as they were.
pub proof fn law_enhancer_switches_are_independent(s: SettingsView, b: bool)
    ensures
        (SettingsView { chat_info_move_enabled: b, ..s }).chat_info_move_enabled == b,
        (SettingsView { chat_info_move_enabled: b, ..s }).one_click_handoff_enabled == s.one_click_handoff_enabled,
        (SettingsView { chat_info_move_enabled: b, ..s }).hide_official_quota_notice_enabled == s.hide_official_quota_notice_enabled,
        (SettingsView { one_click_handoff_enabled: b, ..s }).chat_info_move_enabled == s.chat_info_move_enabled,
        (SettingsView { one_click_handoff_enabled: b, ..s }).hide_official_quota_notice_enabled == s.hide_official_quota_notice_enabled,
        (SettingsView { hide_official_quota_notice_enabled: b, ..s }).chat_info_move_enabled == s.chat_info_move_enabled,
        (SettingsView { hide_official_quota_notice_enabled: b, ..s }).one_click_handoff_enabled == s.one_click_handoff_enabled,
{
}

/// After a supported interval is set, the interval in effect is that
/// interval; an unsupported one never takes effect: the interval in effect is
/// always supported.
pub proof fn law_interval_in_effect_is_supported(s: Seq<char>)
    ensures
        supported_interval(effective_interval(s)),
        supported_interval(s) ==> effective_interval(s) == s,
{
}

// ---------------------------------------------------------------------------
// The first-run self-check
// ---------------------------------------------------------------------------
/// What probing a directory that the app manages found: it existed and is
/// writable, it was created, or writing to it failed with the given message.
#[derive(Debug, Clone, PartialEq)]
pub enum DirProbe {
    Existed,
    Created,
    Failed(String),
}

/// What the self-check found on this machine.
#[derive(Debug, Clone, PartialEq)]
pub struct FirstRunFacts {
    pub runtime_dir: DirProbe,
    pub reports_dir: DirProbe,
    pub backup_dir: DirProbe,
    pub python: ResolvedRuntime,
    pub python_available: bool,
    pub codex_cli: Option<ResolvedRuntime>,
    pub codex_desktop: Option<ResolvedRuntime>,
    pub threadripper: Option<ResolvedRuntime>,
    pub codex_home_exists: bool,
    pub auth_accessible: bool,
    pub config_accessible: bool,
    pub state_db_accessible: bool,
}

/// One check as plain values.
pub struct CheckView {
    pub key: Seq<char>,
    pub label: Seq<char>,
    pub state: Seq<char>,
    pub detail: Seq<char>,
}

pub open spec fn check_view(c: FirstRunCheckItemPayload) -> CheckView {
    CheckView { key: c.key@, label: c.label@, state: c.state@, detail: c.detail@ }
}

/// The check of a managed directory at `path`.
pub open spec fn dir_check(key: Seq<char>, label: Seq<char>, probe: DirProbe, path: Seq<char>) -> CheckView {
    match probe {
        DirProbe::Existed => CheckView { key, label, state: "ready"@, detail: path },
        DirProbe::Created => CheckView { key, label, state: "repairedAutomatically"@, detail: path },
        DirProbe::Failed(e) => CheckView { key, label, state: "blocked"@, detail: path + ": "@ + e@ },
    }
}

/// A runtime as the checks describe it: its path and, in brackets, its source.
pub open spec fn runtime_detail(r: ResolvedRuntime) -> Seq<char> {
    r.path@ + " ("@ + crate::prelaunch::source_name(r.source) + ")"@
}

pub open spec fn ready_if(b: bool) -> Seq<char> {
    if b {
        "ready"@
    } else {
        "blocked"@
    }
}

/// The checks after the three directories, in order.
pub open spec fn runtime_checks(p: CodexPaths, f: FirstRunFacts) -> Seq<CheckView> {
    seq![
        CheckView {
            key: "pythonRuntime"@,
            label: "Python bridge runtime"@,
            state: ready_if(f.python_available),
            detail: runtime_detail(f.python),
        },
        match f.codex_cli {
            Some(r) => CheckView { key: "codexCli"@, label: "Codex CLI"@, state: "ready"@, detail: runtime_detail(r) },
            None => CheckView {
                key: "codexCli"@,
                label: "Codex CLI"@,
                state: "blocked"@,
                detail: "No product-managed or fallback Codex CLI path found"@,
            },
        },
        match f.codex_desktop {
            Some(r) => CheckView { key: "codexDesktop"@, label: "Codex Desktop"@, state: "ready"@, detail: runtime_detail(r) },
            None => CheckView {
                key: "codexDesktop"@,
                label: "Codex Desktop"@,
                state: "blocked"@,
                detail: "Codex Desktop executable path not found"@,
            },
        },
        CheckView { key: "codexHome"@, label: "Codex home access"@, state: ready_if(f.codex_home_exists), detail: p.codex_home@ },
        CheckView { key: "authAccess"@, label: "auth.json access"@, state: ready_if(f.auth_accessible), detail: p.auth_path@ },
        CheckView { key: "configAccess"@, label: "config.toml access"@, state: ready_if(f.config_accessible), detail: p.config_path@ },
        CheckView {
            key: "stateDbAccess"@,
            label: "state_5.sqlite access"@,
            state: ready_if(f.state_db_accessible),
            detail: p.codex_state_db_path@,
        },
        match f.threadripper {
            Some(r) => CheckView { key: "threadripper"@, label: "Threadripper availability"@, state: "ready"@, detail: runtime_detail(r) },
            None => CheckView {
                key: "threadripper"@,
                label: "Threadripper availability"@,
                state: "degraded"@,
                detail: "Optional helper unavailable; mainline launch/repair can continue with graceful downgrade"@,
            },
        },
    ]
}

/// How many checks are in the state.
pub open spec fn count_state(cs: Seq<CheckView>, state: Seq<char>) -> nat
    decreases cs.len(),
{
    if cs.len() == 0 {
        0
    } else {
        count_state(cs.drop_last(), state) + (if cs.last().state == state {
            1nat
        } else {
            0nat
        })
    }
}

/// The overall status: blocked when any check is blocked, repaired when a
/// directory had to be made, ready otherwise.
pub open spec fn overall_state(blocked: nat, repaired: nat) -> Seq<char> {
    if blocked > 0 {
        "blocked"@
    } else if repaired > 0 {
        "repairedAutomatically"@
    } else {
        "ready"@
    }
}

pub open spec fn overall_summary(blocked: nat, repaired: nat) -> Seq<char> {
    if blocked > 0 {
        "First-run self-check is blocked: "@ + crate::text::decimal(blocked as int) + " item(s) need explicit action."@
    } else if repaired > 0 {
        "First-run prerequisites repaired automatically: "@ + crate::text::decimal(repaired as int) + " item(s)."@
    } else {
        "First-run prerequisites are ready."@
    }
}

pub open spec fn overall_action(blocked: nat, repaired: nat) -> Seq<char> {
    if blocked > 0 {
        "Fix blocked items"@
    } else if repaired > 0 {
        "Repaired automatically"@
    } else {
        "Ready"@
    }
}

fn push_check(checks: &mut Vec<FirstRunCheckItemPayload>, key: &str, label: &str, state: &str, detail: String)
    ensures
        final(checks)@.len() == old(checks)@.len() + 1,
        forall|i: int| 0 <= i < old(checks)@.len() ==> final(checks)@[i] == old(checks)@[i],
        check_view(final(checks)@.last()) == (CheckView { key: key@, label: label@, state: state@, detail: detail@ }),
{
    checks.push(FirstRunCheckItemPayload {
        key: String::from_str(key),
        label: String::from_str(label),
        state: String::from_str(state),
        detail,
    });
}

fn runtime_detail_exec(r: &ResolvedRuntime) -> (s: String)
    ensures
        s@ == runtime_detail(*r),
{
    let mut c = chars_of(r.path.as_str());
    push_str(&mut c, " (");
    push_str(&mut c, r.source.as_str());
    push_str(&mut c, ")");
    string_of(c.as_slice())
}

fn dir_check_exec(checks: &mut Vec<FirstRunCheckItemPayload>, key: &str, label: &str, probe: &DirProbe, path: String)
    ensures
        final(checks)@.len() == old(checks)@.len() + 1,
        forall|i: int| 0 <= i < old(checks)@.len() ==> final(checks)@[i] == old(checks)@[i],
        check_view(final(checks)@.last()) == dir_check(key@, label@, *probe, path@),
{
    match probe {
        DirProbe::Existed => push_check(checks, key, label, "ready", path),
        DirProbe::Created => push_check(checks, key, label, "repairedAutomatically", path),
        DirProbe::Failed(e) => {
            let mut d = chars_of(path.as_str());
            push_str(&mut d, ": ");
            push_str(&mut d, e.as_str());
            push_check(checks, key, label, "blocked", string_of(d.as_slice()))
        },
    }
}

fn ready_if_exec(b: bool) -> (s: &'static str)
    ensures
        s@ == ready_if(b),
{
    if b {
        "ready"
    } else {
        "blocked"
    }
}

proof fn lemma_count_bound(cs: Seq<CheckView>, state: Seq<char>)
    ensures
        count_state(cs, state) <= cs.len(),
    decreases cs.len(),
{
    if cs.len() > 0 {
        lemma_count_bound(cs.drop_last(), state);
    }
}

/// What the first-run self-check reports for the given facts under `p`.
pub open spec fn first_run_check_of(p: CodexPaths, facts: FirstRunFacts, r: FirstRunCheckStatusPayload) -> bool {
    &&& r.checks@.len() == 11
    &&& exists|d0: Seq<char>, d1: Seq<char>, d2: Seq<char>| {
            &&& crate::paths::joined(p.codexmate_dir@, "runtime"@, d0)
            &&& crate::paths::joined(p.codexmate_dir@, "reports"@, d1)
            &&& crate::paths::joined(p.codex_home@, "desktop_history_repair_backups"@, d2)
            &&& Seq::new(11, |i: int| check_view(r.checks@[i])) == seq![
                dir_check("runtimeDir"@, "Managed runtime directory"@, facts.runtime_dir, d0),
                dir_check("reportsDir"@, "Reports directory"@, facts.reports_dir, d1),
                dir_check("backupDir"@, "Backup directory"@, facts.backup_dir, d2),
            ] + runtime_checks(p, facts)
        }
    &&& r.blocked_count == count_state(Seq::new(r.checks@.len(), |i: int| check_view(r.checks@[i])), "blocked"@)
    &&& r.repaired_count == count_state(Seq::new(r.checks@.len(), |i: int| check_view(r.checks@[i])), "repairedAutomatically"@)
    &&& r.state@ == overall_state(r.blocked_count as nat, r.repaired_count as nat)
    &&& r.summary@ == overall_summary(r.blocked_count as nat, r.repaired_count as nat)
    &&& r.action_label matches Some(a) && a@ == overall_action(r.blocked_count as nat, r.repaired_count as nat)
}

impl Repository {
    /// The first-run self-check (`build_first_run_check`): the three managed
    /// directories (runtime, reports, backups), the runtimes, access to the
    /// Codex home and its files, and threadripper; with the counts of blocked
    /// and automatically repaired checks and the overall state.
    pub fn build_first_run_check(&self, facts: &FirstRunFacts) -> (r: FirstRunCheckStatusPayload)
        ensures
            first_run_check_of(self.paths_view(), *facts, r),
    {
        proof {
            reveal_strlit("runtime");
            reveal_strlit("reports");
            reveal_strlit("desktop_history_repair_backups");
        }
        let p = &self.paths;
        let mut checks: Vec<FirstRunCheckItemPayload> = Vec::new();
        let d0 = crate::paths::join_path(p.codexmate_dir.as_str(), "runtime");
        let d1 = crate::paths::join_path(p.codexmate_dir.as_str(), "reports");
        let d2 = crate::paths::join_path(p.codex_home.as_str(), "desktop_history_repair_backups");
        let ghost g0 = d0@;
        let ghost g1 = d1@;
        let ghost g2 = d2@;
        dir_check_exec(&mut checks, "runtimeDir", "Managed runtime directory", &facts.runtime_dir, d0);
        dir_check_exec(&mut checks, "reportsDir", "Reports directory", &facts.reports_dir, d1);
        dir_check_exec(&mut checks, "backupDir", "Backup directory", &facts.backup_dir, d2);
        push_check(&mut checks, "pythonRuntime", "Python bridge runtime", ready_if_exec(facts.python_available), runtime_detail_exec(&facts.python));
        match &facts.codex_cli {
            Some(r) => push_check(&mut checks, "codexCli", "Codex CLI", "ready", runtime_detail_exec(r)),
            None => push_check(&mut checks, "codexCli", "Codex CLI", "blocked", String::from_str("No product-managed or fallback Codex CLI path found")),
        }
        match &facts.codex_desktop {
            Some(r) => push_check(&mut checks, "codexDesktop", "Codex Desktop", "ready", runtime_detail_exec(r)),
            None => push_check(&mut checks, "codexDesktop", "Codex Desktop", "blocked", String::from_str("Codex Desktop executable path not found")),
        }
        push_check(&mut checks, "codexHome", "Codex home access", ready_if_exec(facts.codex_home_exists), p.codex_home.clone());
        push_check(&mut checks, "authAccess", "auth.json access", ready_if_exec(facts.auth_accessible), p.auth_path.clone());
        push_check(&mut checks, "configAccess", "config.toml access", ready_if_exec(facts.config_accessible), p.config_path.clone());
        push_check(&mut checks, "stateDbAccess", "state_5.sqlite access", ready_if_exec(facts.state_db_accessible), p.codex_state_db_path.clone());
        match &facts.threadripper {
            Some(r) => push_check(&mut checks, "threadripper", "Threadripper availability", "ready", runtime_detail_exec(r)),
            None => push_check(&mut checks, "threadripper", "Threadripper availability", "degraded", String::from_str("Optional helper unavailable; mainline launch/repair can continue with graceful downgrade")),
        }
        let ghost cv = Seq::new(checks@.len(), |i: int| check_view(checks@[i]));
        assert(Seq::new(11, |i: int| check_view(checks@[i])) =~= seq![
            dir_check("runtimeDir"@, "Managed runtime directory"@, facts.runtime_dir, g0),
            dir_check("reportsDir"@, "Reports directory"@, facts.reports_dir, g1),
            dir_check("backupDir"@, "Backup directory"@, facts.backup_dir, g2),
        ] + runtime_checks(self.paths_view(), *facts));
        let mut blocked: i32 = 0;
        let mut repaired: i32 = 0;
        let mut i: usize = 0;
        while i < checks.len()
            invariant
                i <= checks@.len() == 11,
                cv == Seq::new(checks@.len(), |i: int| check_view(checks@[i])),
                blocked == count_state(cv.subrange(0, i as int), "blocked"@),
                repaired == count_state(cv.subrange(0, i as int), "repairedAutomatically"@),
            decreases checks@.len() - i,
        {
            proof {
                assert(cv.subrange(0, i + 1).drop_last() =~= cv.subrange(0, i as int));
                lemma_count_bound(cv.subrange(0, i as int), "blocked"@);
                lemma_count_bound(cv.subrange(0, i as int), "repairedAutomatically"@);
            }
            let st = chars_of(checks[i].state.as_str());
            if crate::text::eq_chars(st.as_slice(), chars_of("repairedAutomatically").as_slice()) {
                repaired = repaired + 1;
            }
            if crate::text::eq_chars(st.as_slice(), chars_of("blocked").as_slice()) {
                blocked = blocked + 1;
            }
            i = i + 1;
        }
        assert(cv.subrange(0, 11) =~= cv);
        let (state, summary, action) = if blocked > 0 {
            let mut m = chars_of("First-run self-check is blocked: ");
            let d = crate::text::decimal_i64(blocked as i64);
            crate::text::push_all(&mut m, d.as_slice());
            push_str(&mut m, " item(s) need explicit action.");
            ("blocked", string_of(m.as_slice()), "Fix blocked items")
        } else if repaired > 0 {
            let mut m = chars_of("First-run prerequisites repaired automatically: ");
            let d = crate::text::decimal_i64(repaired as i64);
            crate::text::push_all(&mut m, d.as_slice());
            push_str(&mut m, " item(s).");
            ("repairedAutomatically", string_of(m.as_slice()), "Repaired automatically")
        } else {
            ("ready", String::from_str("First-run prerequisites are ready."), "Ready")
        };
        FirstRunCheckStatusPayload {
            state: String::from_str(state),
            summary,
            action_label: Some(String::from_str(action)),
            checks,
            repaired_count: repaired,
            blocked_count: blocked,
        }
    }
}

/// The app's paths as the local state reports them, with whether the login
/// file, the registry and the sessions directory exist.
pub fn app_path_state(paths: &CodexPaths, auth_exists: bool, registry_exists: bool, sessions_exists: bool) -> (a: AppPathState)
    ensures
        a.codex_home@ == paths.codex_home@,
        a.accounts_path@ == paths.accounts_dir@,
        a.auth_path@ == paths.auth_path@,
        a.registry_path@ == paths.registry_path@,
        a.sessions_path@ == paths.sessions_dir@,
        a.launch_agent_path@ == paths.launch_agent_path@,
        a.auto_switch_log_path@ == paths.auto_switch_log_path@,
        a.auth_exists == auth_exists,
        a.registry_exists == registry_exists,
        a.sessions_exists == sessions_exists,
{
    AppPathState {
        codex_home: paths.codex_home.clone(),
        accounts_path: paths.accounts_dir.clone(),
        auth_path: paths.auth_path.clone(),
        registry_path: paths.registry_path.clone(),
        sessions_path: paths.sessions_dir.clone(),
        launch_agent_path: paths.launch_agent_path.clone(),
        auto_switch_log_path: paths.auto_switch_log_path.clone(),
        auth_exists,
        registry_exists,
        sessions_exists,
    }
}

/// A runtime as the diagnostics list it: its path and its source's name.
pub open spec fn entry_matches(e: RuntimeResolutionEntry, r: ResolvedRuntime) -> bool {
    e.path@ == r.path@ && e.source@ == crate::prelaunch::source_name(r.source)
}

pub open spec fn opt_entry_matches(e: Option<RuntimeResolutionEntry>, r: Option<ResolvedRuntime>) -> bool {
    match (e, r) {
        (Some(x), Some(y)) => entry_matches(x, y),
        (None, None) => true,
        _ => false,
    }
}

/// The diagnostics entry of a runtime.
pub fn runtime_entry(r: &ResolvedRuntime) -> (e: RuntimeResolutionEntry)
    ensures
        entry_matches(e, *r),
{
    RuntimeResolutionEntry { path: r.path.clone(), source: String::from_str(r.source.as_str()) }
}

fn opt_runtime_entry(r: &Option<ResolvedRuntime>) -> (e: Option<RuntimeResolutionEntry>)
    ensures
        opt_entry_matches(e, *r),
{
    match r {
        Some(x) => Some(runtime_entry(x)),
        None => None,
    }
}

/// What the diagnosis reads besides the self-check: the app's paths and
/// whether they exist, how many accounts the registry holds, the API
/// counters of the local state, and the build and platform it runs on.
#[derive(Debug, Clone, PartialEq)]
pub struct DiagnoseFacts {
    pub paths: AppPathState,
    pub account_count: usize,
    pub api_state: DiagnoseApiState,
    pub core_version: String,
    pub os: String,
    pub arch: String,
    pub first_run: FirstRunFacts,
}

impl Repository {
    /// The diagnosis: the paths, the build and platform, the number of
    /// accounts (as an `i32`, as the payload holds it), no rollout found, the
    /// API counters, the runtimes found, and the first-run self-check over the
    /// same facts.
    pub fn diagnose(&self, facts: DiagnoseFacts) -> (r: CoreEnvelope<DiagnosePayload>)
        ensures
            r.success,
            r.code@ == "ok"@,
            r.warnings@.len() == 0,
            r.data.paths == facts.paths,
            r.data.core_version@ == facts.core_version@,
            r.data.platform.os@ == facts.os@,
            r.data.platform.arch@ == facts.arch@,
            r.data.registry_state.account_count == facts.account_count as i32,
            !r.data.session_state.latest_rollout_found,
            r.data.api_state == facts.api_state,
            entry_matches(r.data.runtimes.python, facts.first_run.python),
            opt_entry_matches(r.data.runtimes.codex_cli, facts.first_run.codex_cli),
            opt_entry_matches(r.data.runtimes.codex_desktop, facts.first_run.codex_desktop),
            opt_entry_matches(r.data.runtimes.threadripper, facts.first_run.threadripper),
            first_run_check_of(self.paths_view(), facts.first_run, r.data.first_run_check),
    {
        let runtimes = RuntimeDiagnosticsPayload {
            python: runtime_entry(&facts.first_run.python),
            codex_cli: opt_runtime_entry(&facts.first_run.codex_cli),
            codex_desktop: opt_runtime_entry(&facts.first_run.codex_desktop),
            threadripper: opt_runtime_entry(&facts.first_run.threadripper),
        };
        let first_run_check = self.build_first_run_check(&facts.first_run);
        let account_count = facts.account_count as i32;
        CoreEnvelope::ok(DiagnosePayload {
            paths: facts.paths,
            core_version: facts.core_version,
            platform: DiagnosePlatform { os: facts.os, arch: facts.arch },
            registry_state: DiagnoseRegistryState { account_count },
            session_state: DiagnoseSessionState { latest_rollout_found: false },
            api_state: facts.api_state,
            runtimes,
            first_run_check,
        })
    }
}

} // verus!
