//! The model gateway's configuration: upstream providers, the routes that
//! send models to them, and the local relay's settings.
use vstd::prelude::*;
use vstd::string::StringExecFns;
use crate::models::{opt_str, strs};
use crate::relay_json::{
    and_text, field, get_field, json_of_text, lemma_views_of, parse_json_text, text, text_of,
    view_of, views_of, JsonValue, JsonView,
};
use crate::sorting::{keyed_view, lex_le, sort_stable, sort_stable_exec};
use crate::text::{
    chars_of, copy_range, ends_with, ends_with_exec, eq_chars, push_all, push_str, replace_char,
    replace_char_vec, starts_with, starts_with_exec, string_of, trim, trim_end_char, trim_vec,
};

verus! {

#[derive(Debug, Clone, Copy, PartialEq, Eq, Structural)]
pub enum ModelProviderKind {
    OpenaiCompatible,
    Responses,
}

#[derive(Debug, Clone, PartialEq)]
pub struct ModelProviderConfig {
    pub id: String,
    pub name: String,
    pub kind: ModelProviderKind,
    pub base_url: String,
    pub api_key: Option<String>,
    pub default_model: Option<String>,
    pub enabled: bool,
}

#[derive(Debug, Clone, PartialEq)]
pub struct ModelGatewayConfig {
    pub schema_version: u16,
    pub providers: Vec<ModelProviderConfig>,
    pub default_provider_id: Option<String>,
    pub relay: ModelRelayConfig,
    pub model_routes: Vec<ModelRouteConfig>,
    pub fallback_order: Vec<String>,
    pub routing_policy: ModelRoutingPolicy,
}

#[derive(Debug, Clone, PartialEq)]
pub struct ModelGatewaySnapshot {
    pub schema_version: u16,
    pub providers: Vec<ModelProviderConfig>,
    pub default_provider_id: Option<String>,
    pub config_path: String,
    pub relay: ModelRelayConfig,
    pub model_routes: Vec<ModelRouteConfig>,
    pub fallback_order: Vec<String>,
    pub routing_policy: ModelRoutingPolicy,
}

#[derive(Debug, Clone, PartialEq)]
pub struct ModelRelayConfig {
    pub enabled: bool,
    pub port: u16,
    pub auto_start: bool,
    pub management_token: Option<String>,
}

#[derive(Debug, Clone, Copy, PartialEq, Eq, Structural)]
pub enum ModelRoutingPolicy {
    FirstMatchThenDefault,
}

#[derive(Debug, Clone, PartialEq)]
pub struct ModelRouteConfig {
    pub id: String,
    pub model_pattern: String,
    pub provider_id: String,
    pub enabled: bool,
}

#[derive(Debug, Clone, PartialEq)]
pub struct ModelRouteSavePayload {
    pub route: ModelRouteConfig,
}

#[derive(Debug, Clone, PartialEq)]
pub struct ModelProviderSavePayload {
    pub provider: ModelProviderConfig,
    pub make_default: bool,
}

#[derive(Debug, Clone, PartialEq)]
pub struct UpstreamModel {
    pub id: String,
    pub owned_by: Option<String>,
}

#[derive(Debug, Clone, PartialEq)]
pub struct UpstreamModelsPayload {
    pub ok: bool,
    pub provider_id: String,
    pub endpoint: String,
    pub models: Vec<UpstreamModel>,
    pub error: Option<String>,
}

#[derive(Debug, Clone, PartialEq)]
pub struct ModelProviderHealthPayload {
    pub ok: bool,
    pub provider_id: String,
    pub endpoint: String,
    pub status: String,
    pub latency_ms: u128,
    pub model_count: usize,
    pub error: Option<String>,
}

// ---------------------------------------------------------------------------
// Views
// ---------------------------------------------------------------------------
pub struct ProviderView {
    pub id: Seq<char>,
    pub name: Seq<char>,
    pub kind: ModelProviderKind,
    pub base_url: Seq<char>,
    pub api_key: Option<Seq<char>>,
    pub default_model: Option<Seq<char>>,
    pub enabled: bool,
}

impl View for ModelProviderConfig {
    type V = ProviderView;

    open spec fn view(&self) -> ProviderView {
        ProviderView {
            id: self.id@,
            name: self.name@,
            kind: self.kind,
            base_url: self.base_url@,
            api_key: opt_str(self.api_key),
            default_model: opt_str(self.default_model),
            enabled: self.enabled,
        }
    }
}

pub struct RouteView {
    pub id: Seq<char>,
    pub model_pattern: Seq<char>,
    pub provider_id: Seq<char>,
    pub enabled: bool,
}

impl View for ModelRouteConfig {
    type V = RouteView;

    open spec fn view(&self) -> RouteView {
        RouteView {
            id: self.id@,
            model_pattern: self.model_pattern@,
            provider_id: self.provider_id@,
            enabled: self.enabled,
        }
    }
}

fn copy_opt(o: &Option<String>) -> (r: Option<String>)
    ensures
        opt_str(r) == opt_str(*o),
{
    match o {
        Some(v) => Some(v.clone()),
        None => None,
    }
}

/// A field-by-field copy of a provider.
pub fn copy_provider(p: &ModelProviderConfig) -> (out: ModelProviderConfig)
    ensures
        out@ == p@,
{
    ModelProviderConfig {
        id: p.id.clone(),
        name: p.name.clone(),
        kind: p.kind,
        base_url: p.base_url.clone(),
        api_key: copy_opt(&p.api_key),
        default_model: copy_opt(&p.default_model),
        enabled: p.enabled,
    }
}

/// A field-by-field copy of a route.
pub fn copy_route(r: &ModelRouteConfig) -> (out: ModelRouteConfig)
    ensures
        out@ == r@,
{
    ModelRouteConfig {
        id: r.id.clone(),
        model_pattern: r.model_pattern.clone(),
        provider_id: r.provider_id.clone(),
        enabled: r.enabled,
    }
}

pub open spec fn provider_views(s: Seq<ModelProviderConfig>) -> Seq<ProviderView> {
    Seq::new(s.len(), |i: int| s[i]@)
}

pub open spec fn route_views(s: Seq<ModelRouteConfig>) -> Seq<RouteView> {
    Seq::new(s.len(), |i: int| s[i]@)
}

// ---------------------------------------------------------------------------
// Defaults
// ---------------------------------------------------------------------------
/// Providers and routes are enabled unless stated otherwise.
pub fn default_enabled() -> (b: bool)
    ensures
        b,
{
    true
}

/// The relay's port unless stated otherwise.
pub fn default_relay_port() -> (p: u16)
    ensures
        p == 17431,
{
    17431
}

/// The configuration's format version unless stated otherwise.
pub fn default_schema_version() -> (v: u16)
    ensures
        v == 1,
{
    1
}

impl Default for ModelRoutingPolicy {
    fn default() -> (p: Self)
        ensures
            p == ModelRoutingPolicy::FirstMatchThenDefault,
    {
        ModelRoutingPolicy::FirstMatchThenDefault
    }
}

impl Default for ModelRelayConfig {
    fn default() -> (c: Self)
        ensures
            !c.enabled,
            c.port == 17431,
            !c.auto_start,
            c.management_token is None,
    {
        ModelRelayConfig { enabled: false, port: default_relay_port(), auto_start: false, management_token: None }
    }
}

impl Default for ModelGatewayConfig {
    fn default() -> (c: Self)
        ensures
            c.schema_version == 1,
            c.providers@.len() == 0,
            c.default_provider_id is None,
            !c.relay.enabled && c.relay.port == 17431 && !c.relay.auto_start && c.relay.management_token is None,
            c.model_routes@.len() == 0,
            c.fallback_order@.len() == 0,
            c.routing_policy == ModelRoutingPolicy::FirstMatchThenDefault,
    {
        ModelGatewayConfig {
            schema_version: default_schema_version(),
            providers: Vec::new(),
            default_provider_id: None,
            relay: ModelRelayConfig { enabled: false, port: default_relay_port(), auto_start: false, management_token: None },
            model_routes: Vec::new(),
            fallback_order: Vec::new(),
            routing_policy: ModelRoutingPolicy::FirstMatchThenDefault,
        }
    }
}

// ---------------------------------------------------------------------------
// Normalising providers and routes
// ---------------------------------------------------------------------------
/// A base URL without surrounding whitespace and trailing slashes.
pub open spec fn normal_base_url(b: Seq<char>) -> Seq<char> {
    trim_end_char(trim(b), '/')
}

/// `normalize_base_url`.
pub fn normalize_base_url(base_url: &str) -> (out: Vec<char>)
    ensures
        out@ == normal_base_url(base_url@),
{
    let c = chars_of(base_url);
    let t = trim_vec(c.as_slice());
    let mut j = t.len();
    assert(t@.subrange(0, j as int) =~= t@);
    while j > 0 && t[j - 1] == '/'
        invariant
            j <= t@.len(),
            trim_end_char(t@, '/') == trim_end_char(t@.subrange(0, j as int), '/'),
        decreases j,
    {
        proof {
            crate::text::lemma_trim_end_char_step(t@, '/', 0, j as int);
        }
        j = j - 1;
    }
    copy_range(t.as_slice(), 0, j)
}

/// Where a provider lists its models (`upstream_models_endpoint`).
pub open spec fn models_endpoint(base_url: Seq<char>) -> Seq<char> {
    let base = normal_base_url(base_url);
    if ends_with(base, "/models"@) {
        base
    } else if ends_with(base, "/v1"@) {
        base + "/models"@
    } else {
        base + "/v1/models"@
    }
}

/// The endpoint that lists a provider's models.
pub fn upstream_models_endpoint(provider: &ModelProviderConfig) -> (s: String)
    ensures
        s@ == models_endpoint(provider.base_url@),
{
    let mut base = normalize_base_url(provider.base_url.as_str());
    if ends_with_exec(base.as_slice(), chars_of("/models").as_slice()) {
        return string_of(base.as_slice());
    }
    if ends_with_exec(base.as_slice(), chars_of("/v1").as_slice()) {
        push_str(&mut base, "/models");
        return string_of(base.as_slice());
    }
    push_str(&mut base, "/v1/models");
    string_of(base.as_slice())
}

/// An optional value trimmed, and absent when blank.
pub open spec fn trimmed_opt(o: Option<Seq<char>>) -> Option<Seq<char>> {
    match o {
        Some(v) => if trim(v).len() > 0 {
            Some(trim(v))
        } else {
            None
        },
        None => None,
    }
}

fn trimmed_opt_exec(o: Option<String>) -> (r: Option<String>)
    ensures
        opt_str(r) == trimmed_opt(opt_str(o)),
{
    match o {
        Some(v) => {
            let c = chars_of(v.as_str());
            let t = trim_vec(c.as_slice());
            if t.len() > 0 {
                Some(string_of(t.as_slice()))
            } else {
                None
            }
        },
        None => None,
    }
}

fn trimmed_string(s: &str) -> (r: String)
    ensures
        r@ == trim(s@),
{
    let c = chars_of(s);
    let t = trim_vec(c.as_slice());
    string_of(t.as_slice())
}

/// A provider as it is stored: fields trimmed, blank keys and models absent,
/// the name defaulting to the id.
pub open spec fn normalized_provider(p: ProviderView) -> ProviderView {
    let id = trim(p.id);
    ProviderView {
        id,
        name: if trim(p.name).len() == 0 {
            id
        } else {
            trim(p.name)
        },
        kind: p.kind,
        base_url: normal_base_url(p.base_url),
        api_key: trimmed_opt(p.api_key),
        default_model: trimmed_opt(p.default_model),
        enabled: p.enabled,
    }
}

/// Why a provider is refused, if it is: it needs an id and an HTTP(S) base URL.
pub open spec fn provider_error(p: ProviderView) -> Option<Seq<char>> {
    let n = normalized_provider(p);
    if n.id.len() == 0 {
        Some("Provider ID is required"@)
    } else if n.base_url.len() == 0 {
        Some("Base URL is required"@)
    } else if !(starts_with(n.base_url, "http://"@) || starts_with(n.base_url, "https://"@)) {
        Some("Base URL must start with http:// or https://"@)
    } else {
        None
    }
}

/// Checks and cleans a provider (`normalize_provider`).
pub fn normalize_provider(provider: ModelProviderConfig) -> (r: Result<ModelProviderConfig, String>)
    ensures
        match provider_error(provider@) {
            Some(m) => r matches Err(e) && e@ == m,
            None => r matches Ok(p) && p@ == normalized_provider(provider@),
        },
{
    let id = trimmed_string(provider.id.as_str());
    let tname = trimmed_string(provider.name.as_str());
    let base = normalize_base_url(provider.base_url.as_str());
    let api_key = trimmed_opt_exec(provider.api_key);
    let default_model = trimmed_opt_exec(provider.default_model);
    if chars_of(id.as_str()).len() == 0 {
        return Err(String::from_str("Provider ID is required"));
    }
    let name = if chars_of(tname.as_str()).len() == 0 {
        id.clone()
    } else {
        tname
    };
    if base.len() == 0 {
        return Err(String::from_str("Base URL is required"));
    }
    if !(starts_with_exec(base.as_slice(), chars_of("http://").as_slice()) || starts_with_exec(
        base.as_slice(),
        chars_of("https://").as_slice(),
    )) {
        return Err(String::from_str("Base URL must start with http:// or https://"));
    }
    Ok(ModelProviderConfig {
        id,
        name,
        kind: provider.kind,
        base_url: string_of(base.as_slice()),
        api_key,
        default_model,
        enabled: provider.enabled,
    })
}

/// A route as it is stored: fields trimmed, and a missing id made from the
/// pattern (`route-` and the pattern with `*` spelt `star`).
pub open spec fn normalized_route(r: RouteView) -> RouteView {
    let pattern = trim(r.model_pattern);
    RouteView {
        id: if trim(r.id).len() == 0 {
            "route-"@ + replace_char(pattern, '*', "star"@)
        } else {
            trim(r.id)
        },
        model_pattern: pattern,
        provider_id: trim(r.provider_id),
        enabled: r.enabled,
    }
}

/// Why a route is refused, if it is: it needs a pattern and a provider.
pub open spec fn route_error(r: RouteView) -> Option<Seq<char>> {
    let n = normalized_route(r);
    if n.model_pattern.len() == 0 {
        Some("Model pattern is required"@)
    } else if n.provider_id.len() == 0 {
        Some("Provider ID is required"@)
    } else {
        None
    }
}

/// Checks and cleans a route (`normalize_route`).
pub fn normalize_route(route: ModelRouteConfig) -> (r: Result<ModelRouteConfig, String>)
    ensures
        match route_error(route@) {
            Some(m) => r matches Err(e) && e@ == m,
            None => r matches Ok(x) && x@ == normalized_route(route@),
        },
{
    let tid = trimmed_string(route.id.as_str());
    let pattern = trimmed_string(route.model_pattern.as_str());
    let provider_id = trimmed_string(route.provider_id.as_str());
    let id = if chars_of(tid.as_str()).len() == 0 {
        let mut c = chars_of("route-");
        let star = chars_of("star");
        let replaced = replace_char_vec(chars_of(pattern.as_str()).as_slice(), '*', star.as_slice());
        push_all(&mut c, replaced.as_slice());
        string_of(c.as_slice())
    } else {
        tid
    };
    if chars_of(pattern.as_str()).len() == 0 {
        return Err(String::from_str("Model pattern is required"));
    }
    if chars_of(provider_id.as_str()).len() == 0 {
        return Err(String::from_str("Provider ID is required"));
    }
    Ok(ModelRouteConfig { id, model_pattern: pattern, provider_id, enabled: route.enabled })
}

// ---------------------------------------------------------------------------
// Changing the configuration
// ---------------------------------------------------------------------------
/// The index of the first provider with the id.
pub open spec fn provider_index(ps: Seq<ProviderView>, id: Seq<char>) -> Option<int>
    decreases ps.len(),
{
    if ps.len() == 0 {
        None
    } else if ps[0].id == id {
        Some(0)
    } else {
        match provider_index(ps.drop_first(), id) {
            Some(i) => Some(i + 1),
            None => None,
        }
    }
}

/// The index of the first route with the id.
pub open spec fn route_index(rs: Seq<RouteView>, id: Seq<char>) -> Option<int>
    decreases rs.len(),
{
    if rs.len() == 0 {
        None
    } else if rs[0].id == id {
        Some(0)
    } else {
        match route_index(rs.drop_first(), id) {
            Some(i) => Some(i + 1),
            None => None,
        }
    }
}

fn find_provider(ps: &Vec<ModelProviderConfig>, id: &[char]) -> (r: Option<usize>)
    ensures
        match r {
            Some(i) => i < ps@.len() && provider_index(provider_views(ps@), id@) == Some(i as int),
            None => provider_index(provider_views(ps@), id@) is None,
        },
{
    let ghost vs = provider_views(ps@);
    let mut i: usize = 0;
    assert(vs.subrange(0, vs.len() as int) =~= vs);
    while i < ps.len()
        invariant
            i <= ps@.len(),
            vs == provider_views(ps@),
            provider_index(vs, id@) == (match provider_index(vs.subrange(i as int, vs.len() as int), id@) {
                Some(k) => Some(k + i),
                None => None,
            }),
        decreases ps@.len() - i,
    {
        let ghost rest = vs.subrange(i as int, vs.len() as int);
        assert(rest[0] == ps@[i as int]@);
        assert(rest.drop_first() =~= vs.subrange(i + 1, vs.len() as int));
        if eq_chars(chars_of(ps[i].id.as_str()).as_slice(), id) {
            return Some(i);
        }
        i = i + 1;
    }
    None
}

fn find_route(rs: &Vec<ModelRouteConfig>, id: &[char]) -> (r: Option<usize>)
    ensures
        match r {
            Some(i) => i < rs@.len() && route_index(route_views(rs@), id@) == Some(i as int),
            None => route_index(route_views(rs@), id@) is None,
        },
{
    let ghost vs = route_views(rs@);
    let mut i: usize = 0;
    assert(vs.subrange(0, vs.len() as int) =~= vs);
    while i < rs.len()
        invariant
            i <= rs@.len(),
            vs == route_views(rs@),
            route_index(vs, id@) == (match route_index(vs.subrange(i as int, vs.len() as int), id@) {
                Some(k) => Some(k + i),
                None => None,
            }),
        decreases rs@.len() - i,
    {
        let ghost rest = vs.subrange(i as int, vs.len() as int);
        assert(rest[0] == rs@[i as int]@);
        assert(rest.drop_first() =~= vs.subrange(i + 1, vs.len() as int));
        if eq_chars(chars_of(rs[i].id.as_str()).as_slice(), id) {
            return Some(i);
        }
        i = i + 1;
    }
    None
}

/// The providers after saving `p`: it replaces the first provider with its
/// id, or is appended.
pub open spec fn providers_after_save(ps: Seq<ProviderView>, p: ProviderView) -> Seq<ProviderView> {
    match provider_index(ps, p.id) {
        Some(i) => ps.update(i, p),
        None => ps.push(p),
    }
}

pub open spec fn not_found_message(what: Seq<char>, id: Seq<char>) -> Seq<char> {
    what + " "@ + id + " was not found"@
}

fn not_found(what: &str, id: &str) -> (s: String)
    ensures
        s@ == not_found_message(what@, id@),
{
    let mut c = chars_of(what);
    push_str(&mut c, " ");
    push_str(&mut c, id);
    push_str(&mut c, " was not found");
    string_of(c.as_slice())
}

/// Saves a provider (`save_model_provider`): it is checked and cleaned, put in
/// place of the provider with its id or appended, and made the default when
/// asked or when there is none.
pub fn save_model_provider(config: ModelGatewayConfig, payload: ModelProviderSavePayload) -> (r: Result<ModelGatewayConfig, String>)
    ensures
        match provider_error(payload.provider@) {
            Some(m) => r matches Err(e) && e@ == m,
            None => r matches Ok(c) && {
                let p = normalized_provider(payload.provider@);
                &&& provider_views(c.providers@) == providers_after_save(provider_views(config.providers@), p)
                &&& opt_str(c.default_provider_id) == (if payload.make_default || config.default_provider_id is None {
                    Some(p.id)
                } else {
                    opt_str(config.default_provider_id)
                })
                &&& c.model_routes == config.model_routes
                &&& c.fallback_order == config.fallback_order
                &&& c.relay == config.relay
                &&& c.schema_version == config.schema_version
            },
        },
{
    let provider = match normalize_provider(payload.provider) {
        Ok(p) => p,
        Err(e) => {
            return Err(e);
        },
    };
    let mut config = config;
    let ghost before = provider_views(config.providers@);
    let id = provider.id.clone();
    match find_provider(&config.providers, chars_of(id.as_str()).as_slice()) {
        Some(i) => {
            config.providers[i] = provider;
            assert(provider_views(config.providers@) =~= before.update(i as int, config.providers@[i as int]@));
        },
        None => {
            config.providers.push(provider);
            assert(provider_views(config.providers@) =~= before.push(config.providers@.last()@));
        },
    }
    if payload.make_default || config.default_provider_id.is_none() {
        config.default_provider_id = Some(id);
    }
    Ok(config)
}

/// The providers without those with the id.
pub open spec fn without_provider(ps: Seq<ProviderView>, id: Seq<char>) -> Seq<ProviderView>
    decreases ps.len(),
{
    if ps.len() == 0 {
        ps
    } else if ps.last().id == id {
        without_provider(ps.drop_last(), id)
    } else {
        without_provider(ps.drop_last(), id).push(ps.last())
    }
}

pub open spec fn has_provider(ps: Seq<ProviderView>, id: Seq<char>) -> bool {
    exists|i: int| 0 <= i < ps.len() && ps[i].id == id
}

/// Deletes a provider (`delete_model_provider`): every provider with the
/// trimmed id goes; when none had it the configuration is refused; when it
/// was the default, the first remaining provider becomes the default.
pub fn delete_model_provider(config: ModelGatewayConfig, provider_id: &str) -> (r: Result<ModelGatewayConfig, String>)
    ensures
        ({
            let id = trim(provider_id@);
            let rest = without_provider(provider_views(config.providers@), id);
            if !has_provider(provider_views(config.providers@), id) {
                r matches Err(e) && e@ == not_found_message("Provider"@, id)
            } else {
                r matches Ok(c) && provider_views(c.providers@) == rest && opt_str(c.default_provider_id) == (
                if opt_str(config.default_provider_id) == Some(id) {
                    if rest.len() > 0 {
                        Some(rest[0].id)
                    } else {
                        None
                    }
                } else {
                    opt_str(config.default_provider_id)
                }) && c.model_routes == config.model_routes && c.fallback_order == config.fallback_order
                    && c.relay == config.relay
            }
        }),
{
    let id = trimmed_string(provider_id);
    let idc = chars_of(id.as_str());
    let ghost vs = provider_views(config.providers@);
    let mut config = config;
    let mut kept: Vec<ModelProviderConfig> = Vec::new();
    let mut removed = false;
    let mut i: usize = 0;
    let old_providers = config.providers;
    config.providers = Vec::new();
    assert(vs.subrange(0, 0) =~= Seq::<ProviderView>::empty());
    assert(provider_views(kept@) =~= without_provider(vs.subrange(0, 0), id@));
    while i < old_providers.len()
        invariant
            i <= old_providers@.len(),
            vs == provider_views(old_providers@),
            idc@ == id@,
            provider_views(kept@) == without_provider(vs.subrange(0, i as int), id@),
            removed == has_provider(vs.subrange(0, i as int), id@),
        decreases old_providers@.len() - i,
    {
        let ghost pre = vs.subrange(0, i as int);
        let ghost next = vs.subrange(0, i + 1);
        assert(next.drop_last() =~= pre);
        assert(next.last() == old_providers@[i as int]@);
        if eq_chars(chars_of(old_providers[i].id.as_str()).as_slice(), idc.as_slice()) {
            removed = true;
            assert(has_provider(next, id@)) by {
                assert(next[i as int].id == id@);
            }
        } else {
            let ghost before = kept@;
            kept.push(copy_provider(&old_providers[i]));
            assert(provider_views(kept@) =~= provider_views(before).push(old_providers@[i as int]@));
            assert(has_provider(next, id@) == has_provider(pre, id@)) by {
                if has_provider(next, id@) {
                    let w = choose|w: int| 0 <= w < next.len() && next[w].id == id@;
                    if w < i {
                        assert(pre[w] == next[w]);
                    }
                }
                if has_provider(pre, id@) {
                    let w = choose|w: int| 0 <= w < pre.len() && pre[w].id == id@;
                    assert(next[w] == pre[w]);
                }
            }
        }
        i = i + 1;
    }
    assert(vs.subrange(0, old_providers@.len() as int) =~= vs);
    if !removed {
        return Err(not_found("Provider", id.as_str()));
    }
    let was_default = match &config.default_provider_id {
        Some(d) => eq_chars(chars_of(d.as_str()).as_slice(), idc.as_slice()),
        None => false,
    };
    if was_default {
        config.default_provider_id = if kept.len() > 0 {
            Some(kept[0].id.clone())
        } else {
            None
        };
    }
    config.providers = kept;
    Ok(config)
}

/// Makes a provider the default (`set_default_model_provider`); the provider
/// must exist.
pub fn set_default_model_provider(config: ModelGatewayConfig, provider_id: &str) -> (r: Result<ModelGatewayConfig, String>)
    ensures
        ({
            let id = trim(provider_id@);
            match provider_index(provider_views(config.providers@), id) {
                None => r matches Err(e) && e@ == not_found_message("Provider"@, id),
                Some(_) => r matches Ok(c) && opt_str(c.default_provider_id) == Some(id) && c.providers
                    == config.providers && c.model_routes == config.model_routes && c.relay == config.relay
                    && c.fallback_order == config.fallback_order,
            }
        }),
{
    let id = trimmed_string(provider_id);
    match find_provider(&config.providers, chars_of(id.as_str()).as_slice()) {
        None => Err(not_found("Provider", id.as_str())),
        Some(_) => {
            let mut config = config;
            config.default_provider_id = Some(id);
            Ok(config)
        },
    }
}

/// The routes after saving `r`: it replaces the first route with its id, or
/// is appended.
pub open spec fn routes_after_save(rs: Seq<RouteView>, r: RouteView) -> Seq<RouteView> {
    match route_index(rs, r.id) {
        Some(i) => rs.update(i, r),
        None => rs.push(r),
    }
}

/// Saves a route (`save_model_route`): it is checked and cleaned, its
/// provider must exist, and it replaces the route with its id or is appended.
pub fn save_model_route(config: ModelGatewayConfig, payload: ModelRouteSavePayload) -> (r: Result<ModelGatewayConfig, String>)
    ensures
        match route_error(payload.route@) {
            Some(m) => r matches Err(e) && e@ == m,
            None => {
                let n = normalized_route(payload.route@);
                match provider_index(provider_views(config.providers@), n.provider_id) {
                    None => r matches Err(e) && e@ == not_found_message("Provider"@, n.provider_id),
                    Some(_) => r matches Ok(c) && route_views(c.model_routes@) == routes_after_save(
                        route_views(config.model_routes@),
                        n,
                    ) && c.providers == config.providers && c.default_provider_id
                        == config.default_provider_id && c.relay == config.relay,
                }
            },
        },
{
    let route = match normalize_route(payload.route) {
        Ok(x) => x,
        Err(e) => {
            return Err(e);
        },
    };
    match find_provider(&config.providers, chars_of(route.provider_id.as_str()).as_slice()) {
        None => {
            return Err(not_found("Provider", route.provider_id.as_str()));
        },
        Some(_) => {},
    }
    let mut config = config;
    let ghost before = route_views(config.model_routes@);
    match find_route(&config.model_routes, chars_of(route.id.as_str()).as_slice()) {
        Some(i) => {
            config.model_routes[i] = route;
            assert(route_views(config.model_routes@) =~= before.update(i as int, config.model_routes@[i as int]@));
        },
        None => {
            config.model_routes.push(route);
            assert(route_views(config.model_routes@) =~= before.push(config.model_routes@.last()@));
        },
    }
    Ok(config)
}

/// The routes without those with the id.
pub open spec fn without_route(rs: Seq<RouteView>, id: Seq<char>) -> Seq<RouteView>
    decreases rs.len(),
{
    if rs.len() == 0 {
        rs
    } else if rs.last().id == id {
        without_route(rs.drop_last(), id)
    } else {
        without_route(rs.drop_last(), id).push(rs.last())
    }
}

/// Deletes a route (`delete_model_route`): every route with the trimmed id
/// goes; when none had it the configuration is refused.
pub fn delete_model_route(config: ModelGatewayConfig, route_id: &str) -> (r: Result<ModelGatewayConfig, String>)
    ensures
        ({
            let id = trim(route_id@);
            let rest = without_route(route_views(config.model_routes@), id);
            if rest.len() == config.model_routes@.len() {
                r matches Err(e) && e@ == not_found_message("Route"@, id)
            } else {
                r matches Ok(c) && route_views(c.model_routes@) == rest && c.providers == config.providers
                    && c.default_provider_id == config.default_provider_id && c.relay == config.relay
            }
        }),
{
    let id = trimmed_string(route_id);
    let idc = chars_of(id.as_str());
    let ghost vs = route_views(config.model_routes@);
    let mut config = config;
    let old_routes = config.model_routes;
    config.model_routes = Vec::new();
    let mut kept: Vec<ModelRouteConfig> = Vec::new();
    let mut i: usize = 0;
    assert(route_views(kept@) =~= without_route(vs.subrange(0, 0), id@));
    while i < old_routes.len()
        invariant
            i <= old_routes@.len(),
            vs == route_views(old_routes@),
            idc@ == id@,
            route_views(kept@) == without_route(vs.subrange(0, i as int), id@),
            kept@.len() <= i,
        decreases old_routes@.len() - i,
    {
        let ghost next = vs.subrange(0, i + 1);
        assert(next.drop_last() =~= vs.subrange(0, i as int));
        assert(next.last() == old_routes@[i as int]@);
        if !eq_chars(chars_of(old_routes[i].id.as_str()).as_slice(), idc.as_slice()) {
            let ghost before = kept@;
            kept.push(copy_route(&old_routes[i]));
            assert(route_views(kept@) =~= route_views(before).push(old_routes@[i as int]@));
        }
        i = i + 1;
    }
    assert(vs.subrange(0, old_routes@.len() as int) =~= vs);
    assert(route_views(kept@).len() == kept@.len());
    if kept.len() == old_routes.len() {
        return Err(not_found("Route", id.as_str()));
    }
    config.model_routes = kept;
    Ok(config)
}

/// What the settings page shows of the configuration (`snapshot_from`).
pub fn snapshot_from(config: ModelGatewayConfig, path: &str) -> (s: ModelGatewaySnapshot)
    ensures
        s.schema_version == config.schema_version,
        s.providers == config.providers,
        s.default_provider_id == config.default_provider_id,
        s.config_path@ == path@,
        s.relay == config.relay,
        s.model_routes == config.model_routes,
        s.fallback_order == config.fallback_order,
        s.routing_policy == config.routing_policy,
{
    ModelGatewaySnapshot {
        schema_version: config.schema_version,
        providers: config.providers,
        default_provider_id: config.default_provider_id,
        config_path: String::from_str(path),
        relay: config.relay,
        model_routes: config.model_routes,
        fallback_order: config.fallback_order,
        routing_policy: config.routing_policy,
    }
}

// ---------------------------------------------------------------------------
// Listing a provider's models
// ---------------------------------------------------------------------------
/// The bearer credential for a provider's key, when it has a nonblank one
///.
pub fn bearer_authorization(api_key: Option<&str>) -> (r: Option<String>)
    ensures
        opt_str(r) == (match api_key {
            Some(k) => if trim(k@).len() > 0 {
                Some("Bearer "@ + trim(k@))
            } else {
                None
            },
            None => None,
        }),
{
    match api_key {
        Some(k) => {
            let c = chars_of(k);
            let t = trim_vec(c.as_slice());
            if t.len() > 0 {
                let mut b = chars_of("Bearer ");
                push_all(&mut b, t.as_slice());
                Some(string_of(b.as_slice()))
            } else {
                None
            }
        },
        None => None,
    }
}

/// The error for an upstream answer that failed (`upstream_error`): the
/// status, and the first 500 characters of a nonblank body.
pub open spec fn upstream_error_message(prefix: Seq<char>, status: u16, body: Seq<char>) -> Seq<char> {
    let t = trim(body);
    if t.len() == 0 {
        prefix + " failed with HTTP "@ + crate::text::decimal(status as int)
    } else {
        prefix + " failed with HTTP "@ + crate::text::decimal(status as int) + ": "@ + (if t.len() > 500 {
            t.take(500)
        } else {
            t
        })
    }
}

pub fn upstream_error(prefix: &str, status: u16, body: &str) -> (s: String)
    ensures
        s@ == upstream_error_message(prefix@, status, body@),
{
    let c = chars_of(body);
    let t = trim_vec(c.as_slice());
    let mut out = chars_of(prefix);
    push_str(&mut out, " failed with HTTP ");
    let d = crate::text::decimal_u64(status as u64);
    push_all(&mut out, d.as_slice());
    if t.len() == 0 {
        return string_of(out.as_slice());
    }
    push_str(&mut out, ": ");
    let n = if t.len() > 500 {
        500
    } else {
        t.len()
    };
    crate::text::push_range(&mut out, t.as_slice(), 0, n);
    proof {
        if t@.len() <= 500 {
            assert(t@.subrange(0, t@.len() as int) =~= t@);
        }
    }
    string_of(out.as_slice())
}

pub struct UpstreamModelView {
    pub id: Seq<char>,
    pub owned_by: Option<Seq<char>>,
}

impl View for UpstreamModel {
    type V = UpstreamModelView;

    open spec fn view(&self) -> UpstreamModelView {
        UpstreamModelView { id: self.id@, owned_by: opt_str(self.owned_by) }
    }
}

/// Models keyed by their ids.
pub open spec fn keyed_models(ms: Seq<UpstreamModel>) -> Seq<(Seq<char>, UpstreamModelView)> {
    Seq::new(ms.len(), |i: int| (ms[i].id@, ms[i]@))
}

/// The first of each run of items with the same key.
pub open spec fn dedup_keys<V>(s: Seq<(Seq<char>, V)>) -> Seq<(Seq<char>, V)>
    decreases s.len(),
{
    if s.len() <= 1 {
        s
    } else if s.last().0 == s[s.len() - 2].0 {
        dedup_keys(s.drop_last())
    } else {
        dedup_keys(s.drop_last()).push(s.last())
    }
}

/// The models sorted by id (equal ids in their order) with repeated ids
/// dropped, the first kept.
pub open spec fn sorted_unique_models(ms: Seq<UpstreamModel>) -> Seq<UpstreamModelView> {
    let d = dedup_keys(sort_stable(keyed_models(ms)));
    Seq::new(d.len(), |i: int| d[i].1)
}

/// Model views sorted by id (equal ids in their order) with repeated ids
/// dropped, the first kept.
pub open spec fn unique_model_views(vs: Seq<UpstreamModelView>) -> Seq<UpstreamModelView> {
    let d = dedup_keys(sort_stable(Seq::new(vs.len(), |i: int| (vs[i].id, vs[i]))));
    Seq::new(d.len(), |i: int| d[i].1)
}

proof fn lemma_sorted_unique_views(ms: Seq<UpstreamModel>)
    ensures
        sorted_unique_models(ms) == unique_model_views(Seq::new(ms.len(), |i: int| ms[i]@)),
{
    let vs = Seq::new(ms.len(), |i: int| ms[i]@);
    assert(keyed_models(ms) =~= Seq::new(vs.len(), |i: int| (vs[i].id, vs[i])));
}

/// The upstream answer's models (`list_upstream_models`): sorted and without
/// repeated ids; no models is a failure.
pub fn upstream_models_payload(provider_id: String, endpoint: String, models: Vec<UpstreamModel>) -> (p: UpstreamModelsPayload)
    ensures
        p.provider_id == provider_id,
        p.endpoint == endpoint,
        Seq::new(p.models@.len(), |i: int| p.models@[i]@) == sorted_unique_models(models@),
        p.ok == (sorted_unique_models(models@).len() > 0),
        p.ok ==> p.error is None,
        !p.ok ==> (p.error matches Some(e) && e@ == "No model ids were found in the upstream models response"@),
{
    let ghost km = keyed_models(models@);
    let mut keyed: Vec<(Vec<char>, UpstreamModel)> = Vec::new();
    let mut i: usize = 0;
    while i < models.len()
        invariant
            i <= models@.len(),
            km == keyed_models(models@),
            keyed_view(keyed@) == km.subrange(0, i as int),
        decreases models@.len() - i,
    {
        let ghost before = keyed@;
        let m = UpstreamModel { id: models[i].id.clone(), owned_by: match &models[i].owned_by {
            Some(o) => Some(o.clone()),
            None => None,
        } };
        keyed.push((chars_of(m.id.as_str()), m));
        assert(keyed_view(keyed@) =~= keyed_view(before).push(km[i as int]));
        assert(km.subrange(0, i + 1) =~= km.subrange(0, i as int).push(km[i as int]));
        i = i + 1;
    }
    assert(km.subrange(0, models@.len() as int) =~= km);
    let sorted = sort_stable_exec(keyed);
    let ghost ss = keyed_view(sorted@);
    let mut out: Vec<UpstreamModel> = Vec::new();
    let mut kept: Vec<(Vec<char>, UpstreamModel)> = Vec::new();
    let mut j: usize = 0;
    while j < sorted.len()
        invariant
            j <= sorted@.len(),
            ss == keyed_view(sorted@),
            keyed_view(kept@) == dedup_keys(ss.subrange(0, j as int)),
            out@.len() == kept@.len(),
            forall|k: int| 0 <= k < out@.len() ==> (#[trigger] out@[k])@ == kept@[k].1@,
            j > 0 ==> kept@.len() > 0 && kept@.last().0@ == ss[j - 1].0,
        decreases sorted@.len() - j,
    {
        let ghost next = ss.subrange(0, j + 1);
        assert(next.drop_last() =~= ss.subrange(0, j as int));
        assert(next.last() == ss[j as int]);
        let repeat = j > 0 && eq_chars(kept[kept.len() - 1].0.as_slice(), sorted[j].0.as_slice());
        if j > 0 {
            assert(next[next.len() - 2] == ss[j - 1]);
        }
        if !repeat {
            let m = UpstreamModel { id: sorted[j].1.id.clone(), owned_by: match &sorted[j].1.owned_by {
                Some(o) => Some(o.clone()),
                None => None,
            } };
            let ghost before = kept@;
            let k = copy_range(sorted[j].0.as_slice(), 0, sorted[j].0.len());
            assert(sorted@[j as int].0@.subrange(0, sorted@[j as int].0@.len() as int) =~= sorted@[j as int].0@);
            let m2 = UpstreamModel { id: m.id.clone(), owned_by: match &m.owned_by {
                Some(o) => Some(o.clone()),
                None => None,
            } };
            kept.push((k, m2));
            out.push(m);
            assert(keyed_view(kept@) =~= keyed_view(before).push(ss[j as int]));
        }
        j = j + 1;
    }
    assert(ss.subrange(0, sorted@.len() as int) =~= ss);
    let ghost d = dedup_keys(ss);
    assert(Seq::new(out@.len(), |i: int| out@[i]@) =~= Seq::new(d.len(), |i: int| d[i].1));
    if out.len() == 0 {
        UpstreamModelsPayload {
            ok: false,
            provider_id,
            endpoint,
            models: out,
            error: Some(String::from_str("No model ids were found in the upstream models response")),
        }
    } else {
        UpstreamModelsPayload { ok: true, provider_id, endpoint, models: out, error: None }
    }
}

/// A provider's health from its model listing (`check_model_provider_health`).
pub fn health_from(models: UpstreamModelsPayload, latency_ms: u128) -> (h: ModelProviderHealthPayload)
    ensures
        h.ok == models.ok,
        h.provider_id == models.provider_id,
        h.endpoint == models.endpoint,
        h.status@ == (if models.ok {
            "healthy"@
        } else {
            "unhealthy"@
        }),
        h.latency_ms == latency_ms,
        h.model_count == models.models@.len(),
        h.error == models.error,
{
    let n = models.models.len();
    ModelProviderHealthPayload {
        ok: models.ok,
        provider_id: models.provider_id,
        endpoint: models.endpoint,
        status: if models.ok {
            String::from_str("healthy")
        } else {
            String::from_str("unhealthy")
        },
        latency_ms,
        model_count: n,
        error: models.error,
    }
}


// ---------------------------------------------------------------------------
// Reading an upstream models list
// ---------------------------------------------------------------------------
/// The elements of an array value.
pub open spec fn array_items(o: Option<JsonView>) -> Option<Seq<JsonView>> {
    match o {
        Some(JsonView::Array(items)) => Some(items),
        _ => None,
    }
}

/// The entries of a models reply: its `data` list, else its `models` list,
/// else the reply itself when it is a list.
pub open spec fn model_entries(v: JsonView) -> Seq<JsonView> {
    match array_items(field(v, "data"@)) {
        Some(items) => items,
        None => match array_items(field(v, "models"@)) {
            Some(items) => items,
            None => match v {
                JsonView::Array(items) => items,
                _ => Seq::empty(),
            },
        },
    }
}

/// The id of an entry: the entry itself when it is a string, else its `id`,
/// else its `name`.
pub open spec fn entry_id(e: JsonView) -> Option<Seq<char>> {
    match text(e) {
        Some(t) => Some(t),
        None => match and_text(field(e, "id"@)) {
            Some(t) => Some(t),
            None => and_text(field(e, "name"@)),
        },
    }
}

/// The owner of an entry: its `owned_by` field, or `ownedBy` when there is no
/// `owned_by`, if that is a string.
pub open spec fn entry_owner(e: JsonView) -> Option<Seq<char>> {
    and_text(
        match field(e, "owned_by"@) {
            Some(x) => Some(x),
            None => field(e, "ownedBy"@),
        },
    )
}

/// The models named by the entries that have an id, in order.
pub open spec fn listed_models(entries: Seq<JsonView>) -> Seq<UpstreamModelView>
    decreases entries.len(),
{
    if entries.len() == 0 {
        Seq::empty()
    } else {
        let before = listed_models(entries.drop_last());
        let e = entries.last();
        match entry_id(e) {
            Some(id) => before.push(UpstreamModelView { id, owned_by: entry_owner(e) }),
            None => before,
        }
    }
}

fn model_entries_exec<'a>(v: &'a JsonValue) -> (r: Option<&'a Vec<JsonValue>>)
    ensures
        match r {
            Some(items) => views_of(items@) == model_entries(view_of(*v)),
            None => model_entries(view_of(*v)) == Seq::<JsonView>::empty(),
        },
{
    match get_field(v, "data") {
        Some(JsonValue::Array(items)) => return Some(items),
        _ => {},
    }
    match get_field(v, "models") {
        Some(JsonValue::Array(items)) => return Some(items),
        _ => {},
    }
    match v {
        JsonValue::Array(items) => Some(items),
        _ => None,
    }
}

fn entry_model(e: &JsonValue) -> (r: Option<UpstreamModel>)
    ensures
        match r {
            Some(m) => entry_id(view_of(*e)) == Some(m.id@) && m@.owned_by == entry_owner(
                view_of(*e),
            ),
            None => entry_id(view_of(*e)) is None,
        },
{
    let id = match text_of(e) {
        Some(t) => t,
        None => match get_field(e, "id") {
            Some(x) => match text_of(x) {
                Some(t) => t,
                None => match get_field(e, "name") {
                    Some(y) => match text_of(y) {
                        Some(t) => t,
                        None => return None,
                    },
                    None => return None,
                },
            },
            None => match get_field(e, "name") {
                Some(y) => match text_of(y) {
                    Some(t) => t,
                    None => return None,
                },
                None => return None,
            },
        },
    };
    let owner_field = match get_field(e, "owned_by") {
        Some(x) => Some(x),
        None => get_field(e, "ownedBy"),
    };
    let owned_by = match owner_field {
        Some(x) => text_of(x),
        None => None,
    };
    Some(UpstreamModel { id, owned_by })
}

/// The models a parsed models reply names, in reply order (the part of
/// `list_upstream_models` that reads the reply); sorting and removing
/// repeats is `upstream_models_payload`.
pub fn upstream_models_from_json(v: &JsonValue) -> (out: Vec<UpstreamModel>)
    ensures
        Seq::new(out@.len(), |i: int| out@[i]@) == listed_models(model_entries(view_of(*v))),
{
    let mut out: Vec<UpstreamModel> = Vec::new();
    let items = match model_entries_exec(v) {
        Some(items) => items,
        None => {
            assert(Seq::new(out@.len(), |i: int| out@[i]@) =~= Seq::<UpstreamModelView>::empty());
            return out;
        },
    };
    let ghost es = views_of(items@);
    proof {
        lemma_views_of(items@);
    }
    let mut i: usize = 0;
    proof {
        assert(es.take(0) =~= Seq::<JsonView>::empty());
        assert(Seq::new(out@.len(), |i: int| out@[i]@) =~= Seq::<UpstreamModelView>::empty());
    }
    while i < items.len()
        invariant
            i <= items@.len(),
            es == views_of(items@),
            es.len() == items@.len(),
            forall|k: int| 0 <= k < items@.len() ==> #[trigger] es[k] == view_of(items@[k]),
            Seq::new(out@.len(), |k: int| out@[k]@) == listed_models(es.take(i as int)),
        decreases items@.len() - i,
    {
        proof {
            assert(es.take(i + 1).drop_last() =~= es.take(i as int));
            assert(es.take(i + 1).last() == es[i as int]);
        }
        let ghost before = Seq::new(out@.len(), |k: int| out@[k]@);
        match entry_model(&items[i]) {
            Some(m) => {
                let ghost mv = m@;
                out.push(m);
                proof {
                    assert(Seq::new(out@.len(), |k: int| out@[k]@) =~= before.push(mv));
                }
            },
            None => {},
        }
        i = i + 1;
    }
    proof {
        assert(es.take(i as int) =~= es);
    }
    out
}

// ---------------------------------------------------------------------------
// Relay settings
// ---------------------------------------------------------------------------
/// The optional text, trimmed, unless blank.
pub open spec fn trimmed_nonblank(o: Option<Seq<char>>) -> Option<Seq<char>> {
    match o {
        Some(t) => if trim(t).len() > 0 {
            Some(trim(t))
        } else {
            None
        },
        None => None,
    }
}

/// Stores the relay settings (`save_model_relay_config`): port 0 is refused;
/// otherwise the switches and port are taken as given and the management
/// token trimmed, a blank one dropped.
pub fn save_model_relay_config(
    config: ModelGatewayConfig,
    port: u16,
    enabled: bool,
    auto_start: bool,
    management_token: Option<String>,
) -> (r: Result<ModelGatewayConfig, String>)
    ensures
        port == 0 ==> (r matches Err(e) && e@ == "Relay port must be greater than 0"@),
        port != 0 ==> (r matches Ok(c) && c.relay.enabled == enabled && c.relay.port == port
            && c.relay.auto_start == auto_start && opt_str(c.relay.management_token)
            == trimmed_nonblank(opt_str(management_token)) && c.providers == config.providers
            && c.model_routes == config.model_routes && c.default_provider_id
            == config.default_provider_id && c.fallback_order == config.fallback_order
            && c.schema_version == config.schema_version),
{
    if port == 0 {
        return Err(String::from_str("Relay port must be greater than 0"));
    }
    let token = match management_token {
        Some(t) => {
            let tv = trim_vec(chars_of(t.as_str()).as_slice());
            if tv.len() > 0 {
                Some(string_of(tv.as_slice()))
            } else {
                None
            }
        },
        None => None,
    };
    let mut c = config;
    c.relay.enabled = enabled;
    c.relay.port = port;
    c.relay.auto_start = auto_start;
    c.relay.management_token = token;
    Ok(c)
}

/// What a provider's reply to the models request gives
/// (`list_upstream_models` once the reply is in): a failed payload with the
/// upstream error for a status outside 200..=299; an error when a successful
/// reply is not JSON; otherwise the payload of the models it lists.
pub fn upstream_models_reply(provider_id: String, endpoint: String, status: u16, body: &str) -> (r: Result<UpstreamModelsPayload, String>)
    ensures
        !(200 <= status <= 299) ==> (r matches Ok(p) && !p.ok && p.provider_id == provider_id
            && p.endpoint == endpoint && p.models@.len() == 0 && (p.error matches Some(e) && e@
            == upstream_error_message("List upstream models"@, status, body@))),
        200 <= status <= 299 ==> match json_of_text(body@) {
            Err(e) => r matches Err(x) && x@ == "Invalid models response JSON: "@ + e,
            Ok(v) => r matches Ok(p) && {
                let ms = unique_model_views(listed_models(model_entries(v)));
                &&& p.provider_id == provider_id
                &&& p.endpoint == endpoint
                &&& Seq::new(p.models@.len(), |i: int| p.models@[i]@) == ms
                &&& p.ok == (ms.len() > 0)
                &&& (p.ok ==> p.error is None)
                &&& (!p.ok ==> (p.error matches Some(e) && e@ == "No model ids were found in the upstream models response"@))
            },
        },
{
    if !(200 <= status && status <= 299) {
        let error = upstream_error("List upstream models", status, body);
        return Ok(UpstreamModelsPayload { ok: false, provider_id, endpoint, models: Vec::new(), error: Some(error) });
    }
    match parse_json_text(body) {
        Err(e) => {
            let mut m = chars_of("Invalid models response JSON: ");
            push_str(&mut m, e.as_str());
            proof {
                reveal_strlit("Invalid models response JSON: ");
            }
            Err(string_of(m.as_slice()))
        },
        Ok(v) => {
            let models = upstream_models_from_json(&v);
            proof {
                lemma_sorted_unique_views(models@);
            }
            Ok(upstream_models_payload(provider_id, endpoint, models))
        },
    }
}

// ---------------------------------------------------------------------------
// Laws of saved providers
// ---------------------------------------------------------------------------
/// A provider keeps its API key when it is saved: a key that is not blank is
/// stored trimmed, and only an absent or blank key is dropped.  Its id is
/// stored trimmed, and its kind and switch as given.
pub proof fn law_saved_provider_keeps_its_key(p: ProviderView)
    ensures
        match p.api_key {
            Some(k) => if trim(k).len() > 0 {
                normalized_provider(p).api_key == Some(trim(k))
            } else {
                normalized_provider(p).api_key is None
            },
            None => normalized_provider(p).api_key is None,
        },
        normalized_provider(p).id == trim(p.id),
        normalized_provider(p).kind == p.kind,
        normalized_provider(p).enabled == p.enabled,
{
}

} // verus!
