//! The local model relay: which upstream provider answers a request, who may
//! use the relay, what it reports, and the log of recent requests.
use vstd::prelude::*;
use vstd::string::StringExecFns;
use crate::model_gateway::{
    copy_provider, provider_views, route_views, ModelGatewayConfig, ModelProviderConfig,
    ModelProviderKind, ProviderView, RouteView,
};
use crate::models::{opt_str, str_pairs, strs};
use crate::sorting::{key_index, map_get};
use crate::text::{
    ascii_lower_seq, ascii_lower_vec, chars_of, copy_range, eq_chars, find_char, find_char_exec,
    push_all, push_str, starts_with, starts_with_exec, string_of, strip_prefix, trim, trim_end,
    trim_end_char, trim_vec,
};

verus! {

#[derive(Debug, Clone, PartialEq)]
pub struct ModelRelayStatusPayload {
    pub enabled: bool,
    pub running: bool,
    pub port: u16,
    pub base_url: String,
    pub config_path: String,
}

#[derive(Debug, Clone, PartialEq)]
pub struct ModelRelayLogEntry {
    pub timestamp_ms: u128,
    pub method: String,
    pub path: String,
    pub provider_id: Option<String>,
    pub status: u16,
    pub latency_ms: u128,
    pub error: Option<String>,
}

#[derive(Debug, Clone, PartialEq)]
pub struct ModelRelayConfigPayload {
    pub port: u16,
    pub enabled: bool,
    pub auto_start: bool,
    pub management_token: Option<String>,
}

// ---------------------------------------------------------------------------
// Model patterns
// ---------------------------------------------------------------------------
/// Whether a route's pattern covers a model (`model_matches`): `*` covers
/// every model, a pattern ending in `*` covers the models that begin with the
/// rest, and any other pattern only the model of that name.
pub open spec fn pattern_matches(pattern: Seq<char>, model: Seq<char>) -> bool {
    let p = trim(pattern);
    if p == seq!['*'] {
        true
    } else if p.len() > 0 && p.last() == '*' {
        starts_with(model, p.drop_last())
    } else {
        p == model
    }
}

pub fn model_matches(pattern: &str, model: &str) -> (b: bool)
    ensures
        b == pattern_matches(pattern@, model@),
{
    let p = trim_vec(chars_of(pattern).as_slice());
    let m = chars_of(model);
    let star: Vec<char> = vec!['*'];
    assert(star@ =~= seq!['*']);
    if eq_chars(p.as_slice(), star.as_slice()) {
        return true;
    }
    let n = p.len();
    if n > 0 && p[n - 1] == '*' {
        let prefix = copy_range(p.as_slice(), 0, n - 1);
        assert(prefix@ =~= p@.drop_last());
        return starts_with_exec(m.as_slice(), prefix.as_slice());
    }
    eq_chars(p.as_slice(), m.as_slice())
}

// ---------------------------------------------------------------------------
// Choosing the provider
// ---------------------------------------------------------------------------
/// The first provider with the id.
pub open spec fn first_with_id(ps: Seq<ProviderView>, id: Seq<char>) -> Option<ProviderView>
    decreases ps.len(),
{
    if ps.len() == 0 {
        None
    } else if ps[0].id == id {
        Some(ps[0])
    } else {
        first_with_id(ps.drop_first(), id)
    }
}

/// The first enabled provider with the id.
pub open spec fn first_enabled_with_id(ps: Seq<ProviderView>, id: Seq<char>) -> Option<ProviderView>
    decreases ps.len(),
{
    if ps.len() == 0 {
        None
    } else if ps[0].enabled && ps[0].id == id {
        Some(ps[0])
    } else {
        first_enabled_with_id(ps.drop_first(), id)
    }
}

/// The first enabled provider.
pub open spec fn first_enabled(ps: Seq<ProviderView>) -> Option<ProviderView>
    decreases ps.len(),
{
    if ps.len() == 0 {
        None
    } else if ps[0].enabled {
        Some(ps[0])
    } else {
        first_enabled(ps.drop_first())
    }
}

/// Along the fallback order, the first id whose (first) provider is enabled.
pub open spec fn fallback_pick(ps: Seq<ProviderView>, order: Seq<Seq<char>>) -> Option<ProviderView>
    decreases order.len(),
{
    if order.len() == 0 {
        None
    } else {
        match first_with_id(ps, order[0]) {
            Some(p) => if p.enabled {
                Some(p)
            } else {
                fallback_pick(ps, order.drop_first())
            },
            None => fallback_pick(ps, order.drop_first()),
        }
    }
}

/// The provider that serves requests without a route (`default_provider`):
/// the first enabled one along the fallback order, else the default
/// provider, else the first enabled provider; a disabled default is refused.
pub open spec fn default_choice(ps: Seq<ProviderView>, order: Seq<Seq<char>>, default_id: Option<Seq<char>>) -> Result<ProviderView, Seq<char>> {
    let picked = match fallback_pick(ps, order) {
        Some(p) => Some(p),
        None => match (match default_id {
            Some(d) => first_with_id(ps, d),
            None => None,
        }) {
            Some(p) => Some(p),
            None => first_enabled(ps),
        },
    };
    match picked {
        None => Err("No enabled model provider is configured"@),
        Some(p) => if !p.enabled {
            Err("Default provider "@ + p.id + " is disabled"@)
        } else {
            Ok(p)
        },
    }
}

/// Along the routes, the provider of the first enabled route that covers the
/// model and whose provider is enabled.
pub open spec fn route_pick(rs: Seq<RouteView>, ps: Seq<ProviderView>, model: Seq<char>) -> Option<ProviderView>
    decreases rs.len(),
{
    if rs.len() == 0 {
        None
    } else if rs[0].enabled && pattern_matches(rs[0].model_pattern, model) {
        match first_enabled_with_id(ps, rs[0].provider_id) {
            Some(p) => Some(p),
            None => route_pick(rs.drop_first(), ps, model),
        }
    } else {
        route_pick(rs.drop_first(), ps, model)
    }
}

/// The provider for a request naming `model` (`provider_for_request`).
pub open spec fn provider_choice(c: ModelGatewayConfig, model: Option<Seq<char>>) -> Result<ProviderView, Seq<char>> {
    let ps = provider_views(c.providers@);
    let routed = match model {
        Some(m) => route_pick(route_views(c.model_routes@), ps, m),
        None => None,
    };
    match routed {
        Some(p) => Ok(p),
        None => default_choice(ps, strs(c.fallback_order@), opt_str(c.default_provider_id)),
    }
}

fn first_with_id_exec(ps: &Vec<ModelProviderConfig>, id: &[char], need_enabled: bool) -> (r: Option<usize>)
    ensures
        need_enabled ==> match r {
            Some(i) => i < ps@.len() && first_enabled_with_id(provider_views(ps@), id@) == Some(ps@[i as int]@),
            None => first_enabled_with_id(provider_views(ps@), id@) is None,
        },
        !need_enabled ==> match r {
            Some(i) => i < ps@.len() && first_with_id(provider_views(ps@), id@) == Some(ps@[i as int]@),
            None => first_with_id(provider_views(ps@), id@) is None,
        },
{
    let ghost vs = provider_views(ps@);
    let mut i: usize = 0;
    assert(vs.subrange(0, vs.len() as int) =~= vs);
    while i < ps.len()
        invariant
            i <= ps@.len(),
            vs == provider_views(ps@),
            need_enabled ==> first_enabled_with_id(vs, id@) == first_enabled_with_id(vs.subrange(i as int, vs.len() as int), id@),
            !need_enabled ==> first_with_id(vs, id@) == first_with_id(vs.subrange(i as int, vs.len() as int), id@),
        decreases ps@.len() - i,
    {
        let ghost rest = vs.subrange(i as int, vs.len() as int);
        assert(rest[0] == ps@[i as int]@);
        assert(rest.drop_first() =~= vs.subrange(i + 1, vs.len() as int));
        if (!need_enabled || ps[i].enabled) && eq_chars(chars_of(ps[i].id.as_str()).as_slice(), id) {
            return Some(i);
        }
        i = i + 1;
    }
    None
}

fn first_enabled_exec(ps: &Vec<ModelProviderConfig>) -> (r: Option<usize>)
    ensures
        match r {
            Some(i) => i < ps@.len() && first_enabled(provider_views(ps@)) == Some(ps@[i as int]@),
            None => first_enabled(provider_views(ps@)) is None,
        },
{
    let ghost vs = provider_views(ps@);
    let mut i: usize = 0;
    assert(vs.subrange(0, vs.len() as int) =~= vs);
    while i < ps.len()
        invariant
            i <= ps@.len(),
            vs == provider_views(ps@),
            first_enabled(vs) == first_enabled(vs.subrange(i as int, vs.len() as int)),
        decreases ps@.len() - i,
    {
        let ghost rest = vs.subrange(i as int, vs.len() as int);
        assert(rest[0] == ps@[i as int]@);
        assert(rest.drop_first() =~= vs.subrange(i + 1, vs.len() as int));
        if ps[i].enabled {
            return Some(i);
        }
        i = i + 1;
    }
    None
}

/// The provider for requests without a route (`default_provider`).
pub fn default_provider(config: &ModelGatewayConfig) -> (r: Result<ModelProviderConfig, String>)
    ensures
        match default_choice(provider_views(config.providers@), strs(config.fallback_order@), opt_str(config.default_provider_id)) {
            Ok(p) => r matches Ok(x) && x@ == p,
            Err(m) => r matches Err(e) && e@ == m,
        },
{
    let ghost ps = provider_views(config.providers@);
    let ghost order = strs(config.fallback_order@);
    let mut picked: Option<usize> = None;
    let mut k: usize = 0;
    assert(order.subrange(0, order.len() as int) =~= order);
    while k < config.fallback_order.len() && picked.is_none()
        invariant
            k <= config.fallback_order@.len(),
            ps == provider_views(config.providers@),
            order == strs(config.fallback_order@),
            picked is None ==> fallback_pick(ps, order) == fallback_pick(ps, order.subrange(k as int, order.len() as int)),
            picked matches Some(i) ==> i < config.providers@.len() && fallback_pick(ps, order) == Some(config.providers@[i as int]@),
        decreases config.fallback_order@.len() - k + (if picked is None { 1int } else { 0int }),
    {
        let ghost rest = order.subrange(k as int, order.len() as int);
        assert(rest[0] == config.fallback_order@[k as int]@);
        assert(rest.drop_first() =~= order.subrange(k + 1, order.len() as int));
        let idc = chars_of(config.fallback_order[k].as_str());
        match first_with_id_exec(&config.providers, idc.as_slice(), false) {
            Some(i) => {
                if config.providers[i].enabled {
                    picked = Some(i);
                } else {
                    k = k + 1;
                }
            },
            None => {
                k = k + 1;
            },
        }
    }
    let ghost fb = fallback_pick(ps, order);
    if picked.is_none() {
        assert(order.subrange(k as int, order.len() as int).len() == 0);
        assert(fb is None);
    }
    let chosen: Option<usize> = match picked {
        Some(i) => Some(i),
        None => {
            let by_default = match &config.default_provider_id {
                Some(d) => first_with_id_exec(&config.providers, chars_of(d.as_str()).as_slice(), false),
                None => None,
            };
            match by_default {
                Some(i) => Some(i),
                None => first_enabled_exec(&config.providers),
            }
        },
    };
    match chosen {
        None => Err(String::from_str("No enabled model provider is configured")),
        Some(i) => {
            if !config.providers[i].enabled {
                let mut m = chars_of("Default provider ");
                push_str(&mut m, config.providers[i].id.as_str());
                push_str(&mut m, " is disabled");
                Err(string_of(m.as_slice()))
            } else {
                Ok(copy_provider(&config.providers[i]))
            }
        },
    }
}

/// The provider that answers a request naming `model` (`provider_for_request`):
/// the first enabled route that covers the model and whose provider is
/// enabled decides; otherwise the default provider.
pub fn provider_for_request(config: &ModelGatewayConfig, model: Option<&str>) -> (r: Result<ModelProviderConfig, String>)
    ensures
        match provider_choice(*config, match model {
            Some(m) => Some(m@),
            None => None,
        }) {
            Ok(p) => r matches Ok(x) && x@ == p,
            Err(m) => r matches Err(e) && e@ == m,
        },
{
    match model {
        Some(m) => {
            let ghost ps = provider_views(config.providers@);
            let ghost rs = route_views(config.model_routes@);
            let mut k: usize = 0;
            assert(rs.subrange(0, rs.len() as int) =~= rs);
            while k < config.model_routes.len()
                invariant
                    k <= config.model_routes@.len(),
                    ps == provider_views(config.providers@),
                    rs == route_views(config.model_routes@),
                    model == Some(m),
                    route_pick(rs, ps, m@) == route_pick(rs.subrange(k as int, rs.len() as int), ps, m@),
                decreases config.model_routes@.len() - k,
            {
                let ghost rest = rs.subrange(k as int, rs.len() as int);
                assert(rest[0] == config.model_routes@[k as int]@);
                assert(rest.drop_first() =~= rs.subrange(k + 1, rs.len() as int));
                let route = &config.model_routes[k];
                if route.enabled && model_matches(route.model_pattern.as_str(), m) {
                    let pid = chars_of(route.provider_id.as_str());
                    match first_with_id_exec(&config.providers, pid.as_slice(), true) {
                        Some(i) => {
                            return Ok(copy_provider(&config.providers[i]));
                        },
                        None => {},
                    }
                }
                k = k + 1;
            }
            default_provider(config)
        },
        None => default_provider(config),
    }
}

// ---------------------------------------------------------------------------
// Access to the relay
// ---------------------------------------------------------------------------
/// The token a request presents: a bearer credential in `authorization`,
/// else the `x-ai-strategist-token` header.
pub open spec fn presented_token(headers: Seq<(Seq<char>, Seq<char>)>) -> Option<Seq<char>> {
    match (match map_get(headers, "authorization"@) {
        Some(v) => strip_prefix(v, "Bearer "@),
        None => None,
    }) {
        Some(t) => Some(t),
        None => map_get(headers, "x-ai-strategist-token"@),
    }
}

/// Whether a request may use the relay (`authorize_request`): without a
/// nonempty management token anyone may; otherwise the request must present it.
pub open spec fn authorized(token: Option<Seq<char>>, headers: Seq<(Seq<char>, Seq<char>)>) -> bool {
    match token {
        Some(t) => t.len() == 0 || presented_token(headers) == Some(t),
        None => true,
    }
}

fn header_value(headers: &Vec<(String, String)>, name: &str) -> (r: Option<Vec<char>>)
    ensures
        crate::toml_scan::opt_view(r) == map_get(str_pairs(headers@), name@),
{
    let ghost hs = str_pairs(headers@);
    let n = chars_of(name);
    let mut i: usize = 0;
    while i < headers.len()
        invariant
            i <= headers@.len(),
            hs == str_pairs(headers@),
            n@ == name@,
            forall|j: int| 0 <= j < i ==> #[trigger] hs[j].0 != name@,
        decreases headers@.len() - i,
    {
        if eq_chars(chars_of(headers[i].0.as_str()).as_slice(), n.as_slice()) {
            proof {
                crate::sorting::lemma_key_index(hs, name@, i as int);
            }
            return Some(chars_of(headers[i].1.as_str()));
        }
        i = i + 1;
    }
    proof {
        crate::sorting::lemma_key_index(hs, name@, i as int);
    }
    None
}

/// Checks a request's access token (`authorize_request`).
pub fn authorize_request(config: &ModelGatewayConfig, headers: &Vec<(String, String)>) -> (r: Result<(), String>)
    ensures
        authorized(opt_str(config.relay.management_token), str_pairs(headers@)) ==> r is Ok,
        !authorized(opt_str(config.relay.management_token), str_pairs(headers@)) ==> (r matches Err(e) && e@
            == "Relay access token is required"@),
{
    let expected = match &config.relay.management_token {
        Some(t) => {
            let c = chars_of(t.as_str());
            if c.len() == 0 {
                return Ok(());
            }
            c
        },
        None => {
            return Ok(());
        },
    };
    let bearer = match header_value(headers, "authorization") {
        Some(v) => {
            let p = chars_of("Bearer ");
            if starts_with_exec(v.as_slice(), p.as_slice()) {
                Some(copy_range(v.as_slice(), p.len(), v.len()))
            } else {
                None
            }
        },
        None => None,
    };
    let actual = match bearer {
        Some(b) => Some(b),
        None => header_value(headers, "x-ai-strategist-token"),
    };
    match actual {
        Some(a) => {
            if eq_chars(a.as_slice(), expected.as_slice()) {
                Ok(())
            } else {
                Err(String::from_str("Relay access token is required"))
            }
        },
        None => Err(String::from_str("Relay access token is required")),
    }
}

// ---------------------------------------------------------------------------
// Requests
// ---------------------------------------------------------------------------
/// What the relay does with a request.
#[derive(Debug, Clone, Copy, PartialEq, Eq, Structural)]
pub enum RelayRoute {
    Health,
    Models,
    ChatCompletions,
    Responses,
    Unsupported,
}

pub open spec fn route_of(method: Seq<char>, path: Seq<char>) -> RelayRoute {
    if method == "GET"@ && path == "/health"@ {
        RelayRoute::Health
    } else if method == "GET"@ && path == "/v1/models"@ {
        RelayRoute::Models
    } else if method == "POST"@ && path == "/v1/chat/completions"@ {
        RelayRoute::ChatCompletions
    } else if method == "POST"@ && path == "/v1/responses"@ {
        RelayRoute::Responses
    } else {
        RelayRoute::Unsupported
    }
}

/// Which route a request takes: the health check,
/// the model list, chat completions, responses, or none.
pub fn relay_route(method: &str, path: &str) -> (r: RelayRoute)
    ensures
        r == route_of(method@, path@),
{
    let m = chars_of(method);
    let p = chars_of(path);
    let get = eq_chars(m.as_slice(), chars_of("GET").as_slice());
    let post = eq_chars(m.as_slice(), chars_of("POST").as_slice());
    if get && eq_chars(p.as_slice(), chars_of("/health").as_slice()) {
        RelayRoute::Health
    } else if get && eq_chars(p.as_slice(), chars_of("/v1/models").as_slice()) {
        RelayRoute::Models
    } else if post && eq_chars(p.as_slice(), chars_of("/v1/chat/completions").as_slice()) {
        RelayRoute::ChatCompletions
    } else if post && eq_chars(p.as_slice(), chars_of("/v1/responses").as_slice()) {
        RelayRoute::Responses
    } else {
        RelayRoute::Unsupported
    }
}

/// How the relay carries a request to the provider and its reply back.
#[derive(Debug, Clone, Copy, PartialEq, Eq, Structural)]
pub enum Conversion {
    /// The body and the reply pass as they are.
    Unchanged,
    /// A chat request goes to a Responses provider; its reply comes back as chat.
    ChatToResponses,
    /// A Responses request goes to a chat provider; its reply comes back as a response.
    ResponsesToChat,
}

/// The upstream POST of a relayed request: the path below the provider's base URL and the
/// conversion; none for routes that post nothing upstream.
pub open spec fn upstream_post_of(route: RelayRoute, kind: ModelProviderKind) -> Option<(Seq<char>, Conversion)> {
    match route {
        RelayRoute::ChatCompletions => match kind {
            ModelProviderKind::OpenaiCompatible => Some(("/chat/completions"@, Conversion::Unchanged)),
            ModelProviderKind::Responses => Some(("/responses"@, Conversion::ChatToResponses)),
        },
        RelayRoute::Responses => match kind {
            ModelProviderKind::Responses => Some(("/responses"@, Conversion::Unchanged)),
            ModelProviderKind::OpenaiCompatible => Some(("/chat/completions"@, Conversion::ResponsesToChat)),
        },
        _ => None,
    }
}

/// Where a relayed request is posted and how it is converted.
pub fn upstream_post(route: RelayRoute, kind: ModelProviderKind) -> (r: Option<(String, Conversion)>)
    ensures
        match r {
            Some((path, c)) => upstream_post_of(route, kind) == Some((path@, c)),
            None => upstream_post_of(route, kind) is None,
        },
{
    match route {
        RelayRoute::ChatCompletions => match kind {
            ModelProviderKind::OpenaiCompatible => Some((String::from_str("/chat/completions"), Conversion::Unchanged)),
            ModelProviderKind::Responses => Some((String::from_str("/responses"), Conversion::ChatToResponses)),
        },
        RelayRoute::Responses => match kind {
            ModelProviderKind::Responses => Some((String::from_str("/responses"), Conversion::Unchanged)),
            ModelProviderKind::OpenaiCompatible => Some((String::from_str("/chat/completions"), Conversion::ResponsesToChat)),
        },
        _ => None,
    }
}

/// The URL of an upstream call: the base URL without its trailing slashes,
/// then the path.
pub fn upstream_endpoint(base_url: &str, path: &str) -> (out: String)
    ensures
        out@ == trim_end_char(base_url@, '/') + path@,
{
    let b = chars_of(base_url);
    let mut j = b.len();
    assert(b@.subrange(0, j as int) =~= b@);
    while j > 0 && b[j - 1] == '/'
        invariant
            j <= b@.len(),
            b@ == base_url@,
            trim_end_char(b@, '/') == trim_end_char(b@.subrange(0, j as int), '/'),
        decreases j,
    {
        proof {
            crate::text::lemma_trim_end_char_step(b@, '/', 0, j as int);
        }
        j = j - 1;
    }
    let mut out = copy_range(b.as_slice(), 0, j);
    assert(trim_end_char(b@.subrange(0, j as int), '/') == b@.subrange(0, j as int));
    push_str(&mut out, path);
    string_of(out.as_slice())
}

/// A header line as the relay stores it: the name before
/// the first colon, trimmed and lower-cased (ASCII), and the trimmed value.
pub open spec fn header_of(line: Seq<char>) -> Option<(Seq<char>, Seq<char>)> {
    let t = trim_end(line);
    match find_char(t, ':') {
        Some(i) => Some((ascii_lower_seq(trim(t.subrange(0, i))), trim(t.subrange(i + 1, t.len() as int)))),
        None => None,
    }
}

/// Reads one header line.
pub fn parse_header_line(line: &str) -> (r: Option<(String, String)>)
    ensures
        match r {
            Some(h) => header_of(line@) == Some((h.0@, h.1@)),
            None => header_of(line@) is None,
        },
{
    let c = chars_of(line);
    let (_, e) = crate::text::trim_bounds(c.as_slice());
    let t = copy_range_trim_end(c.as_slice());
    match find_char_exec(t.as_slice(), ':') {
        Some(i) => {
            proof {
                crate::text::lemma_find_from(t@, seq![':'], 0);
                assert(crate::text::occurs_at(t@, seq![':'], i as int));
            }
            let tl = t.len();
            let k = copy_range(t.as_slice(), 0, i);
            let v = copy_range(t.as_slice(), i + 1, tl);
            let kt = trim_vec(k.as_slice());
            let kl = ascii_lower_vec(kt.as_slice());
            let vt = trim_vec(v.as_slice());
            Some((string_of(kl.as_slice()), string_of(vt.as_slice())))
        },
        None => None,
    }
}

fn copy_range_trim_end(s: &[char]) -> (out: Vec<char>)
    ensures
        out@ == trim_end(s@),
{
    let mut j = s.len();
    assert(s@.subrange(0, j as int) =~= s@);
    while j > 0 && crate::text::is_ws_char(s[j - 1])
        invariant
            j <= s@.len(),
            trim_end(s@) == trim_end(s@.subrange(0, j as int)),
        decreases j,
    {
        proof {
            crate::text::lemma_trim_end_step(s@, 0, j as int);
        }
        j = j - 1;
    }
    proof {
        assert(trim_end(s@.subrange(0, j as int)) == s@.subrange(0, j as int));
    }
    copy_range(s, 0, j)
}

/// The body length a request announces: its
/// `content-length` when that reads as a number, else none.
pub fn content_length(headers: &Vec<(String, String)>) -> (n: usize)
    ensures
        n == (match map_get(str_pairs(headers@), "content-length"@) {
            Some(v) => match crate::numbers::parse_usize_spec(v) {
                Some(k) => k,
                None => 0,
            },
            None => 0,
        }),
{
    match header_value(headers, "content-length") {
        Some(v) => match crate::numbers::parse_usize(v.as_slice()) {
            Some(k) => k,
            None => 0,
        },
        None => 0,
    }
}

// ---------------------------------------------------------------------------
// Status and log
// ---------------------------------------------------------------------------
/// What the relay reports (`status_from`): it runs when it listens on the
/// configured port.
pub fn status_from(config: &ModelGatewayConfig, config_path: &str, listening_port: Option<u16>) -> (s: ModelRelayStatusPayload)
    ensures
        s.enabled == config.relay.enabled,
        s.running == (listening_port == Some(config.relay.port)),
        s.port == config.relay.port,
        s.base_url@ == "http://127.0.0.1:"@ + crate::text::decimal(config.relay.port as int),
        s.config_path@ == config_path@,
{
    let mut b = chars_of("http://127.0.0.1:");
    let d = crate::text::decimal_u64(config.relay.port as u64);
    push_all(&mut b, d.as_slice());
    let running = match listening_port {
        Some(p) => p == config.relay.port,
        None => false,
    };
    ModelRelayStatusPayload {
        enabled: config.relay.enabled,
        running,
        port: config.relay.port,
        base_url: string_of(b.as_slice()),
        config_path: String::from_str(config_path),
    }
}

/// How many requests the log keeps.
pub const RELAY_LOG_LIMIT: usize = 50;

/// The log after an entry: the newest fifty entries.
pub open spec fn log_after<T>(log: Seq<T>, e: T) -> Seq<T> {
    let all = log.push(e);
    if all.len() > 50 {
        all.subrange(all.len() - 50, all.len() as int)
    } else {
        all
    }
}

/// Records a request (`push_log`), keeping the newest fifty.
pub fn push_log(logs: &mut Vec<ModelRelayLogEntry>, entry: ModelRelayLogEntry)
    ensures
        final(logs)@ == log_after(old(logs)@, entry),
{
    logs.push(entry);
    if logs.len() > RELAY_LOG_LIMIT {
        let overflow = logs.len() - RELAY_LOG_LIMIT;
        let ghost all = logs@;
        let mut i: usize = 0;
        while i < overflow
            invariant
                i <= overflow,
                overflow == all.len() - 50,
                logs@ == all.subrange(i as int, all.len() as int),
            decreases overflow - i,
        {
            logs.remove(0);
            i = i + 1;
            assert(logs@ =~= all.subrange(i as int, all.len() as int));
        }
    }
}

/// The log never holds more than fifty requests, and its newest entry is the
/// one just recorded.
pub proof fn law_log_is_bounded<T>(log: Seq<T>, e: T)
    ensures
        log_after(log, e).len() <= 50,
        log_after(log, e).last() == e,
        log.len() < 50 ==> log_after(log, e) == log.push(e),
{
}

// ---------------------------------------------------------------------------
// Laws of routing
// ---------------------------------------------------------------------------
/// A pattern without `*` is a model's exact name: it covers the model
/// exactly when the trimmed pattern equals it, so a route for one model never
/// takes requests for a longer model name that begins with it.
pub proof fn law_plain_pattern_matches_only_its_model(pattern: Seq<char>, model: Seq<char>)
    requires
        forall|i: int| 0 <= i < trim(pattern).len() ==> trim(pattern)[i] != '*',
    ensures
        pattern_matches(pattern, model) <==> trim(pattern) == model,
{
    let p = trim(pattern);
    if p == seq!['*'] {
        assert(p[0] == '*');
    }
    if p.len() > 0 {
        assert(p.last() == p[p.len() - 1]);
    }
}

/// `*` covers every model, and a pattern `prefix*` covers exactly the models
/// that begin with `prefix`.
pub proof fn law_wildcard_pattern_matches_prefix(prefix: Seq<char>, model: Seq<char>)
    requires
        trim(prefix + seq!['*']) == prefix + seq!['*'],
    ensures
        pattern_matches(prefix + seq!['*'], model) <==> (prefix.len() == 0 || (prefix.len() <= model.len()
            && model.subrange(0, prefix.len() as int) == prefix)),
{
    let p = prefix + seq!['*'];
    assert(p.last() == '*');
    assert(p.drop_last() =~= prefix);
    if prefix.len() == 0 {
        assert(p =~= seq!['*']);
    } else {
        assert(p.len() > 1);
        assert(p != seq!['*']);
    }
}

} // verus!
