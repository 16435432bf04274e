//! Settings of the API proxy, and the answers that probing it gives.
use vstd::prelude::*;
use vstd::string::StringExecFns;
use crate::auth::ApiRequestContext;
use crate::models::{ApiProxyConfigPayload, ApiProxyDetectPayload, ApiProxyMode, ApiProxyTestPayload, CoreError, opt_str};
use crate::text::{chars_of, push_str, string_of, trim, trim_vec};

verus! {

/// The proxy settings as they are stored: no URL in direct mode, and no blank
/// URL in manual mode.
pub open spec fn sanitized_url(mode: ApiProxyMode, url: Option<Seq<char>>) -> Option<Seq<char>> {
    match mode {
        ApiProxyMode::Direct => None,
        ApiProxyMode::Manual => match url {
            Some(u) => if trim(u).len() == 0 {
                None
            } else {
                Some(u)
            },
            None => None,
        },
    }
}

/// Cleans the proxy settings (`sanitize_proxy_config`); it never fails.
pub fn sanitize_proxy_config(input: &ApiProxyConfigPayload) -> (r: Result<ApiProxyConfigPayload, CoreError>)
    ensures
        r matches Ok(c) && c.mode == input.mode && opt_str(c.url) == sanitized_url(
            input.mode,
            opt_str(input.url),
        ),
{
    match input.mode {
        ApiProxyMode::Direct => Ok(ApiProxyConfigPayload { mode: ApiProxyMode::Direct, url: None }),
        ApiProxyMode::Manual => {
            match &input.url {
                Some(u) => {
                    let c = chars_of(u.as_str());
                    let t = trim_vec(c.as_slice());
                    if t.len() == 0 {
                        Ok(ApiProxyConfigPayload { mode: ApiProxyMode::Manual, url: None })
                    } else {
                        Ok(ApiProxyConfigPayload { mode: ApiProxyMode::Manual, url: Some(u.clone()) })
                    }
                },
                None => Ok(ApiProxyConfigPayload { mode: ApiProxyMode::Manual, url: None }),
            }
        },
    }
}

/// What testing the proxy settings reports (`test_api_connectivity`): direct
/// mode is reachable without a probe; manual mode is reported as set when it
/// has a URL and as unreachable when it has none.
pub fn test_api_connectivity(cfg: &ApiProxyConfigPayload, context: Option<&ApiRequestContext>) -> (p: ApiProxyTestPayload)
    ensures
        p.status_code is None,
        match cfg.mode {
            ApiProxyMode::Direct => p.code@ == "direct"@ && p.reachable && p.message@
                == "Direct mode (not probed)"@,
            ApiProxyMode::Manual => match cfg.url {
                Some(u) => p.code@ == "manual"@ && p.reachable && p.message@ == "Manual proxy set: "@
                    + u@,
                None => p.code@ == "manual_missing_url"@ && !p.reachable && p.message@
                    == "Manual proxy mode requires a URL"@,
            },
        },
{
    match cfg.mode {
        ApiProxyMode::Direct => ApiProxyTestPayload {
            code: String::from_str("direct"),
            reachable: true,
            status_code: None,
            message: String::from_str("Direct mode (not probed)"),
        },
        ApiProxyMode::Manual => {
            match &cfg.url {
                Some(u) => {
                    let mut m = chars_of("Manual proxy set: ");
                    push_str(&mut m, u.as_str());
                    ApiProxyTestPayload {
                        code: String::from_str("manual"),
                        reachable: true,
                        status_code: None,
                        message: string_of(m.as_slice()),
                    }
                },
                None => ApiProxyTestPayload {
                    code: String::from_str("manual_missing_url"),
                    reachable: false,
                    status_code: None,
                    message: String::from_str("Manual proxy mode requires a URL"),
                },
            }
        },
    }
}

/// What detecting a proxy reports (`detect_api_proxy_config`): detection is
/// skipped, so nothing is found.
pub fn detect_api_proxy_config(context: Option<&ApiRequestContext>) -> (p: ApiProxyDetectPayload)
    ensures
        !p.found,
        p.mode is None,
        p.url is None,
        p.probe.code@ == "detect_skipped"@,
        !p.probe.reachable,
        p.probe.status_code is None,
        p.probe.message@ == "Detection not implemented in open-source build"@,
{
    ApiProxyDetectPayload {
        found: false,
        mode: None,
        url: None,
        probe: ApiProxyTestPayload {
            code: String::from_str("detect_skipped"),
            reachable: false,
            status_code: None,
            message: String::from_str("Detection not implemented in open-source build"),
        },
    }
}

} // verus!
