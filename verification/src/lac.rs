//! The status of the local LAC control space: where it is asked and what its
//! answer means.  Sending the request is the caller's part.
use vstd::prelude::*;
use vstd::string::StringExecFns;
use crate::text::{chars_of, decimal, decimal_u64, push_all, string_of, trim, trim_vec};

verus! {

/// The control-space address used when none is configured.
pub open spec fn default_lac_url() -> Seq<char> {
    "http://127.0.0.1:20128/control/lac-control-space"@
}

/// The address in effect: the configured one, trimmed, unless it is blank.
pub open spec fn lac_url(configured: Option<Seq<char>>) -> Seq<char> {
    match configured {
        Some(v) => if trim(v).len() > 0 {
            trim(v)
        } else {
            default_lac_url()
        },
        None => default_lac_url(),
    }
}

/// The control-space address (`lac_control_space_url`), given the value of
/// `AI_STRATEGIST_LAC_CONTROL_SPACE_URL` if it is set.
pub fn lac_control_space_url(configured: Option<String>) -> (url: String)
    ensures
        url@ == lac_url(
            match configured {
                Some(v) => Some(v@),
                None => None,
            },
        ),
{
    match configured {
        Some(v) => {
            let t = trim_vec(chars_of(v.as_str()).as_slice());
            if t.len() > 0 {
                string_of(t.as_slice())
            } else {
                String::from_str("http://127.0.0.1:20128/control/lac-control-space")
            }
        },
        None => String::from_str("http://127.0.0.1:20128/control/lac-control-space"),
    }
}

/// What came of asking the control space.
pub enum LacProbe {
    /// The request could not be sent or answered; the error's text.
    Unreachable(String),
    /// An HTTP answer with this status.
    Answered(u16),
}

/// The status reported to the user; the control space's own snapshot is
/// attached by the caller when `ok` holds.
#[derive(Debug, Clone, PartialEq)]
pub struct LacStatus {
    pub ok: bool,
    pub reachable: bool,
    pub endpoint: String,
    pub status_code: Option<u16>,
    pub error: Option<String>,
}

/// The message for an answer that was not a success.
pub open spec fn lac_http_error(status: u16) -> Seq<char> {
    "LAC returned HTTP "@ + decimal(status as int)
}

/// The status for an outcome (`lac_control_space_status`): a 2xx answer is
/// reachable and ok; another answer or no answer is neither, with its error.
pub fn lac_status(endpoint: String, probe: LacProbe) -> (s: LacStatus)
    ensures
        s.endpoint@ == endpoint@,
        match probe {
            LacProbe::Unreachable(e) => !s.ok && !s.reachable && s.status_code is None && (
            match s.error {
                Some(m) => m@ == e@,
                None => false,
            }),
            LacProbe::Answered(status) => s.status_code == Some(status) && if 200 <= status
                < 300 {
                s.ok && s.reachable && s.error is None
            } else {
                !s.ok && !s.reachable && match s.error {
                    Some(m) => m@ == lac_http_error(status),
                    None => false,
                }
            },
        },
{
    match probe {
        LacProbe::Unreachable(e) => LacStatus {
            ok: false,
            reachable: false,
            endpoint,
            status_code: None,
            error: Some(e),
        },
        LacProbe::Answered(status) => {
            if status >= 200 && status < 300 {
                LacStatus { ok: true, reachable: true, endpoint, status_code: Some(status), error: None }
            } else {
                let mut m = chars_of("LAC returned HTTP ");
                push_all(&mut m, decimal_u64(status as u64).as_slice());
                LacStatus {
                    ok: false,
                    reachable: false,
                    endpoint,
                    status_code: Some(status),
                    error: Some(string_of(m.as_slice())),
                }
            }
        },
    }
}

} // verus!
