//! The Codex login file (`auth.json`) and what the app derives from it.
use vstd::prelude::*;
use vstd::string::StringExecFns;
use crate::models::{opt_str, AuthMode, CoreError, PlanType};
use crate::paths::{name_stem, slash_file_name};
use crate::text::{ascii_lower_seq, ascii_lower_vec, chars_of, eq_chars};

verus! {

#[derive(Debug, Clone, PartialEq, Default)]
pub struct AuthTokens {
    pub id_token: Option<String>,
    pub access_token: Option<String>,
    pub refresh_token: Option<String>,
    pub account_id: Option<String>,
}

#[derive(Debug, Clone, PartialEq, Default)]
pub struct AuthFile {
    pub auth_mode: Option<String>,
    pub openai_api_key: Option<String>,
    pub tokens: AuthTokens,
    pub last_refresh: Option<String>,
}

#[derive(Debug, Clone, PartialEq)]
pub struct AuthSnapshot {
    pub account_key: String,
    pub email: String,
    pub account_name: Option<String>,
    pub workspace_name: Option<String>,
    pub profile_name: Option<String>,
    pub plan: PlanType,
    pub auth_mode: AuthMode,
    pub created_at: i64,
}

#[derive(Debug, Clone)]
pub struct ApiRequestContext {
    pub api_key: String,
}

/// The current time in seconds since the Unix epoch (`Utc::now().timestamp()`).
/// Which time comes back is left open.
#[verifier::external_body]
pub fn current_timestamp() -> (t: i64) {
    chrono::Utc::now().timestamp()
}

/// The login file's fields as the app reads them (`load_auth_file`): the API
/// key is taken from `openai_api_key`, or else from `OPENAI_API_KEY`.
pub fn auth_file_from_fields(
    auth_mode: Option<String>,
    openai_api_key: Option<String>,
    upper_api_key: Option<String>,
    tokens: AuthTokens,
    last_refresh: Option<String>,
) -> (f: AuthFile)
    ensures
        opt_str(f.auth_mode) == opt_str(auth_mode),
        opt_str(f.openai_api_key) == (match openai_api_key {
            Some(k) => Some(k@),
            None => opt_str(upper_api_key),
        }),
        f.tokens == tokens,
        opt_str(f.last_refresh) == opt_str(last_refresh),
{
    let key = match openai_api_key {
        Some(k) => Some(k),
        None => upper_api_key,
    };
    AuthFile { auth_mode, openai_api_key: key, tokens, last_refresh }
}

/// The login mode a stored mode names: `chatgpt` in any ASCII case, and API
/// key login for anything else (or nothing).
pub open spec fn auth_mode_of(value: Option<Seq<char>>) -> AuthMode {
    match value {
        Some(v) => if ascii_lower_seq(v) == "chatgpt"@ {
            AuthMode::Chatgpt
        } else {
            AuthMode::Apikey
        },
        None => if ascii_lower_seq(Seq::<char>::empty()) == "chatgpt"@ {
            AuthMode::Chatgpt
        } else {
            AuthMode::Apikey
        },
    }
}

/// `normalize_auth_mode`.
pub fn normalize_auth_mode(value: Option<&str>) -> (m: AuthMode)
    ensures
        m == auth_mode_of(match value {
            Some(v) => Some(v@),
            None => None,
        }),
{
    let v = match value {
        Some(s) => chars_of(s),
        None => Vec::new(),
    };
    proof {
        if value is None {
            assert(v@ =~= Seq::<char>::empty());
        }
    }
    let l = ascii_lower_vec(v.as_slice());
    let c = chars_of("chatgpt");
    if eq_chars(l.as_slice(), c.as_slice()) {
        AuthMode::Chatgpt
    } else {
        AuthMode::Apikey
    }
}

/// The file name of a path without its extension (`Path::file_stem`), when
/// the path has one; it is a nonempty text.  Of a path written with `/` alone
/// whose last part is a name, it is the stem of that name as the
/// documentation gives it (`name_stem`); how the platform splits other paths
/// is not stated.
#[verifier::external_body]
pub(crate) fn path_file_stem(path: &str) -> (stem: Option<String>)
    ensures
        stem matches Some(s) ==> s@.len() > 0,
        slash_file_name(path@) matches Some(n) ==> opt_str(stem) == name_stem(n),
{
    std::path::Path::new(path).file_stem().and_then(|s| s.to_str()).map(|s| s.to_string())
}

/// The snapshot of a login taken at `created_at` (`make_auth_snapshot`): the
/// account key is the token's account id, or the file's stem, or `unknown`;
/// the e-mail is a placeholder for the login mode; the plan is unknown.
pub fn auth_snapshot_at(auth: &AuthFile, file_stem: Option<String>, created_at: i64) -> (s: AuthSnapshot)
    ensures
        s.auth_mode == auth_mode_of(opt_str(auth.auth_mode)),
        s.account_key@ == (match auth.tokens.account_id {
            Some(id) => id@,
            None => match file_stem {
                Some(st) => st@,
                None => "unknown"@,
            },
        }),
        s.email@ == (match s.auth_mode {
            AuthMode::Chatgpt => "unknown@chatgpt"@,
            AuthMode::Apikey => "apikey"@,
        }),
        s.account_name is None,
        s.workspace_name is None,
        s.profile_name is None,
        s.plan == PlanType::Unknown,
        s.created_at == created_at,
{
    let auth_mode = match &auth.auth_mode {
        Some(m) => normalize_auth_mode(Some(m.as_str())),
        None => normalize_auth_mode(None),
    };
    let account_key = match &auth.tokens.account_id {
        Some(id) => id.clone(),
        None => match file_stem {
            Some(st) => st,
            None => String::from_str("unknown"),
        },
    };
    let email = match auth_mode {
        AuthMode::Chatgpt => String::from_str("unknown@chatgpt"),
        AuthMode::Apikey => String::from_str("apikey"),
    };
    AuthSnapshot {
        account_key,
        email,
        account_name: None,
        workspace_name: None,
        profile_name: None,
        plan: PlanType::Unknown,
        auth_mode,
        created_at,
    }
}

/// The account key of a snapshot: the token's account id, or else the stem,
/// or else `unknown`.
pub open spec fn snapshot_key(account_id: Option<Seq<char>>, stem: Option<Seq<char>>) -> Seq<char> {
    match account_id {
        Some(id) => id,
        None => match stem {
            Some(st) => st,
            None => "unknown"@,
        },
    }
}

/// The snapshot of the login stored at `path`, taken now (`make_auth_snapshot`):
/// as `auth_snapshot_at` makes it with the path's file stem, at the current
/// time.  For a path written with `/` alone the stem is that of its last part;
/// for other paths the key is the account id, `unknown` or a nonempty stem.
pub fn make_auth_snapshot(auth: &AuthFile, path: &str) -> (r: Result<AuthSnapshot, CoreError>)
    ensures
        r matches Ok(s) && {
            &&& s.auth_mode == auth_mode_of(opt_str(auth.auth_mode))
            &&& s.email@ == (match s.auth_mode {
                AuthMode::Chatgpt => "unknown@chatgpt"@,
                AuthMode::Apikey => "apikey"@,
            })
            &&& s.account_name is None
            &&& s.workspace_name is None
            &&& s.profile_name is None
            &&& s.plan == PlanType::Unknown
            &&& (auth.tokens.account_id matches Some(id) ==> s.account_key@ == id@)
            &&& s.account_key@.len() > 0 || auth.tokens.account_id is Some
            &&& (slash_file_name(path@) matches Some(n) ==> s.account_key@ == snapshot_key(
                opt_str(auth.tokens.account_id),
                name_stem(n),
            ))
        },
{
    let stem = path_file_stem(path);
    let now = current_timestamp();
    proof {
        reveal_strlit("unknown");
    }
    Ok(auth_snapshot_at(auth, stem, now))
}

/// The context for API requests: present when the login holds an API key.
pub fn make_api_request_context(auth: &AuthFile) -> (c: Option<ApiRequestContext>)
    ensures
        match auth.openai_api_key {
            Some(k) => c matches Some(x) && x.api_key@ == k@,
            None => c is None,
        },
{
    match &auth.openai_api_key {
        Some(k) => Some(ApiRequestContext { api_key: k.clone() }),
        None => None,
    }
}

} // verus!
