//! The account registry (`registry.json`): one entry per saved login, and the
//! rules by which it is rebuilt from the login snapshots, kept in step with
//! the current login, cleaned of stale entries and rid of its old quota cache.
//! Reading and writing the files is the caller's part.
use vstd::prelude::*;
use vstd::string::StringExecFns;
use crate::auth::AuthSnapshot;
use crate::models::{
    opt_str, strs, AuthMode, AutoSwitchRuntimeState, AutoSwitchStatusPayload, CoreError,
    CoreWarning, FirstRunCheckItemPayload, PlanType, UsageSource,
};
use crate::paths::{join_path, joined, CodexPaths};
use crate::quota_store::{
    find_item, quota_index, upsert_item, upserted, QuotaStoreFile, QuotaStoreItem,
    QuotaStoreItemView, QuotaStoreView, RateLimitWindow,
};
use crate::repository::{ApiConfig, AutoSwitchConfig};
use crate::sorting::{
    keyed_view, lemma_insert_stable_is_insert, lemma_sort_stable_contains, lemma_sort_stable_len,
    sort_stable, sort_stable_exec,
};
use crate::text::{
    decimal, decimal_i64, lowercase, push_all, to_lowercase_chars, chars_of, clone_opt_string, eq_opt_str, eq_str, push_str, replace_char, replace_char_vec,
    string_of,
};

verus! {

/// The schema version written into the registry file.
pub const REGISTRY_SCHEMA_VERSION: i32 = 2;

// ---------------------------------------------------------------------------
// Entries
// ---------------------------------------------------------------------------
#[derive(Debug, Clone)]
pub struct RegistryItem {
    pub account_key: String,
    pub snapshot_path: String,
    pub email: String,
    pub alias: String,
    pub account_name: Option<String>,
    pub workspace_name: Option<String>,
    pub profile_name: Option<String>,
    pub plan: String,
    pub auth_mode: String,
    pub has_active_subscription: Option<bool>,
    pub subscription_expires_at: Option<i64>,
    pub subscription_will_renew: Option<bool>,
    pub created_at: i64,
    pub last_used_at: Option<i64>,
    pub last_usage_at: Option<i64>,
    pub cached_primary_window: Option<RateLimitWindow>,
    pub cached_secondary_window: Option<RateLimitWindow>,
}

/// A registry entry as plain values.
pub struct RegistryItemView {
    pub account_key: Seq<char>,
    pub snapshot_path: Seq<char>,
    pub email: Seq<char>,
    pub alias: Seq<char>,
    pub account_name: Option<Seq<char>>,
    pub workspace_name: Option<Seq<char>>,
    pub profile_name: Option<Seq<char>>,
    pub plan: Seq<char>,
    pub auth_mode: Seq<char>,
    pub has_active_subscription: Option<bool>,
    pub subscription_expires_at: Option<i64>,
    pub subscription_will_renew: Option<bool>,
    pub created_at: i64,
    pub last_used_at: Option<i64>,
    pub last_usage_at: Option<i64>,
    pub cached_primary_window: Option<RateLimitWindow>,
    pub cached_secondary_window: Option<RateLimitWindow>,
}

impl View for RegistryItem {
    type V = RegistryItemView;

    open spec fn view(&self) -> RegistryItemView {
        RegistryItemView {
            account_key: self.account_key@,
            snapshot_path: self.snapshot_path@,
            email: self.email@,
            alias: self.alias@,
            account_name: opt_str(self.account_name),
            workspace_name: opt_str(self.workspace_name),
            profile_name: opt_str(self.profile_name),
            plan: self.plan@,
            auth_mode: self.auth_mode@,
            has_active_subscription: self.has_active_subscription,
            subscription_expires_at: self.subscription_expires_at,
            subscription_will_renew: self.subscription_will_renew,
            created_at: self.created_at,
            last_used_at: self.last_used_at,
            last_usage_at: self.last_usage_at,
            cached_primary_window: self.cached_primary_window,
            cached_secondary_window: self.cached_secondary_window,
        }
    }
}

#[derive(Debug, Clone)]
pub struct RegistryFile {
    pub schema_version: i32,
    pub updated_at: i64,
    pub active_account_key: Option<String>,
    pub items: Vec<RegistryItem>,
    pub auto_switch: Option<AutoSwitchConfig>,
    pub api: Option<ApiConfig>,
}

/// The registry as plain values.
pub struct RegistryView {
    pub schema_version: i32,
    pub updated_at: i64,
    pub active_account_key: Option<Seq<char>>,
    pub items: Seq<RegistryItemView>,
    pub auto_switch: Option<AutoSwitchConfig>,
    pub api: Option<ApiConfig>,
}

/// The plain values of each entry.
pub open spec fn item_views(items: Seq<RegistryItem>) -> Seq<RegistryItemView> {
    Seq::new(items.len(), |i: int| items[i]@)
}

impl View for RegistryFile {
    type V = RegistryView;

    open spec fn view(&self) -> RegistryView {
        RegistryView {
            schema_version: self.schema_version,
            updated_at: self.updated_at,
            active_account_key: opt_str(self.active_account_key),
            items: item_views(self.items@),
            auto_switch: self.auto_switch,
            api: self.api,
        }
    }
}

// ---------------------------------------------------------------------------
// Entries made from a login snapshot
// ---------------------------------------------------------------------------
/// The plan as the registry writes it: the variant's name in lower case.
pub open spec fn plan_label(p: PlanType) -> Seq<char> {
    match p {
        PlanType::Free => "free"@,
        PlanType::Plus => "plus"@,
        PlanType::Pro5x => "pro5x"@,
        PlanType::Pro20x => "pro20x"@,
        PlanType::Team => "team"@,
        PlanType::Business => "business"@,
        PlanType::Enterprise => "enterprise"@,
        PlanType::Edu => "edu"@,
        PlanType::Unknown => "unknown"@,
    }
}

/// The login mode as the registry writes it.
pub open spec fn auth_mode_label(m: AuthMode) -> Seq<char> {
    match m {
        AuthMode::Chatgpt => "chatgpt"@,
        AuthMode::Apikey => "apikey"@,
    }
}

/// The plan's name in lower case (`format!("{:?}", plan).to_lowercase()`).
pub fn plan_label_exec(p: PlanType) -> (s: &'static str)
    ensures
        s@ == plan_label(p),
{
    match p {
        PlanType::Free => "free",
        PlanType::Plus => "plus",
        PlanType::Pro5x => "pro5x",
        PlanType::Pro20x => "pro20x",
        PlanType::Team => "team",
        PlanType::Business => "business",
        PlanType::Enterprise => "enterprise",
        PlanType::Edu => "edu",
        PlanType::Unknown => "unknown",
    }
}

/// The login mode's name in lower case.
pub fn auth_mode_label_exec(m: AuthMode) -> (s: &'static str)
    ensures
        s@ == auth_mode_label(m),
{
    match m {
        AuthMode::Chatgpt => "chatgpt",
        AuthMode::Apikey => "apikey",
    }
}

/// The entry made for a login snapshot stored at `snapshot_path`: no alias,
/// no subscription facts, no usage and no cached windows.
pub open spec fn fresh_item(s: AuthSnapshot, snapshot_path: Seq<char>, last_used_at: Option<i64>) -> RegistryItemView {
    RegistryItemView {
        account_key: s.account_key@,
        snapshot_path,
        email: s.email@,
        alias: Seq::empty(),
        account_name: opt_str(s.account_name),
        workspace_name: opt_str(s.workspace_name),
        profile_name: opt_str(s.profile_name),
        plan: plan_label(s.plan),
        auth_mode: auth_mode_label(s.auth_mode),
        has_active_subscription: None,
        subscription_expires_at: None,
        subscription_will_renew: None,
        created_at: s.created_at,
        last_used_at,
        last_usage_at: None,
        cached_primary_window: None,
        cached_secondary_window: None,
    }
}

/// Makes the entry for a login snapshot.
pub fn new_registry_item(s: &AuthSnapshot, snapshot_path: &str, last_used_at: Option<i64>) -> (item: RegistryItem)
    ensures
        item@ == fresh_item(*s, snapshot_path@, last_used_at),
{
    RegistryItem {
        account_key: s.account_key.clone(),
        snapshot_path: String::from_str(snapshot_path),
        email: s.email.clone(),
        alias: String::new(),
        account_name: clone_opt_string(&s.account_name),
        workspace_name: clone_opt_string(&s.workspace_name),
        profile_name: clone_opt_string(&s.profile_name),
        plan: String::from_str(plan_label_exec(s.plan)),
        auth_mode: String::from_str(auth_mode_label_exec(s.auth_mode)),
        has_active_subscription: None,
        subscription_expires_at: None,
        subscription_will_renew: None,
        created_at: s.created_at,
        last_used_at,
        last_usage_at: None,
        cached_primary_window: None,
        cached_secondary_window: None,
    }
}

/// The file name of an account's snapshot: the key with `@`, `/` and `:`
/// replaced by `_`, and `.json` after it.
pub open spec fn snapshot_file_name(account_key: Seq<char>) -> Seq<char> {
    replace_char(
        replace_char(replace_char(account_key, '@', seq!['_']), '/', seq!['_']),
        ':',
        seq!['_'],
    ) + ".json"@
}

/// The snapshot file name for an account key.
pub fn snapshot_file_name_exec(account_key: &str) -> (name: String)
    ensures
        name@ == snapshot_file_name(account_key@),
{
    let u = ['_'];
    let a = replace_char_vec(chars_of(account_key).as_slice(), '@', u.as_slice());
    let b = replace_char_vec(a.as_slice(), '/', u.as_slice());
    let mut c = replace_char_vec(b.as_slice(), ':', u.as_slice());
    assert(u@ =~= seq!['_']);
    push_str(&mut c, ".json");
    string_of(c.as_slice())
}

/// Where an account's login snapshot is kept: its file name in the
/// snapshots directory.  The name holds no `/` and no `:`, so when it does not
/// begin with `\` the path is the directory, a separator and the name.
pub fn make_snapshot_path(paths: &CodexPaths, account_key: &str) -> (path: String)
    ensures
        snapshot_file_name(account_key@).len() == 0 || snapshot_file_name(account_key@)[0] != '\\'
            ==> joined(paths.snapshots_dir@, snapshot_file_name(account_key@), path@),
{
    let name = snapshot_file_name_exec(account_key);
    proof {
        lemma_snapshot_name_is_relative(account_key@);
    }
    join_path(paths.snapshots_dir.as_str(), name.as_str())
}

proof fn lemma_replace_char_drops(s: Seq<char>, from: char, to: Seq<char>, c: char)
    requires
        forall|i: int| 0 <= i < to.len() ==> to[i] != c,
        from == c || forall|i: int| 0 <= i < s.len() ==> s[i] != c,
    ensures
        forall|i: int| 0 <= i < replace_char(s, from, to).len() ==> replace_char(s, from, to)[i]
            != c,
    decreases s.len(),
{
    if s.len() > 0 {
        lemma_replace_char_drops(s.drop_first(), from, to, c);
        let head = if s[0] == from {
            to
        } else {
            seq![s[0]]
        };
        assert(replace_char(s, from, to) == head + replace_char(s.drop_first(), from, to));
        assert(s[0] == s[0]);
    }
}

proof fn lemma_replace_char_keeps(s: Seq<char>, from: char, to: Seq<char>, c: char)
    requires
        forall|i: int| 0 <= i < to.len() ==> to[i] != c,
        forall|i: int| 0 <= i < s.len() ==> s[i] != c,
    ensures
        forall|i: int| 0 <= i < replace_char(s, from, to).len() ==> replace_char(s, from, to)[i]
            != c,
{
    lemma_replace_char_drops(s, from, to, c);
}

proof fn lemma_snapshot_name_is_relative(k: Seq<char>)
    ensures
        snapshot_file_name(k).len() == 0 || snapshot_file_name(k)[0] != '\\' ==> (
        snapshot_file_name(k).len() == 0 || (snapshot_file_name(k)[0] != '/'
            && snapshot_file_name(k)[0] != '\\')) && forall|i: int|
            0 <= i < snapshot_file_name(k).len() ==> snapshot_file_name(k)[i] != ':',
{
    let u = seq!['_'];
    let a = replace_char(k, '@', u);
    let b = replace_char(a, '/', u);
    let c = replace_char(b, ':', u);
    let n = c + ".json"@;
    reveal_strlit(".json");
    lemma_replace_char_drops(b, ':', u, ':');
    lemma_replace_char_drops(a, '/', u, '/');
    lemma_replace_char_keeps(b, ':', u, '/');
    assert forall|i: int| 0 <= i < n.len() implies n[i] != ':' by {
        if i >= c.len() {
            assert(n[i] == ".json"@[i - c.len()]);
        }
    }
    if c.len() > 0 {
        assert(n[0] == c[0]);
        assert(c[0] != '/');
    } else {
        assert(n[0] == '.');
    }
}

// ---------------------------------------------------------------------------
// Looking entries up
// ---------------------------------------------------------------------------
/// The position of the first entry for `key`.
pub open spec fn item_index(items: Seq<RegistryItemView>, key: Seq<char>) -> Option<int>
    decreases items.len(),
{
    if items.len() == 0 {
        None
    } else if items[0].account_key == key {
        Some(0)
    } else {
        match item_index(items.drop_first(), key) {
            Some(i) => Some(i + 1),
            None => None,
        }
    }
}

pub proof fn lemma_item_index(items: Seq<RegistryItemView>, key: Seq<char>)
    ensures
        match item_index(items, key) {
            Some(i) => 0 <= i < items.len() && items[i].account_key == key && forall|j: int|
                0 <= j < i ==> items[j].account_key != key,
            None => forall|j: int| 0 <= j < items.len() ==> items[j].account_key != key,
        },
    decreases items.len(),
{
    if items.len() > 0 {
        lemma_item_index(items.drop_first(), key);
        assert forall|j: int| 1 <= j < items.len() implies items[j] == items.drop_first()[j - 1] by {}
    }
}

/// The earlier entry for `key` in an earlier registry, if there was one.
pub open spec fn previous_entry(prev: Option<RegistryView>, key: Seq<char>) -> Option<RegistryItemView> {
    match prev {
        Some(r) => match item_index(r.items, key) {
            Some(i) => Some(r.items[i]),
            None => None,
        },
        None => None,
    }
}

fn item_index_exec(items: &Vec<RegistryItem>, key: &str) -> (r: Option<usize>)
    ensures
        match r {
            Some(i) => i < items@.len() && item_index(item_views(items@), key@) == Some(i as int),
            None => item_index(item_views(items@), key@) is None,
        },
{
    let ghost vs = item_views(items@);
    let mut i: usize = 0;
    assert(vs.subrange(0, vs.len() as int) =~= vs);
    while i < items.len()
        invariant
            i <= items@.len(),
            vs == item_views(items@),
            item_index(vs, key@) == (match item_index(vs.subrange(i as int, vs.len() as int), key@) {
                Some(k) => Some(k + i),
                None => None,
            }),
        decreases items@.len() - i,
    {
        let ghost rest = vs.subrange(i as int, vs.len() as int);
        assert(rest[0] == items@[i as int]@);
        assert(rest.drop_first() =~= vs.subrange(i + 1, vs.len() as int));
        if eq_str(items[i].account_key.as_str(), key) {
            return Some(i);
        }
        i = i + 1;
    }
    None
}

/// The entry for `account_key` in an earlier registry: its first one.
pub fn prev_item<'a>(registry: Option<&'a RegistryFile>, account_key: &str) -> (r: Option<&'a RegistryItem>)
    ensures
        match r {
            Some(it) => previous_entry(
                match registry {
                    Some(g) => Some(g@),
                    None => None,
                },
                account_key@,
            ) == Some(it@),
            None => previous_entry(
                match registry {
                    Some(g) => Some(g@),
                    None => None,
                },
                account_key@,
            ) is None,
        },
{
    match registry {
        Some(g) => match item_index_exec(&g.items, account_key) {
            Some(i) => Some(&g.items[i]),
            None => None,
        },
        None => None,
    }
}

// ---------------------------------------------------------------------------
// Carrying state over from an earlier entry
// ---------------------------------------------------------------------------
/// The later of a new and an earlier time, where the earlier one is known.
pub open spec fn latest(new: Option<i64>, earlier: Option<i64>) -> Option<i64> {
    match earlier {
        Some(p) => Some(
            match new {
                Some(x) => if x >= p {
                    x
                } else {
                    p
                },
                None => p,
            },
        ),
        None => new,
    }
}

/// The entry after taking over what an earlier entry for the account knew:
/// its alias where the new one has none, names the new one lacks, the
/// subscription facts and cached windows it had, and the later of the use
/// times.
pub open spec fn carried(item: RegistryItemView, previous: Option<RegistryItemView>) -> RegistryItemView {
    match previous {
        None => item,
        Some(p) => RegistryItemView {
            alias: if item.alias.len() == 0 && p.alias.len() > 0 {
                p.alias
            } else {
                item.alias
            },
            account_name: if item.account_name is None {
                p.account_name
            } else {
                item.account_name
            },
            workspace_name: if item.workspace_name is None {
                p.workspace_name
            } else {
                item.workspace_name
            },
            profile_name: if item.profile_name is None {
                p.profile_name
            } else {
                item.profile_name
            },
            has_active_subscription: if p.has_active_subscription is Some {
                p.has_active_subscription
            } else {
                item.has_active_subscription
            },
            subscription_expires_at: if p.subscription_expires_at is Some {
                p.subscription_expires_at
            } else {
                item.subscription_expires_at
            },
            subscription_will_renew: if p.subscription_will_renew is Some {
                p.subscription_will_renew
            } else {
                item.subscription_will_renew
            },
            last_used_at: latest(item.last_used_at, p.last_used_at),
            last_usage_at: latest(item.last_usage_at, p.last_usage_at),
            cached_primary_window: if p.cached_primary_window is Some {
                p.cached_primary_window
            } else {
                item.cached_primary_window
            },
            cached_secondary_window: if p.cached_secondary_window is Some {
                p.cached_secondary_window
            } else {
                item.cached_secondary_window
            },
            ..item
        },
    }
}

fn latest_exec(new: Option<i64>, earlier: Option<i64>) -> (r: Option<i64>)
    ensures
        r == latest(new, earlier),
{
    match earlier {
        Some(p) => Some(
            match new {
                Some(x) => if x >= p {
                    x
                } else {
                    p
                },
                None => p,
            },
        ),
        None => new,
    }
}

/// Takes over into `item` what the earlier entry for its account knew.
pub fn carry_over_registry_state(item: &mut RegistryItem, previous: Option<&RegistryItem>)
    ensures
        final(item)@ == carried(
            old(item)@,
            match previous {
                Some(p) => Some(p@),
                None => None,
            },
        ),
{
    let previous = match previous {
        Some(p) => p,
        None => return ,
    };
    if item.alias.as_str().is_empty() && !previous.alias.as_str().is_empty() {
        item.alias = previous.alias.clone();
    }
    if item.account_name.is_none() {
        item.account_name = clone_opt_string(&previous.account_name);
    }
    if item.workspace_name.is_none() {
        item.workspace_name = clone_opt_string(&previous.workspace_name);
    }
    if item.profile_name.is_none() {
        item.profile_name = clone_opt_string(&previous.profile_name);
    }
    if previous.has_active_subscription.is_some() {
        item.has_active_subscription = previous.has_active_subscription;
    }
    if previous.subscription_expires_at.is_some() {
        item.subscription_expires_at = previous.subscription_expires_at;
    }
    if previous.subscription_will_renew.is_some() {
        item.subscription_will_renew = previous.subscription_will_renew;
    }
    item.last_used_at = latest_exec(item.last_used_at, previous.last_used_at);
    item.last_usage_at = latest_exec(item.last_usage_at, previous.last_usage_at);
    if previous.cached_primary_window.is_some() {
        item.cached_primary_window = previous.cached_primary_window;
    }
    if previous.cached_secondary_window.is_some() {
        item.cached_secondary_window = previous.cached_secondary_window;
    }
}


// ---------------------------------------------------------------------------
// Order of the entries
// ---------------------------------------------------------------------------
/// Each entry keyed by its e-mail address in lower case.
pub open spec fn email_keyed(items: Seq<RegistryItemView>) -> Seq<(Seq<char>, RegistryItemView)> {
    Seq::new(items.len(), |i: int| (lowercase(items[i].email), items[i]))
}

/// The entries ordered by lower-cased e-mail address, entries with equal
/// addresses in their earlier order (a stable sort).
pub open spec fn sorted_by_email(items: Seq<RegistryItemView>) -> Seq<RegistryItemView> {
    let s = sort_stable(email_keyed(items));
    Seq::new(s.len(), |i: int| s[i].1)
}

/// Orders the entries by lower-cased e-mail address, keeping the order of
/// entries with equal addresses.
pub fn sort_items_by_email(items: Vec<RegistryItem>) -> (out: Vec<RegistryItem>)
    ensures
        item_views(out@) == sorted_by_email(item_views(items@)),
{
    let ghost orig = item_views(items@);
    let mut rest = items;
    let mut keyed: Vec<(Vec<char>, RegistryItem)> = Vec::new();
    let ghost mut i: int = 0;
    proof {
        assert(item_views(rest@) =~= orig.subrange(0, orig.len() as int));
        assert(keyed_view(keyed@) =~= email_keyed(orig).subrange(0, 0));
    }
    while rest.len() > 0
        invariant
            0 <= i <= orig.len(),
            item_views(rest@) == orig.subrange(i, orig.len() as int),
            keyed_view(keyed@) == email_keyed(orig).subrange(0, i),
        decreases rest@.len(),
    {
        let ghost old_rest = rest@;
        proof {
            assert(item_views(old_rest).len() == old_rest.len());
            assert(i < orig.len());
            assert(item_views(old_rest)[0] == orig.subrange(i, orig.len() as int)[0]);
        }
        let it = rest.remove(0);
        proof {
            assert forall|j: int| 0 <= j < rest@.len() implies item_views(rest@)[j] == orig[i + 1
                + j] by {
                assert(rest@[j] == old_rest[j + 1]);
                assert(item_views(old_rest)[j + 1] == orig.subrange(i, orig.len() as int)[j + 1]);
            }
            assert(item_views(rest@) =~= orig.subrange(i + 1, orig.len() as int));
        }
        let key = to_lowercase_chars(chars_of(it.email.as_str()).as_slice());
        let ghost before = keyed_view(keyed@);
        keyed.push((key, it));
        proof {
            assert(keyed_view(keyed@) =~= before.push((key@, it@)));
            assert(keyed_view(keyed@) =~= email_keyed(orig).subrange(0, i + 1));
            i = i + 1;
        }
    }
    proof {
        assert(email_keyed(orig).subrange(0, i) =~= email_keyed(orig));
    }
    let sorted = sort_stable_exec(keyed);
    let ghost target = sort_stable(email_keyed(orig));
    let mut rest2 = sorted;
    let mut out: Vec<RegistryItem> = Vec::new();
    let ghost mut k: int = 0;
    proof {
        assert(keyed_view(rest2@) =~= target.subrange(0, target.len() as int));
    }
    while rest2.len() > 0
        invariant
            0 <= k <= target.len(),
            keyed_view(rest2@) == target.subrange(k, target.len() as int),
            item_views(out@) == Seq::new(k as nat, |j: int| target[j].1),
        decreases rest2@.len(),
    {
        let ghost old_rest = rest2@;
        proof {
            assert(keyed_view(old_rest).len() == old_rest.len());
            assert(k < target.len());
            assert(keyed_view(old_rest)[0] == target.subrange(k, target.len() as int)[0]);
        }
        let pair = rest2.remove(0);
        let it = pair.1;
        proof {
            assert(pair == old_rest[0]);
            assert(it@ == target[k].1);
        }
        proof {
            assert forall|j: int| 0 <= j < rest2@.len() implies keyed_view(rest2@)[j] == target[k
                + 1 + j] by {
                assert(rest2@[j] == old_rest[j + 1]);
                assert(keyed_view(old_rest)[j + 1] == target.subrange(k, target.len() as int)[j
                    + 1]);
            }
            assert(keyed_view(rest2@) =~= target.subrange(k + 1, target.len() as int));
        }
        let ghost before = item_views(out@);
        out.push(it);
        proof {
            assert(item_views(out@) =~= before.push(it@));
            assert(item_views(out@) =~= Seq::new((k + 1) as nat, |j: int| target[j].1));
            k = k + 1;
        }
    }
    out
}

// ---------------------------------------------------------------------------
// Rebuilding the registry from the login snapshots
// ---------------------------------------------------------------------------
/// The auto-switch settings with nothing stored: off, both thresholds 0.
pub open spec fn default_auto_switch() -> AutoSwitchConfig {
    AutoSwitchConfig { enabled: false, threshold_5h_percent: 0, threshold_weekly_percent: 0 }
}

/// The API settings with nothing stored: both refreshes on.
pub open spec fn default_api() -> ApiConfig {
    ApiConfig { usage_refresh_enabled: true, account_metadata_refresh_enabled: true }
}

/// The earlier registry's auto-switch settings, or the defaults.
pub open spec fn kept_auto_switch(prev: Option<RegistryView>) -> Option<AutoSwitchConfig> {
    match prev {
        Some(r) => match r.auto_switch {
            Some(a) => Some(a),
            None => Some(default_auto_switch()),
        },
        None => Some(default_auto_switch()),
    }
}

/// The earlier registry's API settings, or the defaults.
pub open spec fn kept_api(prev: Option<RegistryView>) -> Option<ApiConfig> {
    match prev {
        Some(r) => match r.api {
            Some(a) => Some(a),
            None => Some(default_api()),
        },
        None => Some(default_api()),
    }
}

/// The entries after adding each stored snapshot, in order, whose account has
/// no entry yet; each takes over what the earlier registry knew of it.
pub open spec fn with_snapshots(
    items: Seq<RegistryItemView>,
    prev: Option<RegistryView>,
    found: Seq<(AuthSnapshot, String)>,
) -> Seq<RegistryItemView>
    decreases found.len(),
{
    if found.len() == 0 {
        items
    } else {
        let before = with_snapshots(items, prev, found.drop_last());
        let c = found.last();
        if item_index(before, c.0.account_key@) is Some {
            before
        } else {
            before.push(
                carried(fresh_item(c.0, c.1@, None), previous_entry(prev, c.0.account_key@)),
            )
        }
    }
}

/// The entry for the current login, if it could be read: used at `used_at`,
/// with what the earlier registry knew of the account.
pub open spec fn current_entries(
    prev: Option<RegistryView>,
    current: Option<(AuthSnapshot, String)>,
    used_at: i64,
) -> Seq<RegistryItemView> {
    match current {
        Some(c) => seq![
            carried(fresh_item(c.0, c.1@, Some(used_at)), previous_entry(prev, c.0.account_key@)),
        ],
        None => Seq::empty(),
    }
}

/// The registry rebuilt from the current login and the stored snapshots: the
/// current login first and active, then each snapshot of another account, all
/// ordered by e-mail address; the settings are kept from the earlier registry.
pub open spec fn rebuilt(
    prev: Option<RegistryView>,
    current: Option<(AuthSnapshot, String)>,
    found: Seq<(AuthSnapshot, String)>,
    updated_at: i64,
    used_at: i64,
) -> RegistryView {
    RegistryView {
        schema_version: REGISTRY_SCHEMA_VERSION,
        updated_at,
        active_account_key: match current {
            Some(c) => Some(c.0.account_key@),
            None => None,
        },
        items: sorted_by_email(
            with_snapshots(current_entries(prev, current, used_at), prev, found),
        ),
        auto_switch: kept_auto_switch(prev),
        api: kept_api(prev),
    }
}

/// Rebuilds the registry.  `current` is the login read from `auth.json` with
/// the path its snapshot was copied to; `found` holds the snapshots read from
/// the snapshots directory, in the order they were listed, with their paths.
/// The registry was written at `updated_at` and the current login used at
/// `used_at`.
pub fn rebuild_registry_state(
    prev: Option<&RegistryFile>,
    current: Option<(AuthSnapshot, String)>,
    found: Vec<(AuthSnapshot, String)>,
    updated_at: i64,
    used_at: i64,
) -> (r: RegistryFile)
    ensures
        r@ == rebuilt(
            match prev {
                Some(g) => Some(g@),
                None => None,
            },
            current,
            found@,
            updated_at,
            used_at,
        ),
{
    let ghost pv = match prev {
        Some(g) => Some(g@),
        None => None,
    };
    let auto_switch = match prev {
        Some(g) => match g.auto_switch {
            Some(a) => Some(a),
            None => Some(AutoSwitchConfig { enabled: false, threshold_5h_percent: 0, threshold_weekly_percent: 0 }),
        },
        None => Some(AutoSwitchConfig { enabled: false, threshold_5h_percent: 0, threshold_weekly_percent: 0 }),
    };
    let api = match prev {
        Some(g) => match g.api {
            Some(a) => Some(a),
            None => Some(ApiConfig { usage_refresh_enabled: true, account_metadata_refresh_enabled: true }),
        },
        None => Some(ApiConfig { usage_refresh_enabled: true, account_metadata_refresh_enabled: true }),
    };
    let mut items: Vec<RegistryItem> = Vec::new();
    let mut active_account_key: Option<String> = None;
    match &current {
        Some(c) => {
            let mut item = new_registry_item(&c.0, c.1.as_str(), Some(used_at));
            carry_over_registry_state(&mut item, prev_item(prev, c.0.account_key.as_str()));
            items.push(item);
            active_account_key = Some(c.0.account_key.clone());
        },
        None => {},
    }
    proof {
        assert(item_views(items@) =~= current_entries(pv, current, used_at));
    }
    let mut i: usize = 0;
    while i < found.len()
        invariant
            i <= found@.len(),
            pv == match prev {
                Some(g) => Some(g@),
                None => None,
            },
            item_views(items@) == with_snapshots(
                current_entries(pv, current, used_at),
                pv,
                found@.subrange(0, i as int),
            ),
        decreases found@.len() - i,
    {
        proof {
            assert(found@.subrange(0, i + 1).drop_last() =~= found@.subrange(0, i as int));
        }
        let c = &found[i];
        if item_index_exec(&items, c.0.account_key.as_str()).is_none() {
            let mut item = new_registry_item(&c.0, c.1.as_str(), None);
            carry_over_registry_state(&mut item, prev_item(prev, c.0.account_key.as_str()));
            let ghost before = item_views(items@);
            items.push(item);
            proof {
                assert(item_views(items@) =~= before.push(item@));
            }
        }
        i = i + 1;
    }
    proof {
        assert(found@.subrange(0, i as int) =~= found@);
    }
    let items = sort_items_by_email(items);
    RegistryFile {
        schema_version: REGISTRY_SCHEMA_VERSION,
        updated_at,
        active_account_key,
        items,
        auto_switch,
        api,
    }
}


/// A copy of an entry.
pub fn copy_item(it: &RegistryItem) -> (out: RegistryItem)
    ensures
        out@ == it@,
{
    RegistryItem {
        account_key: it.account_key.clone(),
        snapshot_path: it.snapshot_path.clone(),
        email: it.email.clone(),
        alias: it.alias.clone(),
        account_name: clone_opt_string(&it.account_name),
        workspace_name: clone_opt_string(&it.workspace_name),
        profile_name: clone_opt_string(&it.profile_name),
        plan: it.plan.clone(),
        auth_mode: it.auth_mode.clone(),
        has_active_subscription: it.has_active_subscription,
        subscription_expires_at: it.subscription_expires_at,
        subscription_will_renew: it.subscription_will_renew,
        created_at: it.created_at,
        last_used_at: it.last_used_at,
        last_usage_at: it.last_usage_at,
        cached_primary_window: it.cached_primary_window,
        cached_secondary_window: it.cached_secondary_window,
    }
}

// ---------------------------------------------------------------------------
// Keeping the registry in step with the current login
// ---------------------------------------------------------------------------
/// An account's entry brought up to date with its current login: snapshot
/// path, address, names, plan and login mode are taken from the login (the
/// workspace name only where the entry has none), and an entry never used
/// counts as used `now`.
pub open spec fn synced_entry(it: RegistryItemView, cur: AuthSnapshot, path: Seq<char>, now: i64) -> RegistryItemView {
    RegistryItemView {
        snapshot_path: path,
        email: cur.email@,
        account_name: opt_str(cur.account_name),
        workspace_name: if it.workspace_name is None && cur.workspace_name is Some {
            opt_str(cur.workspace_name)
        } else {
            it.workspace_name
        },
        profile_name: opt_str(cur.profile_name),
        plan: plan_label(cur.plan),
        auth_mode: auth_mode_label(cur.auth_mode),
        last_used_at: if it.last_used_at is None {
            Some(now)
        } else {
            it.last_used_at
        },
        ..it
    }
}

/// The registry after taking in the current login, and whether it changed:
/// the account's first entry is brought up to date, or a new entry is added,
/// and the account becomes the active one.  The registry counts as changed
/// when the snapshot file was rewritten, an entry changed or the active
/// account changed; a changed registry is reordered by e-mail address and
/// stamped `now`.
pub open spec fn synced(
    r: RegistryView,
    cur: AuthSnapshot,
    path: Seq<char>,
    snapshot_rewritten: bool,
    now: i64,
) -> (RegistryView, bool) {
    let key = cur.account_key@;
    let items = match item_index(r.items, key) {
        Some(i) => r.items.update(i, synced_entry(r.items[i], cur, path, now)),
        None => r.items.push(fresh_item(cur, path, Some(now))),
    };
    let changed = snapshot_rewritten || items != r.items || r.active_account_key != Some(key);
    if changed {
        (
            RegistryView {
                items: sorted_by_email(items),
                updated_at: now,
                active_account_key: Some(key),
                ..r
            },
            true,
        )
    } else {
        (r, false)
    }
}

/// Takes the current login into the registry.  `snapshot_path` is where the
/// login's snapshot is kept and `snapshot_rewritten` whether it had to be
/// written because it differed from `auth.json`.  Returns whether the
/// registry changed (and so is to be saved).
pub fn sync_current_auth_into_registry(
    registry: &mut RegistryFile,
    current: &AuthSnapshot,
    snapshot_path: &str,
    snapshot_rewritten: bool,
    now: i64,
) -> (changed: bool)
    ensures
        (final(registry)@, changed) == synced(
            old(registry)@,
            *current,
            snapshot_path@,
            snapshot_rewritten,
            now,
        ),
{
    let ghost r0 = registry@;
    let ghost key = current.account_key@;
    let plan = plan_label_exec(current.plan);
    let auth_mode = auth_mode_label_exec(current.auth_mode);
    let mut changed = snapshot_rewritten;
    let ghost items1;
    match item_index_exec(&registry.items, current.account_key.as_str()) {
        Some(i) => {
            let mut e = copy_item(&registry.items[i]);
            let ghost e0 = e@;
            let mut entry_changed = false;
            if !eq_str(e.snapshot_path.as_str(), snapshot_path) {
                e.snapshot_path = String::from_str(snapshot_path);
                entry_changed = true;
            }
            if !eq_str(e.email.as_str(), current.email.as_str()) {
                e.email = current.email.clone();
                entry_changed = true;
            }
            if !eq_opt_str(&e.account_name, &current.account_name) {
                e.account_name = clone_opt_string(&current.account_name);
                entry_changed = true;
            }
            if e.workspace_name.is_none() && current.workspace_name.is_some() {
                e.workspace_name = clone_opt_string(&current.workspace_name);
                entry_changed = true;
            }
            if !eq_opt_str(&e.profile_name, &current.profile_name) {
                e.profile_name = clone_opt_string(&current.profile_name);
                entry_changed = true;
            }
            if !eq_str(e.plan.as_str(), plan) {
                e.plan = String::from_str(plan);
                entry_changed = true;
            }
            if !eq_str(e.auth_mode.as_str(), auth_mode) {
                e.auth_mode = String::from_str(auth_mode);
                entry_changed = true;
            }
            if e.last_used_at.is_none() {
                e.last_used_at = Some(now);
                entry_changed = true;
            }
            proof {
                assert(e@ == synced_entry(e0, *current, snapshot_path@, now));
                assert(entry_changed == (e@ != e0));
                items1 = r0.items.update(i as int, e@);
                if !entry_changed {
                    assert(items1 =~= r0.items);
                } else {
                    assert(items1[i as int] != r0.items[i as int]);
                }
            }
            registry.items[i] = e;
            proof {
                assert(item_views(registry.items@) =~= items1);
            }
            changed = changed || entry_changed;
        },
        None => {
            let e = new_registry_item(current, snapshot_path, Some(now));
            proof {
                items1 = r0.items.push(e@);
                assert(items1.len() != r0.items.len());
            }
            registry.items.push(e);
            proof {
                assert(item_views(registry.items@) =~= items1);
            }
            changed = true;
        },
    }
    let same_active = match &registry.active_account_key {
        Some(k) => eq_str(k.as_str(), current.account_key.as_str()),
        None => false,
    };
    if !same_active {
        registry.active_account_key = Some(current.account_key.clone());
        changed = true;
    }
    if changed {
        let mut items: Vec<RegistryItem> = Vec::new();
        std::mem::swap(&mut items, &mut registry.items);
        registry.items = sort_items_by_email(items);
        registry.updated_at = now;
    }
    changed
}

// ---------------------------------------------------------------------------
// Moving the old per-entry quota cache into the quota store
// ---------------------------------------------------------------------------
/// The entry still carries a cached usage window.
pub open spec fn has_cached_windows(it: RegistryItemView) -> bool {
    it.cached_primary_window is Some || it.cached_secondary_window is Some
}

/// When an entry's cached windows were captured: its last usage, else its
/// last use, else its creation.
pub open spec fn captured_at_of(it: RegistryItemView) -> i64 {
    match it.last_usage_at {
        Some(t) => t,
        None => match it.last_used_at {
            Some(t) => t,
            None => it.created_at,
        },
    }
}

/// The quota-store item made from an entry's cached windows.
pub open spec fn migrated_entry(it: RegistryItemView) -> QuotaStoreItemView {
    QuotaStoreItemView {
        account_key: it.account_key,
        captured_at: captured_at_of(it),
        usage_source: UsageSource::Api,
        primary_window: it.cached_primary_window,
        secondary_window: it.cached_secondary_window,
        token_status: None,
    }
}

/// The entry without its cached windows.
pub open spec fn without_windows(it: RegistryItemView) -> RegistryItemView {
    RegistryItemView { cached_primary_window: None, cached_secondary_window: None, ..it }
}

/// Every entry without its cached windows.
pub open spec fn cleared_windows(items: Seq<RegistryItemView>) -> Seq<RegistryItemView> {
    Seq::new(items.len(), |k: int| without_windows(items[k]))
}

/// The store after moving in, entry by entry, the cached windows of each
/// entry whose account the store does not know yet; and whether it changed.
pub open spec fn migrated_store(items: Seq<RegistryItemView>, s: QuotaStoreView, now: i64) -> (
    QuotaStoreView,
    bool,
)
    decreases items.len(),
{
    if items.len() == 0 {
        (s, false)
    } else {
        let (before, ch) = migrated_store(items.drop_last(), s, now);
        let it = items.last();
        if has_cached_windows(it) && quota_index(before.items, it.account_key) is None {
            let (after, c2) = upserted(before, migrated_entry(it), now);
            (after, ch || c2)
        } else {
            (before, ch)
        }
    }
}

/// Moves the windows cached in registry entries into the quota store, where
/// the store has nothing for the account yet, and drops them from the
/// entries.  Returns whether the store changed and whether the registry
/// changed; a changed registry is stamped `now`.
pub fn sync_legacy_registry_quota_into_store(
    registry: &mut RegistryFile,
    quota_store: &mut QuotaStoreFile,
    now: i64,
) -> (r: (bool, bool))
    ensures
        (final(quota_store)@, r.0) == migrated_store(old(registry)@.items, old(quota_store)@, now),
        r.1 == exists|j: int|
            0 <= j < old(registry)@.items.len() && has_cached_windows(
                #[trigger] old(registry)@.items[j],
            ),
        final(registry)@ == (RegistryView {
            items: cleared_windows(old(registry)@.items),
            updated_at: if r.1 {
                now
            } else {
                old(registry)@.updated_at
            },
            ..old(registry)@
        }),
{
    let ghost r0 = registry@;
    let ghost s0 = quota_store@;
    let ghost orig = r0.items;
    let n = registry.items.len();
    let mut quota_changed = false;
    let mut registry_changed = false;
    let mut i: usize = 0;
    proof {
        assert(orig.take(0) =~= Seq::<RegistryItemView>::empty());
        assert(item_views(registry.items@) =~= Seq::new(
            n as nat,
            |j: int| if j < 0 {
                without_windows(orig[j])
            } else {
                orig[j]
            },
        ));
    }
    while i < n
        invariant
            i <= n,
            n == registry.items@.len(),
            n == orig.len(),
            registry@ == (RegistryView { items: registry@.items, ..r0 }),
            item_views(registry.items@) == Seq::new(
                n as nat,
                |j: int| if j < i {
                    without_windows(orig[j])
                } else {
                    orig[j]
                },
            ),
            (quota_store@, quota_changed) == migrated_store(orig.take(i as int), s0, now),
            registry_changed == exists|j: int| 0 <= j < i && has_cached_windows(#[trigger] orig[j]),
        decreases n - i,
    {
        proof {
            assert(orig.take(i + 1).drop_last() =~= orig.take(i as int));
            assert(orig.take(i + 1).last() == orig[i as int]);
            assert(item_views(registry.items@)[i as int] == orig[i as int]);
            assert(registry.items@[i as int]@ == orig[i as int]);
        }
        let has_windows = registry.items[i].cached_primary_window.is_some()
            || registry.items[i].cached_secondary_window.is_some();
        if has_windows {
            if find_item(quota_store, registry.items[i].account_key.as_str()).is_none() {
                let it = &registry.items[i];
                let captured_at = match it.last_usage_at {
                    Some(t) => t,
                    None => match it.last_used_at {
                        Some(t) => t,
                        None => it.created_at,
                    },
                };
                let migrated = QuotaStoreItem {
                    account_key: it.account_key.clone(),
                    captured_at,
                    usage_source: UsageSource::Api,
                    primary_window: it.cached_primary_window,
                    secondary_window: it.cached_secondary_window,
                    token_status: None,
                };
                proof {
                    assert(migrated@ == migrated_entry(orig[i as int]));
                }
                let c = upsert_item(quota_store, migrated, now);
                quota_changed = quota_changed || c;
            }
            let mut e = copy_item(&registry.items[i]);
            e.cached_primary_window = None;
            e.cached_secondary_window = None;
            let ghost before = item_views(registry.items@);
            registry.items[i] = e;
            proof {
                assert(item_views(registry.items@) =~= before.update(i as int, e@));
            }
            registry_changed = true;
        } else {
            proof {
                assert(without_windows(orig[i as int]) == orig[i as int]);
            }
        }
        proof {
            assert(item_views(registry.items@) =~= Seq::new(
                n as nat,
                |j: int| if j < i + 1 {
                    without_windows(orig[j])
                } else {
                    orig[j]
                },
            ));
        }
        i = i + 1;
    }
    if registry_changed {
        registry.updated_at = now;
    }
    proof {
        assert(orig.take(n as int) =~= orig);
        assert(item_views(registry.items@) =~= Seq::new(
            orig.len(),
            |j: int| without_windows(orig[j]),
        ));
    }
    (quota_changed, registry_changed)
}


// ---------------------------------------------------------------------------
// Cleaning
// ---------------------------------------------------------------------------
/// The entries whose flag is set, in order.
pub open spec fn kept_entries(items: Seq<RegistryItemView>, live: Seq<bool>) -> Seq<RegistryItemView>
    decreases items.len(),
{
    if items.len() == 0 {
        items
    } else {
        let before = kept_entries(items.drop_last(), live);
        if live[items.len() - 1] {
            before.push(items.last())
        } else {
            before
        }
    }
}

/// The active account, if it still has an entry.
pub open spec fn still_active(active: Option<Seq<char>>, items: Seq<RegistryItemView>) -> Option<Seq<char>> {
    match active {
        Some(k) => if item_index(items, k) is Some {
            Some(k)
        } else {
            None
        },
        None => None,
    }
}

proof fn lemma_kept_entries_len(items: Seq<RegistryItemView>, live: Seq<bool>)
    ensures
        kept_entries(items, live).len() <= items.len(),
    decreases items.len(),
{
    if items.len() > 0 {
        lemma_kept_entries_len(items.drop_last(), live);
    }
}

/// Drops the entries whose snapshot file is gone (`snapshot_exists` holds,
/// for each entry in order, whether its file exists), forgets the active
/// account if its entry went, and stamps the registry `now`.  Returns how
/// many entries went.
pub fn clean_registry(registry: &mut RegistryFile, snapshot_exists: &Vec<bool>, now: i64) -> (stale: usize)
    requires
        snapshot_exists@.len() == old(registry)@.items.len(),
    ensures
        final(registry)@ == (RegistryView {
            items: kept_entries(old(registry)@.items, snapshot_exists@),
            active_account_key: still_active(
                old(registry)@.active_account_key,
                kept_entries(old(registry)@.items, snapshot_exists@),
            ),
            updated_at: now,
            ..old(registry)@
        }),
        stale == old(registry)@.items.len() - kept_entries(
            old(registry)@.items,
            snapshot_exists@,
        ).len(),
{
    let ghost r0 = registry@;
    let ghost orig = r0.items;
    let mut rest: Vec<RegistryItem> = Vec::new();
    std::mem::swap(&mut rest, &mut registry.items);
    let n = rest.len();
    let mut kept: Vec<RegistryItem> = Vec::new();
    let mut i: usize = 0;
    proof {
        assert(item_views(rest@) =~= orig.subrange(0, orig.len() as int));
        assert(orig.take(0) =~= Seq::<RegistryItemView>::empty());
    }
    while rest.len() > 0
        invariant
            i <= n,
            n == orig.len(),
            snapshot_exists@.len() == n,
            item_views(rest@) == orig.subrange(i as int, n as int),
            item_views(kept@) == kept_entries(orig.take(i as int), snapshot_exists@),
        decreases rest@.len(),
    {
        let ghost old_rest = rest@;
        proof {
            assert(item_views(old_rest).len() == old_rest.len());
            assert(i < n);
            assert(item_views(old_rest)[0] == orig[i as int]);
            assert(orig.take(i + 1).drop_last() =~= orig.take(i as int));
            assert(orig.take(i + 1).last() == orig[i as int]);
        }
        let it = rest.remove(0);
        proof {
            assert forall|j: int| 0 <= j < rest@.len() implies item_views(rest@)[j] == orig[i + 1
                + j] by {
                assert(rest@[j] == old_rest[j + 1]);
                assert(item_views(old_rest)[j + 1] == orig.subrange(i as int, n as int)[j + 1]);
            }
            assert(item_views(rest@) =~= orig.subrange(i + 1, n as int));
        }
        if snapshot_exists[i] {
            let ghost before = item_views(kept@);
            kept.push(it);
            proof {
                assert(item_views(kept@) =~= before.push(it@));
            }
        }
        i = i + 1;
    }
    proof {
        assert(orig.take(i as int) =~= orig);
        lemma_kept_entries_len(orig, snapshot_exists@);
    }
    let still = match &registry.active_account_key {
        Some(k) => item_index_exec(&kept, k.as_str()).is_some(),
        None => false,
    };
    if !still {
        registry.active_account_key = None;
    }
    let stale = n - kept.len();
    registry.items = kept;
    registry.updated_at = now;
    stale
}

/// The store items whose account still has a registry entry, in order.
pub open spec fn kept_quota(items: Seq<QuotaStoreItemView>, entries: Seq<RegistryItemView>) -> Seq<QuotaStoreItemView>
    decreases items.len(),
{
    if items.len() == 0 {
        items
    } else {
        let before = kept_quota(items.drop_last(), entries);
        if item_index(entries, items.last().account_key) is Some {
            before.push(items.last())
        } else {
            before
        }
    }
}

/// Drops the store items of accounts the registry no longer has; a store
/// that lost items is stamped `now`.  Returns whether it lost any.
pub fn retain_quota_for_registry(store: &mut QuotaStoreFile, registry: &RegistryFile, now: i64) -> (changed: bool)
    ensures
        final(store)@.items == kept_quota(old(store)@.items, registry@.items),
        changed == (kept_quota(old(store)@.items, registry@.items).len() != old(store)@.items.len()),
        final(store)@.updated_at == (if changed {
            now
        } else {
            old(store)@.updated_at
        }),
{
    let ghost orig = store@.items;
    let mut rest: Vec<QuotaStoreItem> = Vec::new();
    std::mem::swap(&mut rest, &mut store.items);
    let n = rest.len();
    let mut kept: Vec<QuotaStoreItem> = Vec::new();
    let ghost mut i: int = 0;
    proof {
        assert(Seq::new(rest@.len(), |j: int| rest@[j]@) =~= orig.subrange(0, orig.len() as int));
        assert(orig.take(0) =~= Seq::<QuotaStoreItemView>::empty());
    }
    while rest.len() > 0
        invariant
            0 <= i <= n,
            n == orig.len(),
            Seq::new(rest@.len(), |j: int| rest@[j]@) == orig.subrange(i, n as int),
            Seq::new(kept@.len(), |j: int| kept@[j]@) == kept_quota(orig.take(i), registry@.items),
        decreases rest@.len(),
    {
        let ghost old_rest = rest@;
        proof {
            assert(Seq::new(old_rest.len(), |j: int| old_rest[j]@).len() == old_rest.len());
            assert(i < n);
            assert(Seq::new(old_rest.len(), |j: int| old_rest[j]@)[0] == orig.subrange(i, n as int)[0]);
            assert(orig.take(i + 1).drop_last() =~= orig.take(i));
            assert(orig.take(i + 1).last() == orig[i]);
        }
        let it = rest.remove(0);
        proof {
            assert forall|j: int| 0 <= j < rest@.len() implies rest@[j]@ == orig[i + 1 + j] by {
                assert(rest@[j] == old_rest[j + 1]);
                assert(Seq::new(old_rest.len(), |j: int| old_rest[j]@)[j + 1] == orig.subrange(
                    i,
                    n as int,
                )[j + 1]);
            }
            assert(Seq::new(rest@.len(), |j: int| rest@[j]@) =~= orig.subrange(i + 1, n as int));
        }
        if item_index_exec(&registry.items, it.account_key.as_str()).is_some() {
            let ghost before = Seq::new(kept@.len(), |j: int| kept@[j]@);
            kept.push(it);
            proof {
                assert(Seq::new(kept@.len(), |j: int| kept@[j]@) =~= before.push(it@));
            }
        }
        proof {
            i = i + 1;
        }
    }
    proof {
        assert(orig.take(i) =~= orig);
    }
    let changed = kept.len() != n;
    store.items = kept;
    if changed {
        store.updated_at = now;
    }
    changed
}

// ---------------------------------------------------------------------------
// Old desktop-history backups
// ---------------------------------------------------------------------------
/// How many backups are kept: the request clamped to 0..=200.
pub open spec fn keep_count(keep_latest: i32) -> int {
    if keep_latest < 0 {
        0
    } else if keep_latest > 200 {
        200
    } else {
        keep_latest as int
    }
}

/// The names sorted from the greatest to the least (backup directories are
/// named by time, so the newest come first).
pub open spec fn newest_first(names: Seq<Seq<char>>) -> Seq<Seq<char>> {
    let s = sort_stable(Seq::new(names.len(), |i: int| (names[i], names[i])));
    Seq::new(s.len(), |i: int| s[s.len() - 1 - i].1)
}

/// Chooses which backup directories go: of the names sorted newest first,
/// the first `keep_latest` (clamped to 0..=200) stay.  Returns how many stay
/// and the names of those that go, newest first.
pub fn history_backups_to_remove(names: Vec<String>, keep_latest: i32) -> (r: (i32, Vec<String>))
    ensures
        r.0 == (if keep_count(keep_latest) < names@.len() {
            keep_count(keep_latest)
        } else {
            names@.len() as int
        }),
        strs(r.1@) == (if keep_count(keep_latest) < names@.len() {
            newest_first(strs(names@)).skip(keep_count(keep_latest))
        } else {
            Seq::empty()
        }),
{
    let keep: usize = if keep_latest < 0 {
        0
    } else if keep_latest > 200 {
        200
    } else {
        keep_latest as usize
    };
    let ghost orig = strs(names@);
    let ghost pairs = Seq::new(orig.len(), |i: int| (orig[i], orig[i]));
    let mut keyed: Vec<(Vec<char>, String)> = Vec::new();
    let mut i: usize = 0;
    while i < names.len()
        invariant
            i <= names@.len(),
            orig == strs(names@),
            pairs == Seq::new(orig.len(), |i: int| (orig[i], orig[i])),
            keyed_view(keyed@) == pairs.take(i as int),
        decreases names@.len() - i,
    {
        let k = chars_of(names[i].as_str());
        let ghost before = keyed_view(keyed@);
        keyed.push((k, names[i].clone()));
        proof {
            assert(keyed_view(keyed@) =~= before.push((orig[i as int], orig[i as int])));
            assert(pairs.take(i + 1) =~= pairs.take(i as int).push(pairs[i as int]));
        }
        i = i + 1;
    }
    proof {
        assert(pairs.take(i as int) =~= pairs);
    }
    let sorted = sort_stable_exec(keyed);
    let ghost s = sort_stable(pairs);
    let ghost desc = newest_first(orig);
    let n = sorted.len();
    let mut out: Vec<String> = Vec::new();
    let kept: i32 = if keep < n {
        keep as i32
    } else {
        n as i32
    };
    let lo: usize = if keep < n {
        keep
    } else {
        n
    };
    let mut j: usize = lo;
    proof {
        assert(keyed_view(sorted@) == s);
        lemma_sort_stable_len(pairs);
        assert(n == names@.len());
        assert(desc =~= Seq::new(s.len(), |i: int| s[s.len() - 1 - i].1));
    }
    while j < n
        invariant
            lo <= j <= n,
            n == sorted@.len(),
            n == s.len(),
            keyed_view(sorted@) == s,
            desc == Seq::new(s.len(), |i: int| s[s.len() - 1 - i].1),
            strs(out@) == desc.subrange(lo as int, j as int),
        decreases n - j,
    {
        proof {
            assert(keyed_view(sorted@)[n - 1 - j] == s[n - 1 - j]);
            assert(desc[j as int] == s[s.len() - 1 - j].1);
        }
        let ghost before = strs(out@);
        out.push(sorted[n - 1 - j].1.clone());
        proof {
            assert(strs(out@) =~= before.push(desc[j as int]));
            assert(desc.subrange(lo as int, j + 1) =~= desc.subrange(lo as int, j as int).push(
                desc[j as int],
            ));
        }
        j = j + 1;
    }
    proof {
        if keep < n {
            assert(desc.subrange(keep as int, n as int) =~= desc.skip(keep as int));
        } else {
            assert(strs(out@) =~= Seq::<Seq<char>>::empty());
        }
    }
    (kept, out)
}

// ---------------------------------------------------------------------------
// Diagnostics
// ---------------------------------------------------------------------------
/// How a helper tool shows in a diagnostics bundle: `available:` and its
/// path, or the given text when it was not found.
pub open spec fn availability(path: Option<Seq<char>>, missing: Seq<char>) -> Seq<char> {
    match path {
        Some(p) => "available:"@ + p,
        None => missing,
    }
}

/// The availability text of one helper tool.
pub fn tool_availability(path: &Option<String>, missing: &str) -> (s: String)
    ensures
        s@ == availability(opt_str(*path), missing@),
{
    match path {
        Some(p) => {
            let mut out = chars_of("available:");
            let pc = chars_of(p.as_str());
            let ghost a = out@;
            push_all(&mut out, pc.as_slice());
            string_of(out.as_slice())
        },
        None => String::from_str(missing),
    }
}

/// The helper tools' availability as a diagnostics bundle lists it: the
/// thread helper (degraded without it), the Codex CLI and the Codex desktop
/// app (blocked without them).
pub fn helper_tool_availability(
    threadripper: &Option<String>,
    codex_cli: &Option<String>,
    codex_desktop: &Option<String>,
) -> (m: Vec<(String, String)>)
    ensures
        m@.len() == 3,
        m@[0].0@ == "threadripper"@,
        m@[0].1@ == availability(opt_str(*threadripper), "degraded:unavailable"@),
        m@[1].0@ == "codexCli"@,
        m@[1].1@ == availability(opt_str(*codex_cli), "blocked:unavailable"@),
        m@[2].0@ == "codexDesktop"@,
        m@[2].1@ == availability(opt_str(*codex_desktop), "blocked:unavailable"@),
{
    let mut m: Vec<(String, String)> = Vec::new();
    m.push((String::from_str("threadripper"), tool_availability(threadripper, "degraded:unavailable")));
    m.push((String::from_str("codexCli"), tool_availability(codex_cli, "blocked:unavailable")));
    m.push((String::from_str("codexDesktop"), tool_availability(codex_desktop, "blocked:unavailable")));
    m
}

/// The first blocked check of a self-check, as `label: detail`.
pub open spec fn failure_summary(checks: Seq<FirstRunCheckItemPayload>) -> Option<Seq<char>>
    decreases checks.len(),
{
    if checks.len() == 0 {
        None
    } else if checks[0].state@ == "blocked"@ {
        Some(checks[0].label@ + ": "@ + checks[0].detail@)
    } else {
        failure_summary(checks.drop_first())
    }
}

/// The summary of the first blocked check, if any.
pub fn latest_failure_summary(checks: &Vec<FirstRunCheckItemPayload>) -> (r: Option<String>)
    ensures
        opt_str(r) == failure_summary(checks@),
{
    let mut i: usize = 0;
    assert(checks@.subrange(0, checks@.len() as int) =~= checks@);
    while i < checks.len()
        invariant
            i <= checks@.len(),
            failure_summary(checks@) == failure_summary(
                checks@.subrange(i as int, checks@.len() as int),
            ),
        decreases checks@.len() - i,
    {
        let ghost rest = checks@.subrange(i as int, checks@.len() as int);
        assert(rest[0] == checks@[i as int]);
        assert(rest.drop_first() =~= checks@.subrange(i + 1, checks@.len() as int));
        if eq_str(checks[i].state.as_str(), "blocked") {
            let mut out = chars_of(checks[i].label.as_str());
            push_str(&mut out, ": ");
            let d = chars_of(checks[i].detail.as_str());
            push_all(&mut out, d.as_slice());
            return Some(string_of(out.as_slice()));
        }
        i = i + 1;
    }
    None
}

/// `prefix`, the time in decimal, and `.json`.
pub open spec fn stamped_name(prefix: Seq<char>, t: i64) -> Seq<char> {
    prefix + decimal(t as int) + ".json"@
}

fn stamped_name_exec(prefix: &str, t: i64) -> (s: String)
    ensures
        s@ == stamped_name(prefix@, t),
{
    let mut out = chars_of(prefix);
    let d = decimal_i64(t);
    push_all(&mut out, d.as_slice());
    push_str(&mut out, ".json");
    string_of(out.as_slice())
}

/// The file name of a diagnostics bundle made at `generated_at`.
pub fn diagnostics_bundle_file_name(generated_at: i64) -> (s: String)
    ensures
        s@ == stamped_name("diagnostics-"@, generated_at),
{
    stamped_name_exec("diagnostics-", generated_at)
}

/// The file name of the registry backup made at `t`.
pub fn registry_backup_file_name(t: i64) -> (s: String)
    ensures
        s@ == stamped_name("registry-"@, t),
{
    stamped_name_exec("registry-", t)
}

// ---------------------------------------------------------------------------
// Loading and saving
// ---------------------------------------------------------------------------
/// The registry used when none can be read: no entries, default settings.
pub fn empty_registry(now: i64) -> (r: RegistryFile)
    ensures
        r@ == (RegistryView {
            schema_version: REGISTRY_SCHEMA_VERSION,
            updated_at: now,
            active_account_key: None,
            items: Seq::empty(),
            auto_switch: Some(default_auto_switch()),
            api: Some(default_api()),
        }),
{
    let r = RegistryFile {
        schema_version: REGISTRY_SCHEMA_VERSION,
        updated_at: now,
        active_account_key: None,
        items: Vec::new(),
        auto_switch: Some(AutoSwitchConfig { enabled: false, threshold_5h_percent: 0, threshold_weekly_percent: 0 }),
        api: Some(ApiConfig { usage_refresh_enabled: true, account_metadata_refresh_enabled: true }),
    };
    assert(r@.items =~= Seq::<RegistryItemView>::empty());
    r
}

/// Prepares a registry for writing: the schema version is raised to the
/// current one and missing settings get their defaults.
pub fn prepare_registry_for_save(registry: &mut RegistryFile)
    ensures
        final(registry)@ == (RegistryView {
            schema_version: if old(registry)@.schema_version >= REGISTRY_SCHEMA_VERSION {
                old(registry)@.schema_version
            } else {
                REGISTRY_SCHEMA_VERSION
            },
            auto_switch: match old(registry)@.auto_switch {
                Some(a) => Some(a),
                None => Some(default_auto_switch()),
            },
            api: match old(registry)@.api {
                Some(a) => Some(a),
                None => Some(default_api()),
            },
            ..old(registry)@
        }),
{
    if registry.schema_version < REGISTRY_SCHEMA_VERSION {
        registry.schema_version = REGISTRY_SCHEMA_VERSION;
    }
    if registry.auto_switch.is_none() {
        registry.auto_switch = Some(AutoSwitchConfig { enabled: false, threshold_5h_percent: 0, threshold_weekly_percent: 0 });
    }
    if registry.api.is_none() {
        registry.api = Some(ApiConfig { usage_refresh_enabled: true, account_metadata_refresh_enabled: true });
    }
}

/// The warnings of loading the local state: one when no registry exists yet.
pub fn local_state_warnings(registry_exists: bool) -> (w: Vec<CoreWarning>)
    ensures
        registry_exists ==> w@.len() == 0,
        !registry_exists ==> w@.len() == 1 && w@[0].code@ == "REGISTRY_MISSING"@
            && w@[0].message@ == "No local account registry found yet."@,
{
    let mut w: Vec<CoreWarning> = Vec::new();
    if !registry_exists {
        w.push(CoreWarning {
            code: String::from_str("REGISTRY_MISSING"),
            message: String::from_str("No local account registry found yet."),
        });
    }
    w
}


// ---------------------------------------------------------------------------
// Auto-switch settings
// ---------------------------------------------------------------------------
/// The stored auto-switch settings, or the defaults.
pub open spec fn auto_switch_or_default(r: RegistryView) -> AutoSwitchConfig {
    match r.auto_switch {
        Some(a) => a,
        None => default_auto_switch(),
    }
}

fn auto_switch_or_default_exec(registry: &RegistryFile) -> (c: AutoSwitchConfig)
    ensures
        c == auto_switch_or_default(registry@),
{
    match registry.auto_switch {
        Some(a) => a,
        None => AutoSwitchConfig { enabled: false, threshold_5h_percent: 0, threshold_weekly_percent: 0 },
    }
}

/// Turns auto-switching on or off in the registry (`set_auto_switch`); the
/// thresholds stay as stored.
pub fn set_auto_switch_enabled(registry: &mut RegistryFile, enabled: bool, now: i64)
    ensures
        final(registry)@ == (RegistryView {
            auto_switch: Some(AutoSwitchConfig { enabled, ..auto_switch_or_default(old(registry)@) }),
            updated_at: now,
            ..old(registry)@
        }),
{
    let mut config = auto_switch_or_default_exec(registry);
    config.enabled = enabled;
    registry.auto_switch = Some(config);
    registry.updated_at = now;
}

/// The message for a threshold outside 0..=100.
pub open spec fn threshold_error(which: Seq<char>, t: i32) -> Seq<char> {
    which + " threshold must be 0-100, got "@ + decimal(t as int)
}

fn threshold_error_exec(which: &str, t: i32) -> (e: CoreError)
    ensures
        e matches CoreError::InvalidData(m) && m@ == threshold_error(which@, t),
{
    let mut m = chars_of(which);
    push_str(&mut m, " threshold must be 0-100, got ");
    push_all(&mut m, decimal_i64(t as i64).as_slice());
    CoreError::InvalidData(string_of(m.as_slice()))
}

/// Sets the auto-switch thresholds given (`configure_auto_switch`): each must
/// lie in 0..=100, the 5-hour one checked first; a refused request changes
/// nothing.
pub fn configure_auto_switch(
    registry: &mut RegistryFile,
    threshold_5h: Option<i32>,
    threshold_weekly: Option<i32>,
    now: i64,
) -> (r: Result<(), CoreError>)
    ensures
        match threshold_5h {
            Some(t) if !(0 <= t <= 100) => (r matches Err(CoreError::InvalidData(m)) && m@
                == threshold_error("5h"@, t)) && *final(registry) == *old(registry),
            _ => match threshold_weekly {
                Some(t) if !(0 <= t <= 100) => (r matches Err(CoreError::InvalidData(m)) && m@
                    == threshold_error("weekly"@, t)) && *final(registry) == *old(registry),
                _ => r is Ok && final(registry)@ == (RegistryView {
                    auto_switch: Some(
                        AutoSwitchConfig {
                            threshold_5h_percent: match threshold_5h {
                                Some(t) => t,
                                None => auto_switch_or_default(old(registry)@).threshold_5h_percent,
                            },
                            threshold_weekly_percent: match threshold_weekly {
                                Some(t) => t,
                                None => auto_switch_or_default(
                                    old(registry)@,
                                ).threshold_weekly_percent,
                            },
                            ..auto_switch_or_default(old(registry)@)
                        },
                    ),
                    updated_at: now,
                    ..old(registry)@
                }),
            },
        },
{
    let mut config = auto_switch_or_default_exec(registry);
    match threshold_5h {
        Some(t) => {
            if !(0 <= t && t <= 100) {
                return Err(threshold_error_exec("5h", t));
            }
            config.threshold_5h_percent = t;
        },
        None => {},
    }
    match threshold_weekly {
        Some(t) => {
            if !(0 <= t && t <= 100) {
                return Err(threshold_error_exec("weekly", t));
            }
            config.threshold_weekly_percent = t;
        },
        None => {},
    }
    registry.auto_switch = Some(config);
    registry.updated_at = now;
    Ok(())
}

/// The auto-switch status shown for the registry and the service's state.
pub fn auto_switch_status(registry: &RegistryFile, service_state: AutoSwitchRuntimeState) -> (p: AutoSwitchStatusPayload)
    ensures
        p.enabled == auto_switch_or_default(registry@).enabled,
        p.threshold_5h_percent == auto_switch_or_default(registry@).threshold_5h_percent,
        p.threshold_weekly_percent == auto_switch_or_default(registry@).threshold_weekly_percent,
        p.service_state == service_state,
        p.service_label@ == "dev.ai.strategist.auto-switch"@,
{
    let config = auto_switch_or_default_exec(registry);
    AutoSwitchStatusPayload {
        enabled: config.enabled,
        threshold_5h_percent: config.threshold_5h_percent,
        threshold_weekly_percent: config.threshold_weekly_percent,
        service_state,
        service_label: String::from_str("dev.ai.strategist.auto-switch"),
    }
}

/// Whether the auto-switch service is to be reinstalled: on macOS, when
/// auto-switching is on and the service does not run.
pub fn needs_daemon_repair(registry: &RegistryFile, on_macos: bool, service_state: AutoSwitchRuntimeState) -> (b: bool)
    ensures
        b == (on_macos && match registry@.auto_switch {
            Some(a) => a.enabled,
            None => false,
        } && service_state != AutoSwitchRuntimeState::Running),
{
    let enabled = match registry.auto_switch {
        Some(a) => a.enabled,
        None => false,
    };
    on_macos && enabled && !(service_state == AutoSwitchRuntimeState::Running)
}

// ---------------------------------------------------------------------------
// Laws
// ---------------------------------------------------------------------------
/// No account has two entries.
pub open spec fn one_entry_per_account(items: Seq<RegistryItemView>) -> bool {
    forall|i: int, j: int|
        0 <= i < j < items.len() ==> #[trigger] items[i].account_key != #[trigger] items[j].account_key
}

spec fn pair_keys_distinct(s: Seq<(Seq<char>, RegistryItemView)>) -> bool {
    forall|i: int, j: int|
        0 <= i < j < s.len() ==> #[trigger] s[i].1.account_key != #[trigger] s[j].1.account_key
}

proof fn lemma_sort_keeps_distinct(s: Seq<(Seq<char>, RegistryItemView)>)
    requires
        pair_keys_distinct(s),
    ensures
        pair_keys_distinct(sort_stable(s)),
    decreases s.len(),
{
    if s.len() > 0 {
        let t = s.drop_last();
        let x = s.last();
        assert(pair_keys_distinct(t)) by {
            assert forall|i: int, j: int| 0 <= i < j < t.len() implies #[trigger] t[i].1.account_key
                != #[trigger] t[j].1.account_key by {
                assert(t[i] == s[i] && t[j] == s[j]);
            }
        }
        lemma_sort_keeps_distinct(t);
        lemma_sort_stable_contains(t);
        let u = sort_stable(t);
        let k = lemma_insert_stable_is_insert(u, x);
        let v = u.insert(k, x);
        assert(sort_stable(s) == v);
        assert forall|m: int| 0 <= m < u.len() implies #[trigger] u[m].1.account_key
            != x.1.account_key by {
            assert(sort_stable(t).contains(u[m]));
            assert(t.contains(u[m]));
            let p = choose|p: int| 0 <= p < t.len() && t[p] == u[m];
            assert(s[p] == u[m]);
            assert(s[s.len() - 1] == x);
        }
        assert forall|i: int, j: int| 0 <= i < j < v.len() implies #[trigger] v[i].1.account_key
            != #[trigger] v[j].1.account_key by {
            if j < k {
                assert(v[i] == u[i] && v[j] == u[j]);
            } else if j == k {
                assert(v[i] == u[i]);
            } else if i < k {
                assert(v[i] == u[i] && v[j] == u[j - 1]);
            } else if i == k {
                assert(v[j] == u[j - 1]);
            } else {
                assert(v[i] == u[i - 1] && v[j] == u[j - 1]);
            }
        }
    }
}

/// Reordering by e-mail address keeps the entries: the same number, the same
/// entries, and no account gains a second entry.
pub proof fn lemma_sorted_by_email(items: Seq<RegistryItemView>)
    ensures
        sorted_by_email(items).len() == items.len(),
        forall|x: RegistryItemView| sorted_by_email(items).contains(x) <==> items.contains(x),
        one_entry_per_account(items) ==> one_entry_per_account(sorted_by_email(items)),
{
    let e = email_keyed(items);
    let s = sort_stable(e);
    lemma_sort_stable_len(e);
    lemma_sort_stable_contains(e);
    let out = sorted_by_email(items);
    assert forall|x: RegistryItemView| out.contains(x) <==> items.contains(x) by {
        if out.contains(x) {
            let j = choose|j: int| 0 <= j < out.len() && out[j] == x;
            assert(s.contains(s[j]));
            assert(e.contains(s[j]));
            let m = choose|m: int| 0 <= m < e.len() && e[m] == s[j];
            assert(items[m] == x);
        }
        if items.contains(x) {
            let m = choose|m: int| 0 <= m < items.len() && items[m] == x;
            assert(e[m] == (lowercase(x.email), x));
            assert(e.contains(e[m]));
            assert(s.contains(e[m]));
            let j = choose|j: int| 0 <= j < s.len() && s[j] == e[m];
            assert(out[j] == x);
        }
    }
    if one_entry_per_account(items) {
        assert(pair_keys_distinct(e)) by {
            assert forall|i: int, j: int| 0 <= i < j < e.len() implies #[trigger] e[i].1.account_key
                != #[trigger] e[j].1.account_key by {
                assert(e[i].1 == items[i] && e[j].1 == items[j]);
            }
        }
        lemma_sort_keeps_distinct(e);
        assert forall|i: int, j: int| 0 <= i < j < out.len() implies #[trigger] out[i].account_key
            != #[trigger] out[j].account_key by {
            assert(out[i] == s[i].1 && out[j] == s[j].1);
        }
    }
}

/// With one entry per account, the entry found for a key is the one holding it.
proof fn lemma_unique_index(items: Seq<RegistryItemView>, m: int)
    requires
        one_entry_per_account(items),
        0 <= m < items.len(),
    ensures
        item_index(items, items[m].account_key) == Some(m),
{
    lemma_item_index(items, items[m].account_key);
    let k = item_index(items, items[m].account_key)->0;
    if k < m {
        assert(items[k].account_key != items[m].account_key);
    } else if k > m {
        assert(items[m].account_key != items[k].account_key);
    }
}

/// Taking over an earlier entry's state twice is the same as once.
pub proof fn law_carry_over_is_idempotent(item: RegistryItemView, previous: RegistryItemView)
    ensures
        carried(carried(item, Some(previous)), Some(previous)) == carried(item, Some(previous)),
{
}

/// A rebuilt registry has one entry per account, and the current login, when
/// there is one, is the active account and has an entry.
pub proof fn law_rebuilt_registry_has_one_entry_per_account(
    prev: Option<RegistryView>,
    current: Option<(AuthSnapshot, String)>,
    found: Seq<(AuthSnapshot, String)>,
    updated_at: i64,
    used_at: i64,
)
    ensures
        ({
            let r = rebuilt(prev, current, found, updated_at, used_at);
            &&& one_entry_per_account(r.items)
            &&& match current {
                Some(c) => r.active_account_key == Some(c.0.account_key@) && item_index(
                    r.items,
                    c.0.account_key@,
                ) is Some,
                None => r.active_account_key is None,
            }
        }),
{
    let start = current_entries(prev, current, used_at);
    let all = with_snapshots(start, prev, found);
    lemma_with_snapshots(start, prev, found);
    lemma_sorted_by_email(all);
    let r = rebuilt(prev, current, found, updated_at, used_at);
    match current {
        Some(c) => {
            assert(all[0] == start[0]);
            assert(all.contains(all[0]));
            assert(r.items.contains(all[0]));
            let j = choose|j: int| 0 <= j < r.items.len() && r.items[j] == all[0];
            lemma_item_index(r.items, c.0.account_key@);
            assert(r.items[j].account_key == c.0.account_key@);
        },
        None => {},
    }
}

proof fn lemma_with_snapshots(
    items: Seq<RegistryItemView>,
    prev: Option<RegistryView>,
    found: Seq<(AuthSnapshot, String)>,
)
    requires
        one_entry_per_account(items),
    ensures
        one_entry_per_account(with_snapshots(items, prev, found)),
        with_snapshots(items, prev, found).len() >= items.len(),
        forall|i: int| 0 <= i < items.len() ==> with_snapshots(items, prev, found)[i] == items[i],
    decreases found.len(),
{
    if found.len() > 0 {
        lemma_with_snapshots(items, prev, found.drop_last());
        let before = with_snapshots(items, prev, found.drop_last());
        let c = found.last();
        if item_index(before, c.0.account_key@) is None {
            lemma_item_index(before, c.0.account_key@);
            let x = carried(fresh_item(c.0, c.1@, None), previous_entry(prev, c.0.account_key@));
            let after = before.push(x);
            assert forall|i: int, j: int| 0 <= i < j < after.len() implies #[trigger] after[i].account_key
                != #[trigger] after[j].account_key by {
                if j == before.len() {
                    assert(after[i] == before[i]);
                } else {
                    assert(after[i] == before[i] && after[j] == before[j]);
                }
            }
        }
    }
}

/// Taking in the same login a second time, with its snapshot unchanged,
/// changes nothing, as long as no account has two entries (with two, the
/// reordering of the first sync can bring the other entry to the front).
pub proof fn law_sync_is_idempotent(
    r: RegistryView,
    cur: AuthSnapshot,
    path: Seq<char>,
    snapshot_rewritten: bool,
    now: i64,
    later: i64,
)
    requires
        one_entry_per_account(r.items),
    ensures
        ({
            let once = synced(r, cur, path, snapshot_rewritten, now).0;
            synced(once, cur, path, false, later) == (once, false)
        }),
{
    let key = cur.account_key@;
    let once = synced(r, cur, path, snapshot_rewritten, now).0;
    lemma_item_index(r.items, key);
    let (items1, e) = match item_index(r.items, key) {
        Some(i) => (
            r.items.update(i, synced_entry(r.items[i], cur, path, now)),
            synced_entry(r.items[i], cur, path, now),
        ),
        None => (r.items.push(fresh_item(cur, path, Some(now))), fresh_item(cur, path, Some(now))),
    };
    assert(one_entry_per_account(items1) && items1.contains(e)) by {
        match item_index(r.items, key) {
            Some(i) => {
                assert(items1[i] == e);
                assert forall|a: int, b: int| 0 <= a < b < items1.len() implies #[trigger] items1[a].account_key
                    != #[trigger] items1[b].account_key by {
                    assert(items1[a].account_key == r.items[a].account_key);
                    assert(items1[b].account_key == r.items[b].account_key);
                }
            },
            None => {
                assert(items1[r.items.len() as int] == e);
                assert forall|a: int, b: int| 0 <= a < b < items1.len() implies #[trigger] items1[a].account_key
                    != #[trigger] items1[b].account_key by {
                    if b == r.items.len() {
                        assert(items1[a] == r.items[a]);
                    } else {
                        assert(items1[a] == r.items[a] && items1[b] == r.items[b]);
                    }
                }
            },
        }
    }
    let changed = snapshot_rewritten || items1 != r.items || r.active_account_key != Some(key);
    if changed {
        lemma_sorted_by_email(items1);
        let sorted = sorted_by_email(items1);
        assert(sorted.contains(e));
        let m = choose|m: int| 0 <= m < sorted.len() && sorted[m] == e;
        lemma_unique_index(sorted, m);
        assert(synced_entry(e, cur, path, later) == e);
        assert(sorted.update(m, e) =~= sorted);
    } else {
        assert(items1 == r.items);
        match item_index(r.items, key) {
            Some(i) => {
                assert(r.items[i] == e);
                assert(synced_entry(e, cur, path, later) == e);
                assert(r.items.update(i, e) =~= r.items);
            },
            None => {
                assert(false);
            },
        }
    }
}

/// After taking in a login, it is the active account and its entry carries
/// the login's address.
pub proof fn law_synced_login_is_active(
    r: RegistryView,
    cur: AuthSnapshot,
    path: Seq<char>,
    snapshot_rewritten: bool,
    now: i64,
)
    ensures
        ({
            let after = synced(r, cur, path, snapshot_rewritten, now).0;
            &&& after.active_account_key == Some(cur.account_key@)
            &&& exists|j: int|
                0 <= j < after.items.len() && #[trigger] after.items[j].account_key
                    == cur.account_key@ && after.items[j].email == cur.email@
        }),
{
    let key = cur.account_key@;
    lemma_item_index(r.items, key);
    let (items1, e) = match item_index(r.items, key) {
        Some(i) => (
            r.items.update(i, synced_entry(r.items[i], cur, path, now)),
            synced_entry(r.items[i], cur, path, now),
        ),
        None => (r.items.push(fresh_item(cur, path, Some(now))), fresh_item(cur, path, Some(now))),
    };
    match item_index(r.items, key) {
        Some(i) => {
            assert(items1[i] == e);
        },
        None => {
            assert(items1[r.items.len() as int] == e);
        },
    }
    assert(items1.contains(e));
    let after = synced(r, cur, path, snapshot_rewritten, now).0;
    let changed = snapshot_rewritten || items1 != r.items || r.active_account_key != Some(key);
    if changed {
        lemma_sorted_by_email(items1);
        assert(after.items.contains(e));
        let j = choose|j: int| 0 <= j < after.items.len() && after.items[j] == e;
        assert(after.items[j].account_key == key);
    } else {
        let i = item_index(r.items, key)->0;
        assert(after.items[i] == e);
    }
}

/// After the migration no entry carries cached windows.
pub proof fn law_migration_leaves_no_cached_windows(items: Seq<RegistryItemView>)
    ensures
        forall|j: int|
            0 <= j < items.len() ==> !has_cached_windows(
                #[trigger] cleared_windows(items)[j],
            ),
{
}

/// After cleaning, the active account, if any is left, has an entry.
pub proof fn law_cleaned_active_account_has_entry(r: RegistryView, live: Seq<bool>)
    ensures
        ({
            let items = kept_entries(r.items, live);
            match still_active(r.active_account_key, items) {
                Some(k) => item_index(items, k) is Some,
                None => true,
            }
        }),
{
}

} // verus!
