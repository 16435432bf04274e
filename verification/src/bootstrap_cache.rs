//! The bootstrap cache: the last payloads the app showed, kept so that the
//! next start can show them at once.  Reading and writing the file is the
//! caller's part.
use vstd::prelude::*;
use crate::models::{CoreSnapshotPayload, McpServerListPayload, SkillListPayload};

verus! {

/// Usage analytics; this build computes none.
#[derive(Debug, Clone, PartialEq, Default)]
pub struct UsageAnalyticsPayload {}

#[derive(Debug, Clone, PartialEq)]
pub struct BootstrapStatePayload {
    pub written_at: Option<i64>,
    pub snapshot_progressive: Option<CoreSnapshotPayload>,
    pub usage_analytics: Option<UsageAnalyticsPayload>,
    pub mcp_servers: Option<McpServerListPayload>,
    pub installed_skills: Option<SkillListPayload>,
}

impl BootstrapStatePayload {
    /// The cache of a missing or unreadable file: nothing stored.
    pub fn empty() -> (c: BootstrapStatePayload)
        ensures
            c.written_at is None,
            c.snapshot_progressive is None,
            c.usage_analytics is None,
            c.mcp_servers is None,
            c.installed_skills is None,
    {
        BootstrapStatePayload {
            written_at: None,
            snapshot_progressive: None,
            usage_analytics: None,
            mcp_servers: None,
            installed_skills: None,
        }
    }
}

/// Keeps the latest status snapshot, unless it equals the stored one
/// (`unchanged`), in which case nothing is written.  Returns whether the
/// cache changed.
pub fn store_snapshot_progressive(
    cache: &mut BootstrapStatePayload,
    payload: CoreSnapshotPayload,
    unchanged: bool,
    now: i64,
) -> (written: bool)
    ensures
        written == !unchanged,
        unchanged ==> *final(cache) == *old(cache),
        !unchanged ==> *final(cache) == (BootstrapStatePayload {
            written_at: Some(now),
            snapshot_progressive: Some(payload),
            ..*old(cache)
        }),
{
    if unchanged {
        return false;
    }
    cache.written_at = Some(now);
    cache.snapshot_progressive = Some(payload);
    true
}

/// Keeps the latest usage analytics, stamped `now`.
pub fn store_usage_analytics(cache: &mut BootstrapStatePayload, payload: UsageAnalyticsPayload, now: i64)
    ensures
        *final(cache) == (BootstrapStatePayload {
            written_at: Some(now),
            usage_analytics: Some(payload),
            ..*old(cache)
        }),
{
    cache.written_at = Some(now);
    cache.usage_analytics = Some(payload);
}

/// Keeps the latest MCP server list, stamped `now`.
pub fn store_mcp_servers(cache: &mut BootstrapStatePayload, payload: McpServerListPayload, now: i64)
    ensures
        *final(cache) == (BootstrapStatePayload {
            written_at: Some(now),
            mcp_servers: Some(payload),
            ..*old(cache)
        }),
{
    cache.written_at = Some(now);
    cache.mcp_servers = Some(payload);
}

/// Keeps the latest list of installed skills, stamped `now`.
pub fn store_installed_skills(cache: &mut BootstrapStatePayload, payload: SkillListPayload, now: i64)
    ensures
        *final(cache) == (BootstrapStatePayload {
            written_at: Some(now),
            installed_skills: Some(payload),
            ..*old(cache)
        }),
{
    cache.written_at = Some(now);
    cache.installed_skills = Some(payload);
}

} // verus!
