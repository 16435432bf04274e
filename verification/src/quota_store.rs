//! The per-account quota cache (`quota-store.json`): the last usage windows
//! seen for each account, looked up by account key.
use vstd::prelude::*;
use crate::models::UsageSource;
use crate::text::{eq_opt_str, eq_str};

verus! {

// ---------------------------------------------------------------------------
// Usage windows
// ---------------------------------------------------------------------------
/// One rate-limit window.  The stored file keeps the used percentage as a
/// floating-point number; here it is held as its bit pattern (`f64::to_bits`),
/// and compared as IEEE 754 numbers compare.
#[derive(Debug, Clone, Copy)]
pub struct RateLimitWindow {
    pub used_percent_bits: u64,
    pub remaining_percent: i32,
    pub window_minutes: Option<i32>,
    pub resets_at: Option<i64>,
}

/// The bit pattern of an `f64` is a NaN.
pub open spec fn f64_bits_is_nan(b: u64) -> bool {
    (b >> 52u64) & 0x7ffu64 == 0x7ffu64 && b & 0xf_ffff_ffff_ffffu64 != 0
}

/// The bit pattern of an `f64` is `0.0` or `-0.0`.
pub open spec fn f64_bits_is_zero(b: u64) -> bool {
    b & 0x7fff_ffff_ffff_ffffu64 == 0
}

/// `==` on two `f64` given by their bit patterns: a NaN equals nothing, the
/// two zeros are equal, and otherwise equal numbers have equal bits.
pub open spec fn f64_bits_eq(a: u64, b: u64) -> bool {
    !f64_bits_is_nan(a) && !f64_bits_is_nan(b) && (a == b || (f64_bits_is_zero(a)
        && f64_bits_is_zero(b)))
}

/// `==` on two windows (the derived `PartialEq`).
pub open spec fn window_eq(a: RateLimitWindow, b: RateLimitWindow) -> bool {
    &&& f64_bits_eq(a.used_percent_bits, b.used_percent_bits)
    &&& a.remaining_percent == b.remaining_percent
    &&& a.window_minutes == b.window_minutes
    &&& a.resets_at == b.resets_at
}

/// `==` on two optional windows.
pub open spec fn opt_window_eq(a: Option<RateLimitWindow>, b: Option<RateLimitWindow>) -> bool {
    match (a, b) {
        (Some(x), Some(y)) => window_eq(x, y),
        (None, None) => true,
        _ => false,
    }
}

/// The window's percentage is not a NaN.
pub open spec fn window_is_number(w: Option<RateLimitWindow>) -> bool {
    match w {
        Some(x) => !f64_bits_is_nan(x.used_percent_bits),
        None => true,
    }
}

fn f64_bits_is_nan_exec(b: u64) -> (r: bool)
    ensures
        r == f64_bits_is_nan(b),
{
    (b >> 52u64) & 0x7ffu64 == 0x7ffu64 && b & 0xf_ffff_ffff_ffffu64 != 0
}

fn f64_bits_eq_exec(a: u64, b: u64) -> (r: bool)
    ensures
        r == f64_bits_eq(a, b),
{
    !f64_bits_is_nan_exec(a) && !f64_bits_is_nan_exec(b) && (a == b || (a & 0x7fff_ffff_ffff_ffffu64
        == 0 && b & 0x7fff_ffff_ffff_ffffu64 == 0))
}

fn eq_opt_i32(a: Option<i32>, b: Option<i32>) -> (r: bool)
    ensures
        r == (a == b),
{
    match (a, b) {
        (Some(x), Some(y)) => x == y,
        (None, None) => true,
        _ => false,
    }
}

fn eq_opt_i64(a: Option<i64>, b: Option<i64>) -> (r: bool)
    ensures
        r == (a == b),
{
    match (a, b) {
        (Some(x), Some(y)) => x == y,
        (None, None) => true,
        _ => false,
    }
}

/// Whether two optional windows are equal, as the stored numbers compare.
pub fn opt_window_eq_exec(a: &Option<RateLimitWindow>, b: &Option<RateLimitWindow>) -> (r: bool)
    ensures
        r == opt_window_eq(*a, *b),
{
    match (a, b) {
        (Some(x), Some(y)) => {
            f64_bits_eq_exec(x.used_percent_bits, y.used_percent_bits) && x.remaining_percent
                == y.remaining_percent && eq_opt_i32(x.window_minutes, y.window_minutes)
                && eq_opt_i64(x.resets_at, y.resets_at)
        },
        (None, None) => true,
        _ => false,
    }
}

// ---------------------------------------------------------------------------
// The store
// ---------------------------------------------------------------------------
#[derive(Debug, Clone)]
pub struct QuotaStoreItem {
    pub account_key: String,
    pub captured_at: i64,
    pub usage_source: UsageSource,
    pub primary_window: Option<RateLimitWindow>,
    pub secondary_window: Option<RateLimitWindow>,
    pub token_status: Option<String>,
}

/// A cached item as plain values.
pub struct QuotaStoreItemView {
    pub account_key: Seq<char>,
    pub captured_at: i64,
    pub usage_source: UsageSource,
    pub primary_window: Option<RateLimitWindow>,
    pub secondary_window: Option<RateLimitWindow>,
    pub token_status: Option<Seq<char>>,
}

impl View for QuotaStoreItem {
    type V = QuotaStoreItemView;

    open spec fn view(&self) -> QuotaStoreItemView {
        QuotaStoreItemView {
            account_key: self.account_key@,
            captured_at: self.captured_at,
            usage_source: self.usage_source,
            primary_window: self.primary_window,
            secondary_window: self.secondary_window,
            token_status: match self.token_status {
                Some(s) => Some(s@),
                None => None,
            },
        }
    }
}

#[derive(Debug, Clone)]
pub struct QuotaStoreFile {
    pub updated_at: i64,
    pub items: Vec<QuotaStoreItem>,
}

/// The store as plain values.
pub struct QuotaStoreView {
    pub updated_at: i64,
    pub items: Seq<QuotaStoreItemView>,
}

impl View for QuotaStoreFile {
    type V = QuotaStoreView;

    open spec fn view(&self) -> QuotaStoreView {
        QuotaStoreView {
            updated_at: self.updated_at,
            items: Seq::new(self.items@.len(), |i: int| self.items@[i]@),
        }
    }
}

impl QuotaStoreFile {
    /// The store of a missing or unreadable file (`Default`): no items.
    pub fn empty() -> (s: QuotaStoreFile)
        ensures
            s@.updated_at == 0,
            s@.items.len() == 0,
    {
        QuotaStoreFile { updated_at: 0, items: Vec::new() }
    }
}

/// `==` on two cached items (the derived `PartialEq`).
pub open spec fn quota_item_eq(a: QuotaStoreItemView, b: QuotaStoreItemView) -> bool {
    &&& a.account_key == b.account_key
    &&& a.captured_at == b.captured_at
    &&& a.usage_source == b.usage_source
    &&& opt_window_eq(a.primary_window, b.primary_window)
    &&& opt_window_eq(a.secondary_window, b.secondary_window)
    &&& a.token_status == b.token_status
}

/// Neither window of the item holds a NaN.
pub open spec fn quota_item_is_number(a: QuotaStoreItemView) -> bool {
    window_is_number(a.primary_window) && window_is_number(a.secondary_window)
}

/// The position of the first item for `key`.
pub open spec fn quota_index(items: Seq<QuotaStoreItemView>, key: Seq<char>) -> Option<int>
    decreases items.len(),
{
    if items.len() == 0 {
        None
    } else if items[0].account_key == key {
        Some(0)
    } else {
        match quota_index(items.drop_first(), key) {
            Some(i) => Some(i + 1),
            None => None,
        }
    }
}

pub proof fn lemma_quota_index(items: Seq<QuotaStoreItemView>, key: Seq<char>)
    ensures
        match quota_index(items, key) {
            Some(i) => 0 <= i < items.len() && items[i].account_key == key && forall|j: int|
                0 <= j < i ==> items[j].account_key != key,
            None => forall|j: int| 0 <= j < items.len() ==> items[j].account_key != key,
        },
    decreases items.len(),
{
    if items.len() > 0 {
        lemma_quota_index(items.drop_first(), key);
        assert forall|j: int| 1 <= j < items.len() implies items[j] == items.drop_first()[j - 1] by {}
    }
}

/// The store after `upsert_item`, and whether it changed: the first item for
/// the key is replaced unless it already equals the new one; an unknown key
/// is appended.  A change sets `updated_at`.
pub open spec fn upserted(s: QuotaStoreView, item: QuotaStoreItemView, updated_at: i64) -> (
    QuotaStoreView,
    bool,
) {
    match quota_index(s.items, item.account_key) {
        Some(i) => if quota_item_eq(s.items[i], item) {
            (s, false)
        } else {
            (QuotaStoreView { updated_at, items: s.items.update(i, item) }, true)
        },
        None => (QuotaStoreView { updated_at, items: s.items.push(item) }, true),
    }
}

fn quota_item_eq_exec(a: &QuotaStoreItem, b: &QuotaStoreItem) -> (r: bool)
    ensures
        r == quota_item_eq(a@, b@),
{
    eq_str(a.account_key.as_str(), b.account_key.as_str()) && a.captured_at == b.captured_at
        && a.usage_source == b.usage_source && opt_window_eq_exec(
        &a.primary_window,
        &b.primary_window,
    ) && opt_window_eq_exec(&a.secondary_window, &b.secondary_window) && eq_opt_str(
        &a.token_status,
        &b.token_status,
    )
}

fn quota_index_exec(store: &QuotaStoreFile, account_key: &str) -> (r: Option<usize>)
    ensures
        match r {
            Some(i) => i < store.items@.len() && quota_index(store@.items, account_key@) == Some(
                i as int,
            ),
            None => quota_index(store@.items, account_key@) is None,
        },
{
    let ghost vs = store@.items;
    let mut i: usize = 0;
    assert(vs.subrange(0, vs.len() as int) =~= vs);
    while i < store.items.len()
        invariant
            i <= store.items@.len(),
            vs == store@.items,
            quota_index(vs, account_key@) == (match quota_index(
                vs.subrange(i as int, vs.len() as int),
                account_key@,
            ) {
                Some(k) => Some(k + i),
                None => None,
            }),
        decreases store.items@.len() - i,
    {
        let ghost rest = vs.subrange(i as int, vs.len() as int);
        assert(rest[0] == store.items@[i as int]@);
        assert(rest.drop_first() =~= vs.subrange(i + 1, vs.len() as int));
        if eq_str(store.items[i].account_key.as_str(), account_key) {
            return Some(i);
        }
        i = i + 1;
    }
    None
}

/// The cached item for an account: the first one with its key.
pub fn find_item<'a>(store: &'a QuotaStoreFile, account_key: &str) -> (r: Option<&'a QuotaStoreItem>)
    ensures
        r is Some == quota_index(store@.items, account_key@) is Some,
        r is Some ==> r->0@ == store@.items[quota_index(store@.items, account_key@)->0],
{
    match quota_index_exec(store, account_key) {
        Some(i) => Some(&store.items[i]),
        None => None,
    }
}

/// Stores `item` for its account, replacing the account's first entry or
/// appending one; returns whether the store changed.
pub fn upsert_item(store: &mut QuotaStoreFile, item: QuotaStoreItem, updated_at: i64) -> (changed:
    bool)
    ensures
        (final(store)@, changed) == upserted(old(store)@, item@, updated_at),
{
    match quota_index_exec(store, item.account_key.as_str()) {
        Some(i) => {
            if quota_item_eq_exec(&store.items[i], &item) {
                return false;
            }
            let ghost before = store@;
            store.items[i] = item;
            store.updated_at = updated_at;
            assert(store@.items =~= before.items.update(i as int, item@));
            true
        },
        None => {
            let ghost before = store@;
            store.items.push(item);
            store.updated_at = updated_at;
            assert(store@.items =~= before.items.push(item@));
            true
        },
    }
}

// ---------------------------------------------------------------------------
// Laws
// ---------------------------------------------------------------------------
/// What a lookup gives back after an upsert: the first entry for the key is
/// the stored item, or one that compares equal to it.
pub proof fn law_upserted_item_reads_back(s: QuotaStoreView, item: QuotaStoreItemView, updated_at: i64)
    ensures
        ({
            let after = upserted(s, item, updated_at).0;
            &&& quota_index(after.items, item.account_key) is Some
            &&& {
                let found = after.items[quota_index(after.items, item.account_key)->0];
                found == item || quota_item_eq(found, item)
            }
        }),
{
    lemma_quota_index(s.items, item.account_key);
    let after = upserted(s, item, updated_at).0;
    match quota_index(s.items, item.account_key) {
        Some(i) => {
            if !quota_item_eq(s.items[i], item) {
                assert(after.items == s.items.update(i, item));
                assert(after.items[i] == item);
            }
            lemma_quota_index(after.items, item.account_key);
            assert(after.items[i].account_key == item.account_key);
            let k = quota_index(after.items, item.account_key)->0;
            if k < i {
                assert(after.items[k] == s.items[k]);
            }
            assert(k == i);
        },
        None => {
            lemma_quota_index(after.items, item.account_key);
            let n = s.items.len() as int;
            assert(after.items[n] == item);
            if quota_index(after.items, item.account_key) != Some(n) {
                let k = quota_index(after.items, item.account_key)->0;
                assert(after.items[k] == s.items[k]);
            }
        },
    }
}

/// Storing the same item twice changes nothing the second time, as long as
/// its windows hold numbers (a NaN compares unequal to itself).
pub proof fn law_upsert_is_idempotent(s: QuotaStoreView, item: QuotaStoreItemView, updated_at: i64)
    requires
        quota_item_is_number(item),
    ensures
        ({
            let once = upserted(s, item, updated_at);
            let twice = upserted(once.0, item, updated_at);
            !twice.1 && twice.0 == once.0
        }),
{
    law_upserted_item_reads_back(s, item, updated_at);
    let once = upserted(s, item, updated_at).0;
    let found = once.items[quota_index(once.items, item.account_key)->0];
    if found == item {
        assert(quota_item_eq(item, item));
    }
}

} // verus!
