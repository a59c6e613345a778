//! The inventory cache file and when its content may be used.

use vstd::prelude::*;

use crate::inventory::Inventory;
use crate::scw::Fetched;

verus! {

/// The format version of the cache file.
pub const CACHE_VERSION: u32 = 1;

/// Whether a command may use the cache.
#[derive(Debug, Clone, Copy, PartialEq, Eq, Structural)]
pub enum Freshness {
    CacheOk,
    Refresh,
}

/// The cache file's content.
pub struct CacheFile {
    pub version: u32,
    pub fetched_at_unix: u64,
    pub inventory: Inventory,
}

/// The cached inventory may be used at `now`: the version matches and its
/// age is between zero and the TTL.
pub open spec fn usable(file: CacheFile, ttl_seconds: u64, now_unix: Option<u64>) -> bool {
    &&& file.version == CACHE_VERSION
    &&& now_unix matches Some(now)
    &&& file.fetched_at_unix <= now
    &&& now - file.fetched_at_unix <= ttl_seconds
}

impl CacheFile {
    /// What `store` writes: the current version, the fetch time and the
    /// inventory.
    pub fn new(inventory: Inventory, fetched_at_unix: u64) -> (r: CacheFile)
        ensures
            r.version == CACHE_VERSION,
            r.fetched_at_unix == fetched_at_unix,
            r.inventory == inventory,
    {
        CacheFile { version: CACHE_VERSION, fetched_at_unix, inventory }
    }

    /// The inventory, when it may be used at `now_unix` (`None` when the
    /// clock is before the epoch); a file stamped in the future is not.
    pub fn fresh_contents(self, ttl_seconds: u64, now_unix: Option<u64>) -> (r: Option<Inventory>)
        ensures
            usable(self, ttl_seconds, now_unix) ==> r == Some(self.inventory),
            !usable(self, ttl_seconds, now_unix) ==> r is None,
    {
        if self.version != CACHE_VERSION {
            return None;
        }
        let now = match now_unix {
            Some(n) => n,
            None => return None,
        };
        let age = match now.checked_sub(self.fetched_at_unix) {
            Some(a) => a,
            None => return None,
        };
        if age <= ttl_seconds {
            Some(self.inventory)
        } else {
            None
        }
    }
}

/// The inventory a command may take from the cache: none when it asked for
/// a refresh (`--refresh` bypasses the cache), else the cached one when the
/// file was read and is usable at `now_unix`.
pub fn cached_inventory(
    freshness: Freshness,
    file: Option<CacheFile>,
    ttl_seconds: u64,
    now_unix: Option<u64>,
) -> (r: Option<Inventory>)
    ensures
        freshness == Freshness::Refresh ==> r is None,
        freshness == Freshness::CacheOk ==> match file {
            Some(f) => if usable(f, ttl_seconds, now_unix) {
                r == Some(f.inventory)
            } else {
                r is None
            },
            None => r is None,
        },
{
    if freshness == Freshness::Refresh {
        return None;
    }
    match file {
        Some(f) => f.fresh_contents(ttl_seconds, now_unix),
        None => None,
    }
}

/// A fetched inventory is stored only when every call answered: partial
/// results must not be cached.
pub fn should_store(fetched: &Fetched) -> (r: bool)
    ensures
        r == fetched.complete,
{
    fetched.complete
}

/// The cached inventory at any age, for completion helpers that must never
/// fetch: only a file of another version, a clock before the epoch or a
/// file stamped in the future is refused.
pub fn load_ignoring_ttl(file: CacheFile, now_unix: Option<u64>) -> (r: Option<Inventory>)
    ensures
        usable(file, u64::MAX, now_unix) ==> r == Some(file.inventory),
        !usable(file, u64::MAX, now_unix) ==> r is None,
        usable(file, u64::MAX, now_unix) <==> (file.version == CACHE_VERSION && (now_unix matches Some(
            now,
        ) && file.fetched_at_unix <= now)),
{
    file.fresh_contents(u64::MAX, now_unix)
}

/// What is stored is read back, unchanged, for as long as the TTL allows,
/// and not before it was stored nor after.
pub proof fn lemma_store_then_load(inventory: Inventory, stored_at: u64, ttl_seconds: u64, now: u64)
    ensures
        usable(
            CacheFile { version: CACHE_VERSION, fetched_at_unix: stored_at, inventory },
            ttl_seconds,
            Some(now),
        ) <==> (stored_at <= now && now - stored_at <= ttl_seconds),
{
}

} // verus!
