use scwx::cache::{CacheFile, Freshness, CACHE_VERSION};
use scwx::cli::Scope;
use scwx::inventory::{Bastion, Environment, Inventory};

fn inventory() -> Inventory {
    Inventory::new(
        vec![],
        Some(Bastion {
            ip: "5.6.7.8".to_owned(),
            port: 61000,
            zone: "fr-par-1".to_owned(),
        }),
    )
}

const STORED_AT: u64 = 1_700_000_000;

#[test]
fn roundtrip_within_ttl_returns_the_inventory() {
    let file = CacheFile::new(inventory(), STORED_AT);
    let loaded = file.fresh_contents(300, Some(STORED_AT)).unwrap();
    assert_eq!(loaded.bastion().ok().unwrap().ip, "5.6.7.8");
}

#[test]
fn stale_or_future_timestamps_are_ignored() {
    let expired = STORED_AT + 301;
    assert!(CacheFile::new(inventory(), STORED_AT).fresh_contents(300, Some(expired)).is_none());

    let before_write = STORED_AT - 3600;
    assert!(CacheFile::new(inventory(), STORED_AT)
        .fresh_contents(300, Some(before_write))
        .is_none());

    assert!(CacheFile::new(inventory(), STORED_AT).fresh_contents(300, Some(STORED_AT)).is_some());
}

#[test]
fn unusable_cache_content_is_ignored() {
    let mut wrong_version = CacheFile::new(inventory(), STORED_AT);
    wrong_version.version = 0;
    assert!(wrong_version.fresh_contents(300, Some(STORED_AT)).is_none());
    assert!(CacheFile::new(inventory(), STORED_AT).fresh_contents(300, None).is_none());
    assert_eq!(CACHE_VERSION, 1);
}

#[test]
fn the_ttl_bound_is_inclusive_and_unbounded_ttl_accepts_any_age() {
    let file = CacheFile::new(inventory(), 10);
    assert!(file.fresh_contents(300, Some(310)).is_some());
    assert!(CacheFile::new(inventory(), 0).fresh_contents(u64::MAX, Some(u64::MAX)).is_some());
}

#[test]
fn scope_maps_refresh_to_freshness() {
    let scope = Scope::new(Some(Environment::Beta), true);
    assert_eq!(scope.env, Some(Environment::Beta));
    assert_eq!(scope.freshness, Freshness::Refresh);
    assert_eq!(Scope::new(None, false).freshness, Freshness::CacheOk);
}
