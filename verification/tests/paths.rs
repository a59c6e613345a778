use scwx::cache::{load_ignoring_ttl, CacheFile};
use scwx::commands::pf::{master_state, MasterState};
use scwx::config::Config;
use scwx::inventory::Inventory;
use scwx::paths::{
    cache_file, config_file, expand_tilde, join_path, scw_config_file, sockets_dir, xdg_dir,
};
use scwx::ssh::identity_key;

#[test]
fn xdg_variables_win_over_the_home_fallback() {
    assert_eq!(config_file(Some("/xdg"), Some("/home/jo")).unwrap(), "/xdg/scwx/config.toml");
    assert_eq!(config_file(None, Some("/home/jo")).unwrap(), "/home/jo/.config/scwx/config.toml");
    assert_eq!(config_file(Some(""), Some("/home/jo")).unwrap(), "/home/jo/.config/scwx/config.toml");
    assert_eq!(scw_config_file(None, Some("/home/jo/")).unwrap(), "/home/jo/.config/scw/config.yaml");
    assert_eq!(cache_file(None, Some("/h")).unwrap(), "/h/.cache/scwx/inventory.json");
    assert_eq!(sockets_dir(None, Some("/h")).unwrap(), "/h/.local/state/scwx/sockets");
    assert!(cache_file(None, None).is_err());
    assert_eq!(xdg_dir(Some("/x"), None, ".cache").unwrap(), "/x");
    assert_eq!(
        xdg_dir(None, None, ".cache").unwrap_err().message(),
        "HOME is not set"
    );
}

#[test]
fn tilde_expands_under_the_home_directory_only() {
    assert_eq!(expand_tilde("~/.ssh/id", Some("/home/jo")).unwrap(), "/home/jo/.ssh/id");
    assert_eq!(expand_tilde("/keys/id", None).unwrap(), "/keys/id");
    assert_eq!(expand_tilde("~jo/id", None).unwrap(), "~jo/id");
    assert!(expand_tilde("~/id", None).is_err());
}

#[test]
fn join_follows_path_join() {
    assert_eq!(join_path("a", "b"), "a/b");
    assert_eq!(join_path("a/", "b"), "a/b");
    assert_eq!(join_path("", "b"), "b");
    assert_eq!(join_path("a", "/b"), "/b");
}

#[test]
fn the_identity_key_is_expanded_when_configured() {
    let mut config = Config::default();
    assert_eq!(identity_key(&config, Some("/h")).unwrap(), None);
    config.ssh.key = Some("~/.ssh/id_ed25519".to_owned());
    assert_eq!(
        identity_key(&config, Some("/h")).unwrap().as_deref(),
        Some("/h/.ssh/id_ed25519")
    );
    assert!(identity_key(&config, None).is_err());
}

#[test]
fn completion_reads_accept_any_age_but_not_the_future() {
    let empty = || Inventory::new(vec![], None);
    assert!(load_ignoring_ttl(CacheFile::new(empty(), 0), Some(u64::MAX)).is_some());
    assert!(load_ignoring_ttl(CacheFile::new(empty(), 100), Some(99)).is_none());
    assert!(load_ignoring_ttl(CacheFile::new(empty(), 100), None).is_none());
}

#[test]
fn check_status_maps_to_master_state() {
    assert_eq!(master_state(Some(true)), MasterState::Alive);
    assert_eq!(master_state(Some(false)), MasterState::Dead);
    assert_eq!(master_state(None), MasterState::Unknown);
}
