use scwx::config::{Config, Credentials, EnvOverrides, ScwConfigFile, ScwProfile};

fn profile(secret_key: Option<&str>, project: Option<&str>) -> ScwProfile {
    ScwProfile {
        secret_key: secret_key.map(str::to_owned),
        default_project_id: project.map(str::to_owned),
    }
}

#[test]
fn credentials_prefer_active_profile_over_base() {
    let file = ScwConfigFile {
        base: profile(Some("base-key"), Some("base-project")),
        active_profile: Some("work".to_owned()),
        profiles: vec![("work".to_owned(), profile(Some("work-key"), None))],
    };
    let credentials = Credentials::resolve(file, EnvOverrides::none()).ok().unwrap();

    assert_eq!(credentials.secret_key.expose(), "work-key");
    assert_eq!(
        credentials.default_project_id.as_deref(),
        Some("base-project")
    );
}

#[test]
fn credentials_prefer_env_over_file() {
    let mut file = ScwConfigFile::empty();
    file.base = profile(Some("base-key"), None);
    let mut env = EnvOverrides::none();
    env.secret_key = Some("env-key".to_owned());
    let credentials = Credentials::resolve(file, env).ok().unwrap();

    assert_eq!(credentials.secret_key.expose(), "env-key");
}

#[test]
fn env_can_select_the_profile() {
    let file = ScwConfigFile {
        base: profile(Some("base-key"), None),
        active_profile: None,
        profiles: vec![("staging".to_owned(), profile(Some("staging-key"), None))],
    };
    let mut env = EnvOverrides::none();
    env.profile = Some("staging".to_owned());
    let credentials = Credentials::resolve(file, env).ok().unwrap();

    assert_eq!(credentials.secret_key.expose(), "staging-key");
}

#[test]
fn missing_secret_key_is_an_error() {
    let result = Credentials::resolve(ScwConfigFile::empty(), EnvOverrides::none());
    assert!(result.is_err());
}

#[test]
fn unknown_profile_falls_back_to_the_base_values() {
    let file = ScwConfigFile {
        base: profile(Some("base-key"), Some("p")),
        active_profile: Some("gone".to_owned()),
        profiles: vec![("work".to_owned(), profile(Some("work-key"), Some("w")))],
    };
    let credentials = Credentials::resolve(file, EnvOverrides::none()).ok().unwrap();
    assert_eq!(credentials.secret_key.expose(), "base-key");
    assert_eq!(credentials.default_project_id.as_deref(), Some("p"));
}

#[test]
fn defaults_match_the_documented_values() {
    let config = Config::default();
    assert_eq!(config.cache.ttl_seconds, 300);
    assert_eq!(config.scaleway.zones, ["fr-par-1", "fr-par-2", "fr-par-3"]);
    assert_eq!(config.bastion.fallback_port, 61000);
    assert_eq!(config.ssh.user, "root");
    assert!(config.ssh.key.is_none());
    assert_eq!(config.db.secret_name_template, "{db}-{user}-PWD-{env}");
}
