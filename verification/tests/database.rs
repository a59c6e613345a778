use scwx::config::Config;
use scwx::database::{database_keys, db_key, is_database};
use scwx::inventory::{Environment, Resource, ResourceKind};

fn resource(name: &str, tags: &[&str]) -> Resource {
    Resource {
        kind: ResourceKind::Baremetal,
        id: "id".to_owned(),
        name: name.to_owned(),
        zone: "fr-par-1".to_owned(),
        tags: tags.iter().map(|t| (*t).to_owned()).collect(),
        endpoint_ip: None,
        endpoint_port: None,
    }
}

fn config() -> Config {
    let mut config = Config::default();
    config.naming.strip_prefixes = vec!["platform-ingestor-".to_owned()];
    config
}

#[test]
fn db_key_strips_prefix_env_and_shard() {
    let r = resource("platform-ingestor-prod-search-2", &[]);
    assert_eq!(db_key(&r, &config(), Environment::Prod), "search");
}

#[test]
fn db_key_keeps_inner_digits_and_foreign_env() {
    let r = resource("platform-ingestor-db-matched-article-1", &[]);
    assert_eq!(db_key(&r, &config(), Environment::Prod), "matched-article");

    let r = resource("platform-ingestor-beta-saga", &[]);
    assert_eq!(db_key(&r, &config(), Environment::Prod), "beta-saga");
    assert_eq!(db_key(&r, &config(), Environment::Beta), "saga");
}

#[test]
fn only_rdb_and_mysql_tagged_baremetal_are_databases() {
    let config = config();
    let mut rdb = resource("a", &[]);
    rdb.kind = ResourceKind::Rdb;
    assert!(is_database(&rdb, &config));

    assert!(is_database(&resource("b", &["Mysql"]), &config));
    assert!(!is_database(&resource("c", &[]), &config));

    let mut instance = resource("d", &["Mysql"]);
    instance.kind = ResourceKind::Instance;
    assert!(!is_database(&instance, &config));
}

#[test]
fn database_keys_are_unique_and_sorted() {
    let config = config();
    let shard1 = resource(
        "platform-ingestor-db-matched-article-1",
        &["Mysql", "Env:Prod"],
    );
    let shard4 = resource(
        "platform-ingestor-db-matched-article-4",
        &["Mysql", "Env:Prod"],
    );
    let mut search = resource("platform-ingestor-prod-search", &["Env:Prod"]);
    search.kind = ResourceKind::Rdb;
    let beta = resource("platform-ingestor-beta-inbox", &["Mysql", "Env:Beta"]);
    let resources = vec![&shard1, &shard4, &search, &beta];

    assert_eq!(
        database_keys(&resources, &config),
        ["matched-article", "search"]
    );
}

#[test]
fn shard_suffix_needs_digits_after_the_last_dash() {
    let config = Config::default();
    assert_eq!(db_key(&resource("orders-", &[]), &config, Environment::Prod), "orders-");
    assert_eq!(db_key(&resource("orders-2a", &[]), &config, Environment::Prod), "orders-2a");
    assert_eq!(db_key(&resource("orders-12", &[]), &config, Environment::Prod), "orders");
    assert_eq!(db_key(&resource("12", &[]), &config, Environment::Prod), "12");
}

#[test]
fn database_keys_sort_by_code_point_and_drop_repeats() {
    let config = Config::default();
    let mut a = resource("zeta", &["Env:Prod"]);
    a.kind = ResourceKind::Rdb;
    let mut b = resource("Alpha", &["Env:Prod"]);
    b.kind = ResourceKind::Rdb;
    let mut c = resource("zeta-3", &["Env:Prod"]);
    c.kind = ResourceKind::Rdb;
    let mut d = resource("alpha", &["Env:Prod"]);
    d.kind = ResourceKind::Rdb;
    let resources = vec![&a, &b, &c, &d];
    assert_eq!(database_keys(&resources, &config), ["Alpha", "alpha", "zeta"]);
}
