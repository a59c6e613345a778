use scwx::commands::db::{
    database_user, db_target, mysql_argv, mysql_defaults_content, preferred_local_port,
    reexec_args, secret_location, DbError, MysqlOptions,
};
use scwx::config::Config;
use scwx::inventory::{Environment, Resource, ResourceKind};

#[test]
fn mysql_argv_places_execute_and_extra_args_before_the_schema() {
    let extra = ["--table".to_owned()];
    let options = MysqlOptions {
        execute: Some("SELECT 1"),
        extra_args: &extra,
    };
    let argv = mysql_argv("/tmp/d.cnf", 13306, "mael_lepetit", "search", options);
    assert_eq!(
        argv,
        [
            "--defaults-extra-file=/tmp/d.cnf",
            "-h",
            "127.0.0.1",
            "-P",
            "13306",
            "-u",
            "mael_lepetit",
            "--execute",
            "SELECT 1",
            "--table",
            "search",
        ]
    );

    let plain = mysql_argv(
        "/tmp/d.cnf",
        13306,
        "u",
        "s",
        MysqlOptions {
            execute: None,
            extra_args: &[],
        },
    );
    assert_eq!(plain.last().unwrap(), "s");
    assert!(!plain.contains(&"--execute".to_owned()));
}

#[test]
fn mysql_defaults_escape_quotes_and_backslashes() {
    assert_eq!(
        mysql_defaults_content(r#"pa"ss\word"#),
        "[client]\npassword=\"pa\\\"ss\\\\word\"\n"
    );
}

#[test]
fn preferred_local_port_never_overflows() {
    assert_eq!(preferred_local_port(3306), 13306);
    assert_eq!(preferred_local_port(61000), 61000);
    assert_eq!(preferred_local_port(65535), 65535);
    assert_eq!(preferred_local_port(0), 10000);
}

#[test]
fn preferred_local_port_avoids_privileged_ports() {
    assert_eq!(preferred_local_port(55535), 65535);
    assert_eq!(preferred_local_port(55536), 55536);
    assert_eq!(preferred_local_port(80), 10080);
}

#[test]
fn database_user_prefers_config_then_the_os_user() {
    let mut config = Config::default();
    assert_eq!(database_user(&config, Some("mael.lepetit")).unwrap(), "mael_lepetit");
    assert!(matches!(database_user(&config, None), Err(DbError::NoUser)));
    config.db.user = Some("jo".to_owned());
    assert_eq!(database_user(&config, Some("x.y")).unwrap(), "jo");
    assert_eq!(
        DbError::NoUser.message(),
        "USER is not set and db.user is not configured"
    );
}

fn database(name: &str, ip: Option<&str>, port: Option<u16>, tags: &[&str]) -> Resource {
    Resource {
        kind: ResourceKind::Baremetal,
        id: "id".to_owned(),
        name: name.to_owned(),
        zone: "fr-par-1".to_owned(),
        tags: tags.iter().map(|t| (*t).to_owned()).collect(),
        endpoint_ip: ip.map(str::to_owned),
        endpoint_port: port,
    }
}

#[test]
fn db_target_needs_an_endpoint_and_defaults_to_3306() {
    let mut config = Config::default();
    config.naming.strip_prefixes = vec!["platform-ingestor-".to_owned()];
    let r = database("platform-ingestor-prod-search-2", Some("172.16.8.11"), None, &[]);
    let target = db_target(&r, &config, Environment::Prod).unwrap();
    assert_eq!(target.host, "172.16.8.11");
    assert_eq!(target.remote_port, 3306);
    assert_eq!(target.key, "search");

    let tagged = database("x", Some("1.2.3.4"), Some(5432), &["PortForward:3307"]);
    assert_eq!(db_target(&tagged, &config, Environment::Prod).unwrap().remote_port, 3307);

    let none = database("nowhere", None, None, &[]);
    match db_target(&none, &config, Environment::Prod) {
        Err(e) => assert_eq!(e.message(), "no endpoint ip known for nowhere"),
        Ok(_) => panic!("no endpoint must be an error"),
    }
}

#[test]
fn secret_location_uses_the_template_and_first_region() {
    let mut config = Config::default();
    let location = secret_location(&config, "search", "jo", Environment::Beta, Some("proj")).unwrap();
    assert_eq!(location.project_id, "proj");
    assert_eq!(location.region, "fr-par");
    assert_eq!(location.name, "SEARCH-JO-PWD-BETA");
    assert!(matches!(
        secret_location(&config, "search", "jo", Environment::Beta, None),
        Err(DbError::NoProject)
    ));
    config.db.secret_project_id = Some("own".to_owned());
    config.scaleway.regions.clear();
    assert!(matches!(
        secret_location(&config, "search", "jo", Environment::Beta, Some("proj")),
        Err(DbError::NoRegion)
    ));
}

#[test]
fn reexec_args_rebuild_the_command_line() {
    let extra = ["--table".to_owned()];
    let args = reexec_args(
        "search",
        Environment::Prod,
        MysqlOptions { execute: Some("SELECT 1"), extra_args: &extra },
    );
    assert_eq!(
        args,
        ["db", "search", "--env", "prod", "--execute", "SELECT 1", "--", "--table"]
    );
}

#[test]
fn pane_titles_name_the_database() {
    assert_eq!(scwx::commands::db::pane_title("search"), "db:search");
}
