use scwx::commands::connect::{no_server_message, servers_in};
use scwx::commands::db::databases_in;
use scwx::commands::ls::{selected_names, table_lines, NameOutput, ResourceView};
use scwx::config::Config;
use scwx::inventory::{Environment, Inventory, Resource, ResourceKind};

fn resource(kind: ResourceKind, name: &str, tags: &[&str], ip: Option<&str>) -> Resource {
    Resource {
        kind,
        id: format!("id-{name}"),
        name: name.to_owned(),
        zone: "fr-par-1".to_owned(),
        tags: tags.iter().map(|t| (*t).to_owned()).collect(),
        endpoint_ip: ip.map(str::to_owned),
        endpoint_port: None,
    }
}

fn config() -> Config {
    let mut config = Config::default();
    config.naming.strip_prefixes = vec!["platform-".to_owned()];
    config
}

fn inventory() -> Inventory {
    Inventory::new(
        vec![
            resource(ResourceKind::Instance, "platform-web-1", &["Env:Prod"], None),
            resource(ResourceKind::Rdb, "platform-prod-search", &["Env:Prod"], Some("10.0.0.5")),
            resource(ResourceKind::Redis, "platform-cache", &["Env:Beta", "EnablePortForward:true"], Some("172.16.4.2")),
            resource(ResourceKind::Baremetal, "platform-db-1", &["Env:Beta", "Mysql"], None),
        ],
        None,
    )
}

#[test]
fn servers_are_instances_and_baremetal_of_the_environment() {
    let inventory = inventory();
    let config = config();
    let all: Vec<_> = servers_in(&inventory, None, &config).iter().map(|r| r.name.clone()).collect();
    assert_eq!(all, ["platform-web-1", "platform-db-1"]);
    let beta: Vec<_> = servers_in(&inventory, Some(Environment::Beta), &config)
        .iter()
        .map(|r| r.name.clone())
        .collect();
    assert_eq!(beta, ["platform-db-1"]);
    let dbs: Vec<_> = databases_in(&inventory, Environment::Prod, &config)
        .iter()
        .map(|r| r.name.clone())
        .collect();
    assert_eq!(dbs, ["platform-prod-search"]);
}

#[test]
fn a_query_naming_a_database_points_to_the_right_command() {
    let inventory = inventory();
    let config = config();
    let refs: Vec<&Resource> = inventory.resources.iter().collect();
    assert_eq!(
        no_server_message(&refs, "search", &config.naming),
        "prod-search is a rdb and has no ssh; try `scwx db prod-search`"
    );
    assert_eq!(
        no_server_message(&refs, "cache", &config.naming),
        "cache is a redis and has no ssh; try `scwx pf cache`"
    );
    assert_eq!(
        no_server_message(&refs, "nothing", &config.naming),
        "no server matches 'nothing'"
    );
}

#[test]
fn names_list_servers_forwardables_and_databases() {
    let inventory = inventory();
    let config = config();
    let refs: Vec<&Resource> = inventory.resources.iter().collect();
    assert_eq!(selected_names(NameOutput::Servers, &refs, &config), ["web-1", "db-1"]);
    assert_eq!(selected_names(NameOutput::Forwardable, &refs, &config), ["cache"]);
}

#[test]
fn the_table_aligns_a_header_and_one_row_per_resource() {
    let inventory = inventory();
    let config = config();
    let views: Vec<ResourceView> = inventory.resources[..2]
        .iter()
        .map(|r| ResourceView::new(r, &config))
        .collect();
    assert_eq!(views[1].display_name, "prod-search");
    assert_eq!(views[1].env, Some(Environment::Prod));
    assert_eq!(
        table_lines(&views),
        [
            "NAME         KIND      ENV   ZONE      IP",
            "web-1        instance  prod  fr-par-1",
            "prod-search  rdb       prod  fr-par-1  10.0.0.5",
        ]
    );
}
