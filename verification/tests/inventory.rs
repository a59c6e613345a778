use scwx::config::{Config, NamingRules, TagConventions};
use scwx::inventory::{Bastion, Environment, Inventory, Resource, ResourceKind};

fn naming(prefixes: &[&str]) -> NamingRules {
    NamingRules {
        strip_prefixes: prefixes.iter().map(|p| (*p).to_owned()).collect(),
    }
}

fn resource(name: &str, tags: &[&str]) -> Resource {
    Resource {
        kind: ResourceKind::Baremetal,
        id: "11111111-2222-3333-4444-555555555555".to_owned(),
        name: name.to_owned(),
        zone: "fr-par-2".to_owned(),
        tags: tags.iter().map(|t| (*t).to_owned()).collect(),
        endpoint_ip: None,
        endpoint_port: None,
    }
}

#[test]
fn display_name_strips_the_first_matching_prefix() {
    let resource = resource("platform-ingestor-prod-perco-3", &[]);
    let naming = naming(&["platform-ingestor-", "other-"]);
    assert_eq!(resource.display_name(&naming), "prod-perco-3");
}

#[test]
fn display_name_without_matching_prefix_is_the_full_name() {
    let resource = resource("standalone", &[]);
    assert_eq!(resource.display_name(&naming(&["platform-"])), "standalone");
}

#[test]
fn env_parses_the_env_tag_case_insensitively() {
    let tags = TagConventions::default();
    assert_eq!(resource("a", &["Env:Prod"]).env(&tags), Some(Environment::Prod));
    assert_eq!(resource("a", &["Env:beta"]).env(&tags), Some(Environment::Beta));
    assert_eq!(resource("a", &["Env:Unknown"]).env(&tags), None);
    assert_eq!(resource("a", &[]).env(&tags), None);
}

#[test]
fn port_forward_port_prefers_the_tag_over_the_endpoint() {
    let tags = TagConventions::default();
    let mut r = resource("a", &["PortForward:3306"]);
    r.endpoint_port = Some(6379);
    assert_eq!(r.port_forward_port(&tags), Some(3306));

    let mut r = resource("a", &[]);
    r.endpoint_port = Some(6379);
    assert_eq!(r.port_forward_port(&tags), Some(6379));

    assert_eq!(resource("a", &[]).port_forward_port(&tags), None);
}

#[test]
fn invalid_port_forward_tag_falls_back_to_the_endpoint() {
    let tags = TagConventions::default();
    let mut r = resource("a", &["PortForward:not-a-port"]);
    r.endpoint_port = Some(5432);
    assert_eq!(r.port_forward_port(&tags), Some(5432));
}

#[test]
fn matches_is_case_insensitive_on_full_and_display_name() {
    let resource = resource("platform-ingestor-prod-perco-3", &[]);
    let naming = naming(&["platform-ingestor-"]);
    assert!(resource.matches("PERCO", &naming));
    assert!(resource.matches("platform-ingestor-prod", &naming));
    assert!(!resource.matches("redis", &naming));
}

#[test]
fn filtered_keeps_only_the_requested_env() {
    let tags = TagConventions::default();
    let inventory = Inventory {
        resources: vec![
            resource("prod-a", &["Env:Prod"]),
            resource("beta-a", &["Env:Beta"]),
            resource("untagged", &[]),
        ],
        bastion: None,
    };

    let prod = inventory.filtered(Some(Environment::Prod), &tags);
    assert_eq!(prod.len(), 1);
    assert_eq!(prod[0].name, "prod-a");

    assert_eq!(inventory.filtered(None, &tags).len(), 3);
}

#[test]
fn environment_names_parse_back() {
    for env in [Environment::Prod, Environment::Beta, Environment::Dev] {
        assert_eq!(Environment::parse(env.as_str()).unwrap(), env);
    }
    assert_eq!(Environment::parse("DEV").unwrap(), Environment::Dev);
    assert!(Environment::parse("staging").is_err());
    assert_eq!(
        Environment::parse("staging").unwrap_err().message(),
        "unknown environment"
    );
}

#[test]
fn kind_labels_and_servers() {
    assert_eq!(ResourceKind::Instance.label(), "instance");
    assert_eq!(ResourceKind::Lb.label(), "lb");
    assert!(ResourceKind::Baremetal.is_server());
    assert!(!ResourceKind::Rdb.is_server());
}

#[test]
fn only_a_tag_with_the_exact_value_enables_forwarding() {
    let tags = TagConventions::default();
    assert!(resource("a", &["EnablePortForward:true"]).port_forward_enabled(&tags));
    assert!(!resource("a", &["EnablePortForward:false"]).port_forward_enabled(&tags));
    assert!(resource("a", &["Master"]).is_master(&tags));
    assert!(!resource("a", &["master"]).is_master(&tags));
}

#[test]
fn the_first_env_tag_decides_even_when_it_does_not_parse() {
    let tags = TagConventions::default();
    assert_eq!(resource("a", &["Env:qa", "Env:Prod"]).env(&tags), None);
}

#[test]
fn bastion_destination_and_absence() {
    let bastion = Bastion {
        ip: "5.6.7.8".to_owned(),
        port: 61000,
        zone: "fr-par-1".to_owned(),
    };
    assert_eq!(bastion.destination("bastion"), "bastion@5.6.7.8");
    let empty = Inventory::new(vec![], None);
    assert_eq!(
        empty.bastion().unwrap_err().message(),
        "no bastion-enabled vpc gateway found in the inventory"
    );
    let with = Inventory::new(vec![], Some(bastion));
    assert_eq!(with.bastion().unwrap().port, 61000);
}

#[test]
fn default_config_values() {
    let config = Config::default();
    assert_eq!(config.bastion.fallback_port, 61000);
    assert_eq!(config.ssh.user, "root");
    assert_eq!(config.scaleway.zones.len(), 3);
    assert!(config.db.secret_project_id.is_none());
    assert_eq!(config.cache.ttl_seconds, 300);
    assert_eq!(config.db.strip_prefixes, ["db-"]);
}

#[test]
fn environments_parse_through_from_str() {
    assert_eq!("DEV".parse::<Environment>().ok(), Some(Environment::Dev));
    assert!("staging".parse::<Environment>().is_err());
}
