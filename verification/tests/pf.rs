use scwx::commands::pf::{
    control_args, listed_line, matching, on_existing_socket, plan_tunnel, record_path,
    resolve_ports, should_remove, socket_path, sort_records, started_line, tunnel_name,
    MasterState, PfError, StaleSocket, TunnelRecord,
};
use scwx::config::{Config, TagConventions};
use scwx::inventory::{Bastion, Resource, ResourceKind};

fn record(name: &str) -> TunnelRecord {
    TunnelRecord {
        name: name.to_owned(),
        local_port: 13306,
        remote_port: 3306,
        target: "172.16.0.1:3306".to_owned(),
        destination: "bastion@5.6.7.8".to_owned(),
    }
}

#[test]
fn matching_filters_by_substring_and_none_selects_all() {
    let records = vec![record("api-8080"), record("redis-commons-6379")];

    let all = matching(&records, None);
    assert_eq!(all.len(), 2);

    let redis = matching(&records, Some("redis"));
    assert_eq!(redis.len(), 1);
    assert_eq!(redis[0].name, "redis-commons-6379");

    assert!(matching(&records, Some("nope")).is_empty());
}

#[test]
fn paths_sit_in_the_socket_directory() {
    assert_eq!(socket_path("/run/scwx", "api-8080"), "/run/scwx/api-8080.sock");
    assert_eq!(record_path("/run/scwx/", "api-8080"), "/run/scwx/api-8080.json");
    assert_eq!(
        control_args("/d", &record("x"), "check"),
        ["-S", "/d/x.sock", "-O", "check", "bastion@5.6.7.8"]
    );
}

#[test]
fn records_are_listed_by_name() {
    let sorted = sort_records(vec![record("b"), record("a"), record("c")]);
    let names: Vec<_> = sorted.iter().map(|r| r.name.as_str()).collect();
    assert_eq!(names, ["a", "b", "c"]);
    assert_eq!(
        listed_line(&sorted[0]),
        "a  127.0.0.1:13306 -> 172.16.0.1:3306"
    );
}

#[test]
fn stale_sockets_and_stops() {
    assert_eq!(on_existing_socket(MasterState::Alive), StaleSocket::AlreadyRunning);
    assert_eq!(on_existing_socket(MasterState::Dead), StaleSocket::Prune);
    assert_eq!(on_existing_socket(MasterState::Unknown), StaleSocket::CannotProbe);
    assert!(should_remove(true, MasterState::Alive));
    assert!(should_remove(false, MasterState::Dead));
    assert!(should_remove(false, MasterState::Unknown));
    assert!(!should_remove(false, MasterState::Alive));
}

fn resource(kind: ResourceKind, name: &str, ip: Option<&str>, tags: &[&str]) -> Resource {
    Resource {
        kind,
        id: "id".to_owned(),
        name: name.to_owned(),
        zone: "fr-par-1".to_owned(),
        tags: tags.iter().map(|t| (*t).to_owned()).collect(),
        endpoint_ip: ip.map(str::to_owned),
        endpoint_port: None,
    }
}

#[test]
fn ports_come_from_the_flags_then_the_tag() {
    let tags = TagConventions::default();
    let r = resource(ResourceKind::Rdb, "db", Some("10.0.0.1"), &["PortForward:5432"]);
    assert_eq!(resolve_ports(&r, &tags, None, None).unwrap(), (5432, 5432));
    assert_eq!(resolve_ports(&r, &tags, Some(15432), None).unwrap(), (15432, 5432));
    assert_eq!(resolve_ports(&r, &tags, None, Some(6000)).unwrap(), (6000, 6000));

    let bare = resource(ResourceKind::Rdb, "db", Some("10.0.0.1"), &[]);
    match resolve_ports(&bare, &tags, None, None) {
        Err(e @ PfError::NoRemotePort { .. }) => assert_eq!(
            e.message(),
            "no remote port known for db: tag it with PortForward:<port> or pass --remote-port"
        ),
        other => panic!("unexpected: {other:?}"),
    }
}

#[test]
fn servers_go_through_a_jump_and_others_through_the_bastion() {
    let config = Config::default();
    let bastion = Bastion { ip: "5.6.7.8".to_owned(), port: 61000, zone: "fr-par-1".to_owned() };

    let server = resource(ResourceKind::Instance, "worker-1", None, &[]);
    let (command, label) = plan_tunnel(&server, &config, &bastion, None, 18090, 8090).ok().unwrap();
    assert_eq!(label, "worker-1:8090");
    assert_eq!(command.destination(), "root@worker-1");

    let cache = resource(ResourceKind::Redis, "cache", Some("172.16.4.2"), &[]);
    let (command, label) = plan_tunnel(&cache, &config, &bastion, None, 16379, 6379).ok().unwrap();
    assert_eq!(label, "172.16.4.2:6379");
    assert_eq!(command.destination(), "bastion@5.6.7.8");

    let lost = resource(ResourceKind::Lb, "lb", None, &[]);
    assert!(matches!(
        plan_tunnel(&lost, &config, &bastion, None, 1, 2),
        Err(PfError::NoEndpoint(n)) if n == "lb"
    ));

    assert_eq!(tunnel_name("perco-3", 18090), "perco-3-18090");
    assert_eq!(started_line("perco-3-18090", 18090, "worker-1:8090"), "perco-3-18090: 127.0.0.1:18090 -> worker-1:8090");
}

#[test]
fn sorting_keeps_records_with_equal_names_in_order() {
    let mut first = record("same");
    first.target = "first".to_owned();
    let mut second = record("same");
    second.target = "second".to_owned();
    let sorted = sort_records(vec![record("z"), first, record("a"), second]);
    let order: Vec<_> = sorted.iter().map(|r| (r.name.as_str(), r.target.as_str())).collect();
    assert_eq!(order[1], ("same", "first"));
    assert_eq!(order[2], ("same", "second"));
    assert_eq!(order[0].0, "a");
    assert_eq!(order[3].0, "z");
}

#[test]
fn one_target_on_two_ports_gets_two_names() {
    assert_ne!(tunnel_name("api", 8080), tunnel_name("api", 18080));
    assert_ne!(socket_path("/d", "api-8080"), record_path("/d", "api-8080"));
}
