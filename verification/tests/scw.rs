use scwx::config::ScalewayLocations;
use scwx::inventory::{Bastion, Resource, ResourceKind};
use scwx::scw::{
    baremetal_private_ips, check_locations, classify, collect_pages, collect_results,
    finish_inventory, is_auth_error, resources_from, select_bastion, Baremetal, Failure,
    FetchError, Gateway, GatewayIp, Instance, IntoResource, IpamIp, IpamResource, Lb, LbIp,
    RdbEndpoint, RdbInstance, RedisCluster, RedisEndpoint,
};

fn instance(id: &str, name: &str, state: &str, tags: &[&str]) -> Instance {
    Instance {
        id: id.to_owned(),
        name: name.to_owned(),
        state: state.to_owned(),
        tags: tags.iter().map(|t| (*t).to_owned()).collect(),
    }
}

#[test]
fn instances_filter_on_running_state() {
    let list = vec![
        instance("a", "web-1", "running", &["Env:Prod"]),
        instance("b", "web-2", "stopped", &[]),
    ];

    let resources: Vec<_> = list
        .into_iter()
        .filter_map(|s| s.into_resource("fr-par-1"))
        .collect();

    assert_eq!(resources.len(), 1);
    assert_eq!(resources[0].name, "web-1");
    assert_eq!(resources[0].zone, "fr-par-1");
    assert_eq!(resources[0].kind, ResourceKind::Instance);
}

fn rdb(id: &str, name: &str, status: &str, endpoints: Vec<RdbEndpoint>) -> RdbInstance {
    RdbInstance {
        id: id.to_owned(),
        name: name.to_owned(),
        status: status.to_owned(),
        tags: vec![],
        endpoints,
    }
}

#[test]
fn rdb_takes_ip_or_hostname_from_the_first_endpoint() {
    let list = vec![
        rdb(
            "a",
            "db-1",
            "ready",
            vec![RdbEndpoint { ip: Some("10.0.0.5".to_owned()), hostname: None, port: 5432 }],
        ),
        rdb(
            "b",
            "db-2",
            "ready",
            vec![RdbEndpoint {
                ip: None,
                hostname: Some("db-2.rdb.fr-par.scw.cloud".to_owned()),
                port: 3306,
            }],
        ),
        rdb("c", "db-3", "provisioning", vec![]),
    ];

    let resources: Vec<_> = list
        .into_iter()
        .filter_map(|i| i.into_resource("fr-par"))
        .collect();

    assert_eq!(resources.len(), 2);
    assert_eq!(resources[0].endpoint_ip.as_deref(), Some("10.0.0.5"));
    assert_eq!(resources[0].endpoint_port, Some(5432));
    assert_eq!(
        resources[1].endpoint_ip.as_deref(),
        Some("db-2.rdb.fr-par.scw.cloud")
    );
}

#[test]
fn redis_takes_the_first_endpoint_ip() {
    let list = vec![RedisCluster {
        id: "a".to_owned(),
        name: "cache-1".to_owned(),
        status: "ready".to_owned(),
        tags: vec![],
        endpoints: vec![RedisEndpoint { ips: vec!["172.16.4.2".to_owned()], port: 6379 }],
    }];

    let resources: Vec<_> = list
        .into_iter()
        .filter_map(|c| c.into_resource("fr-par-1"))
        .collect();

    assert_eq!(resources[0].endpoint_ip.as_deref(), Some("172.16.4.2"));
    assert_eq!(resources[0].endpoint_port, Some(6379));
}

#[test]
fn lb_takes_the_first_ip_address() {
    let list = vec![Lb {
        id: "a".to_owned(),
        name: "lb-1".to_owned(),
        status: "ready".to_owned(),
        tags: vec![],
        ip: vec![LbIp { ip_address: "51.15.1.2".to_owned() }],
    }];

    let resources: Vec<_> = list
        .into_iter()
        .filter_map(|lb| lb.into_resource("fr-par-1"))
        .collect();

    assert_eq!(resources[0].endpoint_ip.as_deref(), Some("51.15.1.2"));
}

fn ipam(address: &str, is_ipv6: bool, resource: Option<(&str, &str)>) -> IpamIp {
    IpamIp {
        address: address.to_owned(),
        is_ipv6,
        resource: resource.map(|(kind, name)| IpamResource {
            kind: kind.to_owned(),
            name: Some(name.to_owned()),
        }),
    }
}

#[test]
fn ipam_keeps_ipv4_baremetal_nics_and_strips_the_cidr() {
    let list = vec![
        ipam("172.16.8.11/22", false, Some(("baremetal_private_nic", "db-master-1"))),
        ipam("fd00::1/64", true, Some(("baremetal_private_nic", "db-master-1"))),
        ipam("172.16.8.12/22", false, Some(("instance_private_nic", "web-1"))),
        ipam("172.16.8.13/22", false, None),
    ];

    let ips = baremetal_private_ips(list);
    assert_eq!(ips, [("db-master-1".to_owned(), "172.16.8.11".to_owned())]);
}

fn resource(name: &str) -> Resource {
    Resource {
        kind: ResourceKind::Instance,
        id: "id".to_owned(),
        name: name.to_owned(),
        zone: "fr-par-1".to_owned(),
        tags: vec![],
        endpoint_ip: None,
        endpoint_port: None,
    }
}

#[test]
fn collect_treats_absent_products_as_complete() {
    let collected = collect_results(vec![
        ("instances in fr-par-1".to_owned(), Ok(vec![resource("a")])),
        ("redis in fr-par-3".to_owned(), Err(FetchError::Status(501))),
    ])
    .unwrap();

    assert_eq!(collected.items.len(), 1);
    assert!(collected.complete);
}

#[test]
fn collect_marks_transient_failures_incomplete() {
    let collected = collect_results(vec![
        ("instances in fr-par-1".to_owned(), Ok(vec![resource("a")])),
        ("baremetal in fr-par-2".to_owned(), Err(FetchError::Status(503))),
    ])
    .unwrap();

    assert_eq!(collected.items.len(), 1);
    assert!(!collected.complete);
    assert_eq!(collected.skipped.len(), 1);
    assert_eq!(collected.skipped[0].0, "baremetal in fr-par-2");
}

#[test]
fn collect_propagates_auth_errors() {
    let result = collect_results::<Resource>(vec![(
        "instances in fr-par-1".to_owned(),
        Err(FetchError::Status(401)),
    )]);
    match result {
        Err(denied) => {
            assert_eq!(denied.label, "instances in fr-par-1");
            assert_eq!(denied.message(), "scaleway denied access (instances in fr-par-1)");
        }
        Ok(_) => panic!("a refused call must stop the fetch"),
    }
}

fn pages<T: Clone>(
    pages: Vec<(Vec<T>, Option<u64>)>,
) -> impl Fn(usize) -> Result<(Vec<T>, Option<u64>), FetchError> {
    move |page| Ok(pages[page - 1].clone())
}

#[test]
fn pagination_stops_on_the_reported_total() {
    let full: Vec<u32> = (0..100).collect();
    let items = collect_pages(pages(vec![
        (full.clone(), Some(150)),
        ((0..50).collect(), Some(150)),
    ]))
    .unwrap();
    assert_eq!(items.len(), 150);
}

#[test]
fn pagination_without_total_stops_on_a_short_page() {
    let items = collect_pages(pages(vec![((0..30).collect::<Vec<u32>>(), None)])).unwrap();
    assert_eq!(items.len(), 30);
}

#[test]
fn pagination_stops_on_an_empty_page() {
    let full: Vec<u32> = (0..100).collect();
    let items = collect_pages(pages(vec![(full, None), (vec![], None)])).unwrap();
    assert_eq!(items.len(), 100);
}

#[test]
fn pagination_gives_up_when_the_server_ignores_the_page_parameter() {
    let full: Vec<u32> = (0..100).collect();
    let result = collect_pages(move |_| Ok((full.clone(), None)));
    assert!(matches!(result, Err(FetchError::TooManyPages)));
}

#[test]
fn pagination_passes_a_failed_page_through() {
    let full: Vec<u32> = (0..100).collect();
    let result = collect_pages(move |page| {
        if page == 1 {
            Ok((full.clone(), None))
        } else {
            Err(FetchError::Status(503))
        }
    });
    assert!(matches!(result, Err(FetchError::Status(503))));
}

fn gateway(enabled: bool, ip: Option<&str>) -> Gateway {
    Gateway {
        bastion_enabled: enabled,
        bastion_port: 61000,
        ipv4: ip.map(|a| GatewayIp { address: a.to_owned() }),
    }
}

#[test]
fn bastion_requires_flag_and_ipv4() {
    let list = vec![
        gateway(false, Some("1.2.3.4")),
        gateway(true, None),
        gateway(true, Some("5.6.7.8")),
    ];

    let bastion = select_bastion(list, "fr-par-1").unwrap();

    assert_eq!(bastion.ip, "5.6.7.8");
    assert_eq!(bastion.port, 61000);
    assert_eq!(bastion.zone, "fr-par-1");
}

#[test]
fn failures_are_classified_by_status() {
    assert_eq!(classify(&FetchError::Status(401)), Failure::Denied);
    assert_eq!(classify(&FetchError::Status(403)), Failure::Denied);
    assert_eq!(classify(&FetchError::Status(501)), Failure::Absent);
    assert_eq!(classify(&FetchError::Status(500)), Failure::Transient);
    assert_eq!(classify(&FetchError::Transport("dns".to_owned())), Failure::Transient);
    assert!(is_auth_error(&FetchError::Status(403)));
    assert!(!is_auth_error(&FetchError::TooManyPages));
    assert_eq!(FetchError::Status(503).message(), "http status: 503");
}

#[test]
fn baremetal_needs_ready_status_and_resources_from_keeps_order() {
    let list = vec![
        Baremetal { id: "1".to_owned(), name: "b".to_owned(), status: "ready".to_owned(), tags: vec![] },
        Baremetal { id: "2".to_owned(), name: "a".to_owned(), status: "ready".to_owned(), tags: vec![] },
        Baremetal { id: "3".to_owned(), name: "c".to_owned(), status: "installing".to_owned(), tags: vec![] },
    ];
    let resources = resources_from(list, "fr-par-2");
    let names: Vec<_> = resources.iter().map(|r| r.name.as_str()).collect();
    assert_eq!(names, ["b", "a"]);
    assert!(resources.iter().all(|r| r.kind == ResourceKind::Baremetal));
}

#[test]
fn finish_inventory_sorts_and_attaches_private_addresses() {
    let mut bm = resource("db-master-1");
    bm.kind = ResourceKind::Baremetal;
    let fetched = finish_inventory(
        vec![resource("web-2"), bm, resource("api-1")],
        vec![("db-master-1".to_owned(), "172.16.8.11".to_owned())],
        vec![Bastion { ip: "5.6.7.8".to_owned(), port: 61000, zone: "fr-par-1".to_owned() }],
        true,
    )
    .ok()
    .unwrap();
    let names: Vec<_> = fetched.inventory.resources.iter().map(|r| r.name.as_str()).collect();
    assert_eq!(names, ["api-1", "db-master-1", "web-2"]);
    assert_eq!(
        fetched.inventory.resources[1].endpoint_ip.as_deref(),
        Some("172.16.8.11")
    );
    assert!(fetched.complete);
    assert!(fetched.inventory.bastion.is_some());

    assert!(finish_inventory(vec![], vec![], vec![], false).is_err());
    assert!(finish_inventory(vec![], vec![], vec![], true).is_ok());
}

#[test]
fn locations_must_not_be_empty() {
    let mut locations = ScalewayLocations::default();
    assert!(check_locations(&locations).is_ok());
    locations.zones.clear();
    locations.regions.clear();
    assert!(check_locations(&locations).is_err());
}
