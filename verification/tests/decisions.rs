use scwx::cache::{cached_inventory, should_store, CacheFile, Freshness};
use scwx::commands::db::{check_databases, chosen_database, first_free_port, DbError};
use scwx::commands::pf::{
    check_candidates, forward_target, list_action, plan_tunnel, stop_selection, stopped_line,
    ListAction, MasterState, PfError, TunnelRecord,
};
use scwx::config::{Config, TagConventions};
use scwx::inventory::{Bastion, Environment, Inventory, Resource, ResourceKind};
use scwx::picker::{read_pick, PickError, PickOutcome, Selection};
use scwx::scw::Fetched;

fn resource(kind: ResourceKind, name: &str, ip: Option<&str>) -> Resource {
    Resource {
        kind,
        id: "id".to_owned(),
        name: name.to_owned(),
        zone: "fr-par-1".to_owned(),
        tags: vec![],
        endpoint_ip: ip.map(str::to_owned),
        endpoint_port: None,
    }
}

fn record(name: &str) -> TunnelRecord {
    TunnelRecord {
        name: name.to_owned(),
        local_port: 1,
        remote_port: 2,
        target: "t".to_owned(),
        destination: "d".to_owned(),
    }
}

#[test]
fn a_pick_without_keys_opens_inline() {
    let pick = read_pick(Some("4\tname\n"), false).unwrap().unwrap();
    assert_eq!(pick.index, 4);
    assert_eq!(pick.outcome, PickOutcome::Inline);
    let pick = read_pick(Some("ctrl-s\n2\tx\n"), true).unwrap().unwrap();
    assert_eq!(pick.outcome, PickOutcome::Split);
    assert!(read_pick(None, false).unwrap().is_none());
    assert!(matches!(read_pick(Some(""), false), Err(PickError::NoSelection)));
}

#[test]
fn forwards_need_candidates_and_a_match() {
    let tags = TagConventions::default();
    assert!(check_candidates(2, &tags).is_ok());
    assert_eq!(
        check_candidates(0, &tags).unwrap_err().message(),
        "no resources tagged EnablePortForward:true (tag one, or pass --remote-port with a query)"
    );
    let r = resource(ResourceKind::Redis, "cache", Some("1.2.3.4"));
    assert!(matches!(forward_target(Selection::Direct(&r), None), Ok(Some(x)) if x.name == "cache"));
    assert!(matches!(forward_target(Selection::Cancelled, None), Ok(None)));
    match forward_target(Selection::NoMatch, Some("nope")) {
        Err(e) => assert_eq!(e.message(), "no forwardable resource matches 'nope'"),
        Ok(_) => panic!("no match must be an error"),
    }
}

#[test]
fn stop_needs_tunnels_and_a_matching_name() {
    let none: Vec<TunnelRecord> = vec![];
    assert!(matches!(stop_selection(&none, None), Err(PfError::NoTunnels)));
    let records = vec![record("api-8080"), record("redis-6379")];
    assert_eq!(stop_selection(&records, None).unwrap().len(), 2);
    assert_eq!(stop_selection(&records, Some("redis")).unwrap()[0].name, "redis-6379");
    assert_eq!(
        stop_selection(&records, Some("x")).unwrap_err().message(),
        "no tunnel matches 'x'"
    );
    assert_eq!(stopped_line("api-8080"), "stopped api-8080");
    assert_eq!(list_action(MasterState::Dead), ListAction::Remove);
    assert_eq!(list_action(MasterState::Unknown), ListAction::Warn);
    assert_eq!(list_action(MasterState::Alive), ListAction::Print);
}

#[test]
fn database_choices_and_their_errors() {
    assert!(check_databases(1, Environment::Prod).is_ok());
    assert_eq!(
        check_databases(0, Environment::Beta).unwrap_err().message(),
        "no databases tagged for env beta"
    );
    let r = resource(ResourceKind::Rdb, "db", Some("10.0.0.1"));
    assert!(matches!(
        chosen_database(Selection::Direct(&r), Environment::Prod, Some("db")),
        Ok(Some((_, PickOutcome::Inline)))
    ));
    assert!(matches!(
        chosen_database(Selection::Picked(&r, PickOutcome::Split), Environment::Prod, None),
        Ok(Some((_, PickOutcome::Split)))
    ));
    assert!(matches!(chosen_database(Selection::Cancelled, Environment::Prod, None), Ok(None)));
    match chosen_database(Selection::NoMatch, Environment::Prod, Some("search")) {
        Err(e @ DbError::NoMatch { .. }) => assert_eq!(e.message(), "no prod database matches 'search'"),
        _ => panic!("no match must be an error"),
    }
}

#[test]
fn the_first_free_port_is_taken_from_the_preferred_one_up() {
    assert_eq!(first_free_port(13306, |p| p >= 13308).unwrap(), 13308);
    assert_eq!(first_free_port(13306, |_| true).unwrap(), 13306);
    let err = first_free_port(65530, |_| false).unwrap_err();
    assert_eq!(err.preferred, 65530);
    assert_eq!(err.message(), "no free local port above 65530");
}

#[test]
fn refresh_bypasses_the_cache_and_partial_fetches_are_not_stored() {
    let file = || Some(CacheFile::new(Inventory::new(vec![], None), 100));
    assert!(cached_inventory(Freshness::CacheOk, file(), 300, Some(150)).is_some());
    assert!(cached_inventory(Freshness::Refresh, file(), 300, Some(150)).is_none());
    assert!(cached_inventory(Freshness::CacheOk, file(), 10, Some(150)).is_none());
    assert!(cached_inventory(Freshness::CacheOk, None, 300, Some(150)).is_none());
    let partial = Fetched { inventory: Inventory::new(vec![], None), complete: false };
    assert!(!should_store(&partial));
    let full = Fetched { inventory: Inventory::new(vec![], None), complete: true };
    assert!(should_store(&full));
}

#[test]
fn planned_tunnels_forward_local_to_remote() {
    let config = Config::default();
    let bastion = Bastion { ip: "5.6.7.8".to_owned(), port: 61000, zone: "fr-par-1".to_owned() };
    let server = resource(ResourceKind::Instance, "worker-1", None);
    let (command, _) = plan_tunnel(&server, &config, &bastion, None, 18090, 8090).ok().unwrap();
    let argv = command.into_argv();
    assert!(argv.contains(&"18090:localhost:8090".to_owned()));
    let cache = resource(ResourceKind::Redis, "cache", Some("172.16.4.2"));
    let (command, _) = plan_tunnel(&cache, &config, &bastion, None, 16379, 6379).ok().unwrap();
    let argv = command.into_argv();
    let l = argv.iter().position(|a| a == "-L").unwrap();
    assert_eq!(argv[l + 1], "16379:172.16.4.2:6379");
    let p = argv.iter().position(|a| a == "-p").unwrap();
    assert_eq!(argv[p + 1], "61000");
}
