use scwx::picker::{fzf_exit, FzfExit};
use scwx::config::{Config, NamingRules};
use scwx::inventory::{Resource, ResourceKind};
use scwx::picker::{
    fzf_args, fzf_input, parse_output, pick, pick_without_placement, resolve_pick, select,
    PickError, PickOutcome, Selection,
};
use scwx::tmux::Placement;

fn resource(name: &str) -> Resource {
    Resource {
        kind: ResourceKind::Instance,
        id: "id".to_owned(),
        name: name.to_owned(),
        zone: "fr-par-1".to_owned(),
        tags: vec![],
        endpoint_ip: None,
        endpoint_port: None,
    }
}

#[test]
fn select_resolves_a_unique_substring_match_directly() {
    let naming = NamingRules::default();
    let a = resource("platform-perco-1");
    let b = resource("platform-api-1");
    let candidates = vec![&a, &b];

    let selection = select(&candidates, Some("perco"), &naming);
    assert!(matches!(selection, Selection::Direct(r) if r.name == "platform-perco-1"));
}

#[test]
fn select_prefers_an_exact_name_over_substring_ambiguity() {
    let naming = NamingRules::default();
    let a = resource("api");
    let b = resource("api-1");
    let candidates = vec![&a, &b];

    let selection = select(&candidates, Some("api"), &naming);
    assert!(matches!(selection, Selection::Direct(r) if r.name == "api"));
}

#[test]
fn select_reports_no_match_for_an_unknown_query() {
    let naming = NamingRules::default();
    let a = resource("api-1");
    let candidates = vec![&a];

    let selection = select(&candidates, Some("redis"), &naming);
    assert!(matches!(selection, Selection::NoMatch));
}

#[test]
fn enter_maps_to_window_and_keys_to_splits() {
    let pick = parse_output("\n3\tprod-perco-3\n").unwrap();
    assert_eq!(pick.index, 3);
    assert_eq!(pick.outcome, PickOutcome::Window);

    let pick = parse_output("ctrl-s\n0\ta\n").unwrap();
    assert_eq!(pick.outcome, PickOutcome::Split);

    let pick = parse_output("ctrl-v\n12\ta\n").unwrap();
    assert_eq!(pick.outcome, PickOutcome::VSplit);

    let pick = parse_output("ctrl-o\n7\ta\n").unwrap();
    assert_eq!(pick.outcome, PickOutcome::Inline);
    assert_eq!(pick.index, 7);
}

#[test]
fn empty_output_is_an_error() {
    assert!(parse_output("").is_err());
    assert!(parse_output("\n").is_err());
}

#[test]
fn ambiguous_query_asks_the_picker() {
    let naming = NamingRules::default();
    let a = resource("api-1");
    let b = resource("api-2");
    let candidates = vec![&a, &b];
    assert!(matches!(select(&candidates, Some("api"), &naming), Selection::Ask));
    assert!(matches!(select(&candidates, None, &naming), Selection::Ask));
}

#[test]
fn unknown_key_and_bad_index_are_reported() {
    assert!(matches!(parse_output("ctrl-x\n1\ta\n"), Err(PickError::UnexpectedKey(k)) if k == "ctrl-x"));
    assert!(matches!(parse_output("\nabc\ta\n"), Err(PickError::NotANumber)));
    assert!(matches!(parse_output("ctrl-s\n"), Err(PickError::NoSelection)));
    assert_eq!(
        PickError::UnexpectedKey("ctrl-x".to_owned()).message(),
        "unexpected fzf key: ctrl-x"
    );
}

#[test]
fn a_cancelled_picker_yields_nothing() {
    assert!(matches!(pick(None), Ok(None)));
    assert!(matches!(pick_without_placement(None), Ok(None)));
    assert!(matches!(pick_without_placement(Some("4\tname\n")), Ok(Some(4))));
}

#[test]
fn resolve_pick_checks_the_range() {
    let a = resource("a");
    let candidates = vec![&a];
    let ok = resolve_pick(&candidates, Some(parse_output("ctrl-v\n0\ta\n").unwrap()));
    assert!(matches!(ok, Ok(Selection::Picked(r, PickOutcome::VSplit)) if r.name == "a"));
    let out = resolve_pick(&candidates, Some(parse_output("\n1\tb\n").unwrap()));
    assert!(matches!(out, Err(PickError::OutOfRange)));
    assert!(matches!(resolve_pick(&candidates, None), Ok(Selection::Cancelled)));
}

#[test]
fn outcomes_map_to_tmux_placements() {
    assert_eq!(PickOutcome::Window.placement(), Some(Placement::Window));
    assert_eq!(PickOutcome::Split.placement(), Some(Placement::Below));
    assert_eq!(PickOutcome::VSplit.placement(), Some(Placement::Beside));
    assert_eq!(PickOutcome::Inline.placement(), None);
}

#[test]
fn fzf_input_numbers_each_line() {
    let lines = vec!["one".to_owned(), "two".to_owned()];
    assert_eq!(fzf_input(&lines), "0\tone\n1\ttwo\n");
    let args = fzf_args("header", Some("q"), true);
    assert!(args.contains(&"--query=q".to_owned()));
    assert!(args.contains(&"--expect=ctrl-s,ctrl-v,ctrl-o".to_owned()));
    let _ = Config::default();
}

#[test]
fn the_picked_line_gives_back_its_index() {
    let lines = vec!["web-1".to_owned(), "db-1".to_owned(), "cache".to_owned()];
    let input = fzf_input(&lines);
    let picked = input.lines().nth(2).unwrap();
    let pick = parse_output(&format!("ctrl-o\n{picked}\n")).unwrap();
    assert_eq!(pick.index, 2);
    assert_eq!(pick.outcome, PickOutcome::Inline);
}

#[test]
fn fzf_exit_codes_are_read() {
    assert_eq!(fzf_exit(Some(0)), FzfExit::Picked);
    assert_eq!(fzf_exit(Some(1)), FzfExit::Cancelled);
    assert_eq!(fzf_exit(Some(130)), FzfExit::Cancelled);
    assert_eq!(fzf_exit(Some(2)), FzfExit::Failed);
    assert_eq!(fzf_exit(None), FzfExit::Failed);
}
