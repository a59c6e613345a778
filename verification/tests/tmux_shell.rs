use scwx::tmux::{inside_tmux, placement_in};
use scwx::shell::{quote, shell_join};
use scwx::tmux::{open_args, pane_command, title_args, Placement};

fn argv(words: &[&str]) -> Vec<String> {
    words.iter().map(|w| (*w).to_owned()).collect()
}

#[test]
fn plain_words_stay_bare_and_others_are_single_quoted() {
    assert_eq!(quote("root@web-1"), "root@web-1");
    assert_eq!(quote("%h:%p"), "%h:%p");
    assert_eq!(quote(""), "''");
    assert_eq!(quote("a b"), "'a b'");
    assert_eq!(quote("it's"), "'it'\\''s'");
    assert_eq!(shell_join(&argv(&["ssh", "-o", "LogLevel=ERROR", "a b"])), "ssh -o LogLevel=ERROR 'a b'");
    assert_eq!(shell_join(&argv(&[])), "");
}

#[test]
fn panes_keep_failures_visible() {
    let command = pane_command(&argv(&["ssh", "web-1"]));
    assert!(command.starts_with("ssh web-1 || { status=$?;"));
    assert!(command.ends_with("read -r _; }"));
}

#[test]
fn tmux_arguments_depend_on_the_placement() {
    let a = argv(&["ssh", "web-1"]);
    let window = open_args(Placement::Window, "web-1", &a);
    assert_eq!(&window[..3], ["new-window", "-n", "web-1"]);
    assert_eq!(window.len(), 4);
    let below = open_args(Placement::Below, "web-1", &a);
    assert_eq!(&below[..2], ["split-window", "-v"]);
    let beside = open_args(Placement::Beside, "web-1", &a);
    assert_eq!(&beside[..2], ["split-window", "-h"]);
    assert_eq!(beside[2], pane_command(&a));

    assert!(title_args(Placement::Window, "t").is_none());
    assert_eq!(title_args(Placement::Below, "t").unwrap(), ["select-pane", "-T", "t"]);
}

#[test]
fn sessions_open_in_tmux_only_inside_it() {
    assert!(inside_tmux(Some("/tmp/tmux-1000/default,1,0")));
    assert!(!inside_tmux(Some("")));
    assert!(!inside_tmux(None));
    assert_eq!(placement_in(Some(Placement::Below), true), Some(Placement::Below));
    assert_eq!(placement_in(Some(Placement::Below), false), None);
    assert_eq!(placement_in(None, true), None);
}
