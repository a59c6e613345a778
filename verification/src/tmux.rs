//! Where a session opens in tmux, and the tmux command that opens it.

use vstd::prelude::*;

use crate::shell::{joined, shell_join};
use crate::text::{concat, views};

verus! {

/// A new window, a split below, or a split beside.
#[derive(Debug, Clone, Copy, PartialEq, Eq, Structural)]
pub enum Placement {
    Window,
    Below,
    Beside,
}

/// Running inside tmux: `TMUX` is set and not empty.
pub fn inside_tmux(tmux_var: Option<&str>) -> (r: bool)
    ensures
        r == (tmux_var matches Some(v) && v@.len() > 0),
{
    match tmux_var {
        Some(v) => v.unicode_len() > 0,
        None => false,
    }
}

/// Where a session opens: the picked placement when running inside tmux;
/// `None` (the current terminal) otherwise.
pub fn placement_in(picked: Option<Placement>, inside: bool) -> (r: Option<Placement>)
    ensures
        r == (if inside {
            picked
        } else {
            None
        }),
{
    if inside {
        picked
    } else {
        None
    }
}

/// The shell command run in the new pane: the session, then, when it
/// fails, a message and a wait for enter so the pane does not vanish.
pub open spec fn pane_command_spec(argv: Seq<Seq<char>>) -> Seq<char> {
    joined(argv)
        + " || { status=$?; printf '\\n[scwx] exited with status %d - press enter to close\\n' \"$status\"; read -r _; }"@
}

/// The arguments of `tmux` that open the pane.
pub open spec fn open_args_spec(placement: Placement, title: Seq<char>, command: Seq<char>) -> Seq<
    Seq<char>,
> {
    match placement {
        Placement::Window => seq!["new-window"@, "-n"@, title, command],
        Placement::Below => seq!["split-window"@, "-v"@, command],
        Placement::Beside => seq!["split-window"@, "-h"@, command],
    }
}

/// Holds the pane open on failure; tmux destroys it as soon as the
/// command exits, which would hide the error.
pub fn pane_command(argv: &Vec<String>) -> (r: String)
    ensures
        r@ == pane_command_spec(views(argv@)),
{
    let command = shell_join(argv);
    concat(
        command.as_str(),
        " || { status=$?; printf '\\n[scwx] exited with status %d - press enter to close\\n' \"$status\"; read -r _; }",
    )
}

/// The `tmux` arguments that open `argv` at `placement`.
pub fn open_args(placement: Placement, title: &str, argv: &Vec<String>) -> (r: Vec<String>)
    ensures
        views(r@) == open_args_spec(placement, title@, pane_command_spec(views(argv@))),
{
    let command = pane_command(argv);
    let mut args: Vec<String> = Vec::new();
    match placement {
        Placement::Window => {
            args.push(String::from_str("new-window"));
            args.push(String::from_str("-n"));
            args.push(String::from_str(title));
            args.push(command);
        },
        Placement::Below => {
            args.push(String::from_str("split-window"));
            args.push(String::from_str("-v"));
            args.push(command);
        },
        Placement::Beside => {
            args.push(String::from_str("split-window"));
            args.push(String::from_str("-h"));
            args.push(command);
        },
    }
    assert(views(args@) =~= open_args_spec(placement, title@, pane_command_spec(views(argv@))));
    args
}

/// The new pane is active right after split-window; it gets the title.
/// Windows are named by `new-window -n` already.
pub fn title_args(placement: Placement, title: &str) -> (r: Option<Vec<String>>)
    ensures
        placement == Placement::Window ==> r is None,
        placement != Placement::Window ==> (r matches Some(v) && views(v@) == seq![
            "select-pane"@,
            "-T"@,
            title@,
        ]),
{
    if placement == Placement::Window {
        None
    } else {
        let mut args: Vec<String> = Vec::new();
        args.push(String::from_str("select-pane"));
        args.push(String::from_str("-T"));
        args.push(String::from_str(title));
        assert(views(args@) =~= seq!["select-pane"@, "-T"@, title@]);
        Some(args)
    }
}

} // verus!
