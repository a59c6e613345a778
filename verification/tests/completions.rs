use clap::{Arg, ArgAction, Command};
use clap_complete::Shell;
use scwx::cli::{CONNECT_QUERY_HELP, DB_NAME_HELP, PF_QUERY_HELP};
use scwx::commands::completions::with_dynamic_names;

/// The command line as the binary declares it, built with clap's builder.
fn command() -> Command {
    Command::new("scwx")
        .version("0.1.0")
        .about("Fast SSH, database and port-forward access to Scaleway infrastructure")
        .subcommand_required(true)
        .arg(
            Arg::new("refresh")
                .long("refresh")
                .global(true)
                .action(ArgAction::SetTrue)
                .help("Bypass the cache and fetch a fresh inventory"),
        )
        .arg(
            Arg::new("env")
                .long("env")
                .global(true)
                .value_parser(["prod", "beta"])
                .help("Filter resources by environment"),
        )
        .subcommand(
            Command::new("ls")
                .about("List the resource inventory")
                .arg(Arg::new("json").long("json").action(ArgAction::SetTrue).help("Output as JSON"))
                .arg(
                    Arg::new("names")
                        .long("names")
                        .action(ArgAction::SetTrue)
                        .help("Output connectable server names only, one per line"),
                ),
        )
        .subcommand(
            Command::new("connect")
                .about("Pick a server and open an SSH session through the bastion")
                .arg(Arg::new("query").help(CONNECT_QUERY_HELP)),
        )
        .subcommand(
            Command::new("db")
                .about("Pick a database and open a mysql session through a tunnel")
                .arg(Arg::new("name").help(DB_NAME_HELP))
                .arg(
                    Arg::new("execute")
                        .short('e')
                        .long("execute")
                        .help("Run a single query and exit (mysql --execute)"),
                )
                .arg(
                    Arg::new("mysql_args")
                        .last(true)
                        .num_args(0..)
                        .help("Extra arguments passed to mysql, e.g. -- --table"),
                ),
        )
        .subcommand(
            Command::new("pf")
                .about("Manage port-forward tunnels")
                .subcommand(Command::new("ls").about("List active tunnels"))
                .subcommand(
                    Command::new("stop")
                        .about("Stop a tunnel (all tunnels when no name is given)")
                        .arg(Arg::new("name")),
                )
                .arg(Arg::new("query").help(PF_QUERY_HELP))
                .arg(
                    Arg::new("local_port")
                        .long("local-port")
                        .help("Local port to bind (defaults to the remote port)"),
                )
                .arg(
                    Arg::new("remote_port")
                        .long("remote-port")
                        .help("Remote port to forward (defaults to the resource's PortForward tag)"),
                ),
        )
        .subcommand(Command::new("update").about("Update scwx to the latest release"))
}

#[test]
fn zsh_script_wires_dynamic_helpers() {
    let mut command = command();
    let mut generated = Vec::new();
    clap_complete::generate(Shell::Zsh, &mut command, "scwx", &mut generated);
    let script = with_dynamic_names(&String::from_utf8(generated).unwrap());

    assert!(script.contains("matches a single server:_scwx_server_names"));
    assert!(script.contains(":_scwx_db_names"));
    assert!(script.contains("'::name:_scwx_tunnel_names'"));
    assert!(!script.contains("'::name:_default'"));
    assert!(script.contains("_scwx_server_names() {"));

    // pf: the query positional is merged into the subcommand position
    // and the state machine reads line[1], so `pf stop <TAB>` descends.
    assert!(script.contains(":: :_scwx_pf_targets_or_commands"));
    assert!(!script.contains(&format!("::query -- {}", PF_QUERY_HELP)));
    assert!(script.contains("scwx-pf-command-$line[1]"));
    assert!(!script.contains("scwx-pf-command-$line[2]"));
    assert!(script.contains("_scwx_pf_targets_or_commands() {"));

    let helpers = script.find("_scwx_server_names() {").unwrap();
    let dispatch = script.find("if [ \"$funcstack[1]\" = \"_scwx\" ]").unwrap();
    assert!(helpers < dispatch);
}

#[test]
fn a_script_without_dispatch_gets_no_helpers() {
    let script = format!("'::name:_default' {}:_default", CONNECT_QUERY_HELP);
    assert_eq!(
        with_dynamic_names(&script),
        format!("'::name:_scwx_tunnel_names' {}:_scwx_server_names", CONNECT_QUERY_HELP)
    );
}

#[test]
fn no_static_tunnel_completer_is_left() {
    let script = "a '::name:_default' b '::name:_default'";
    let out = with_dynamic_names(script);
    assert!(!out.contains("'::name:_default'"));
    assert_eq!(out, "a '::name:_scwx_tunnel_names' b '::name:_scwx_tunnel_names'");
    // A completer directly followed by the rest of another leaves one behind.
    let doubled = with_dynamic_names("'::name:_default'::name:_default'");
    assert!(doubled.contains("'::name:_default'"));
    assert_eq!(with_dynamic_names("plain text"), "plain text");
}
