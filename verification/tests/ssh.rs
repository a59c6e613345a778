use scwx::config::Config;
use scwx::inventory::Bastion;
use scwx::ssh::{
    base_options, bastion_tunnel, hardening_options, option_args, option_config_lines,
    proxy_command, server_tunnel, session, tunnel_options, Tunnel,
};

const KEY: &str = "/keys/id_ed25519";

fn bastion() -> Bastion {
    Bastion {
        ip: "5.6.7.8".to_owned(),
        port: 61000,
        zone: "fr-par-1".to_owned(),
    }
}

#[test]
fn session_jumps_through_the_bastion_with_the_key_on_both_hops() {
    let argv = session("web-1", &Config::default(), &bastion(), Some(KEY)).into_argv();

    assert_eq!(argv[0], "ssh");
    assert_eq!(argv.last().unwrap(), "root@web-1");
    assert!(argv.contains(&"/keys/id_ed25519".to_owned()));
    let proxy = argv
        .iter()
        .find(|arg| arg.starts_with("ProxyCommand="))
        .unwrap();
    assert_eq!(
        proxy,
        "ProxyCommand=ssh -W %h:%p -p 61000 -o StrictHostKeyChecking=no \
         -o UserKnownHostsFile=/dev/null -o LogLevel=ERROR \
         -o IdentitiesOnly=yes -i /keys/id_ed25519 bastion@5.6.7.8"
    );
}

#[test]
fn session_without_key_leaves_identity_to_ssh() {
    let argv = session("web-1", &Config::default(), &bastion(), None).into_argv();
    assert!(!argv.contains(&"-i".to_owned()));
    assert!(!argv.contains(&"IdentitiesOnly=yes".to_owned()));
}

#[test]
fn bastion_tunnel_binds_the_target_through_the_bastion_connection() {
    let tunnel = Tunnel {
        local_port: 13306,
        target_host: "172.16.8.11",
        remote_port: 3306,
    };
    let command = bastion_tunnel(&tunnel, &Config::default(), &bastion(), None);
    assert_eq!(command.destination(), "bastion@5.6.7.8");

    let argv = command.into_argv();
    assert!(argv.contains(&"13306:172.16.8.11:3306".to_owned()));
    assert!(argv.contains(&"-N".to_owned()));
    assert!(argv.contains(&"ExitOnForwardFailure=yes".to_owned()));
    assert_eq!(argv.last().unwrap(), "bastion@5.6.7.8");
    assert!(!argv.iter().any(|arg| arg.starts_with("ProxyCommand=")));
}

#[test]
fn server_tunnel_targets_the_server_loopback_through_the_jump() {
    let tunnel = Tunnel {
        local_port: 18090,
        target_host: "worker-1",
        remote_port: 8090,
    };
    let argv = server_tunnel(&tunnel, &Config::default(), &bastion(), None).into_argv();

    assert!(argv.contains(&"18090:localhost:8090".to_owned()));
    assert_eq!(argv.last().unwrap(), "root@worker-1");
    assert!(argv.iter().any(|arg| arg.starts_with("ProxyCommand=")));
}

#[test]
fn control_socket_options_stay_before_the_destination() {
    let tunnel = Tunnel {
        local_port: 13306,
        target_host: "172.16.8.11",
        remote_port: 3306,
    };
    let command = bastion_tunnel(&tunnel, &Config::default(), &bastion(), None)
        .with_control_socket("/tmp/t.sock");

    let argv = command.into_argv();
    assert_eq!(argv.last().unwrap(), "bastion@5.6.7.8");
    let socket_flag = argv.iter().position(|arg| arg == "-S").unwrap();
    assert_eq!(argv[socket_flag + 1], "/tmp/t.sock");
    assert!(argv.contains(&"-f".to_owned()));
    assert!(argv.contains(&"-M".to_owned()));
}

#[test]
fn config_lines_render_the_same_hardening_options() {
    assert_eq!(
        option_config_lines(&hardening_options()),
        "    StrictHostKeyChecking no\n    UserKnownHostsFile /dev/null\n    LogLevel ERROR\n"
    );
}

#[test]
fn option_args_pair_each_option_with_dash_o() {
    assert_eq!(
        option_args(&tunnel_options()),
        vec![
            "-o".to_owned(),
            "ServerAliveInterval=60".to_owned(),
            "-o".to_owned(),
            "ServerAliveCountMax=3".to_owned(),
            "-o".to_owned(),
            "ExitOnForwardFailure=yes".to_owned(),
        ]
    );
    assert_eq!(base_options(None).len(), 6);
    assert_eq!(base_options(Some(KEY)).len(), 10);
}

#[test]
fn proxy_command_uses_the_bastion_port_and_user() {
    let mut config = Config::default();
    config.bastion.user = "jump".to_owned();
    let b = Bastion { ip: "1.2.3.4".to_owned(), port: 22, zone: "nl-ams-1".to_owned() };
    assert_eq!(
        proxy_command(&b, &config, None),
        "ssh -W %h:%p -p 22 -o StrictHostKeyChecking=no -o UserKnownHostsFile=/dev/null \
         -o LogLevel=ERROR jump@1.2.3.4"
    );
}
