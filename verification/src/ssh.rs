//! ssh invocations: sessions and tunnels through the bastion.

use vstd::prelude::*;

use crate::config::Config;
use crate::inventory::Bastion;
use crate::paths::{expand_tilde, expanded, NoHome};
use crate::shell::{joined, shell_join};
use crate::text::{concat, decimal_digits, opt_view, u16_to_string, views};

verus! {

/// An ssh option as a key and a value.
pub open spec fn option_view(o: (&str, &str)) -> (Seq<char>, Seq<char>) {
    (o.0@, o.1@)
}

pub open spec fn option_views(os: Seq<(&str, &str)>) -> Seq<(Seq<char>, Seq<char>)> {
    os.map_values(|o: (&str, &str)| option_view(o))
}

/// Host keys churn as servers are rebuilt and resolve behind the bastion,
/// so pinning them only produces noise and spurious failures.
pub open spec fn hardening_spec() -> Seq<(Seq<char>, Seq<char>)> {
    seq![
        ("StrictHostKeyChecking"@, "no"@),
        ("UserKnownHostsFile"@, "/dev/null"@),
        ("LogLevel"@, "ERROR"@),
    ]
}

/// Keep-alives, and failing when the forward cannot be set up.
pub open spec fn tunnel_options_spec() -> Seq<(Seq<char>, Seq<char>)> {
    seq![
        ("ServerAliveInterval"@, "60"@),
        ("ServerAliveCountMax"@, "3"@),
        ("ExitOnForwardFailure"@, "yes"@),
    ]
}

/// The hardening options.
pub fn hardening_options() -> (r: Vec<(&'static str, &'static str)>)
    ensures
        option_views(r@) == hardening_spec(),
{
    let mut v: Vec<(&'static str, &'static str)> = Vec::new();
    v.push(("StrictHostKeyChecking", "no"));
    v.push(("UserKnownHostsFile", "/dev/null"));
    v.push(("LogLevel", "ERROR"));
    assert(option_views(v@) =~= hardening_spec());
    v
}

/// The tunnel options.
pub fn tunnel_options() -> (r: Vec<(&'static str, &'static str)>)
    ensures
        option_views(r@) == tunnel_options_spec(),
{
    let mut v: Vec<(&'static str, &'static str)> = Vec::new();
    v.push(("ServerAliveInterval", "60"));
    v.push(("ServerAliveCountMax", "3"));
    v.push(("ExitOnForwardFailure", "yes"));
    assert(option_views(v@) =~= tunnel_options_spec());
    v
}

/// `-o key=value` for each option, in order.
pub open spec fn option_args_spec(os: Seq<(Seq<char>, Seq<char>)>) -> Seq<Seq<char>>
    decreases os.len(),
{
    if os.len() == 0 {
        Seq::<Seq<char>>::empty()
    } else {
        option_args_spec(os.drop_last()) + seq!["-o"@, os.last().0 + "="@ + os.last().1]
    }
}

/// `    key value\n` for each option, in order.
pub open spec fn config_lines_spec(os: Seq<(Seq<char>, Seq<char>)>) -> Seq<char>
    decreases os.len(),
{
    if os.len() == 0 {
        Seq::<char>::empty()
    } else {
        config_lines_spec(os.drop_last()) + "    "@ + os.last().0 + " "@ + os.last().1 + "\n"@
    }
}

/// Renders options as `-o key=value` argument pairs.
pub fn option_args(options: &[(&str, &str)]) -> (r: Vec<String>)
    ensures
        views(r@) == option_args_spec(option_views(options@)),
{
    let ghost os = option_views(options@);
    let mut out: Vec<String> = Vec::new();
    let mut i: usize = 0;
    while i < options.len()
        invariant
            i <= options@.len(),
            os == option_views(options@),
            views(out@) == option_args_spec(os.subrange(0, i as int)),
        decreases options@.len() - i,
    {
        let (key, value) = options[i];
        let kv = concat(key, "=");
        let arg = concat(kv.as_str(), value);
        let ghost before = views(out@);
        out.push(String::from_str("-o"));
        out.push(arg);
        assert(os.subrange(0, i + 1).drop_last() =~= os.subrange(0, i as int));
        assert(views(out@) =~= before + seq!["-o"@, arg@]);
        i = i + 1;
    }
    assert(os.subrange(0, i as int) =~= os);
    out
}

/// Renders options as indented ssh_config lines, for sync-ssh.
pub fn option_config_lines(options: &[(&str, &str)]) -> (r: String)
    ensures
        r@ == config_lines_spec(option_views(options@)),
{
    let ghost os = option_views(options@);
    let mut out = String::new();
    let mut i: usize = 0;
    while i < options.len()
        invariant
            i <= options@.len(),
            os == option_views(options@),
            out@ == config_lines_spec(os.subrange(0, i as int)),
        decreases options@.len() - i,
    {
        let (key, value) = options[i];
        let a = concat(out.as_str(), "    ");
        let b = concat(a.as_str(), key);
        let c = concat(b.as_str(), " ");
        let d = concat(c.as_str(), value);
        out = concat(d.as_str(), "\n");
        assert(os.subrange(0, i + 1).drop_last() =~= os.subrange(0, i as int));
        i = i + 1;
    }
    assert(os.subrange(0, i as int) =~= os);
    out
}

/// An ssh invocation whose destination stays explicit until the end, so
/// options can always be appended safely.
#[derive(Debug)]
pub struct SshCommand {
    options: Vec<String>,
    destination: String,
}

impl SshCommand {
    /// The options, in order.
    pub closed spec fn options_spec(&self) -> Seq<Seq<char>> {
        views(self.options@)
    }

    pub closed spec fn destination_spec(&self) -> Seq<char> {
        self.destination@
    }

    /// The whole argument vector: `ssh`, the options, the destination.
    pub open spec fn argv_spec(&self) -> Seq<Seq<char>> {
        seq!["ssh"@] + self.options_spec() + seq![self.destination_spec()]
    }

    /// The argument vector starts with `ssh` and ends with the destination,
    /// whatever options were added: options never land after it.
    pub proof fn lemma_destination_is_last(&self)
        ensures
            self.argv_spec().len() == self.options_spec().len() + 2,
            self.argv_spec()[0] == "ssh"@,
            self.argv_spec().last() == self.destination_spec(),
            self.argv_spec().subrange(1, self.argv_spec().len() - 1) == self.options_spec(),
    {
        assert(self.argv_spec().subrange(1, self.argv_spec().len() - 1) =~= self.options_spec());
    }

    fn new(destination: String) -> (r: Self)
        ensures
            r.options_spec() == Seq::<Seq<char>>::empty(),
            r.destination_spec() == destination@,
    {
        let r = SshCommand { options: Vec::new(), destination };
        assert(views(r.options@) =~= Seq::<Seq<char>>::empty());
        r
    }

    fn push_args(&mut self, args: Vec<String>)
        ensures
            final(self).options_spec() == old(self).options_spec() + views(args@),
            final(self).destination_spec() == old(self).destination_spec(),
    {
        let ghost added = args@;
        let mut args = args;
        self.options.append(&mut args);
        assert(views(self.options@) =~= views(old(self).options@) + views(added));
    }

    /// Backgrounds the connection as a control master so it can be checked
    /// and stopped later via ssh -S <socket> -O check/exit.
    pub fn with_control_socket(self, socket: &str) -> (r: Self)
        ensures
            r.options_spec() == self.options_spec() + seq!["-f"@, "-M"@, "-S"@, socket@],
            r.destination_spec() == self.destination_spec(),
    {
        let mut r = self;
        let mut args: Vec<String> = Vec::new();
        args.push(String::from_str("-f"));
        args.push(String::from_str("-M"));
        args.push(String::from_str("-S"));
        args.push(String::from_str(socket));
        assert(views(args@) =~= seq!["-f"@, "-M"@, "-S"@, socket@]);
        r.push_args(args);
        r
    }

    pub fn destination(&self) -> (r: &str)
        ensures
            r@ == self.destination_spec(),
    {
        self.destination.as_str()
    }

    /// `ssh`, the options, then the destination.
    pub fn into_argv(self) -> (r: Vec<String>)
        ensures
            views(r@) == self.argv_spec(),
    {
        let ghost spec = self.argv_spec();
        let SshCommand { options, destination } = self;
        let mut argv: Vec<String> = Vec::new();
        argv.push(String::from_str("ssh"));
        let mut options = options;
        let ghost opts = views(options@);
        argv.append(&mut options);
        argv.push(destination);
        assert(views(argv@) =~= spec);
        argv
    }
}


/// The key options: none without a key, else `IdentitiesOnly` and `-i`.
pub open spec fn key_args_spec(key: Option<Seq<char>>) -> Seq<Seq<char>> {
    match key {
        Some(k) => seq!["-o"@, "IdentitiesOnly=yes"@, "-i"@, k],
        None => Seq::<Seq<char>>::empty(),
    }
}

/// The configured private key with a leading `~/` expanded; `None` when
/// no key is configured.
pub fn identity_key(config: &Config, home: Option<&str>) -> (r: Result<Option<String>, NoHome>)
    ensures
        match config.ssh.key {
            None => r matches Ok(None),
            Some(k) => match expanded(k@, opt_view(home)) {
                Some(p) => r matches Ok(Some(x)) && x@ == p,
                None => r is Err,
            },
        },
{
    match &config.ssh.key {
        None => Ok(None),
        Some(k) => {
            let path = expand_tilde(k.as_str(), home)?;
            Ok(Some(path))
        },
    }
}

/// The options of every hop: hardening, then the key.
pub open spec fn base_options_spec(key: Option<Seq<char>>) -> Seq<Seq<char>> {
    option_args_spec(hardening_spec()) + key_args_spec(key)
}

/// `user@ip` of the bastion.
pub open spec fn bastion_destination(bastion: Bastion, user: Seq<char>) -> Seq<char> {
    user + "@"@ + bastion.ip@
}

/// The ProxyCommand: an ssh to the bastion that forwards stdio to the
/// target, carrying its own options.
pub open spec fn proxy_command_spec(bastion: Bastion, config: Config, key: Option<Seq<char>>) -> Seq<
    char,
> {
    joined(
        seq!["ssh"@, "-W"@, "%h:%p"@, "-p"@, decimal_digits(bastion.port as nat)] + base_options_spec(
            key,
        ) + seq![bastion_destination(bastion, config.bastion.user@)],
    )
}

/// The options of a connection that jumps through the bastion.
pub open spec fn jump_options_spec(bastion: Bastion, config: Config, key: Option<Seq<char>>) -> Seq<
    Seq<char>,
> {
    base_options_spec(key) + seq!["-o"@, "ProxyCommand="@ + proxy_command_spec(bastion, config, key)]
}

/// Every hop opens with the host-key hardening, the target hop of a jump as
/// well as the bastion hop inside its ProxyCommand: `-o
/// StrictHostKeyChecking=no -o UserKnownHostsFile=/dev/null -o
/// LogLevel=ERROR`, before any other option.
pub proof fn lemma_every_hop_is_hardened(bastion: Bastion, config: Config, key: Option<Seq<char>>)
    ensures
        base_options_spec(key).len() >= 6,
        base_options_spec(key).subrange(0, 6) == seq!["-o"@, "StrictHostKeyChecking=no"@, "-o"@, "UserKnownHostsFile=/dev/null"@, "-o"@, "LogLevel=ERROR"@],
        jump_options_spec(bastion, config, key).len() >= 6,
        jump_options_spec(bastion, config, key).subrange(0, 6) == seq!["-o"@, "StrictHostKeyChecking=no"@, "-o"@, "UserKnownHostsFile=/dev/null"@, "-o"@, "LogLevel=ERROR"@],
{
    reveal_strlit("StrictHostKeyChecking");
    reveal_strlit("no");
    reveal_strlit("UserKnownHostsFile");
    reveal_strlit("/dev/null");
    reveal_strlit("LogLevel");
    reveal_strlit("ERROR");
    reveal_strlit("=");
    reveal_strlit("StrictHostKeyChecking=no");
    reveal_strlit("UserKnownHostsFile=/dev/null");
    reveal_strlit("LogLevel=ERROR");
    let h = hardening_spec();
    assert(h.drop_last().drop_last().drop_last() =~= Seq::<(Seq<char>, Seq<char>)>::empty());
    assert("StrictHostKeyChecking"@ + "="@ + "no"@ =~= "StrictHostKeyChecking=no"@);
    assert("UserKnownHostsFile"@ + "="@ + "/dev/null"@ =~= "UserKnownHostsFile=/dev/null"@);
    assert("LogLevel"@ + "="@ + "ERROR"@ =~= "LogLevel=ERROR"@);
    reveal_with_fuel(option_args_spec, 4);
    assert(option_args_spec(h) =~= seq!["-o"@, "StrictHostKeyChecking=no"@, "-o"@, "UserKnownHostsFile=/dev/null"@, "-o"@, "LogLevel=ERROR"@]);
    let b = base_options_spec(key);
    assert(b.subrange(0, 6) =~= option_args_spec(h));
    let j = jump_options_spec(bastion, config, key);
    assert(j.subrange(0, 6) =~= b.subrange(0, 6));
}

/// The options every hop gets: hardening, and the key when there is one.
pub fn base_options(key: Option<&str>) -> (r: Vec<String>)
    ensures
        views(r@) == base_options_spec(opt_view(key)),
{
    let hardening = hardening_options();
    let mut options = option_args(hardening.as_slice());
    let ghost before = views(options@);
    if let Some(key) = key {
        options.push(String::from_str("-o"));
        options.push(String::from_str("IdentitiesOnly=yes"));
        options.push(String::from_str("-i"));
        options.push(String::from_str(key));
        assert(views(options@) =~= before + seq!["-o"@, "IdentitiesOnly=yes"@, "-i"@, key@]);
    } else {
        assert(views(options@) =~= before + Seq::<Seq<char>>::empty());
    }
    options
}

/// ProxyCommand carrying its own options: ssh does not propagate
/// command-line options to the jump connection.
pub fn proxy_command(bastion: &Bastion, config: &Config, key: Option<&str>) -> (r: String)
    ensures
        r@ == proxy_command_spec(*bastion, *config, opt_view(key)),
{
    let mut argv: Vec<String> = Vec::new();
    argv.push(String::from_str("ssh"));
    argv.push(String::from_str("-W"));
    argv.push(String::from_str("%h:%p"));
    argv.push(String::from_str("-p"));
    argv.push(u16_to_string(bastion.port));
    let ghost head = views(argv@);
    let mut base = base_options(key);
    let ghost b = views(base@);
    argv.append(&mut base);
    let dest = bastion.destination(config.bastion.user.as_str());
    argv.push(dest);
    assert(views(argv@) =~= head + b + seq![dest@]);
    assert(head =~= seq!["ssh"@, "-W"@, "%h:%p"@, "-p"@, decimal_digits(bastion.port as nat)]);
    shell_join(&argv)
}

fn through_bastion(config: &Config, bastion: &Bastion, destination: String, key: Option<&str>) -> (r:
    SshCommand)
    ensures
        r.options_spec() == jump_options_spec(*bastion, *config, opt_view(key)),
        r.destination_spec() == destination@,
{
    let mut command = SshCommand::new(destination);
    command.push_args(base_options(key));
    let proxy = proxy_command(bastion, config, key);
    let mut args: Vec<String> = Vec::new();
    args.push(String::from_str("-o"));
    args.push(concat("ProxyCommand=", proxy.as_str()));
    assert(views(args@) =~= seq!["-o"@, "ProxyCommand="@ + proxy@]);
    command.push_args(args);
    assert(command.options_spec() =~= jump_options_spec(*bastion, *config, opt_view(key)));
    command
}

/// Interactive session to a server, reached by name through the bastion.
/// `key` is the private key's path with `~` already expanded.
pub fn session(host: &str, config: &Config, bastion: &Bastion, key: Option<&str>) -> (r: SshCommand)
    ensures
        r.options_spec() == jump_options_spec(*bastion, *config, opt_view(key)),
        r.destination_spec() == config.ssh.user@ + "@"@ + host@,
        r.options_spec().len() >= 6,
        r.options_spec().subrange(0, 6) == seq!["-o"@, "StrictHostKeyChecking=no"@, "-o"@, "UserKnownHostsFile=/dev/null"@, "-o"@, "LogLevel=ERROR"@],
{
    proof {
        lemma_every_hop_is_hardened(*bastion, *config, opt_view(key));
    }
    let a = concat(config.ssh.user.as_str(), "@");
    let destination = concat(a.as_str(), host);
    through_bastion(config, bastion, destination, key)
}

/// A port forward: local port, the host the remote end connects to, and
/// its port.
pub struct Tunnel<'a> {
    pub local_port: u16,
    pub target_host: &'a str,
    pub remote_port: u16,
}

/// `local:target:remote`.
pub open spec fn forward_spec(local: u16, target: Seq<char>, remote: u16) -> Seq<char> {
    decimal_digits(local as nat) + ":"@ + target + ":"@ + decimal_digits(remote as nat)
}

fn forward_arg(local: u16, target: &str, remote: u16) -> (r: String)
    ensures
        r@ == forward_spec(local, target@, remote),
{
    let l = u16_to_string(local);
    let a = concat(l.as_str(), ":");
    let b = concat(a.as_str(), target);
    let c = concat(b.as_str(), ":");
    let rp = u16_to_string(remote);
    concat(c.as_str(), rp.as_str())
}

/// Forward through the bastion itself: -L local:target:remote on the
/// bastion connection, for targets the bastion can reach directly.
pub fn bastion_tunnel(tunnel: &Tunnel, config: &Config, bastion: &Bastion, key: Option<&str>) -> (r:
    SshCommand)
    ensures
        r.destination_spec() == bastion_destination(*bastion, config.bastion.user@),
        r.options_spec() == base_options_spec(opt_view(key)) + option_args_spec(
            tunnel_options_spec(),
        ) + seq![
            "-L"@,
            forward_spec(tunnel.local_port, tunnel.target_host@, tunnel.remote_port),
            "-N"@,
            "-p"@,
            decimal_digits(bastion.port as nat),
        ],
        r.options_spec().len() >= 6,
        r.options_spec().subrange(0, 6) == seq!["-o"@, "StrictHostKeyChecking=no"@, "-o"@, "UserKnownHostsFile=/dev/null"@, "-o"@, "LogLevel=ERROR"@],
{
    let mut command = SshCommand::new(bastion.destination(config.bastion.user.as_str()));
    command.push_args(base_options(key));
    let tunnel_opts = tunnel_options();
    command.push_args(option_args(tunnel_opts.as_slice()));
    let mut args: Vec<String> = Vec::new();
    args.push(String::from_str("-L"));
    args.push(forward_arg(tunnel.local_port, tunnel.target_host, tunnel.remote_port));
    args.push(String::from_str("-N"));
    args.push(String::from_str("-p"));
    args.push(u16_to_string(bastion.port));
    let ghost a = views(args@);
    command.push_args(args);
    assert(a =~= seq![
        "-L"@,
        forward_spec(tunnel.local_port, tunnel.target_host@, tunnel.remote_port),
        "-N"@,
        "-p"@,
        decimal_digits(bastion.port as nat),
    ]);
    proof {
        lemma_every_hop_is_hardened(*bastion, *config, opt_view(key));
        let b = base_options_spec(opt_view(key));
        assert(command.options_spec().subrange(0, 6) =~= b.subrange(0, 6));
    }
    command
}

/// Forward to a server's own loopback, jumping through the bastion.
pub fn server_tunnel(tunnel: &Tunnel, config: &Config, bastion: &Bastion, key: Option<&str>) -> (r:
    SshCommand)
    ensures
        r.destination_spec() == config.ssh.user@ + "@"@ + tunnel.target_host@,
        r.options_spec() == jump_options_spec(*bastion, *config, opt_view(key)) + option_args_spec(
            tunnel_options_spec(),
        ) + seq![
            "-L"@,
            forward_spec(tunnel.local_port, "localhost"@, tunnel.remote_port),
            "-N"@,
        ],
        r.options_spec().len() >= 6,
        r.options_spec().subrange(0, 6) == seq!["-o"@, "StrictHostKeyChecking=no"@, "-o"@, "UserKnownHostsFile=/dev/null"@, "-o"@, "LogLevel=ERROR"@],
{
    let a = concat(config.ssh.user.as_str(), "@");
    let destination = concat(a.as_str(), tunnel.target_host);
    let mut command = through_bastion(config, bastion, destination, key);
    let tunnel_opts = tunnel_options();
    command.push_args(option_args(tunnel_opts.as_slice()));
    let mut args: Vec<String> = Vec::new();
    args.push(String::from_str("-L"));
    args.push(forward_arg(tunnel.local_port, "localhost", tunnel.remote_port));
    args.push(String::from_str("-N"));
    let ghost a = views(args@);
    command.push_args(args);
    assert(a =~= seq![
        "-L"@,
        forward_spec(tunnel.local_port, "localhost"@, tunnel.remote_port),
        "-N"@,
    ]);
    proof {
        lemma_every_hop_is_hardened(*bastion, *config, opt_view(key));
        let jo = jump_options_spec(*bastion, *config, opt_view(key));
        assert(command.options_spec().subrange(0, 6) =~= jo.subrange(0, 6));
    }
    command
}

} // verus!
