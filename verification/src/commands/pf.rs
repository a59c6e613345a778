//! `scwx pf`: background port-forward tunnels and their bookkeeping.

use vstd::prelude::*;

use crate::config::{Config, TagConventions};
use crate::inventory::{derefs, in_env, Bastion, Environment, Inventory, Resource};
use crate::picker::Selection;
use crate::order::{sort_by_name, sorted_by_name, stable_arrangement, Named};
use crate::ssh::{
    base_options_spec, bastion_tunnel, forward_spec, jump_options_spec, option_args_spec,
    server_tunnel, tunnel_options_spec, SshCommand, Tunnel,
};
use crate::text::opt_view;
use crate::paths::{join_path, joined_path};
use crate::text::{
    chars_of, concat, contains, contains_seq, decimal_digits, lemma_parse_decimal_digits,
    u16_to_string, views,
};

verus! {

/// A running tunnel, as recorded next to its control socket.
#[derive(Debug)]
pub struct TunnelRecord {
    pub name: String,
    pub local_port: u16,
    pub remote_port: u16,
    pub target: String,
    /// Destination argument required by ssh -O check/exit.
    pub destination: String,
}

impl Named for TunnelRecord {
    open spec fn name_view(&self) -> Seq<char> {
        self.name@
    }

    fn name_chars(&self) -> (r: Vec<char>) {
        chars_of(self.name.as_str())
    }
}

/// The control socket of a tunnel.
pub fn socket_path(dir: &str, name: &str) -> (r: String)
    ensures
        r@ == joined_path(dir@, name@ + ".sock"@),
{
    let file = concat(name, ".sock");
    join_path(dir, file.as_str())
}

/// The record of a tunnel.
pub fn record_path(dir: &str, name: &str) -> (r: String)
    ensures
        r@ == joined_path(dir@, name@ + ".json"@),
{
    let file = concat(name, ".json");
    join_path(dir, file.as_str())
}

/// Records sorted by name, equal names keeping their order.
pub fn sort_records(records: Vec<TunnelRecord>) -> (r: Vec<TunnelRecord>)
    ensures
        sorted_by_name(r@),
        r@.to_multiset() == records@.to_multiset(),
        exists|p: Seq<int>| stable_arrangement(p, records@, r@),
{
    sort_by_name(records)
}

/// The records whose name contains `name`; all of them without a name.
pub fn matching<'a>(records: &'a [TunnelRecord], name: Option<&str>) -> (r: Vec<&'a TunnelRecord>)
    ensures
        match name {
            None => r@ == records@.map_values(|x: TunnelRecord| &x),
            Some(n) => r@ == records@.filter(|x: TunnelRecord| contains_seq(x.name@, n@)).map_values(
                |x: TunnelRecord| &x,
            ),
        },
{
    let ghost keep = |x: TunnelRecord| match name {
        Some(n) => contains_seq(x.name@, n@),
        None => true,
    };
    let mut out: Vec<&'a TunnelRecord> = Vec::new();
    let mut i: usize = 0;
    while i < records.len()
        invariant
            i <= records@.len(),
            keep == (|x: TunnelRecord| match name {
                Some(n) => contains_seq(x.name@, n@),
                None => true,
            }),
            out@ == records@.subrange(0, i as int).filter(keep).map_values(|x: TunnelRecord| &x),
        decreases records@.len() - i,
    {
        reveal_with_fuel(Seq::filter, 1);
        let record = &records[i];
        let take = match name {
            Some(n) => contains(record.name.as_str(), n),
            None => true,
        };
        let ghost pre = records@.subrange(0, i + 1);
        assert(pre.drop_last() =~= records@.subrange(0, i as int));
        let ghost before = out@;
        if take {
            out.push(record);
            assert(pre.filter(keep) == records@.subrange(0, i as int).filter(keep).push(*record));
            assert(out@ =~= pre.filter(keep).map_values(|x: TunnelRecord| &x));
        } else {
            assert(pre.filter(keep) == records@.subrange(0, i as int).filter(keep));
        }
        i = i + 1;
    }
    assert(records@.subrange(0, i as int) =~= records@);
    proof {
        match name {
            None => {
                assert(records@.filter(keep) =~= records@) by {
                    lemma_filter_all(records@, keep);
                }
            },
            Some(n) => {
                assert(keep =~= (|x: TunnelRecord| contains_seq(x.name@, n@)));
            },
        }
    }
    out
}

proof fn lemma_filter_all<A>(s: Seq<A>, p: spec_fn(A) -> bool)
    requires
        forall|x: A| #[trigger] p(x),
    ensures
        s.filter(p) == s,
    decreases s.len(),
{
    reveal_with_fuel(Seq::filter, 1);
    if s.len() > 0 {
        lemma_filter_all(s.drop_last(), p);
        assert(s.drop_last().push(s.last()) =~= s);
    } else {
        assert(s.filter(p) =~= s);
    }
}

/// Whether a tunnel's control master answers.
#[derive(Debug, Clone, Copy, PartialEq, Eq, Structural)]
pub enum MasterState {
    Alive,
    Dead,
    /// ssh itself could not run; says nothing about the master.
    Unknown,
}

/// The ssh arguments that send `operation` (`check` or `exit`) to a
/// tunnel's control master.
pub fn control_args(dir: &str, record: &TunnelRecord, operation: &str) -> (r: Vec<String>)
    ensures
        views(r@) == seq![
            "-S"@,
            joined_path(dir@, record.name@ + ".sock"@),
            "-O"@,
            operation@,
            record.destination@,
        ],
{
    let mut args: Vec<String> = Vec::new();
    args.push(String::from_str("-S"));
    args.push(socket_path(dir, record.name.as_str()));
    args.push(String::from_str("-O"));
    args.push(String::from_str(operation));
    args.push(record.destination.clone());
    assert(views(args@) =~= seq![
        "-S"@,
        joined_path(dir@, record.name@ + ".sock"@),
        "-O"@,
        operation@,
        record.destination@,
    ]);
    args
}

/// The state of a master from `ssh -O check`: its exit status when ssh
/// ran (`Some(success)`), `None` when it could not run.
pub fn master_state(check_ran: Option<bool>) -> (r: MasterState)
    ensures
        r == match check_ran {
            Some(true) => MasterState::Alive,
            Some(false) => MasterState::Dead,
            None => MasterState::Unknown,
        },
{
    match check_ran {
        Some(true) => MasterState::Alive,
        Some(false) => MasterState::Dead,
        None => MasterState::Unknown,
    }
}

/// The tunnels `stop` acts on: those whose name contains `name` (all
/// without one); an error when there are none at all, or when a name
/// matches none of them.
pub fn stop_selection<'a>(records: &'a [TunnelRecord], name: Option<&str>) -> (r: Result<
    Vec<&'a TunnelRecord>,
    PfError,
>)
    ensures
        records@.len() == 0 ==> r matches Err(PfError::NoTunnels),
        records@.len() > 0 ==> match name {
            None => r matches Ok(v) && v@ == records@.map_values(|x: TunnelRecord| &x),
            Some(n) => {
                let kept = records@.filter(|x: TunnelRecord| contains_seq(x.name@, n@)).map_values(
                    |x: TunnelRecord| &x,
                );
                if kept.len() == 0 {
                    r matches Err(PfError::NoTunnelMatches(m)) && m@ == n@
                } else {
                    r matches Ok(v) && v@ == kept
                }
            },
        },
{
    if records.len() == 0 {
        return Err(PfError::NoTunnels);
    }
    let selected = matching(records, name);
    match name {
        Some(n) => {
            if selected.len() == 0 {
                Err(PfError::NoTunnelMatches(String::from_str(n)))
            } else {
                Ok(selected)
            }
        },
        None => Ok(selected),
    }
}

/// What `pf ls` does with a recorded tunnel.
#[derive(Debug, Clone, Copy, PartialEq, Eq, Structural)]
pub enum ListAction {
    /// Its master is gone: remove its files.
    Remove,
    /// It could not be checked: keep it, with a warning.
    Warn,
    /// It is alive: list it.
    Print,
}

pub fn list_action(state: MasterState) -> (r: ListAction)
    ensures
        r == match state {
            MasterState::Dead => ListAction::Remove,
            MasterState::Unknown => ListAction::Warn,
            MasterState::Alive => ListAction::Print,
        },
{
    match state {
        MasterState::Dead => ListAction::Remove,
        MasterState::Unknown => ListAction::Warn,
        MasterState::Alive => ListAction::Print,
    }
}

/// What `stop` prints for a stopped tunnel.
pub fn stopped_line(name: &str) -> (r: String)
    ensures
        r@ == "stopped "@ + name@,
{
    concat("stopped ", name)
}

/// The master may already be gone; its bookkeeping goes once it exited or
/// no longer answers, so a live tunnel never becomes unstoppable.
pub fn should_remove(exited: bool, state_after: MasterState) -> (r: bool)
    ensures
        r == (exited || state_after != MasterState::Alive),
{
    exited || state_after != MasterState::Alive
}

/// What to do about a socket left by an earlier tunnel of the same name.
#[derive(Debug, Clone, Copy, PartialEq, Eq, Structural)]
pub enum StaleSocket {
    /// A live tunnel holds it: refuse.
    AlreadyRunning,
    /// Its master is gone: remove it and go on.
    Prune,
    /// ssh could not probe it: refuse.
    CannotProbe,
}

pub fn on_existing_socket(state: MasterState) -> (r: StaleSocket)
    ensures
        r == match state {
            MasterState::Alive => StaleSocket::AlreadyRunning,
            MasterState::Dead => StaleSocket::Prune,
            MasterState::Unknown => StaleSocket::CannotProbe,
        },
{
    match state {
        MasterState::Alive => StaleSocket::AlreadyRunning,
        MasterState::Dead => StaleSocket::Prune,
        MasterState::Unknown => StaleSocket::CannotProbe,
    }
}

/// The candidates for a forward: resources of the environment tagged for
/// port forwarding, or all of them when a remote port is given.
pub fn forward_candidates<'a>(
    inventory: &'a Inventory,
    env: Option<Environment>,
    config: &Config,
    remote_port_given: bool,
) -> (r: Vec<&'a Resource>)
    ensures
        derefs(r@) == inventory.resources@.filter(|x: Resource| in_env(x, env, config.tags)).filter(
            |x: Resource|
                x.tag_views().contains(config.tags.port_forward_enabled@) || remote_port_given,
        ),
{
    let all = inventory.filtered(env, &config.tags);
    let ghost pre = derefs(all@);
    let ghost keep = |x: Resource|
        x.tag_views().contains(config.tags.port_forward_enabled@) || remote_port_given;
    let mut out: Vec<&'a Resource> = Vec::new();
    let mut i: usize = 0;
    while i < all.len()
        invariant
            i <= all@.len(),
            pre == derefs(all@),
            keep == (|x: Resource|
                x.tag_views().contains(config.tags.port_forward_enabled@) || remote_port_given),
            derefs(out@) == pre.subrange(0, i as int).filter(keep),
        decreases all@.len() - i,
    {
        reveal_with_fuel(Seq::filter, 1);
        let ghost before = derefs(out@);
        if all[i].port_forward_enabled(&config.tags) || remote_port_given {
            out.push(all[i]);
            assert(derefs(out@) =~= before.push(*all@[i as int]));
        }
        assert(pre.subrange(0, i + 1).drop_last() =~= pre.subrange(0, i as int));
        i = i + 1;
    }
    assert(pre.subrange(0, i as int) =~= pre);
    out
}

/// Why a forward cannot start.
#[derive(Debug)]
pub enum PfError {
    /// No remote port: neither given, nor tagged, nor advertised.
    NoRemotePort { name: String, prefix: String },
    /// A non-server target without a known address.
    NoEndpoint(String),
    /// Nothing to forward to: no resource carries the forwarding tag.
    NoCandidates { tag: String },
    /// The query matched no forwardable resource.
    NoMatch(String),
    /// `stop` found no tunnel at all.
    NoTunnels,
    /// `stop` was given a name that no tunnel's name contains.
    NoTunnelMatches(String),
}

impl PfError {
    pub fn message(&self) -> (r: String)
        ensures
            r@ == match self {
                PfError::NoRemotePort { name, prefix } => "no remote port known for "@ + name@
                    + ": tag it with "@ + prefix@ + "<port> or pass --remote-port"@,
                PfError::NoEndpoint(n) => "no endpoint ip known for "@ + n@,
                PfError::NoCandidates { tag } => "no resources tagged "@ + tag@
                    + " (tag one, or pass --remote-port with a query)"@,
                PfError::NoMatch(q) => "no forwardable resource matches '"@ + q@ + "'"@,
                PfError::NoTunnels => "no active tunnels"@,
                PfError::NoTunnelMatches(n) => "no tunnel matches '"@ + n@ + "'"@,
            },
    {
        match self {
            PfError::NoRemotePort { name, prefix } => {
                let a = concat("no remote port known for ", name.as_str());
                let b = concat(a.as_str(), ": tag it with ");
                let c = concat(b.as_str(), prefix.as_str());
                concat(c.as_str(), "<port> or pass --remote-port")
            },
            PfError::NoEndpoint(n) => concat("no endpoint ip known for ", n.as_str()),
            PfError::NoCandidates { tag } => {
                let a = concat("no resources tagged ", tag.as_str());
                concat(a.as_str(), " (tag one, or pass --remote-port with a query)")
            },
            PfError::NoMatch(q) => {
                let a = concat("no forwardable resource matches '", q.as_str());
                concat(a.as_str(), "'")
            },
            PfError::NoTunnels => String::from_str("no active tunnels"),
            PfError::NoTunnelMatches(n) => {
                let a = concat("no tunnel matches '", n.as_str());
                concat(a.as_str(), "'")
            },
        }
    }
}

/// A forward needs at least one candidate.
pub fn check_candidates(count: usize, tags: &TagConventions) -> (r: Result<(), PfError>)
    ensures
        count > 0 ==> r is Ok,
        count == 0 ==> (r matches Err(PfError::NoCandidates { tag }) && tag == tags.port_forward_enabled),
{
    if count == 0 {
        Err(PfError::NoCandidates { tag: tags.port_forward_enabled.clone() })
    } else {
        Ok(())
    }
}

/// The resource to forward to, once the query is resolved: the chosen one;
/// an error when the query matched nothing; nothing when the picker was
/// dismissed (or never ran).
pub fn forward_target<'a>(selection: Selection<'a>, query: Option<&str>) -> (r: Result<
    Option<&'a Resource>,
    PfError,
>)
    ensures
        match selection {
            Selection::Direct(x) => r == Ok::<Option<&'a Resource>, PfError>(Some(x)),
            Selection::Picked(x, _) => r == Ok::<Option<&'a Resource>, PfError>(Some(x)),
            Selection::NoMatch => r matches Err(PfError::NoMatch(q)) && q@ == match query {
                Some(q) => q@,
                None => Seq::<char>::empty(),
            },
            Selection::Cancelled | Selection::Ask => r == Ok::<Option<&'a Resource>, PfError>(None),
        },
{
    match selection {
        Selection::Direct(x) => Ok(Some(x)),
        Selection::Picked(x, _) => Ok(Some(x)),
        Selection::NoMatch => Err(
            PfError::NoMatch(
                match query {
                    Some(q) => String::from_str(q),
                    None => String::new(),
                },
            ),
        ),
        Selection::Cancelled | Selection::Ask => Ok(None),
    }
}

/// The remote port (given, else the target's) and the local port (given,
/// else the remote one).
pub fn resolve_ports(
    target: &Resource,
    tags: &TagConventions,
    local_port: Option<u16>,
    remote_port: Option<u16>,
) -> (r: Result<(u16, u16), PfError>)
    ensures
        match (match remote_port {
            Some(p) => Some(p),
            None => target.port_forward_port_spec(tags),
        }) {
            Some(remote) => r matches Ok((l, rp)) && rp == remote && l == match local_port {
                Some(p) => p,
                None => remote,
            },
            None => r matches Err(PfError::NoRemotePort { name, prefix }) && name == target.name
                && prefix == tags.port_forward_prefix,
        },
{
    let remote = match remote_port {
        Some(p) => p,
        None => match target.port_forward_port(tags) {
            Some(p) => p,
            None => {
                return Err(
                    PfError::NoRemotePort {
                        name: target.name.clone(),
                        prefix: tags.port_forward_prefix.clone(),
                    },
                );
            },
        },
    };
    let local = match local_port {
        Some(p) => p,
        None => remote,
    };
    Ok((local, remote))
}

/// A tunnel's name: the display name and the local port.
pub fn tunnel_name(display_name: &str, local_port: u16) -> (r: String)
    ensures
        r@ == display_name@ + "-"@ + decimal_digits(local_port as nat),
{
    let a = concat(display_name, "-");
    let p = u16_to_string(local_port);
    concat(a.as_str(), p.as_str())
}

/// Tunnels to one target on different local ports get different names, so
/// their sockets and records never collide.
pub proof fn lemma_tunnel_names_differ_by_port(display_name: Seq<char>, a: u16, b: u16)
    requires
        a != b,
    ensures
        display_name + "-"@ + decimal_digits(a as nat) != display_name + "-"@ + decimal_digits(
            b as nat,
        ),
{
    let head = display_name + "-"@;
    let x = head + decimal_digits(a as nat);
    let y = head + decimal_digits(b as nat);
    if x == y {
        assert(x.subrange(head.len() as int, x.len() as int) =~= decimal_digits(a as nat));
        assert(y.subrange(head.len() as int, y.len() as int) =~= decimal_digits(b as nat));
        lemma_parse_decimal_digits(a as nat, u16::MAX as nat);
        lemma_parse_decimal_digits(b as nat, u16::MAX as nat);
    }
}

/// `host:port`.
fn host_port(host: &str, port: u16) -> (r: String)
    ensures
        r@ == host@ + ":"@ + decimal_digits(port as nat),
{
    let a = concat(host, ":");
    let p = u16_to_string(port);
    concat(a.as_str(), p.as_str())
}

/// The tunnel's ssh command and its target label. A server is forwarded to
/// its own loopback through a jump; anything else is forwarded by the
/// bastion to its endpoint address.
pub fn plan_tunnel(
    target: &Resource,
    config: &Config,
    bastion: &Bastion,
    key: Option<&str>,
    local_port: u16,
    remote_port: u16,
) -> (r: Result<(SshCommand, String), PfError>)
    ensures
        target.kind == crate::inventory::ResourceKind::Instance || target.kind
            == crate::inventory::ResourceKind::Baremetal ==> (r matches Ok((c, label)) && label@
            == target.name@ + ":"@ + decimal_digits(remote_port as nat) && c.destination_spec()
            == config.ssh.user@ + "@"@ + target.name@ && c.options_spec() == jump_options_spec(
            *bastion,
            *config,
            opt_view(key),
        ) + option_args_spec(tunnel_options_spec()) + seq![
            "-L"@,
            forward_spec(local_port, "localhost"@, remote_port),
            "-N"@,
        ]),
        !(target.kind == crate::inventory::ResourceKind::Instance || target.kind
            == crate::inventory::ResourceKind::Baremetal) ==> match target.endpoint_ip {
            Some(host) => r matches Ok((c, label)) && label@ == host@ + ":"@ + decimal_digits(
                remote_port as nat,
            ) && c.destination_spec() == crate::ssh::bastion_destination(
                *bastion,
                config.bastion.user@,
            ) && c.options_spec() == base_options_spec(opt_view(key)) + option_args_spec(
                tunnel_options_spec(),
            ) + seq![
                "-L"@,
                forward_spec(local_port, host@, remote_port),
                "-N"@,
                "-p"@,
                decimal_digits(bastion.port as nat),
            ],
            None => r matches Err(PfError::NoEndpoint(n)) && n == target.name,
        },
{
    if target.kind.is_server() {
        let tunnel = Tunnel { local_port, target_host: target.name.as_str(), remote_port };
        let command = server_tunnel(&tunnel, config, bastion, key);
        Ok((command, host_port(target.name.as_str(), remote_port)))
    } else {
        match &target.endpoint_ip {
            Some(host) => {
                let tunnel = Tunnel { local_port, target_host: host.as_str(), remote_port };
                let command = bastion_tunnel(&tunnel, config, bastion, key);
                Ok((command, host_port(host.as_str(), remote_port)))
            },
            None => Err(PfError::NoEndpoint(target.name.clone())),
        }
    }
}

/// What `pf` prints once a tunnel is up.
pub fn started_line(name: &str, local_port: u16, target_label: &str) -> (r: String)
    ensures
        r@ == name@ + ": 127.0.0.1:"@ + decimal_digits(local_port as nat) + " -> "@
            + target_label@,
{
    let a = concat(name, ": 127.0.0.1:");
    let p = u16_to_string(local_port);
    let b = concat(a.as_str(), p.as_str());
    let c = concat(b.as_str(), " -> ");
    concat(c.as_str(), target_label)
}

/// What `pf ls` prints for a live tunnel.
pub fn listed_line(record: &TunnelRecord) -> (r: String)
    ensures
        r@ == record.name@ + "  127.0.0.1:"@ + decimal_digits(record.local_port as nat) + " -> "@
            + record.target@,
{
    let a = concat(record.name.as_str(), "  127.0.0.1:");
    let p = u16_to_string(record.local_port);
    let b = concat(a.as_str(), p.as_str());
    let c = concat(b.as_str(), " -> ");
    concat(c.as_str(), record.target.as_str())
}

} // verus!
