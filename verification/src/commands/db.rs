//! `scwx db`: picking a database, its tunnel, and the mysql invocation.

use vstd::prelude::*;

use crate::config::{Config, TagConventions};
use crate::database::{db_key, db_key_spec, is_database, is_database_spec};
use crate::inventory::{derefs, env_name, in_env, Environment, Inventory, Resource, ResourceKind};
use crate::secrets::{secret_name, secret_name_spec};
use crate::picker::{PickOutcome, Selection};
use crate::table::{cell_views, columns, rendered_line};
use crate::text::{concat, decimal_digits, replace, replace_seq, u16_to_string, views};

verus! {

/// What is handed to mysql besides the connection.
#[derive(Debug, Clone, Copy)]
pub struct MysqlOptions<'a> {
    pub execute: Option<&'a str>,
    pub extra_args: &'a [String],
}

/// The databases of `env`, in inventory order.
pub fn databases_in<'a>(inventory: &'a Inventory, env: Environment, config: &Config) -> (r: Vec<
    &'a Resource,
>)
    ensures
        derefs(r@) == inventory.resources@.filter(
            |x: Resource| in_env(x, Some(env), config.tags) && is_database_spec(x, *config),
        ),
{
    let all = inventory.filtered(Some(env), &config.tags);
    let ghost pre = derefs(all@);
    let ghost p1 = |x: Resource| in_env(x, Some(env), config.tags);
    let ghost p2 = |x: Resource| is_database_spec(x, *config);
    let mut out: Vec<&'a Resource> = Vec::new();
    let mut i: usize = 0;
    while i < all.len()
        invariant
            i <= all@.len(),
            pre == derefs(all@),
            derefs(out@) == pre.subrange(0, i as int).filter(p2),
            p2 == (|x: Resource| is_database_spec(x, *config)),
        decreases all@.len() - i,
    {
        reveal_with_fuel(Seq::filter, 1);
        let ghost before = derefs(out@);
        if is_database(all[i], config) {
            out.push(all[i]);
            assert(derefs(out@) =~= before.push(*all@[i as int]));
        }
        assert(pre.subrange(0, i + 1).drop_last() =~= pre.subrange(0, i as int));
        i = i + 1;
    }
    assert(pre.subrange(0, i as int) =~= pre);
    proof {
        lemma_filter_filter(inventory.resources@, p1, p2);
    }
    assert((|x: Resource| p1(x) && p2(x)) =~= (|x: Resource|
        in_env(x, Some(env), config.tags) && is_database_spec(x, *config)));
    out
}

/// Filtering twice is filtering by both conditions.
pub proof fn lemma_filter_filter<A>(s: Seq<A>, p: spec_fn(A) -> bool, q: spec_fn(A) -> bool)
    ensures
        s.filter(p).filter(q) == s.filter(|x: A| p(x) && q(x)),
    decreases s.len(),
{
    reveal_with_fuel(Seq::filter, 1);
    if s.len() > 0 {
        lemma_filter_filter(s.drop_last(), p, q);
        let last = s.last();
        if p(last) {
            assert(s.filter(p) =~= s.drop_last().filter(p).push(last));
            assert(s.filter(p).drop_last() =~= s.drop_last().filter(p));
        } else {
            assert(s.filter(p) =~= s.drop_last().filter(p));
        }
    } else {
        assert(s.filter(p) =~= Seq::<A>::empty());
        assert(s.filter(p).filter(q) =~= Seq::<A>::empty());
    }
}

/// A database's role: managed, else master or replica by the master tag.
pub open spec fn role_of(r: Resource, tags: TagConventions) -> Seq<char> {
    if r.kind == ResourceKind::Rdb {
        "managed"@
    } else if r.tag_views().contains(tags.master@) {
        "master"@
    } else {
        "replica"@
    }
}

/// The cells of a database's picker line: key, role, display name, zone.
pub open spec fn database_row(r: Resource, config: Config, env: Environment) -> Seq<Seq<char>> {
    seq![db_key_spec(r, config, env), role_of(r, config.tags), r.display_name_spec(&config.naming), r.zone@]
}

/// One aligned line per database, in order.
pub fn render(databases: &[&Resource], config: &Config, env: Environment) -> (r: Vec<String>)
    ensures
        r@.len() == databases@.len(),
        forall|i: int|
            0 <= i < databases@.len() ==> #[trigger] r@[i]@ == rendered_line(
                database_row(*databases@[i], *config, env),
                derefs(databases@).map_values(|x: Resource| database_row(x, *config, env)),
            ),
{
    let mut rows: Vec<[String; 4]> = Vec::new();
    let mut i: usize = 0;
    while i < databases.len()
        invariant
            i <= databases@.len(),
            rows@.len() == i,
            forall|j: int|
                0 <= j < i ==> #[trigger] cell_views(rows@)[j] == database_row(
                    *databases@[j],
                    *config,
                    env,
                ),
        decreases databases@.len() - i,
    {
        let resource = databases[i];
        let role = match resource.kind {
            ResourceKind::Rdb => String::from_str("managed"),
            _ => if resource.is_master(&config.tags) {
                String::from_str("master")
            } else {
                String::from_str("replica")
            },
        };
        let row: [String; 4] = [
            db_key(resource, config, env),
            role,
            resource.display_name(&config.naming),
            resource.zone.clone(),
        ];
        assert(views(row@) =~= database_row(*resource, *config, env));
        let ghost before = rows@;
        rows.push(row);
        assert forall|j: int| 0 <= j < i + 1 implies #[trigger] cell_views(rows@)[j]
            == database_row(*databases@[j], *config, env) by {
            if j < i {
                assert(rows@[j] == before[j]);
                assert(cell_views(before)[j] == database_row(*databases@[j], *config, env));
            }
        }
        i = i + 1;
    }
    assert(cell_views(rows@) =~= derefs(databases@).map_values(
        |x: Resource| database_row(x, *config, env),
    ));
    columns(rows.as_slice())
}

/// The mysql option file holding the password, with backslashes and double
/// quotes escaped.
pub open spec fn mysql_defaults_spec(password: Seq<char>) -> Seq<char> {
    "[client]\npassword=\""@ + replace_seq(replace_seq(password, "\\"@, "\\\\"@), "\""@, "\\\""@)
        + "\"\n"@
}

/// The password travels in an option file: MYSQL_PWD is readable in /proc
/// and inherited by pagers and shell escapes.
pub fn mysql_defaults_content(password: &str) -> (r: String)
    ensures
        r@ == mysql_defaults_spec(password@),
{
    proof {
        reveal_strlit("\\");
        reveal_strlit("\"");
    }
    let a = replace(password, "\\", "\\\\");
    let escaped = replace(a.as_str(), "\"", "\\\"");
    let b = concat("[client]\npassword=\"", escaped.as_str());
    concat(b.as_str(), "\"\n")
}

/// mysql's arguments: the option file first, the local end of the tunnel,
/// the user, the query and extra arguments, the schema last.
pub open spec fn mysql_argv_spec(
    defaults_file: Seq<char>,
    local_port: u16,
    user: Seq<char>,
    schema: Seq<char>,
    execute: Option<Seq<char>>,
    extra: Seq<Seq<char>>,
) -> Seq<Seq<char>> {
    seq![
        "--defaults-extra-file="@ + defaults_file,
        "-h"@,
        "127.0.0.1"@,
        "-P"@,
        decimal_digits(local_port as nat),
        "-u"@,
        user,
    ] + match execute {
        Some(q) => seq!["--execute"@, q],
        None => Seq::<Seq<char>>::empty(),
    } + extra + seq![schema]
}

pub fn mysql_argv(
    defaults_file: &str,
    local_port: u16,
    user: &str,
    schema: &str,
    mysql: MysqlOptions,
) -> (r: Vec<String>)
    ensures
        views(r@) == mysql_argv_spec(
            defaults_file@,
            local_port,
            user@,
            schema@,
            match mysql.execute {
                Some(q) => Some(q@),
                None => None,
            },
            views(mysql.extra_args@),
        ),
{
    let mut argv: Vec<String> = Vec::new();
    argv.push(concat("--defaults-extra-file=", defaults_file));
    argv.push(String::from_str("-h"));
    argv.push(String::from_str("127.0.0.1"));
    argv.push(String::from_str("-P"));
    argv.push(u16_to_string(local_port));
    argv.push(String::from_str("-u"));
    argv.push(String::from_str(user));
    let ghost head = views(argv@);
    if let Some(query) = mysql.execute {
        argv.push(String::from_str("--execute"));
        argv.push(String::from_str(query));
    }
    let ghost mid = views(argv@);
    let mut i: usize = 0;
    while i < mysql.extra_args.len()
        invariant
            i <= mysql.extra_args@.len(),
            views(argv@) == mid + views(mysql.extra_args@).subrange(0, i as int),
        decreases mysql.extra_args@.len() - i,
    {
        let a = mysql.extra_args[i].clone();
        assert(a@ == views(mysql.extra_args@)[i as int]);
        let ghost before = views(argv@);
        argv.push(a);
        assert(views(argv@) =~= before.push(a@));
        i = i + 1;
        assert(views(argv@) =~= mid + views(mysql.extra_args@).subrange(0, i as int));
    }
    let ghost extra_done = views(argv@);
    argv.push(String::from_str(schema));
    assert(views(argv@) =~= extra_done.push(schema@));
    let ghost q = match mysql.execute {
        Some(q) => Some(q@),
        None => None::<Seq<char>>,
    };
    assert(views(mysql.extra_args@).subrange(0, i as int) =~= views(mysql.extra_args@));
    assert(views(argv@) =~= mysql_argv_spec(
        defaults_file@,
        local_port,
        user@,
        schema@,
        q,
        views(mysql.extra_args@),
    ));
    argv
}

/// The local port tried first: the remote port plus 10000 when that still
/// fits, else the remote port; never below 1024.
pub open spec fn preferred_local_port_spec(remote_port: u16) -> u16 {
    let shifted: u16 = if remote_port as int + 10000 <= u16::MAX as int {
        (remote_port + 10000) as u16
    } else {
        remote_port
    };
    if shifted < 1024 {
        1024
    } else {
        shifted
    }
}

pub fn preferred_local_port(remote_port: u16) -> (r: u16)
    ensures
        r == preferred_local_port_spec(remote_port),
{
    let shifted: u16 = if remote_port <= 55535 {
        remote_port + 10000
    } else {
        remote_port
    };
    if shifted < 1024 {
        1024
    } else {
        shifted
    }
}

/// Why a database connection cannot be set up.
#[derive(Debug)]
pub enum DbError {
    NoEndpoint(String),
    NoUser,
    NoProject,
    NoRegion,
    /// The environment has no database.
    NoDatabases(Environment),
    /// The name matched no database of the environment.
    NoMatch { env: Environment, name: String },
}

impl DbError {
    pub fn message(&self) -> (r: String)
        ensures
            r@ == match self {
                DbError::NoEndpoint(n) => "no endpoint ip known for "@ + n@,
                DbError::NoUser => "USER is not set and db.user is not configured"@,
                DbError::NoProject => "db.secret_project_id is not configured"@,
                DbError::NoRegion => "no scaleway region configured"@,
                DbError::NoDatabases(e) => "no databases tagged for env "@ + env_name(*e),
                DbError::NoMatch { env, name } => "no "@ + env_name(*env) + " database matches '"@
                    + name@ + "'"@,
            },
    {
        match self {
            DbError::NoEndpoint(n) => concat("no endpoint ip known for ", n.as_str()),
            DbError::NoUser => String::from_str("USER is not set and db.user is not configured"),
            DbError::NoProject => String::from_str("db.secret_project_id is not configured"),
            DbError::NoRegion => String::from_str("no scaleway region configured"),
            DbError::NoDatabases(e) => concat("no databases tagged for env ", e.as_str()),
            DbError::NoMatch { env, name } => {
                let a = concat("no ", env.as_str());
                let b = concat(a.as_str(), " database matches '");
                let c = concat(b.as_str(), name.as_str());
                concat(c.as_str(), "'")
            },
        }
    }
}

/// A database session needs at least one database in the environment.
pub fn check_databases(count: usize, env: Environment) -> (r: Result<(), DbError>)
    ensures
        count > 0 ==> r is Ok,
        count == 0 ==> (r matches Err(DbError::NoDatabases(e)) && e == env),
{
    if count == 0 {
        Err(DbError::NoDatabases(env))
    } else {
        Ok(())
    }
}

/// The database to open and how, once the name is resolved: a database
/// named directly opens in the current terminal, a picked one where its key
/// says; an error when the name matched nothing; nothing when the picker
/// was dismissed (or never ran).
pub fn chosen_database<'a>(selection: Selection<'a>, env: Environment, name: Option<&str>) -> (r:
    Result<Option<(&'a Resource, PickOutcome)>, DbError>)
    ensures
        match selection {
            Selection::Direct(x) => r == Ok::<Option<(&'a Resource, PickOutcome)>, DbError>(
                Some((x, PickOutcome::Inline)),
            ),
            Selection::Picked(x, o) => r == Ok::<Option<(&'a Resource, PickOutcome)>, DbError>(
                Some((x, o)),
            ),
            Selection::NoMatch => r matches Err(DbError::NoMatch { env: e, name: n }) && e == env
                && n@ == match name {
                Some(q) => q@,
                None => Seq::<char>::empty(),
            },
            Selection::Cancelled | Selection::Ask => r == Ok::<
                Option<(&'a Resource, PickOutcome)>,
                DbError,
            >(None),
        },
{
    match selection {
        Selection::Direct(x) => Ok(Some((x, PickOutcome::Inline))),
        Selection::Picked(x, o) => Ok(Some((x, o))),
        Selection::NoMatch => Err(
            DbError::NoMatch {
                env,
                name: match name {
                    Some(q) => String::from_str(q),
                    None => String::new(),
                },
            },
        ),
        Selection::Cancelled | Selection::Ask => Ok(None),
    }
}

/// No local port at or above the preferred one is free.
#[derive(Debug)]
pub struct NoFreePort {
    pub preferred: u16,
}

impl NoFreePort {
    pub fn message(&self) -> (r: String)
        ensures
            r@ == "no free local port above "@ + decimal_digits(self.preferred as nat),
    {
        let n = u16_to_string(self.preferred);
        concat("no free local port above ", n.as_str())
    }
}

/// The first port, from `preferred` up, that `is_free` accepts; an error
/// when it accepts none up to 65535.
pub fn first_free_port<F: Fn(u16) -> bool>(preferred: u16, is_free: F) -> (r: Result<u16, NoFreePort>)
    requires
        forall|p: u16| preferred <= p ==> call_requires(is_free, (p,)),
    ensures
        match r {
            Ok(p) => preferred <= p && call_ensures(is_free, (p,), true) && forall|q: u16|
                preferred <= q < p ==> call_ensures(is_free, (q,), false),
            Err(e) => e.preferred == preferred && forall|q: u16|
                preferred <= q ==> call_ensures(is_free, (q,), false),
        },
{
    let mut port = preferred;
    loop
        invariant
            preferred <= port,
            forall|p: u16| preferred <= p ==> call_requires(is_free, (p,)),
            forall|q: u16| preferred <= q < port ==> call_ensures(is_free, (q,), false),
        decreases 65535 - port,
    {
        let free = is_free(port);
        if free {
            return Ok(port);
        }
        if port == 65535 {
            return Err(NoFreePort { preferred });
        }
        port = port + 1;
    }
}

/// The database user: the configured one, else the OS user (`USER`) with
/// dots replaced by underscores.
pub fn database_user(config: &Config, os_user: Option<&str>) -> (r: Result<String, DbError>)
    ensures
        match config.db.user {
            Some(u) => r matches Ok(x) && x@ == u@,
            None => match os_user {
                Some(o) => r matches Ok(x) && x@ == replace_seq(o@, "."@, "_"@),
                None => r matches Err(DbError::NoUser),
            },
        },
{
    proof {
        reveal_strlit(".");
    }
    match &config.db.user {
        Some(u) => Ok(u.clone()),
        None => match os_user {
            Some(o) => Ok(replace(o, ".", "_")),
            None => Err(DbError::NoUser),
        },
    }
}

/// Where the tunnel goes and what the database is called.
pub struct DbTarget {
    pub host: String,
    pub remote_port: u16,
    pub key: String,
}

/// The target of a database: its endpoint address, the port of its
/// port-forward tag or endpoint (3306 without either), and its key.
pub fn db_target(resource: &Resource, config: &Config, env: Environment) -> (r: Result<
    DbTarget,
    DbError,
>)
    ensures
        match resource.endpoint_ip {
            Some(ip) => r matches Ok(t) && t.host == ip && t.remote_port == (match resource.port_forward_port_spec(&config.tags) {
                Some(p) => p,
                None => 3306,
            }) && t.key@ == db_key_spec(*resource, *config, env),
            None => r matches Err(DbError::NoEndpoint(n)) && n == resource.name,
        },
{
    let host = match &resource.endpoint_ip {
        Some(ip) => ip.clone(),
        None => return Err(DbError::NoEndpoint(resource.name.clone())),
    };
    let remote_port = match resource.port_forward_port(&config.tags) {
        Some(p) => p,
        None => 3306,
    };
    let key = db_key(resource, config, env);
    Ok(DbTarget { host, remote_port, key })
}

/// Where the password secret lives and what it is called.
pub struct SecretLocation {
    pub project_id: String,
    pub region: String,
    pub name: String,
}

/// The secret's project (configured, else the credentials' default
/// project), the first configured region, and its name from the template.
pub fn secret_location(
    config: &Config,
    key: &str,
    user: &str,
    env: Environment,
    default_project_id: Option<&str>,
) -> (r: Result<SecretLocation, DbError>)
    ensures
        ({
            let project = match config.db.secret_project_id {
                Some(p) => Some(p@),
                None => match default_project_id {
                    Some(p) => Some(p@),
                    None => None,
                },
            };
            match project {
                None => r matches Err(DbError::NoProject),
                Some(p) => if config.scaleway.regions@.len() == 0 {
                    r matches Err(DbError::NoRegion)
                } else {
                    r matches Ok(s) && s.project_id@ == p && s.region
                        == config.scaleway.regions@[0] && s.name@ == secret_name_spec(
                        config.db.secret_name_template@,
                        key@,
                        user@,
                        env,
                    )
                },
            }
        }),
{
    let project_id = match &config.db.secret_project_id {
        Some(p) => p.clone(),
        None => match default_project_id {
            Some(p) => String::from_str(p),
            None => return Err(DbError::NoProject),
        },
    };
    if config.scaleway.regions.len() == 0 {
        return Err(DbError::NoRegion);
    }
    let region = config.scaleway.regions[0].clone();
    let name = secret_name(config.db.secret_name_template.as_str(), key, user, env);
    Ok(SecretLocation { project_id, region, name })
}

/// The title of a database's tmux pane.
pub fn pane_title(key: &str) -> (r: String)
    ensures
        r@ == "db:"@ + key@,
{
    concat("db:", key)
}

/// The arguments that re-run this command in a tmux pane (after the
/// program's path): the exact name, the environment, the query and the
/// extra mysql arguments.
pub open spec fn reexec_args_spec(
    name: Seq<char>,
    env: Environment,
    execute: Option<Seq<char>>,
    extra: Seq<Seq<char>>,
) -> Seq<Seq<char>> {
    seq!["db"@, name, "--env"@, env_name(env)] + match execute {
        Some(q) => seq!["--execute"@, q],
        None => Seq::<Seq<char>>::empty(),
    } + seq!["--"@] + extra
}

pub fn reexec_args(name: &str, env: Environment, mysql: MysqlOptions) -> (r: Vec<String>)
    ensures
        views(r@) == reexec_args_spec(
            name@,
            env,
            match mysql.execute {
                Some(q) => Some(q@),
                None => None,
            },
            views(mysql.extra_args@),
        ),
{
    let mut args: Vec<String> = Vec::new();
    args.push(String::from_str("db"));
    args.push(String::from_str(name));
    args.push(String::from_str("--env"));
    args.push(String::from_str(env.as_str()));
    if let Some(query) = mysql.execute {
        args.push(String::from_str("--execute"));
        args.push(String::from_str(query));
    }
    args.push(String::from_str("--"));
    let ghost mid = views(args@);
    let mut i: usize = 0;
    while i < mysql.extra_args.len()
        invariant
            i <= mysql.extra_args@.len(),
            views(args@) == mid + views(mysql.extra_args@).subrange(0, i as int),
        decreases mysql.extra_args@.len() - i,
    {
        let a = mysql.extra_args[i].clone();
        assert(a@ == views(mysql.extra_args@)[i as int]);
        let ghost before = views(args@);
        args.push(a);
        assert(views(args@) =~= before.push(a@));
        i = i + 1;
        assert(views(args@) =~= mid + views(mysql.extra_args@).subrange(0, i as int));
    }
    let ghost q = match mysql.execute {
        Some(q) => Some(q@),
        None => None::<Seq<char>>,
    };
    assert(views(mysql.extra_args@).subrange(0, i as int) =~= views(mysql.extra_args@));
    assert(views(args@) =~= reexec_args_spec(name@, env, q, views(mysql.extra_args@)));
    args
}

} // verus!
