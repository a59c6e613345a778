//! Resources, their environments and the bastion, as the rest of the tool
//! sees them.

use vstd::prelude::*;

use crate::config::{NamingRules, TagConventions};
use crate::order::Named;
use crate::text::chars_of;
use crate::text::{
    ascii_lower, ascii_lower_seq, concat, contains, contains_seq, decimal_digits, has_prefix,
    lemma_ascii_lower_idempotent, lemma_ascii_lower_of_lower, lemma_parse_decimal_digits, occurs_at,
    parse_u16, parse_unsigned, str_eq, strip_prefix, strip_prefix_of, views,
};

verus! {

/// The kinds of resource the inventory lists.
#[derive(Debug, Clone, Copy, PartialEq, Eq, Structural)]
pub enum ResourceKind {
    Instance,
    Baremetal,
    Rdb,
    Redis,
    Lb,
}

pub open spec fn kind_label(k: ResourceKind) -> Seq<char> {
    match k {
        ResourceKind::Instance => "instance"@,
        ResourceKind::Baremetal => "baremetal"@,
        ResourceKind::Rdb => "rdb"@,
        ResourceKind::Redis => "redis"@,
        ResourceKind::Lb => "lb"@,
    }
}

/// Kinds reachable with a plain SSH session.
pub open spec fn kind_is_server(k: ResourceKind) -> bool {
    k == ResourceKind::Instance || k == ResourceKind::Baremetal
}

impl ResourceKind {
    pub fn label(self) -> (r: &'static str)
        ensures
            r@ == kind_label(self),
    {
        match self {
            ResourceKind::Instance => "instance",
            ResourceKind::Baremetal => "baremetal",
            ResourceKind::Rdb => "rdb",
            ResourceKind::Redis => "redis",
            ResourceKind::Lb => "lb",
        }
    }

    /// Kinds reachable with a plain SSH session.
    pub fn is_server(self) -> (r: bool)
        ensures
            r == kind_is_server(self),
    {
        match self {
            ResourceKind::Instance | ResourceKind::Baremetal => true,
            ResourceKind::Rdb | ResourceKind::Redis | ResourceKind::Lb => false,
        }
    }
}

/// Deployment environments.
#[derive(Debug, Clone, Copy, PartialEq, Eq, Structural)]
pub enum Environment {
    Prod,
    Beta,
    Dev,
}

pub open spec fn env_name(e: Environment) -> Seq<char> {
    match e {
        Environment::Prod => "prod"@,
        Environment::Beta => "beta"@,
        Environment::Dev => "dev"@,
    }
}

/// The environment a text names, ignoring ASCII case.
pub open spec fn env_from_text(s: Seq<char>) -> Option<Environment> {
    let l = ascii_lower_seq(s);
    if l == "prod"@ {
        Some(Environment::Prod)
    } else if l == "beta"@ {
        Some(Environment::Beta)
    } else if l == "dev"@ {
        Some(Environment::Dev)
    } else {
        None
    }
}

/// An environment's name reads back as that environment.
pub proof fn lemma_env_name_reads_back(e: Environment)
    ensures
        env_from_text(env_name(e)) == Some(e),
{
    reveal_strlit("prod");
    reveal_strlit("beta");
    reveal_strlit("dev");
    lemma_ascii_lower_of_lower(env_name(e));
    assert("prod"@ != "beta"@ && "prod"@ != "dev"@ && "beta"@ != "dev"@) by {
        assert("prod"@[0] != "beta"@[0]);
        assert("prod"@.len() != "dev"@.len());
        assert("beta"@.len() != "dev"@.len());
    }
}

/// Environment names are read ignoring ASCII case: lowercasing a text
/// first changes nothing.
pub proof fn lemma_env_ignores_case(s: Seq<char>)
    ensures
        env_from_text(ascii_lower_seq(s)) == env_from_text(s),
{
    lemma_ascii_lower_idempotent(s);
}

/// A text names no environment.
#[derive(Debug)]
pub struct UnknownEnvironment;

impl UnknownEnvironment {
    pub fn message(&self) -> (r: &'static str)
        ensures
            r@ == "unknown environment"@,
    {
        "unknown environment"
    }
}

impl Environment {
    pub fn as_str(self) -> (r: &'static str)
        ensures
            r@ == env_name(self),
    {
        match self {
            Environment::Prod => "prod",
            Environment::Beta => "beta",
            Environment::Dev => "dev",
        }
    }

    /// Parses an environment name, ignoring ASCII case.
    pub fn parse(value: &str) -> (r: Result<Environment, UnknownEnvironment>)
        ensures
            match r {
                Ok(e) => env_from_text(value@) == Some(e),
                Err(_) => env_from_text(value@) is None,
            },
    {
        let l = ascii_lower(value);
        if str_eq(l.as_str(), "prod") {
            Ok(Environment::Prod)
        } else if str_eq(l.as_str(), "beta") {
            Ok(Environment::Beta)
        } else if str_eq(l.as_str(), "dev") {
            Ok(Environment::Dev)
        } else {
            Err(UnknownEnvironment)
        }
    }
}

impl std::str::FromStr for Environment {
    type Err = UnknownEnvironment;

    /// `Environment::parse`.
    fn from_str(value: &str) -> (r: Result<Environment, UnknownEnvironment>)
        ensures
            match r {
                Ok(e) => env_from_text(value@) == Some(e),
                Err(_) => env_from_text(value@) is None,
            },
    {
        Environment::parse(value)
    }
}

/// A resource of the inventory.
#[derive(Debug, Clone)]
pub struct Resource {
    pub kind: ResourceKind,
    pub id: String,
    pub name: String,
    pub zone: String,
    pub tags: Vec<String>,
    /// Private IP for baremetal/rdb/redis/lb targets; servers are reached by name.
    pub endpoint_ip: Option<String>,
    /// Service port advertised by the resource's endpoint (rdb/redis).
    pub endpoint_port: Option<u16>,
}

/// `name` without the first prefix of `prefixes` that it starts with.
pub open spec fn strip_first_prefix(name: Seq<char>, prefixes: Seq<Seq<char>>) -> Seq<char>
    decreases prefixes.len(),
{
    if prefixes.len() == 0 {
        name
    } else if has_prefix(name, prefixes[0]) {
        name.subrange(prefixes[0].len() as int, name.len() as int)
    } else {
        strip_first_prefix(name, prefixes.subrange(1, prefixes.len() as int))
    }
}

/// What follows `prefix` in the first tag that starts with it.
pub open spec fn first_tag_value(tags: Seq<Seq<char>>, prefix: Seq<char>) -> Option<Seq<char>>
    decreases tags.len(),
{
    if tags.len() == 0 {
        None
    } else if has_prefix(tags[0], prefix) {
        strip_prefix_of(tags[0], prefix)
    } else {
        first_tag_value(tags.subrange(1, tags.len() as int), prefix)
    }
}

impl Resource {
    pub open spec fn tag_views(&self) -> Seq<Seq<char>> {
        views(self.tags@)
    }

    pub open spec fn display_name_spec(&self, naming: &NamingRules) -> Seq<char> {
        strip_first_prefix(self.name@, views(naming.strip_prefixes@))
    }

    pub open spec fn env_spec(&self, tags: &TagConventions) -> Option<Environment> {
        match first_tag_value(self.tag_views(), tags.env_prefix@) {
            Some(v) => env_from_text(v),
            None => None,
        }
    }

    pub open spec fn port_forward_port_spec(&self, tags: &TagConventions) -> Option<u16> {
        match first_tag_value(self.tag_views(), tags.port_forward_prefix@) {
            Some(v) => match parse_unsigned(v, u16::MAX as nat) {
                Some(n) => Some(n as u16),
                None => self.endpoint_port,
            },
            None => self.endpoint_port,
        }
    }

    pub open spec fn matches_spec(&self, query: Seq<char>, naming: &NamingRules) -> bool {
        let q = ascii_lower_seq(query);
        contains_seq(ascii_lower_seq(self.name@), q) || contains_seq(
            ascii_lower_seq(self.display_name_spec(naming)),
            q,
        )
    }

    /// The name without the first configured prefix it starts with.
    pub fn display_name(&self, naming: &NamingRules) -> (r: String)
        ensures
            r@ == self.display_name_spec(naming),
    {
        strip_first_matching(&self.name, &naming.strip_prefixes)
    }

    /// The environment named by the first tag carrying the env prefix.
    pub fn env(&self, tags: &TagConventions) -> (r: Option<Environment>)
        ensures
            r == self.env_spec(tags),
    {
        match first_value_with_prefix(&self.tags, &tags.env_prefix) {
            Some(v) => match Environment::parse(v.as_str()) {
                Ok(e) => Some(e),
                Err(_) => None,
            },
            None => None,
        }
    }

    pub fn port_forward_enabled(&self, tags: &TagConventions) -> (r: bool)
        ensures
            r == self.tag_views().contains(tags.port_forward_enabled@),
    {
        has_tag(&self.tags, &tags.port_forward_enabled)
    }

    /// The port of the first port-forward tag when it parses, else the
    /// endpoint's port.
    pub fn port_forward_port(&self, tags: &TagConventions) -> (r: Option<u16>)
        ensures
            r == self.port_forward_port_spec(tags),
    {
        match first_value_with_prefix(&self.tags, &tags.port_forward_prefix) {
            Some(v) => match parse_u16(v.as_str()) {
                Some(n) => Some(n),
                None => self.endpoint_port,
            },
            None => self.endpoint_port,
        }
    }

    pub fn is_mysql(&self, tags: &TagConventions) -> (r: bool)
        ensures
            r == self.tag_views().contains(tags.mysql@),
    {
        has_tag(&self.tags, &tags.mysql)
    }

    pub fn is_master(&self, tags: &TagConventions) -> (r: bool)
        ensures
            r == self.tag_views().contains(tags.master@),
    {
        has_tag(&self.tags, &tags.master)
    }

    /// Case-insensitive substring match on the full or the display name.
    pub fn matches(&self, query: &str, naming: &NamingRules) -> (r: bool)
        ensures
            r == self.matches_spec(query@, naming),
    {
        let q = ascii_lower(query);
        let name = ascii_lower(self.name.as_str());
        if contains(name.as_str(), q.as_str()) {
            return true;
        }
        let display = self.display_name(naming);
        let display_lower = ascii_lower(display.as_str());
        contains(display_lower.as_str(), q.as_str())
    }
}

/// The first tag with the prefix is the one at `i` when no tag before it
/// has the prefix.
proof fn lemma_first_tag_value_at(ts: Seq<Seq<char>>, prefix: Seq<char>, i: int)
    requires
        0 <= i < ts.len(),
        has_prefix(ts[i], prefix),
        forall|j: int| 0 <= j < i ==> !has_prefix(#[trigger] ts[j], prefix),
    ensures
        first_tag_value(ts, prefix) == strip_prefix_of(ts[i], prefix),
    decreases i,
{
    if i > 0 {
        let rest = ts.subrange(1, ts.len() as int);
        assert(!has_prefix(ts[0], prefix));
        assert forall|j: int| 0 <= j < i - 1 implies !has_prefix(#[trigger] rest[j], prefix) by {
            assert(rest[j] == ts[j + 1]);
        }
        lemma_first_tag_value_at(rest, prefix, i - 1);
        assert(rest[i - 1] == ts[i]);
    }
}

/// A port-forward tag made of the prefix and a port's decimal text reads
/// back as that port, when no earlier tag carries the prefix; the
/// endpoint's port is then ignored.
pub proof fn lemma_port_tag_reads_back(r: Resource, tags: TagConventions, i: int, port: u16)
    requires
        0 <= i < r.tag_views().len(),
        r.tag_views()[i] == tags.port_forward_prefix@ + decimal_digits(port as nat),
        forall|j: int|
            0 <= j < i ==> !has_prefix(#[trigger] r.tag_views()[j], tags.port_forward_prefix@),
    ensures
        r.port_forward_port_spec(&tags) == Some(port),
{
    let prefix = tags.port_forward_prefix@;
    let digits = decimal_digits(port as nat);
    let tag = r.tag_views()[i];
    assert(tag.subrange(0, prefix.len() as int) =~= prefix);
    lemma_first_tag_value_at(r.tag_views(), prefix, i);
    assert(tag.subrange(prefix.len() as int, tag.len() as int) =~= digits);
    lemma_parse_decimal_digits(port as nat, u16::MAX as nat);
}

/// Matching ignores the query's ASCII case.
pub proof fn lemma_matches_ignores_case(r: Resource, query: Seq<char>, naming: NamingRules)
    ensures
        r.matches_spec(ascii_lower_seq(query), &naming) == r.matches_spec(query, &naming),
{
    lemma_ascii_lower_idempotent(query);
}

/// A resource's full name always matches it, so a query that names a
/// resource never misses it.
pub proof fn lemma_matches_own_name(r: Resource, naming: NamingRules)
    ensures
        r.matches_spec(r.name@, &naming),
{
    let l = ascii_lower_seq(r.name@);
    assert(l.subrange(0, l.len() as int) =~= l);
    assert(occurs_at(l, l, 0));
}

/// `name` without the first of `prefixes` it starts with.
pub fn strip_first_matching(name: &String, prefixes: &Vec<String>) -> (r: String)
    ensures
        r@ == strip_first_prefix(name@, views(prefixes@)),
{
    let ghost ps = views(prefixes@);
    let mut i: usize = 0;
    assert(ps.subrange(0, ps.len() as int) =~= ps);
    while i < prefixes.len()
        invariant
            i <= prefixes@.len(),
            ps == views(prefixes@),
            strip_first_prefix(name@, ps) == strip_first_prefix(
                name@,
                ps.subrange(i as int, ps.len() as int),
            ),
        decreases prefixes@.len() - i,
    {
        let ghost rest = ps.subrange(i as int, ps.len() as int);
        assert(rest[0] == prefixes@[i as int]@);
        if let Some(stripped) = strip_prefix(name.as_str(), prefixes[i].as_str()) {
            return stripped;
        }
        assert(rest.subrange(1, rest.len() as int) =~= ps.subrange(i + 1, ps.len() as int));
        i = i + 1;
    }
    assert(ps.subrange(i as int, ps.len() as int) =~= Seq::<Seq<char>>::empty());
    name.clone()
}

/// What follows `prefix` in the first of `tags` that starts with it.
pub fn first_value_with_prefix(tags: &Vec<String>, prefix: &String) -> (r: Option<String>)
    ensures
        match r {
            Some(v) => first_tag_value(views(tags@), prefix@) == Some(v@),
            None => first_tag_value(views(tags@), prefix@) is None,
        },
{
    let ghost ts = views(tags@);
    let mut i: usize = 0;
    assert(ts.subrange(0, ts.len() as int) =~= ts);
    while i < tags.len()
        invariant
            i <= tags@.len(),
            ts == views(tags@),
            first_tag_value(ts, prefix@) == first_tag_value(
                ts.subrange(i as int, ts.len() as int),
                prefix@,
            ),
        decreases tags@.len() - i,
    {
        let ghost rest = ts.subrange(i as int, ts.len() as int);
        assert(rest[0] == tags@[i as int]@);
        if let Some(v) = strip_prefix(tags[i].as_str(), prefix.as_str()) {
            return Some(v);
        }
        assert(rest.subrange(1, rest.len() as int) =~= ts.subrange(i + 1, ts.len() as int));
        i = i + 1;
    }
    None
}

/// Is `tag` one of `tags`?
pub fn has_tag(tags: &Vec<String>, tag: &String) -> (r: bool)
    ensures
        r == views(tags@).contains(tag@),
{
    let mut i: usize = 0;
    while i < tags.len()
        invariant
            i <= tags@.len(),
            forall|j: int| 0 <= j < i ==> tags@[j]@ != tag@,
        decreases tags@.len() - i,
    {
        if tags[i] == *tag {
            assert(views(tags@)[i as int] == tag@);
            return true;
        }
        i = i + 1;
    }
    assert(!views(tags@).contains(tag@)) by {
        if views(tags@).contains(tag@) {
            let k = choose|k: int| 0 <= k < views(tags@).len() && views(tags@)[k] == tag@;
            assert(tags@[k]@ == tag@);
        }
    }
    false
}

impl Named for Resource {
    open spec fn name_view(&self) -> Seq<char> {
        self.name@
    }

    fn name_chars(&self) -> (r: Vec<char>) {
        chars_of(self.name.as_str())
    }
}

/// The VPC gateway's bastion.
#[derive(Debug, Clone)]
pub struct Bastion {
    pub ip: String,
    pub port: u16,
    pub zone: String,
}

impl Bastion {
    /// `user@ip`.
    pub fn destination(&self, user: &str) -> (r: String)
        ensures
            r@ == user@ + "@"@ + self.ip@,
    {
        let a = concat(user, "@");
        concat(a.as_str(), self.ip.as_str())
    }
}

/// No bastion was found.
#[derive(Debug)]
pub struct NoBastion;

impl NoBastion {
    pub fn message(&self) -> (r: &'static str)
        ensures
            r@ == "no bastion-enabled vpc gateway found in the inventory"@,
    {
        "no bastion-enabled vpc gateway found in the inventory"
    }
}

/// The resources and the bastion, as fetched.
#[derive(Debug, Clone)]
pub struct Inventory {
    pub resources: Vec<Resource>,
    pub bastion: Option<Bastion>,
}

/// The resources kept by `Inventory::filtered`.
pub open spec fn in_env(r: Resource, env: Option<Environment>, tags: TagConventions) -> bool {
    env is None || r.env_spec(&tags) == env
}

pub open spec fn derefs<'a>(s: Seq<&'a Resource>) -> Seq<Resource> {
    s.map_values(|r: &Resource| *r)
}

impl Inventory {
    pub fn new(resources: Vec<Resource>, bastion: Option<Bastion>) -> (r: Inventory)
        ensures
            r.resources == resources,
            r.bastion == bastion,
    {
        Inventory { resources, bastion }
    }

    /// The resources of the given environment (all of them for `None`), in
    /// inventory order.
    pub fn filtered(&self, env: Option<Environment>, tags: &TagConventions) -> (r: Vec<&Resource>)
        ensures
            derefs(r@) == self.resources@.filter(|x: Resource| in_env(x, env, *tags)),
    {
        let ghost pred = |x: Resource| in_env(x, env, *tags);
        let mut out: Vec<&Resource> = Vec::new();
        let mut i: usize = 0;
        while i < self.resources.len()
            invariant
                i <= self.resources@.len(),
                pred == (|x: Resource| in_env(x, env, *tags)),
                derefs(out@) == self.resources@.subrange(0, i as int).filter(pred),
            decreases self.resources@.len() - i,
        {
            reveal_with_fuel(Seq::filter, 1);
            let r = &self.resources[i];
            let keep = match env {
                None => true,
                Some(_) => r.env(tags) == env,
            };
            let ghost before = derefs(out@);
            if keep {
                out.push(r);
                assert(derefs(out@) =~= before.push(*r));
            }
            assert(self.resources@.subrange(0, i + 1).drop_last() =~= self.resources@.subrange(
                0,
                i as int,
            ));
            i = i + 1;
        }
        assert(self.resources@.subrange(0, i as int) =~= self.resources@);
        out
    }

    /// The bastion, or the error that names its absence.
    pub fn bastion(&self) -> (r: Result<&Bastion, NoBastion>)
        ensures
            match self.bastion {
                Some(b) => r == Ok::<&Bastion, NoBastion>(&b),
                None => r is Err,
            },
    {
        match &self.bastion {
            Some(b) => Ok(b),
            None => Err(NoBastion),
        }
    }
}

} // verus!
