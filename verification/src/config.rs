//! Settings of the tool, each with the value it has when the settings file
//! leaves it out, and the resolution of Scaleway credentials.

use vstd::prelude::*;

use crate::inventory::Environment;
use crate::sensitive::Sensitive;
use crate::text::views;

verus! {

/// All settings.
pub struct Config {
    pub scaleway: ScalewayLocations,
    pub bastion: BastionDefaults,
    pub ssh: SshIdentity,
    pub tags: TagConventions,
    pub db: DatabaseRules,
    pub naming: NamingRules,
    pub cache: CachePolicy,
}

/// How long a fetched inventory stays usable.
pub struct CachePolicy {
    pub ttl_seconds: u64,
}

/// Zones and regions queried for resources.
pub struct ScalewayLocations {
    pub zones: Vec<String>,
    pub regions: Vec<String>,
}

/// The bastion's ssh user, and the port used when a gateway reports none.
pub struct BastionDefaults {
    pub user: String,
    pub fallback_port: u16,
}

/// The ssh user on servers and an optional private key.
pub struct SshIdentity {
    pub user: String,
    /// Private key passed to ssh with -i; ssh's own defaults apply when unset.
    pub key: Option<String>,
}

/// The tags through which resources declare their role.
pub struct TagConventions {
    pub port_forward_enabled: String,
    pub port_forward_prefix: String,
    pub env_prefix: String,
    pub mysql: String,
    pub master: String,
}

/// Where database passwords live and how database keys are derived.
pub struct DatabaseRules {
    /// Scaleway project holding the database password secrets.
    pub secret_project_id: Option<String>,
    /// Secret name pattern; {db}, {user} and {env} expand uppercased.
    pub secret_name_template: String,
    /// Database user; defaults to the OS user with dots replaced by underscores.
    pub user: Option<String>,
    pub default_env: Environment,
    /// Prefixes stripped from the database key, e.g. "db-" so that
    /// db-matched-article-1 resolves the MATCHED-ARTICLE secret.
    pub strip_prefixes: Vec<String>,
}

/// Prefixes stripped from resource names for display and matching.
pub struct NamingRules {
    pub strip_prefixes: Vec<String>,
}

impl Default for CachePolicy {
    fn default() -> (r: Self)
        ensures
            r.ttl_seconds == 300,
    {
        CachePolicy { ttl_seconds: 300 }
    }
}

impl Default for ScalewayLocations {
    fn default() -> (r: Self)
        ensures
            views(r.zones@) == seq!["fr-par-1"@, "fr-par-2"@, "fr-par-3"@],
            views(r.regions@) == seq!["fr-par"@],
    {
        let mut zones: Vec<String> = Vec::new();
        zones.push(String::from_str("fr-par-1"));
        zones.push(String::from_str("fr-par-2"));
        zones.push(String::from_str("fr-par-3"));
        let mut regions: Vec<String> = Vec::new();
        regions.push(String::from_str("fr-par"));
        assert(views(zones@) =~= seq!["fr-par-1"@, "fr-par-2"@, "fr-par-3"@]);
        assert(views(regions@) =~= seq!["fr-par"@]);
        ScalewayLocations { zones, regions }
    }
}

impl Default for BastionDefaults {
    fn default() -> (r: Self)
        ensures
            r.user@ == "bastion"@,
            r.fallback_port == 61000,
    {
        BastionDefaults { user: String::from_str("bastion"), fallback_port: 61000 }
    }
}

impl Default for SshIdentity {
    fn default() -> (r: Self)
        ensures
            r.user@ == "root"@,
            r.key is None,
    {
        SshIdentity { user: String::from_str("root"), key: None }
    }
}

impl Default for TagConventions {
    fn default() -> (r: Self)
        ensures
            r.port_forward_enabled@ == "EnablePortForward:true"@,
            r.port_forward_prefix@ == "PortForward:"@,
            r.env_prefix@ == "Env:"@,
            r.mysql@ == "Mysql"@,
            r.master@ == "Master"@,
    {
        TagConventions {
            port_forward_enabled: String::from_str("EnablePortForward:true"),
            port_forward_prefix: String::from_str("PortForward:"),
            env_prefix: String::from_str("Env:"),
            mysql: String::from_str("Mysql"),
            master: String::from_str("Master"),
        }
    }
}

impl Default for DatabaseRules {
    fn default() -> (r: Self)
        ensures
            r.secret_project_id is None,
            r.secret_name_template@ == "{db}-{user}-PWD-{env}"@,
            r.user is None,
            r.default_env == Environment::Prod,
            views(r.strip_prefixes@) == seq!["db-"@],
    {
        let mut strip_prefixes: Vec<String> = Vec::new();
        strip_prefixes.push(String::from_str("db-"));
        assert(views(strip_prefixes@) =~= seq!["db-"@]);
        DatabaseRules {
            secret_project_id: None,
            secret_name_template: String::from_str("{db}-{user}-PWD-{env}"),
            user: None,
            default_env: Environment::Prod,
            strip_prefixes,
        }
    }
}

impl Default for NamingRules {
    fn default() -> (r: Self)
        ensures
            r.strip_prefixes@.len() == 0,
    {
        NamingRules { strip_prefixes: Vec::new() }
    }
}

/// Every section at its default.
pub open spec fn is_default_config(c: Config) -> bool {
    &&& c.cache.ttl_seconds == 300
    &&& views(c.scaleway.zones@) == seq!["fr-par-1"@, "fr-par-2"@, "fr-par-3"@]
    &&& views(c.scaleway.regions@) == seq!["fr-par"@]
    &&& c.bastion.user@ == "bastion"@
    &&& c.bastion.fallback_port == 61000
    &&& c.ssh.user@ == "root"@
    &&& c.ssh.key is None
    &&& c.tags.port_forward_enabled@ == "EnablePortForward:true"@
    &&& c.tags.port_forward_prefix@ == "PortForward:"@
    &&& c.tags.env_prefix@ == "Env:"@
    &&& c.tags.mysql@ == "Mysql"@
    &&& c.tags.master@ == "Master"@
    &&& c.db.secret_project_id is None
    &&& c.db.secret_name_template@ == "{db}-{user}-PWD-{env}"@
    &&& c.db.user is None
    &&& c.db.default_env == Environment::Prod
    &&& views(c.db.strip_prefixes@) == seq!["db-"@]
    &&& c.naming.strip_prefixes@.len() == 0
}

impl Default for Config {
    fn default() -> (r: Self)
        ensures
            is_default_config(r),
    {
        Config {
            scaleway: ScalewayLocations::default(),
            bastion: BastionDefaults::default(),
            ssh: SshIdentity::default(),
            tags: TagConventions::default(),
            db: DatabaseRules::default(),
            naming: NamingRules::default(),
            cache: CachePolicy::default(),
        }
    }
}

/// Credentials for the Scaleway API.
pub struct Credentials {
    pub secret_key: Sensitive,
    pub default_project_id: Option<String>,
}

/// One profile of the Scaleway CLI configuration.
pub struct ScwProfile {
    pub secret_key: Option<String>,
    pub default_project_id: Option<String>,
}

/// The Scaleway CLI configuration file: top-level values, the active
/// profile's name and the named profiles, in file order.
pub struct ScwConfigFile {
    pub base: ScwProfile,
    pub active_profile: Option<String>,
    pub profiles: Vec<(String, ScwProfile)>,
}

/// The environment variables that override the configuration file.
pub struct EnvOverrides {
    /// `SCW_PROFILE`
    pub profile: Option<String>,
    /// `SCW_SECRET_KEY`
    pub secret_key: Option<String>,
    /// `SCW_DEFAULT_PROJECT_ID`
    pub default_project_id: Option<String>,
}

/// Credentials could not be resolved: no secret key anywhere.
pub struct MissingSecretKey;

impl MissingSecretKey {
    pub fn message(&self) -> (r: &'static str)
        ensures
            r@ == "missing secret key"@,
    {
        "missing secret key"
    }
}

impl ScwProfile {
    pub fn empty() -> (r: ScwProfile)
        ensures
            r.secret_key is None,
            r.default_project_id is None,
    {
        ScwProfile { secret_key: None, default_project_id: None }
    }
}

impl ScwConfigFile {
    /// Profile names are unique, as the keys of the file's `profiles` map
    /// are; looking a profile up by name then finds the one profile that has
    /// it.
    pub open spec fn profiles_unique(&self) -> bool {
        forall|i: int, j: int|
            0 <= i < j < self.profiles@.len() ==> (#[trigger] self.profiles@[i]).0@ != (
            #[trigger] self.profiles@[j]).0@
    }

    /// A file with nothing in it.
    pub fn empty() -> (r: ScwConfigFile)
        ensures
            r.profiles_unique(),
            r.base.secret_key is None,
            r.base.default_project_id is None,
            r.active_profile is None,
            r.profiles@.len() == 0,
    {
        ScwConfigFile { base: ScwProfile::empty(), active_profile: None, profiles: Vec::new() }
    }
}

impl EnvOverrides {
    /// No variable set.
    pub fn none() -> (r: EnvOverrides)
        ensures
            r.profile is None,
            r.secret_key is None,
            r.default_project_id is None,
    {
        EnvOverrides { profile: None, secret_key: None, default_project_id: None }
    }
}

/// The first value that is present.
pub open spec fn first_present(a: Option<String>, b: Option<String>, c: Option<String>) -> Option<
    Seq<char>,
> {
    match a {
        Some(x) => Some(x@),
        None => match b {
            Some(x) => Some(x@),
            None => match c {
                Some(x) => Some(x@),
                None => None,
            },
        },
    }
}

/// Index of the first profile named `name`.
pub open spec fn profile_index(profiles: Seq<(String, ScwProfile)>, name: Seq<char>) -> Option<int>
    decreases profiles.len(),
{
    if profiles.len() == 0 {
        None
    } else if profiles.last().0@ == name {
        match profile_index(profiles.drop_last(), name) {
            Some(i) => Some(i),
            None => Some(profiles.len() - 1),
        }
    } else {
        profile_index(profiles.drop_last(), name)
    }
}

/// The profile selected by `SCW_PROFILE`, else by `active_profile`, if the
/// file has one of that name.
pub open spec fn selected_profile(file: ScwConfigFile, env: EnvOverrides) -> Option<ScwProfile> {
    let name = match env.profile {
        Some(p) => Some(p@),
        None => match file.active_profile {
            Some(p) => Some(p@),
            None => None,
        },
    };
    match name {
        Some(n) => match profile_index(file.profiles@, n) {
            Some(i) => Some(file.profiles@[i].1),
            None => None,
        },
        None => None,
    }
}

/// The secret key: environment, then selected profile, then top level.
pub open spec fn resolved_secret_key(file: ScwConfigFile, env: EnvOverrides) -> Option<Seq<char>> {
    let p = selected_profile(file, env);
    first_present(
        env.secret_key,
        match p {
            Some(q) => q.secret_key,
            None => None,
        },
        file.base.secret_key,
    )
}

/// The default project: environment, then selected profile, then top level.
pub open spec fn resolved_project(file: ScwConfigFile, env: EnvOverrides) -> Option<Seq<char>> {
    let p = selected_profile(file, env);
    first_present(
        env.default_project_id,
        match p {
            Some(q) => q.default_project_id,
            None => None,
        },
        file.base.default_project_id,
    )
}

pub open spec fn option_view(o: Option<String>) -> Option<Seq<char>> {
    match o {
        Some(x) => Some(x@),
        None => None,
    }
}

fn take_first_present(a: Option<String>, b: Option<String>, c: Option<String>) -> (r: Option<
    String,
>)
    ensures
        option_view(r) == first_present(a, b, c),
{
    match a {
        Some(x) => Some(x),
        None => match b {
            Some(x) => Some(x),
            None => c,
        },
    }
}

/// Removes and returns the first profile named `name`.
fn take_profile(profiles: &mut Vec<(String, ScwProfile)>, name: &str) -> (r: Option<ScwProfile>)
    ensures
        match profile_index(old(profiles)@, name@) {
            Some(i) => r == Some(old(profiles)@[i].1),
            None => r is None,
        },
{
    let mut i: usize = 0;
    while i < profiles.len()
        invariant
            i <= profiles@.len(),
            profiles@ == old(profiles)@,
            forall|j: int| 0 <= j < i ==> profiles@[j].0@ != name@,
        decreases profiles@.len() - i,
    {
        if crate::text::str_eq(profiles[i].0.as_str(), name) {
            proof {
                lemma_profile_index_first(profiles@, name@, i as int);
            }
            let (_, p) = profiles.remove(i);
            return Some(p);
        }
        i = i + 1;
    }
    proof {
        lemma_profile_index_none(profiles@, name@);
    }
    None
}

proof fn lemma_profile_index_first(ps: Seq<(String, ScwProfile)>, name: Seq<char>, i: int)
    requires
        0 <= i < ps.len(),
        ps[i].0@ == name,
        forall|j: int| 0 <= j < i ==> ps[j].0@ != name,
    ensures
        profile_index(ps, name) == Some(i),
    decreases ps.len(),
{
    if i < ps.len() - 1 {
        lemma_profile_index_first(ps.drop_last(), name, i);
    } else {
        lemma_profile_index_none(ps.drop_last(), name);
    }
}

proof fn lemma_profile_index_none(ps: Seq<(String, ScwProfile)>, name: Seq<char>)
    requires
        forall|j: int| 0 <= j < ps.len() ==> ps[j].0@ != name,
    ensures
        profile_index(ps, name) is None,
    decreases ps.len(),
{
    if ps.len() > 0 {
        lemma_profile_index_none(ps.drop_last(), name);
    }
}

/// With unique profile names, the profile found for a name is the one
/// profile that has it, wherever it stands: the list behaves as the file's
/// map.
pub proof fn lemma_unique_profile_lookup(file: ScwConfigFile, name: Seq<char>, i: int)
    requires
        file.profiles_unique(),
        0 <= i < file.profiles@.len(),
        file.profiles@[i].0@ == name,
    ensures
        profile_index(file.profiles@, name) == Some(i),
{
    let ps = file.profiles@;
    assert forall|j: int| 0 <= j < i implies ps[j].0@ != name by {
        assert(ps[j].0@ != ps[i].0@);
    }
    lemma_profile_index_first(ps, name, i);
}

/// The profile `SCW_PROFILE` names, when the file has it (the first of that
/// name), is the one whose values are used, whatever the file's
/// `active_profile`; without the variable, `active_profile` picks it. An
/// `SCW_SECRET_KEY` or `SCW_DEFAULT_PROJECT_ID` still wins over the profile,
/// and the profile over the top level.
pub proof fn lemma_profile_precedence(file: ScwConfigFile, env: EnvOverrides, i: int)
    requires
        0 <= i < file.profiles@.len(),
        forall|j: int| 0 <= j < i ==> file.profiles@[j].0@ != file.profiles@[i].0@,
        match env.profile {
            Some(n) => n@ == file.profiles@[i].0@,
            None => file.active_profile matches Some(n) && n@ == file.profiles@[i].0@,
        },
    ensures
        resolved_secret_key(file, env) == match env.secret_key {
            Some(k) => Some(k@),
            None => match file.profiles@[i].1.secret_key {
                Some(k) => Some(k@),
                None => option_view(file.base.secret_key),
            },
        },
        resolved_project(file, env) == match env.default_project_id {
            Some(p) => Some(p@),
            None => match file.profiles@[i].1.default_project_id {
                Some(p) => Some(p@),
                None => option_view(file.base.default_project_id),
            },
        },
{
    let name = file.profiles@[i].0@;
    assert forall|j: int| 0 <= j < i implies file.profiles@[j].0@ != name by {}
    lemma_profile_index_first(file.profiles@, name, i);
}

impl Credentials {
    /// Resolves the secret key and the default project: environment
    /// variables first, then the selected profile, then the top level of
    /// the file. Fails exactly when no secret key is found.
    pub fn resolve(file: ScwConfigFile, env: EnvOverrides) -> (r: Result<
        Credentials,
        MissingSecretKey,
    >)
        ensures
            match r {
                Ok(c) => resolved_secret_key(file, env) == Some(c.secret_key@)
                    && option_view(c.default_project_id) == resolved_project(file, env),
                Err(_) => resolved_secret_key(file, env) is None,
            },
            env.secret_key matches Some(k) ==> (r matches Ok(c) && c.secret_key@ == k@),
            forall|i: int|
                #![trigger file.profiles@[i]]
                0 <= i < file.profiles@.len() && (forall|j: int|
                    0 <= j < i ==> file.profiles@[j].0@ != file.profiles@[i].0@) && (match env.profile {
                    Some(n) => n@ == file.profiles@[i].0@,
                    None => (file.active_profile matches Some(n) && n@ == file.profiles@[i].0@),
                }) && env.secret_key is None ==> (file.profiles@[i].1.secret_key matches Some(k)
                    ==> (r matches Ok(c) && c.secret_key@ == k@)),
    {
        proof {
            assert forall|i: int|
                #![trigger file.profiles@[i]]
                0 <= i < file.profiles@.len() && (forall|j: int|
                    0 <= j < i ==> file.profiles@[j].0@ != file.profiles@[i].0@) && (match env.profile {
                    Some(n) => n@ == file.profiles@[i].0@,
                    None => (file.active_profile matches Some(n) && n@ == file.profiles@[i].0@),
                }) implies resolved_secret_key(file, env) == match env.secret_key {
                    Some(k) => Some(k@),
                    None => match file.profiles@[i].1.secret_key {
                        Some(k) => Some(k@),
                        None => option_view(file.base.secret_key),
                    },
                } by {
                lemma_profile_precedence(file, env, i);
            }
        }
        let ghost file0 = file;
        let ghost sel = selected_profile(file, env);
        let mut file = file;
        let EnvOverrides { profile, secret_key, default_project_id } = env;
        let name = match profile {
            Some(p) => Some(p),
            None => file.active_profile,
        };
        let selected = match name {
            Some(n) => take_profile(&mut file.profiles, n.as_str()),
            None => None,
        };
        assert(selected == sel);
        let (p_key, p_project) = match selected {
            Some(p) => (p.secret_key, p.default_project_id),
            None => (None, None),
        };
        let key = take_first_present(secret_key, p_key, file.base.secret_key);
        let project = take_first_present(default_project_id, p_project, file.base.default_project_id);
        match key {
            Some(k) => Ok(Credentials { secret_key: Sensitive::new(k), default_project_id: project }),
            None => Err(MissingSecretKey),
        }
    }
}

} // verus!
