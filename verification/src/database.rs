//! Which resources are databases, and the short key that names each one.

use vstd::prelude::*;

use crate::config::Config;
use crate::inventory::{
    derefs, env_name, strip_first_matching, strip_first_prefix, Environment, Resource,
    ResourceKind,
};
use crate::order::{sorted_unique, strictly_sorted};
use crate::text::{
    all_digits, chars_of, concat, decimal_digits, is_digit, last_index_of, lemma_decimal_digits,
    lemma_last_index_of, string_of, strip_prefix, strip_prefix_of, sub_chars, views,
};

verus! {

/// Managed databases, and baremetal servers tagged as MySQL.
pub open spec fn is_database_spec(r: Resource, config: Config) -> bool {
    r.kind == ResourceKind::Rdb || (r.kind == ResourceKind::Baremetal && r.tag_views().contains(
        config.tags.mysql@,
    ))
}

pub fn is_database(resource: &Resource, config: &Config) -> (r: bool)
    ensures
        r == is_database_spec(*resource, *config),
        resource.kind == ResourceKind::Rdb ==> r,
        resource.kind == ResourceKind::Instance || resource.kind == ResourceKind::Redis
            || resource.kind == ResourceKind::Lb ==> !r,
        resource.kind == ResourceKind::Baremetal ==> (r <==> exists|i: int|
            0 <= i < resource.tags@.len() && #[trigger] resource.tags@[i]@ == config.tags.mysql@),
{
    proof {
        lemma_what_is_a_database(*resource, *config);
    }
    match resource.kind {
        ResourceKind::Rdb => true,
        ResourceKind::Baremetal => resource.is_mysql(&config.tags),
        ResourceKind::Instance | ResourceKind::Redis | ResourceKind::Lb => false,
    }
}

/// Which resources are databases: every managed database, a baremetal
/// server exactly when one of its tags is the MySQL tag, and never an
/// instance, a Redis cluster or a load balancer, whatever their tags.
pub proof fn lemma_what_is_a_database(r: Resource, config: Config)
    ensures
        r.kind == ResourceKind::Rdb ==> is_database_spec(r, config),
        r.kind == ResourceKind::Instance || r.kind == ResourceKind::Redis || r.kind
            == ResourceKind::Lb ==> !is_database_spec(r, config),
        r.kind == ResourceKind::Baremetal ==> (is_database_spec(r, config) <==> exists|i: int|
            0 <= i < r.tags@.len() && #[trigger] r.tags@[i]@ == config.tags.mysql@),
{
    if r.kind == ResourceKind::Baremetal {
        if r.tag_views().contains(config.tags.mysql@) {
            let i = choose|i: int| 0 <= i < r.tag_views().len() && r.tag_views()[i] == config.tags.mysql@;
            assert(r.tags@[i]@ == r.tag_views()[i]);
        }
        if exists|i: int| 0 <= i < r.tags@.len() && #[trigger] r.tags@[i]@ == config.tags.mysql@ {
            let i = choose|i: int| 0 <= i < r.tags@.len() && #[trigger] r.tags@[i]@ == config.tags.mysql@;
            assert(r.tag_views()[i] == r.tags@[i]@);
        }
    }
}

/// `key` without a leading `<env>-`.
pub open spec fn without_env_segment(key: Seq<char>, env: Environment) -> Seq<char> {
    match strip_prefix_of(key, env_name(env) + "-"@) {
        Some(rest) => rest,
        None => key,
    }
}

/// `key` without a trailing `-<digits>` shard number.
pub open spec fn without_shard(key: Seq<char>) -> Seq<char> {
    match last_index_of(key, '-') {
        Some(p) => {
            let suffix = key.subrange(p + 1, key.len() as int);
            if suffix.len() > 0 && all_digits(suffix) {
                key.subrange(0, p)
            } else {
                key
            }
        },
        None => key,
    }
}

/// Every shard of a database loses its number: `key-<n>` becomes `key`.
pub proof fn lemma_shard_number_is_dropped(key: Seq<char>, n: nat)
    ensures
        without_shard(key + "-"@ + decimal_digits(n)) == key,
{
    reveal_strlit("-");
    let d = decimal_digits(n);
    let s = key + "-"@ + d;
    lemma_decimal_digits(n);
    lemma_last_index_of(s, '-');
    assert(s[key.len() as int] == '-');
    let k = key.len() as int;
    match last_index_of(s, '-') {
        Some(p) => {
            if p > k {
                assert(s[p] == d[p - k - 1]);
                assert(is_digit(d[p - k - 1]));
            }
            if p < k {
                assert(s[k] == '-');
            }
            assert(p == k);
        },
        None => {
            assert(s[k] == '-');
        },
    }
    assert(s.subrange(k + 1, s.len() as int) =~= d);
    assert(s.subrange(0, k) =~= key);
}

/// The database key of a resource: its display name without the env
/// segment, the first matching configured database prefix and the shard
/// suffix.
pub open spec fn db_key_spec(r: Resource, config: Config, env: Environment) -> Seq<char> {
    without_shard(
        strip_first_prefix(
            without_env_segment(r.display_name_spec(&config.naming), env),
            views(config.db.strip_prefixes@),
        ),
    )
}

/// Drops a trailing `-<digits>`.
pub fn strip_shard(key: &str) -> (r: String)
    ensures
        r@ == without_shard(key@),
{
    let v = chars_of(key);
    proof {
        lemma_last_index_of(v@, '-');
    }
    let mut p = v.len();
    while p > 0 && v[p - 1] != '-'
        invariant
            p <= v@.len(),
            forall|j: int| p <= j < v@.len() ==> v@[j] != '-',
        decreases p,
    {
        p = p - 1;
    }
    if p == 0 {
        assert(last_index_of(v@, '-') is None);
        return string_of(v.as_slice());
    }
    let dash = p - 1;
    assert(last_index_of(v@, '-') == Some(dash as int)) by {
        if let Some(k) = last_index_of(v@, '-') {
            assert(!(k < dash) && !(k > dash));
        }
    }
    if dash + 1 == v.len() {
        assert(v@.subrange(dash + 1, v@.len() as int).len() == 0);
        assert(without_shard(v@) == v@);
        let r = string_of(v.as_slice());
        assert(r@ == v@);
        assert(v@ == key@);
        return r;
    }
    let mut i = dash + 1;
    while i < v.len()
        invariant
            dash + 1 <= i <= v@.len(),
            dash + 1 < v@.len(),
            v@ == key@,
            last_index_of(v@, '-') == Some(dash as int),
            forall|j: int| dash + 1 <= j < i ==> is_digit(v@[j]),
        decreases v@.len() - i,
    {
        if !('0' <= v[i] && v[i] <= '9') {
            let ghost suffix = v@.subrange(dash + 1, v@.len() as int);
            assert(!all_digits(suffix)) by {
                assert(suffix[i - dash - 1] == v@[i as int]);
            }
            return string_of(v.as_slice());
        }
        i = i + 1;
    }
    let ghost suffix = v@.subrange(dash + 1, v@.len() as int);
    assert(all_digits(suffix)) by {
        assert forall|j: int| 0 <= j < suffix.len() implies is_digit(#[trigger] suffix[j]) by {
            assert(suffix[j] == v@[dash + 1 + j]);
        }
    }
    let out = sub_chars(&v, 0, dash);
    string_of(out.as_slice())
}

/// Short database key: display name without the env segment, configured db
/// prefixes and shard suffix. `platform-ingestor-prod-search-2` -> `search`.
/// The key names both the mysql schema and the password secret.
pub fn db_key(resource: &Resource, config: &Config, env: Environment) -> (r: String)
    ensures
        r@ == db_key_spec(*resource, *config, env),
{
    let display = resource.display_name(&config.naming);
    let segment = concat(env.as_str(), "-");
    let key = match strip_prefix(display.as_str(), segment.as_str()) {
        Some(rest) => rest,
        None => display,
    };
    let key = strip_first_matching(&key, &config.db.strip_prefixes);
    strip_shard(key.as_str())
}

/// The databases of the configured default environment.
pub open spec fn is_default_env_database(r: Resource, config: Config) -> bool {
    is_database_spec(r, config) && r.env_spec(&config.tags) == Some(config.db.default_env)
}

/// The keys of the default-environment databases among `rs`, in order,
/// repeats included.
pub open spec fn default_env_keys(rs: Seq<Resource>, config: Config) -> Seq<Seq<char>>
    decreases rs.len(),
{
    if rs.len() == 0 {
        Seq::<Seq<char>>::empty()
    } else if is_default_env_database(rs.last(), config) {
        default_env_keys(rs.drop_last(), config).push(
            db_key_spec(rs.last(), config, config.db.default_env),
        )
    } else {
        default_env_keys(rs.drop_last(), config)
    }
}

/// Unique database keys for the configured default env, for shell
/// completion: sorted, each once, exactly the keys of the default-env
/// databases among `resources`.
pub fn database_keys(resources: &[&Resource], config: &Config) -> (r: Vec<String>)
    ensures
        strictly_sorted(views(r@)),
        views(r@).to_set() == default_env_keys(derefs(resources@), *config).to_set(),
{
    let env = config.db.default_env;
    let mut keys: Vec<String> = Vec::new();
    let mut i: usize = 0;
    while i < resources.len()
        invariant
            i <= resources@.len(),
            env == config.db.default_env,
            views(keys@) == default_env_keys(derefs(resources@.subrange(0, i as int)), *config),
        decreases resources@.len() - i,
    {
        let resource = resources[i];
        assert(derefs(resources@.subrange(0, i + 1)).drop_last() =~= derefs(
            resources@.subrange(0, i as int),
        ));
        assert(derefs(resources@.subrange(0, i + 1)).last() == *resource);
        if is_database(resource, config) && resource.env(&config.tags) == Some(env) {
            let key = db_key(resource, config, env);
            let ghost before = views(keys@);
            keys.push(key);
            assert(views(keys@) =~= before.push(key@));
        }
        i = i + 1;
    }
    assert(resources@.subrange(0, i as int) =~= resources@);
    sorted_unique(keys)
}

} // verus!
