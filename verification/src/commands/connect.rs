//! `scwx connect`: the servers to pick from, and the answer to a query that
//! names no server.

use vstd::prelude::*;

use crate::config::{Config, NamingRules};
use crate::inventory::{derefs, in_env, kind_is_server, kind_label, Environment, Inventory, Resource, ResourceKind};
use crate::text::concat;

verus! {

/// The servers of `env` (all environments for `None`), in inventory order.
pub fn servers_in<'a>(inventory: &'a Inventory, env: Option<Environment>, config: &Config) -> (r:
    Vec<&'a Resource>)
    ensures
        derefs(r@) == inventory.resources@.filter(|x: Resource| in_env(x, env, config.tags)).filter(
            |x: Resource| kind_is_server(x.kind),
        ),
{
    let all = inventory.filtered(env, &config.tags);
    let ghost pre = derefs(all@);
    let ghost keep = |x: Resource| kind_is_server(x.kind);
    let mut out: Vec<&'a Resource> = Vec::new();
    let mut i: usize = 0;
    while i < all.len()
        invariant
            i <= all@.len(),
            pre == derefs(all@),
            keep == (|x: Resource| kind_is_server(x.kind)),
            derefs(out@) == pre.subrange(0, i as int).filter(keep),
        decreases all@.len() - i,
    {
        reveal_with_fuel(Seq::filter, 1);
        let ghost before = derefs(out@);
        if all[i].kind.is_server() {
            out.push(all[i]);
            assert(derefs(out@) =~= before.push(*all@[i as int]));
        }
        assert(pre.subrange(0, i + 1).drop_last() =~= pre.subrange(0, i as int));
        i = i + 1;
    }
    assert(pre.subrange(0, i as int) =~= pre);
    out
}

/// The first resource that is not a server and that the query matches.
pub open spec fn first_unreachable_match(rs: Seq<Resource>, query: Seq<char>, naming: NamingRules) -> Option<int>
    decreases rs.len(),
{
    if rs.len() == 0 {
        None
    } else if !kind_is_server(rs[0].kind) && rs[0].matches_spec(query, &naming) {
        Some(0)
    } else {
        match first_unreachable_match(rs.subrange(1, rs.len() as int), query, naming) {
            Some(i) => Some(i + 1),
            None => None,
        }
    }
}

/// The message when no server matches: the first non-server the query
/// matches is named, with the command that reaches it (`db` for managed
/// databases, `pf` otherwise); else the query is reported.
pub open spec fn no_server_message_spec(rs: Seq<Resource>, query: Seq<char>, naming: NamingRules) -> Seq<char> {
    match first_unreachable_match(rs, query, naming) {
        Some(i) => {
            let r = rs[i];
            let name = r.display_name_spec(&naming);
            let hint = if r.kind == ResourceKind::Rdb {
                "scwx db "@ + name
            } else {
                "scwx pf "@ + name
            };
            name + " is a "@ + kind_label(r.kind) + " and has no ssh; try `"@ + hint + "`"@
        },
        None => "no server matches '"@ + query + "'"@,
    }
}

/// What to say when a query names no server; `resources` are those of the
/// selected environment.
pub fn no_server_message(resources: &[&Resource], query: &str, naming: &NamingRules) -> (r: String)
    ensures
        r@ == no_server_message_spec(derefs(resources@), query@, *naming),
{
    let ghost all = derefs(resources@);
    let mut i: usize = 0;
    assert(all.subrange(0, all.len() as int) =~= all);
    while i < resources.len()
        invariant
            i <= resources@.len(),
            all == derefs(resources@),
            first_unreachable_match(all, query@, *naming) == match first_unreachable_match(
                all.subrange(i as int, all.len() as int),
                query@,
                *naming,
            ) {
                Some(j) => Some(j + i),
                None => None,
            },
        decreases resources@.len() - i,
    {
        let resource = resources[i];
        let ghost rest = all.subrange(i as int, all.len() as int);
        assert(rest[0] == *resource);
        if !resource.kind.is_server() && resource.matches(query, naming) {
            assert(first_unreachable_match(rest, query@, *naming) == Some(0int));
            let name = resource.display_name(naming);
            let hint = match resource.kind {
                ResourceKind::Rdb => concat("scwx db ", name.as_str()),
                _ => concat("scwx pf ", name.as_str()),
            };
            let a = concat(name.as_str(), " is a ");
            let b = concat(a.as_str(), resource.kind.label());
            let c = concat(b.as_str(), " and has no ssh; try `");
            let d = concat(c.as_str(), hint.as_str());
            return concat(d.as_str(), "`");
        }
        assert(rest.subrange(1, rest.len() as int) =~= all.subrange(i + 1, all.len() as int));
        i = i + 1;
    }
    let a = concat("no server matches '", query);
    concat(a.as_str(), "'")
}

} // verus!
