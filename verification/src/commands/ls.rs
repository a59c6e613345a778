//! `scwx ls`: the inventory as a table, as JSON records, or as names.

use vstd::prelude::*;

use crate::config::Config;
use crate::database::{database_keys, default_env_keys};
use crate::inventory::{derefs, env_name, kind_is_server, kind_label, Environment, Resource};
use crate::order::strictly_sorted;
use crate::table::{cell_views, columns, rendered_line};
use crate::text::views;

verus! {

/// One resource as `ls` reports it.
#[derive(Debug)]
pub struct ResourceView<'a> {
    pub kind: &'static str,
    pub id: &'a str,
    pub name: &'a str,
    pub display_name: String,
    pub zone: &'a str,
    pub env: Option<Environment>,
    pub tags: &'a [String],
    pub endpoint_ip: Option<&'a str>,
    pub endpoint_port: Option<u16>,
}

impl<'a> ResourceView<'a> {
    pub fn new(resource: &'a Resource, config: &Config) -> (r: Self)
        ensures
            r.kind@ == kind_label(resource.kind),
            r.id@ == resource.id@,
            r.name@ == resource.name@,
            r.display_name@ == resource.display_name_spec(&config.naming),
            r.zone@ == resource.zone@,
            r.env == resource.env_spec(&config.tags),
            r.tags@ == resource.tags@,
            match resource.endpoint_ip {
                Some(ip) => r.endpoint_ip matches Some(x) && x@ == ip@,
                None => r.endpoint_ip is None,
            },
            r.endpoint_port == resource.endpoint_port,
    {
        ResourceView {
            kind: resource.kind.label(),
            id: resource.id.as_str(),
            name: resource.name.as_str(),
            display_name: resource.display_name(&config.naming),
            zone: resource.zone.as_str(),
            env: resource.env(&config.tags),
            tags: resource.tags.as_slice(),
            endpoint_ip: match &resource.endpoint_ip {
                Some(ip) => Some(ip.as_str()),
                None => None,
            },
            endpoint_port: resource.endpoint_port,
        }
    }
}

/// Which names `ls` prints, one per line.
#[derive(Debug, Clone, Copy, PartialEq, Eq, Structural)]
pub enum NameOutput {
    Servers,
    Databases,
    Forwardable,
}

/// Display names of the resources `keep` selects, in order.
pub open spec fn display_names_where(
    rs: Seq<Resource>,
    config: Config,
    keep: spec_fn(Resource) -> bool,
) -> Seq<Seq<char>> {
    rs.filter(keep).map_values(|r: Resource| r.display_name_spec(&config.naming))
}

/// The names `ls` prints: display names of the servers or of the
/// forwardable resources, in order, or the database keys of the default
/// environment, sorted and each once.
pub fn selected_names(names: NameOutput, resources: &[&Resource], config: &Config) -> (r: Vec<
    String,
>)
    ensures
        match names {
            NameOutput::Servers => views(r@) == display_names_where(
                derefs(resources@),
                *config,
                |x: Resource| kind_is_server(x.kind),
            ),
            NameOutput::Forwardable => views(r@) == display_names_where(
                derefs(resources@),
                *config,
                |x: Resource| x.tag_views().contains(config.tags.port_forward_enabled@),
            ),
            NameOutput::Databases => strictly_sorted(views(r@)) && views(r@).to_set()
                == default_env_keys(derefs(resources@), *config).to_set(),
        },
{
    if names == NameOutput::Databases {
        return database_keys(resources, config);
    }
    let ghost all = derefs(resources@);
    let ghost keep = if names == NameOutput::Servers {
        |x: Resource| kind_is_server(x.kind)
    } else {
        |x: Resource| x.tag_views().contains(config.tags.port_forward_enabled@)
    };
    let mut out: Vec<String> = Vec::new();
    let mut i: usize = 0;
    while i < resources.len()
        invariant
            i <= resources@.len(),
            names != NameOutput::Databases,
            all == derefs(resources@),
            keep == (if names == NameOutput::Servers {
                |x: Resource| kind_is_server(x.kind)
            } else {
                |x: Resource| x.tag_views().contains(config.tags.port_forward_enabled@)
            }),
            views(out@) == display_names_where(all.subrange(0, i as int), *config, keep),
        decreases resources@.len() - i,
    {
        reveal_with_fuel(Seq::filter, 1);
        let r = resources[i];
        let take = match names {
            NameOutput::Servers => r.kind.is_server(),
            _ => r.port_forward_enabled(&config.tags),
        };
        let ghost pre = all.subrange(0, i + 1);
        assert(pre.drop_last() =~= all.subrange(0, i as int));
        assert(pre.last() == *r);
        let ghost before = views(out@);
        if take {
            let name = r.display_name(&config.naming);
            out.push(name);
            assert(pre.filter(keep) == all.subrange(0, i as int).filter(keep).push(*r));
            assert(views(out@) =~= before.push(name@));
            assert(views(out@) =~= display_names_where(pre, *config, keep));
        } else {
            assert(pre.filter(keep) == all.subrange(0, i as int).filter(keep));
        }
        i = i + 1;
    }
    assert(all.subrange(0, i as int) =~= all);
    out
}

/// The cells of a resource's table row: display name, kind, environment,
/// zone, endpoint address (empty when absent).
pub open spec fn view_row(v: ResourceView) -> Seq<Seq<char>> {
    seq![
        v.display_name@,
        v.kind@,
        match v.env {
            Some(e) => env_name(e),
            None => Seq::<char>::empty(),
        },
        v.zone@,
        match v.endpoint_ip {
            Some(ip) => ip@,
            None => Seq::<char>::empty(),
        },
    ]
}

/// The table's header cells.
pub open spec fn header_row() -> Seq<Seq<char>> {
    seq!["NAME"@, "KIND"@, "ENV"@, "ZONE"@, "IP"@]
}

/// The table: a header line, then one aligned line per resource.
pub fn table_lines(views_: &[ResourceView]) -> (r: Vec<String>)
    ensures
        ({
            let all = seq![header_row()] + views_@.map_values(|v: ResourceView| view_row(v));
            r@.len() == all.len() && forall|i: int|
                0 <= i < all.len() ==> #[trigger] r@[i]@ == rendered_line(all[i], all)
        }),
{
    let ghost all = seq![header_row()] + views_@.map_values(|v: ResourceView| view_row(v));
    let mut rows: Vec<[String; 5]> = Vec::new();
    rows.push(
        [
            String::from_str("NAME"),
            String::from_str("KIND"),
            String::from_str("ENV"),
            String::from_str("ZONE"),
            String::from_str("IP"),
        ],
    );
    assert(cell_views(rows@)[0] =~= header_row());
    let mut i: usize = 0;
    while i < views_.len()
        invariant
            i <= views_@.len(),
            rows@.len() == i + 1,
            all == seq![header_row()] + views_@.map_values(|v: ResourceView| view_row(v)),
            forall|j: int| 0 <= j <= i ==> #[trigger] cell_views(rows@)[j] == all[j],
        decreases views_@.len() - i,
    {
        let v = &views_[i];
        let env = match v.env {
            Some(e) => String::from_str(e.as_str()),
            None => String::new(),
        };
        let ip = match v.endpoint_ip {
            Some(ip) => String::from_str(ip),
            None => String::new(),
        };
        let row: [String; 5] = [
            v.display_name.clone(),
            String::from_str(v.kind),
            env,
            String::from_str(v.zone),
            ip,
        ];
        assert(views(row@) =~= view_row(*v));
        assert(all[i + 1] == view_row(*v));
        let ghost before = rows@;
        rows.push(row);
        assert forall|j: int| 0 <= j <= i + 1 implies #[trigger] cell_views(rows@)[j] == all[j] by {
            if j <= i {
                assert(rows@[j] == before[j]);
                assert(cell_views(before)[j] == all[j]);
            }
        }
        i = i + 1;
    }
    assert(cell_views(rows@) =~= all);
    columns(rows.as_slice())
}

} // verus!
