//! What the Scaleway API reports, turned into resources; pagination; and
//! how the answers of all zones combine into one inventory.

use vstd::prelude::*;

use crate::config::ScalewayLocations;
use crate::inventory::{Bastion, Inventory, Resource, ResourceKind};
use crate::order::{sort_by_name, sorted_by_name, stable_arrangement, Named};
use crate::text::{chars_of, concat, first_piece, str_eq, take_until, u64_to_string, decimal_digits};

verus! {

/// Items asked for per page.
pub const PAGE_SIZE: usize = 100;

/// Pages fetched at most from one endpoint.
pub const MAX_PAGES: usize = 100;

/// Why an API call failed: an HTTP status, another transport failure (its
/// description), or an endpoint that kept returning pages.
#[derive(Debug)]
pub enum FetchError {
    Status(u16),
    Transport(String),
    TooManyPages,
}

impl FetchError {
    pub fn message(&self) -> (r: String)
        ensures
            r@ == match self {
                FetchError::Status(c) => "http status: "@ + decimal_digits(*c as nat),
                FetchError::Transport(s) => s@,
                FetchError::TooManyPages => "gave up after 100 pages"@,
            },
    {
        match self {
            FetchError::Status(c) => {
                let n = u64_to_string(*c as u64);
                concat("http status: ", n.as_str())
            },
            FetchError::Transport(s) => s.clone(),
            FetchError::TooManyPages => String::from_str("gave up after 100 pages"),
        }
    }
}

/// How a failed call counts for the inventory.
#[derive(Debug, Clone, Copy, PartialEq, Eq, Structural)]
pub enum Failure {
    /// 401 or 403: the credentials are refused; the fetch stops.
    Denied,
    /// 501: the product does not exist in this zone; nothing is missing.
    Absent,
    /// Anything else: skipped, and the inventory is incomplete.
    Transient,
}

pub open spec fn failure_of(e: FetchError) -> Failure {
    match e {
        FetchError::Status(c) => if c == 401 || c == 403 {
            Failure::Denied
        } else if c == 501 {
            Failure::Absent
        } else {
            Failure::Transient
        },
        _ => Failure::Transient,
    }
}

/// Is it an authentication failure?
pub fn is_auth_error(error: &FetchError) -> (r: bool)
    ensures
        r == (failure_of(*error) == Failure::Denied),
{
    match error {
        FetchError::Status(c) => *c == 401 || *c == 403,
        _ => false,
    }
}

pub fn classify(error: &FetchError) -> (r: Failure)
    ensures
        r == failure_of(*error),
{
    match error {
        FetchError::Status(c) => if *c == 401 || *c == 403 {
            Failure::Denied
        } else if *c == 501 {
            Failure::Absent
        } else {
            Failure::Transient
        },
        _ => Failure::Transient,
    }
}

/// Values of the API that may become a resource.
pub trait IntoResource: Sized {
    /// `r` is what this value becomes in the given zone or region: a
    /// resource when it is ready or running, else nothing.
    spec fn becomes(self, location: Seq<char>, r: Option<Resource>) -> bool;

    fn into_resource(self, location: &str) -> (r: Option<Resource>)
        ensures
            self.becomes(location@, r),
    ;
}

/// The resources of the values that become one, in order.
pub open spec fn somes(s: Seq<Option<Resource>>) -> Seq<Resource>
    decreases s.len(),
{
    if s.len() == 0 {
        Seq::<Resource>::empty()
    } else {
        match s.last() {
            Some(r) => somes(s.drop_last()).push(r),
            None => somes(s.drop_last()),
        }
    }
}

/// Each value turned into a resource where it becomes one, in order.
pub fn resources_from<T: IntoResource>(items: Vec<T>, location: &str) -> (r: Vec<Resource>)
    ensures
        exists|outs: Seq<Option<Resource>>|
            #![trigger somes(outs)]
            outs.len() == items@.len() && (forall|i: int|
                0 <= i < items@.len() ==> #[trigger] items@[i].becomes(location@, outs[i]))
                && r@ == somes(outs),
{
    let ghost all = items@;
    let mut rest = items;
    let mut out: Vec<Resource> = Vec::new();
    let ghost mut outs: Seq<Option<Resource>> = Seq::empty();
    let mut i: usize = 0;
    while rest.len() > 0
        invariant
            outs.len() + rest@.len() == all.len(),
            rest@ == all.subrange(outs.len() as int, all.len() as int),
            forall|j: int| 0 <= j < outs.len() ==> #[trigger] all[j].becomes(location@, outs[j]),
            out@ == somes(outs),
        decreases rest@.len(),
    {
        let ghost k = outs.len();
        let x = rest.remove(0);
        assert(x == all[k as int]);
        let res = x.into_resource(location);
        let ghost prev = outs;
        proof {
            outs = outs.push(res);
            assert(outs.drop_last() =~= prev);
        }
        match res {
            Some(resource) => out.push(resource),
            None => {},
        }
        assert(rest@ =~= all.subrange(outs.len() as int, all.len() as int));
        assert forall|j: int| 0 <= j < outs.len() implies #[trigger] all[j].becomes(
            location@,
            outs[j],
        ) by {
            if j < k {
                assert(outs[j] == prev[j]);
            }
        }
    }
    out
}

/// A server of the Instance API.
pub struct Instance {
    pub id: String,
    pub name: String,
    pub state: String,
    pub tags: Vec<String>,
}

/// A server of the Elastic Metal API.
pub struct Baremetal {
    pub id: String,
    pub name: String,
    pub status: String,
    pub tags: Vec<String>,
}

/// A managed database instance.
pub struct RdbInstance {
    pub id: String,
    pub name: String,
    pub status: String,
    pub tags: Vec<String>,
    pub endpoints: Vec<RdbEndpoint>,
}

pub struct RdbEndpoint {
    pub ip: Option<String>,
    pub hostname: Option<String>,
    pub port: u16,
}

/// A managed Redis cluster.
pub struct RedisCluster {
    pub id: String,
    pub name: String,
    pub status: String,
    pub tags: Vec<String>,
    pub endpoints: Vec<RedisEndpoint>,
}

pub struct RedisEndpoint {
    pub ips: Vec<String>,
    pub port: u16,
}

/// A load balancer.
pub struct Lb {
    pub id: String,
    pub name: String,
    pub status: String,
    pub tags: Vec<String>,
    pub ip: Vec<LbIp>,
}

pub struct LbIp {
    pub ip_address: String,
}

/// The fields every resource takes over unchanged.
pub open spec fn same_identity(
    r: Resource,
    kind: ResourceKind,
    id: String,
    name: String,
    tags: Vec<String>,
    location: Seq<char>,
) -> bool {
    r.kind == kind && r.id == id && r.name == name && r.tags == tags && r.zone@ == location
}

impl IntoResource for Instance {
    open spec fn becomes(self, location: Seq<char>, r: Option<Resource>) -> bool {
        if self.state@ == "running"@ {
            r matches Some(x) && same_identity(
                x,
                ResourceKind::Instance,
                self.id,
                self.name,
                self.tags,
                location,
            ) && x.endpoint_ip is None && x.endpoint_port is None
        } else {
            r is None
        }
    }

    fn into_resource(self, location: &str) -> (r: Option<Resource>) {
        if str_eq(self.state.as_str(), "running") {
            Some(
                Resource {
                    kind: ResourceKind::Instance,
                    id: self.id,
                    name: self.name,
                    zone: String::from_str(location),
                    tags: self.tags,
                    endpoint_ip: None,
                    endpoint_port: None,
                },
            )
        } else {
            None
        }
    }
}

impl IntoResource for Baremetal {
    open spec fn becomes(self, location: Seq<char>, r: Option<Resource>) -> bool {
        if self.status@ == "ready"@ {
            r matches Some(x) && same_identity(
                x,
                ResourceKind::Baremetal,
                self.id,
                self.name,
                self.tags,
                location,
            ) && x.endpoint_ip is None && x.endpoint_port is None
        } else {
            r is None
        }
    }

    fn into_resource(self, location: &str) -> (r: Option<Resource>) {
        if str_eq(self.status.as_str(), "ready") {
            Some(
                Resource {
                    kind: ResourceKind::Baremetal,
                    id: self.id,
                    name: self.name,
                    zone: String::from_str(location),
                    tags: self.tags,
                    endpoint_ip: None,
                    endpoint_port: None,
                },
            )
        } else {
            None
        }
    }
}

/// The address of a database endpoint: its IP, else its hostname.
pub open spec fn rdb_address(e: RdbEndpoint) -> Option<String> {
    match e.ip {
        Some(ip) => Some(ip),
        None => e.hostname,
    }
}

impl IntoResource for RdbInstance {
    /// Ready instances, reached at the first endpoint's IP or hostname.
    open spec fn becomes(self, location: Seq<char>, r: Option<Resource>) -> bool {
        if self.status@ == "ready"@ {
            r matches Some(x) && same_identity(
                x,
                ResourceKind::Rdb,
                self.id,
                self.name,
                self.tags,
                location,
            ) && if self.endpoints@.len() > 0 {
                x.endpoint_ip == rdb_address(self.endpoints@[0]) && x.endpoint_port == Some(
                    self.endpoints@[0].port,
                )
            } else {
                x.endpoint_ip is None && x.endpoint_port is None
            }
        } else {
            r is None
        }
    }

    fn into_resource(self, location: &str) -> (r: Option<Resource>) {
        if !str_eq(self.status.as_str(), "ready") {
            return None;
        }
        let RdbInstance { id, name, status, tags, endpoints } = self;
        let mut endpoints = endpoints;
        let (endpoint_ip, endpoint_port) = if endpoints.len() > 0 {
            let e = endpoints.remove(0);
            let ip = match e.ip {
                Some(ip) => Some(ip),
                None => e.hostname,
            };
            (ip, Some(e.port))
        } else {
            (None, None)
        };
        Some(
            Resource {
                kind: ResourceKind::Rdb,
                id,
                name,
                zone: String::from_str(location),
                tags,
                endpoint_ip,
                endpoint_port,
            },
        )
    }
}

impl IntoResource for RedisCluster {
    /// Ready clusters, reached at the first IP of the first endpoint.
    open spec fn becomes(self, location: Seq<char>, r: Option<Resource>) -> bool {
        if self.status@ == "ready"@ {
            r matches Some(x) && same_identity(
                x,
                ResourceKind::Redis,
                self.id,
                self.name,
                self.tags,
                location,
            ) && if self.endpoints@.len() > 0 {
                (if self.endpoints@[0].ips@.len() > 0 {
                    x.endpoint_ip == Some(self.endpoints@[0].ips@[0])
                } else {
                    x.endpoint_ip is None
                }) && x.endpoint_port == Some(self.endpoints@[0].port)
            } else {
                x.endpoint_ip is None && x.endpoint_port is None
            }
        } else {
            r is None
        }
    }

    fn into_resource(self, location: &str) -> (r: Option<Resource>) {
        if !str_eq(self.status.as_str(), "ready") {
            return None;
        }
        let RedisCluster { id, name, status, tags, endpoints } = self;
        let mut endpoints = endpoints;
        let (endpoint_ip, endpoint_port) = if endpoints.len() > 0 {
            let e = endpoints.remove(0);
            let RedisEndpoint { ips, port } = e;
            let mut ips = ips;
            let ip = if ips.len() > 0 {
                Some(ips.remove(0))
            } else {
                None
            };
            (ip, Some(port))
        } else {
            (None, None)
        };
        Some(
            Resource {
                kind: ResourceKind::Redis,
                id,
                name,
                zone: String::from_str(location),
                tags,
                endpoint_ip,
                endpoint_port,
            },
        )
    }
}

impl IntoResource for Lb {
    /// Ready load balancers, reached at their first IP address.
    open spec fn becomes(self, location: Seq<char>, r: Option<Resource>) -> bool {
        if self.status@ == "ready"@ {
            r matches Some(x) && same_identity(
                x,
                ResourceKind::Lb,
                self.id,
                self.name,
                self.tags,
                location,
            ) && (if self.ip@.len() > 0 {
                x.endpoint_ip == Some(self.ip@[0].ip_address)
            } else {
                x.endpoint_ip is None
            }) && x.endpoint_port is None
        } else {
            r is None
        }
    }

    fn into_resource(self, location: &str) -> (r: Option<Resource>) {
        if !str_eq(self.status.as_str(), "ready") {
            return None;
        }
        let Lb { id, name, status, tags, ip } = self;
        let mut ip = ip;
        let endpoint_ip = if ip.len() > 0 {
            Some(ip.remove(0).ip_address)
        } else {
            None
        };
        Some(
            Resource {
                kind: ResourceKind::Lb,
                id,
                name,
                zone: String::from_str(location),
                tags,
                endpoint_ip,
                endpoint_port: None,
            },
        )
    }
}


/// A VPC gateway, and whether it offers a bastion.
pub struct Gateway {
    pub bastion_enabled: bool,
    pub bastion_port: u16,
    pub ipv4: Option<GatewayIp>,
}

pub struct GatewayIp {
    pub address: String,
}

/// The first gateway with the bastion enabled and an IPv4 address.
pub open spec fn bastion_gateway(gs: Seq<Gateway>) -> Option<int>
    decreases gs.len(),
{
    if gs.len() == 0 {
        None
    } else if gs[0].bastion_enabled && gs[0].ipv4 is Some {
        Some(0)
    } else {
        match bastion_gateway(gs.subrange(1, gs.len() as int)) {
            Some(i) => Some(i + 1),
            None => None,
        }
    }
}

/// The bastion of the first gateway that has one enabled and an IPv4
/// address, placed in `zone`.
pub fn select_bastion(gateways: Vec<Gateway>, zone: &str) -> (r: Option<Bastion>)
    ensures
        match bastion_gateway(gateways@) {
            Some(i) => r matches Some(b) && gateways@[i].ipv4 matches Some(ip) && b.ip == ip.address
                && b.port == gateways@[i].bastion_port && b.zone@ == zone@,
            None => r is None,
        },
{
    let ghost all = gateways@;
    let mut rest = gateways;
    let ghost mut k: int = 0;
    assert(all.subrange(0, all.len() as int) =~= all);
    while rest.len() > 0
        invariant
            0 <= k <= all.len(),
            all == gateways@,
            rest@ == all.subrange(k, all.len() as int),
            bastion_gateway(all) == match bastion_gateway(rest@) {
                Some(i) => Some(i + k),
                None => None,
            },
        decreases rest@.len(),
    {
        let ghost r0 = rest@;
        let g = rest.remove(0);
        assert(r0.subrange(1, r0.len() as int) =~= rest@);
        assert(r0[0] == g && all[k] == g);
        if g.bastion_enabled {
            if let Some(ip) = &g.ipv4 {
                assert(bastion_gateway(r0) == Some(0int));
                assert(bastion_gateway(all) == Some(k));
                let b = Bastion {
                    ip: ip.address.clone(),
                    port: g.bastion_port,
                    zone: String::from_str(zone),
                };
                assert(all[k].ipv4 == Some(*ip));
                return Some(b);
            }
        }
        proof {
            k = k + 1;
        }
        assert(rest@ =~= all.subrange(k, all.len() as int));
    }
    None
}

/// An address of the IPAM API and what it is attached to.
pub struct IpamIp {
    pub address: String,
    pub is_ipv6: bool,
    pub resource: Option<IpamResource>,
}

pub struct IpamResource {
    pub kind: String,
    pub name: Option<String>,
}

/// The (server name, address without prefix length) of an IPv4 address
/// attached to a named baremetal private NIC.
pub open spec fn private_ip_of(ip: IpamIp) -> Option<(Seq<char>, Seq<char>)> {
    if ip.is_ipv6 {
        None
    } else {
        match ip.resource {
            Some(res) => if res.kind@ == "baremetal_private_nic"@ {
                match res.name {
                    Some(n) => Some((n@, take_until(ip.address@, '/'))),
                    None => None,
                }
            } else {
                None
            },
            None => None,
        }
    }
}

pub open spec fn private_ips_of(ips: Seq<IpamIp>) -> Seq<(Seq<char>, Seq<char>)>
    decreases ips.len(),
{
    if ips.len() == 0 {
        Seq::empty()
    } else {
        match private_ip_of(ips.last()) {
            Some(p) => private_ips_of(ips.drop_last()).push(p),
            None => private_ips_of(ips.drop_last()),
        }
    }
}

pub open spec fn pair_views(s: Seq<(String, String)>) -> Seq<(Seq<char>, Seq<char>)> {
    s.map_values(|p: (String, String)| (p.0@, p.1@))
}

/// IPv4 addresses of baremetal private NICs, by server name.
pub fn baremetal_private_ips(ips: Vec<IpamIp>) -> (r: Vec<(String, String)>)
    ensures
        pair_views(r@) == private_ips_of(ips@),
{
    let ghost all = ips@;
    let mut rest = ips;
    let mut out: Vec<(String, String)> = Vec::new();
    let ghost mut k: int = 0;
    while rest.len() > 0
        invariant
            0 <= k <= all.len(),
            rest@ == all.subrange(k, all.len() as int),
            pair_views(out@) == private_ips_of(all.subrange(0, k)),
        decreases rest@.len(),
    {
        let ghost r0 = rest@;
        let ip = rest.remove(0);
        assert(ip == all[k]);
        assert(all.subrange(0, k + 1).drop_last() =~= all.subrange(0, k));
        let ghost before = pair_views(out@);
        let IpamIp { address, is_ipv6, resource } = ip;
        if !is_ipv6 {
            if let Some(res) = resource {
                if str_eq(res.kind.as_str(), "baremetal_private_nic") {
                    if let Some(name) = res.name {
                        let addr = first_piece(address.as_str(), '/');
                        out.push((name, addr));
                        assert(pair_views(out@) =~= before.push((name@, addr@)));
                    }
                }
            }
        }
        proof {
            k = k + 1;
        }
        assert(rest@ =~= all.subrange(k, all.len() as int));
    }
    assert(all.subrange(0, k) =~= all);
    out
}

/// The page stops the listing: it is empty, or the reported total is
/// reached, or (without a total) it is short.
pub open spec fn page_stops(before: nat, got: nat, total: Option<u64>) -> bool {
    got == 0 || match total {
        Some(t) => before + got >= t,
        None => got < PAGE_SIZE,
    }
}

/// The items of the pages, in order.
pub open spec fn items_of<T>(pages: Seq<(Vec<T>, Option<u64>)>) -> Seq<T>
    decreases pages.len(),
{
    if pages.len() == 0 {
        Seq::<T>::empty()
    } else {
        items_of(pages.drop_last()) + pages.last().0@
    }
}

/// No page of the run stops the listing.
pub open spec fn continues<T>(pages: Seq<(Vec<T>, Option<u64>)>) -> bool {
    forall|i: int|
        0 <= i < pages.len() ==> !page_stops(
            items_of(pages.subrange(0, i)).len(),
            #[trigger] pages[i].0@.len(),
            pages[i].1,
        )
}

proof fn lemma_extend_pages<T>(prev: Seq<(Vec<T>, Option<u64>)>, got: (Vec<T>, Option<u64>))
    ensures
        prev.push(got).drop_last() == prev,
        prev.push(got).last() == got,
        items_of(prev.push(got)) == items_of(prev) + got.0@,
        continues(prev) && !page_stops(items_of(prev).len(), got.0@.len(), got.1) ==> continues(
            prev.push(got),
        ),
{
    let pages = prev.push(got);
    assert(pages.drop_last() =~= prev);
    if continues(prev) && !page_stops(items_of(prev).len(), got.0@.len(), got.1) {
        assert forall|i: int| 0 <= i < pages.len() implies !page_stops(
            items_of(pages.subrange(0, i)).len(),
            #[trigger] pages[i].0@.len(),
            pages[i].1,
        ) by {
            if i < prev.len() {
                assert(pages.subrange(0, i) =~= prev.subrange(0, i));
                assert(pages[i] == prev[i]);
            } else {
                assert(pages.subrange(0, i) =~= prev);
            }
        }
    }
}

/// Pages until the server-reported total is reached, an empty page arrives,
/// or (without a total) a short page. Capped: an endpoint that ignores the
/// page parameter must not hang or grow unboundedly.
pub fn collect_pages<T, F: Fn(usize) -> Result<(Vec<T>, Option<u64>), FetchError>>(fetch_page: F) -> (r:
    Result<Vec<T>, FetchError>)
    requires
        forall|p: usize| 1 <= p <= MAX_PAGES ==> call_requires(fetch_page, (p,)),
    ensures
        exists|pages: Seq<(Vec<T>, Option<u64>)>|
            #![trigger items_of(pages)]
            pages.len() <= MAX_PAGES && (forall|i: int|
                0 <= i < pages.len() ==> call_ensures(
                    fetch_page,
                    ((i + 1) as usize,),
                    Ok::<(Vec<T>, Option<u64>), FetchError>(#[trigger] pages[i]),
                )) && match r {
                Ok(items) => pages.len() >= 1 && continues(pages.drop_last()) && page_stops(
                    items_of(pages.drop_last()).len(),
                    pages.last().0@.len(),
                    pages.last().1,
                ) && items@ == items_of(pages),
                Err(e) => continues(pages) && ((pages.len() == MAX_PAGES && e is TooManyPages) || (
                pages.len() < MAX_PAGES && call_ensures(
                    fetch_page,
                    ((pages.len() + 1) as usize,),
                    Err::<(Vec<T>, Option<u64>), FetchError>(e),
                ))),
            },
{
    let mut items: Vec<T> = Vec::new();
    let ghost mut pages: Seq<(Vec<T>, Option<u64>)> = Seq::empty();
    let mut page: usize = 1;
    while page <= MAX_PAGES
        invariant
            1 <= page <= MAX_PAGES + 1,
            pages.len() == page - 1,
            forall|p: usize| 1 <= p <= MAX_PAGES ==> call_requires(fetch_page, (p,)),
            forall|i: int|
                0 <= i < pages.len() ==> call_ensures(
                    fetch_page,
                    ((i + 1) as usize,),
                    Ok::<(Vec<T>, Option<u64>), FetchError>(#[trigger] pages[i]),
                ),
            continues(pages),
            items@ == items_of(pages),
        decreases MAX_PAGES + 1 - page,
    {
        let result = fetch_page(page);
        let (mut page_items, total_count) = match result {
            Ok(x) => x,
            Err(e) => {
                assert(items_of(pages) == items@);
                return Err(e);
            },
        };
        let ghost got = (page_items, total_count);
        let ghost prev = pages;
        let ghost before = items@;
        proof {
            lemma_extend_pages(prev, got);
            pages = pages.push(got);
            assert forall|i: int| 0 <= i < pages.len() implies call_ensures(
                fetch_page,
                ((i + 1) as usize,),
                Ok::<(Vec<T>, Option<u64>), FetchError>(#[trigger] pages[i]),
            ) by {
                if i < prev.len() {
                    assert(pages[i] == prev[i]);
                }
            }
        }
        if page_items.len() == 0 {
            assert(items@ =~= items_of(pages));
            return Ok(items);
        }
        let short_page = page_items.len() < PAGE_SIZE;
        items.append(&mut page_items);
        assert(items@ == items_of(pages));
        let stop = match total_count {
            Some(total) => items.len() as u64 >= total,
            None => short_page,
        };
        if stop {
            return Ok(items);
        }
        assert(continues(pages));
        page = page + 1;
    }
    assert(items_of(pages) == items@);
    Err(FetchError::TooManyPages)
}


/// What the calls of one kind returned, all but the refused ones: the items
/// of the answers, whether every call answered, and the skipped calls.
#[derive(Debug)]
pub struct Collected<T> {
    pub items: Vec<T>,
    pub complete: bool,
    pub skipped: Vec<(String, FetchError)>,
}

/// A call refused for lack of access.
#[derive(Debug)]
pub struct Denied {
    pub label: String,
    pub error: FetchError,
}

impl Denied {
    pub fn message(&self) -> (r: String)
        ensures
            r@ == "scaleway denied access ("@ + self.label@ + ")"@,
    {
        let a = concat("scaleway denied access (", self.label.as_str());
        concat(a.as_str(), ")")
    }
}

/// A labelled call refused for lack of access.
pub open spec fn is_denied<T>(t: (String, Result<Vec<T>, FetchError>)) -> bool {
    t.1 matches Err(e) && failure_of(e) == Failure::Denied
}

/// The first refused call.
pub open spec fn first_denied<T>(ts: Seq<(String, Result<Vec<T>, FetchError>)>) -> Option<int>
    decreases ts.len(),
{
    if ts.len() == 0 {
        None
    } else {
        match first_denied(ts.drop_last()) {
            Some(i) => Some(i),
            None => if is_denied(ts.last()) {
                Some(ts.len() - 1)
            } else {
                None
            },
        }
    }
}

/// The items of the answers, in order.
pub open spec fn answered_items<T>(ts: Seq<(String, Result<Vec<T>, FetchError>)>) -> Seq<T>
    decreases ts.len(),
{
    if ts.len() == 0 {
        Seq::<T>::empty()
    } else {
        answered_items(ts.drop_last()) + match ts.last().1 {
            Ok(v) => v@,
            Err(_) => Seq::<T>::empty(),
        }
    }
}

/// The calls that failed for a passing reason, in order.
pub open spec fn skipped_calls<T>(ts: Seq<(String, Result<Vec<T>, FetchError>)>) -> Seq<
    (String, FetchError),
>
    decreases ts.len(),
{
    if ts.len() == 0 {
        Seq::empty()
    } else {
        match ts.last().1 {
            Err(e) => if failure_of(e) == Failure::Transient {
                skipped_calls(ts.drop_last()).push((ts.last().0, e))
            } else {
                skipped_calls(ts.drop_last())
            },
            Ok(_) => skipped_calls(ts.drop_last()),
        }
    }
}

/// Combines labelled call results: a refused call stops everything (the
/// first one is reported); a 501 means the product is absent and costs
/// nothing; any other failure is skipped and makes the result incomplete.
pub fn collect_results<T>(tasks: Vec<(String, Result<Vec<T>, FetchError>)>) -> (r: Result<
    Collected<T>,
    Denied,
>)
    ensures
        match first_denied(tasks@) {
            Some(i) => r matches Err(d) && d.label == tasks@[i].0 && tasks@[i].1 == Err::<
                Vec<T>,
                FetchError,
            >(d.error),
            None => r matches Ok(c) && c.items@ == answered_items(tasks@) && c.skipped@
                == skipped_calls(tasks@) && c.complete == (skipped_calls(tasks@).len() == 0),
        },
{
    let ghost all = tasks@;
    let mut rest = tasks;
    let mut items: Vec<T> = Vec::new();
    let mut skipped: Vec<(String, FetchError)> = Vec::new();
    let ghost mut k: int = 0;
    while rest.len() > 0
        invariant
            0 <= k <= all.len(),
            all == tasks@,
            rest@ == all.subrange(k, all.len() as int),
            first_denied(all.subrange(0, k)) is None,
            items@ == answered_items(all.subrange(0, k)),
            skipped@ == skipped_calls(all.subrange(0, k)),
        decreases rest@.len(),
    {
        let (label, result) = rest.remove(0);
        let ghost t = all[k];
        assert(t == (label, result));
        let ghost pre = all.subrange(0, k + 1);
        assert(pre.drop_last() =~= all.subrange(0, k));
        assert(pre.last() == t);
        match result {
            Ok(v) => {
                let mut v = v;
                items.append(&mut v);
            },
            Err(error) => {
                let f = classify(&error);
                if f == Failure::Denied {
                    proof {
                        assert(first_denied(pre) == Some(k));
                        lemma_first_denied_prefix(all, k + 1);
                    }
                    return Err(Denied { label, error });
                } else if f == Failure::Transient {
                    skipped.push((label, error));
                }
            },
        }
        proof {
            k = k + 1;
        }
        assert(rest@ =~= all.subrange(k, all.len() as int));
    }
    assert(all.subrange(0, k) =~= all);
    let complete = skipped.len() == 0;
    Ok(Collected { items, complete, skipped })
}

proof fn lemma_first_denied_prefix<T>(ts: Seq<(String, Result<Vec<T>, FetchError>)>, n: int)
    requires
        0 <= n <= ts.len(),
        first_denied(ts.subrange(0, n)) is Some,
    ensures
        first_denied(ts) == first_denied(ts.subrange(0, n)),
    decreases ts.len() - n,
{
    if n < ts.len() {
        assert(ts.subrange(0, n + 1).drop_last() =~= ts.subrange(0, n));
        lemma_first_denied_prefix(ts, n + 1);
    } else {
        assert(ts.subrange(0, n) =~= ts);
    }
}

/// The configuration declares no zone or no region.
#[derive(Debug)]
pub struct NoLocations;

impl NoLocations {
    pub fn message(&self) -> (r: &'static str)
        ensures
            r@ == "config must declare at least one scaleway zone and region"@,
    {
        "config must declare at least one scaleway zone and region"
    }
}

/// A fetch needs at least one zone and one region.
pub fn check_locations(locations: &ScalewayLocations) -> (r: Result<(), NoLocations>)
    ensures
        r is Ok <==> (locations.zones@.len() > 0 && locations.regions@.len() > 0),
{
    if locations.zones.len() == 0 || locations.regions.len() == 0 {
        Err(NoLocations)
    } else {
        Ok(())
    }
}

/// A fetched inventory and whether every zone answered; partial results
/// must not be cached, or one network blip poisons every command for the
/// cache TTL.
#[derive(Debug)]
pub struct Fetched {
    pub inventory: Inventory,
    pub complete: bool,
}

/// Nothing was fetched and something failed.
#[derive(Debug)]
pub struct AllFailed;

impl AllFailed {
    pub fn message(&self) -> (r: &'static str)
        ensures
            r@ == "inventory fetch failed for every zone"@,
    {
        "inventory fetch failed for every zone"
    }
}

/// The address listed for a server name: the first pair with that name.
pub open spec fn address_for(ips: Seq<(String, String)>, name: Seq<char>) -> Option<String>
    decreases ips.len(),
{
    if ips.len() == 0 {
        None
    } else if ips[0].0@ == name {
        Some(ips[0].1)
    } else {
        address_for(ips.subrange(1, ips.len() as int), name)
    }
}

/// A resource as the inventory keeps it: baremetal servers take their
/// private address from IPAM (none when IPAM lists none).
pub open spec fn with_private_ip(r: Resource, ips: Seq<(String, String)>) -> Resource {
    if r.kind == ResourceKind::Baremetal {
        Resource { endpoint_ip: address_for(ips, r.name@), ..r }
    } else {
        r
    }
}

/// The resources as the inventory keeps them, in fetch order.
pub open spec fn with_private_ips(rs: Seq<Resource>, ips: Seq<(String, String)>) -> Seq<Resource> {
    rs.map_values(|x: Resource| with_private_ip(x, ips))
}

fn lookup_address(ips: &Vec<(String, String)>, name: &String) -> (r: Option<String>)
    ensures
        r == address_for(ips@, name@),
{
    let mut i: usize = 0;
    assert(ips@.subrange(0, ips@.len() as int) =~= ips@);
    while i < ips.len()
        invariant
            i <= ips@.len(),
            address_for(ips@, name@) == address_for(ips@.subrange(i as int, ips@.len() as int), name@),
        decreases ips@.len() - i,
    {
        let ghost rest = ips@.subrange(i as int, ips@.len() as int);
        assert(rest[0] == ips@[i as int]);
        if ips[i].0 == *name {
            return Some(ips[i].1.clone());
        }
        assert(rest.subrange(1, rest.len() as int) =~= ips@.subrange(i + 1, ips@.len() as int));
        i = i + 1;
    }
    None
}

/// Only baremetal servers take an address from IPAM: after an arrangement
/// of the assembled resources, every resource of another kind (a managed
/// database, a Redis cluster, a load balancer, an instance) is one of the
/// fetched resources, unchanged, and every fetched one of those is there;
/// every baremetal server is a fetched baremetal server whose endpoint is
/// the first IPAM address listed under its name.
pub proof fn lemma_only_baremetal_takes_private_ip(
    resources: Seq<Resource>,
    ips: Seq<(String, String)>,
    out: Seq<Resource>,
    p: Seq<int>,
)
    requires
        stable_arrangement(p, with_private_ips(resources, ips), out),
        out.to_multiset() == with_private_ips(resources, ips).to_multiset(),
    ensures
        forall|j: int|
            0 <= j < out.len() && (#[trigger] out[j]).kind != ResourceKind::Baremetal
                ==> resources.contains(out[j]),
        forall|i: int|
            0 <= i < resources.len() && (#[trigger] resources[i]).kind != ResourceKind::Baremetal
                ==> out.contains(resources[i]),
        forall|j: int|
            0 <= j < out.len() && (#[trigger] out[j]).kind == ResourceKind::Baremetal
                ==> exists|i: int|
                0 <= i < resources.len() && resources[i].kind == ResourceKind::Baremetal
                    && out[j] == (Resource {
                    endpoint_ip: address_for(ips, resources[i].name@),
                    ..resources[i]
                }),
{
    broadcast use vstd::seq_lib::group_to_multiset_ensures;
    let w = with_private_ips(resources, ips);
    assert forall|j: int|
        0 <= j < out.len() && (#[trigger] out[j]).kind != ResourceKind::Baremetal implies resources.contains(
        out[j],
    ) by {
        let i = p[j];
        assert(out[j] == w[i]);
        assert(w[i] == with_private_ip(resources[i], ips));
        assert(resources[i] == out[j]);
    }
    assert forall|i: int|
        0 <= i < resources.len() && (#[trigger] resources[i]).kind
            != ResourceKind::Baremetal implies out.contains(resources[i]) by {
        assert(w[i] == resources[i]);
        assert(w.contains(resources[i]));
        assert(w.to_multiset().count(resources[i]) > 0);
    }
    assert forall|j: int|
        0 <= j < out.len() && (#[trigger] out[j]).kind == ResourceKind::Baremetal implies exists|i: int|
        0 <= i < resources.len() && resources[i].kind == ResourceKind::Baremetal && out[j] == (
        Resource { endpoint_ip: address_for(ips, resources[i].name@), ..resources[i] }) by {
        let i = p[j];
        assert(out[j] == w[i]);
        assert(w[i] == with_private_ip(resources[i], ips));
    }
}

/// Assembles the inventory: baremetal servers get their private address,
/// resources are sorted by name (equal names keeping their order), the
/// bastion is the first one found. Fails when nothing was fetched and some
/// call failed.
pub fn finish_inventory(
    resources: Vec<Resource>,
    private_ips: Vec<(String, String)>,
    bastions: Vec<Bastion>,
    complete: bool,
) -> (r: Result<Fetched, AllFailed>)
    ensures
        resources@.len() == 0 && !complete ==> r is Err,
        !(resources@.len() == 0 && !complete) ==> (r matches Ok(f) && f.complete == complete
            && f.inventory.bastion == (if bastions@.len() > 0 {
            Some(bastions@[0])
        } else {
            None
        }) && sorted_by_name(f.inventory.resources@) && f.inventory.resources@.to_multiset()
            == with_private_ips(resources@, private_ips@).to_multiset() && exists|p: Seq<int>|
            stable_arrangement(p, with_private_ips(resources@, private_ips@), f.inventory.resources@)),
        r matches Ok(f) ==> forall|j: int|
            0 <= j < f.inventory.resources@.len() && (#[trigger] f.inventory.resources@[j]).kind
                != ResourceKind::Baremetal ==> resources@.contains(f.inventory.resources@[j]),
        r matches Ok(f) ==> forall|i: int|
            0 <= i < resources@.len() && (#[trigger] resources@[i]).kind != ResourceKind::Baremetal
                ==> f.inventory.resources@.contains(resources@[i]),
        r matches Ok(f) ==> forall|j: int|
            0 <= j < f.inventory.resources@.len() && (#[trigger] f.inventory.resources@[j]).kind
                == ResourceKind::Baremetal ==> exists|i: int|
                0 <= i < resources@.len() && resources@[i].kind == ResourceKind::Baremetal
                    && f.inventory.resources@[j] == (Resource {
                    endpoint_ip: address_for(private_ips@, resources@[i].name@),
                    ..resources@[i]
                }),
{
    if resources.len() == 0 && !complete {
        return Err(AllFailed);
    }
    let ghost all = resources@;
    let mut rest = resources;
    let mut placed: Vec<Resource> = Vec::new();
    let ghost mut k: int = 0;
    while rest.len() > 0
        invariant
            0 <= k <= all.len(),
            rest@ == all.subrange(k, all.len() as int),
            placed@ == all.subrange(0, k).map_values(|x: Resource| with_private_ip(x, private_ips@)),
        decreases rest@.len(),
    {
        let mut r = rest.remove(0);
        assert(r == all[k]);
        if r.kind == ResourceKind::Baremetal {
            r.endpoint_ip = lookup_address(&private_ips, &r.name);
        }
        let ghost before = placed@;
        placed.push(r);
        assert(placed@ =~= all.subrange(0, k + 1).map_values(
            |x: Resource| with_private_ip(x, private_ips@),
        ));
        proof {
            k = k + 1;
        }
        assert(rest@ =~= all.subrange(k, all.len() as int));
    }
    assert(all.subrange(0, k) =~= all);
    let sorted = sort_by_name(placed);
    proof {
        assert(placed@ == with_private_ips(all, private_ips@));
        let p = choose|p: Seq<int>| stable_arrangement(p, placed@, sorted@);
        assert(stable_arrangement(p, with_private_ips(all, private_ips@), sorted@));
        lemma_only_baremetal_takes_private_ip(all, private_ips@, sorted@, p);
    }
    let mut bastions = bastions;
    let bastion = if bastions.len() > 0 {
        Some(bastions.remove(0))
    } else {
        None
    };
    Ok(Fetched { inventory: Inventory::new(sorted, bastion), complete })
}

} // verus!
