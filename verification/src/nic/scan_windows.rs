//! Interfaces as Windows lists them: `ipconfig`, the interface and route tables, and `netsh wlan`.
use vstd::prelude::*;
use vstd::string::*;
use crate::nic::classify::{classify_role, is_wifi_name, rank_of, role_of, wifi_name, ROLE_COUNT};
use crate::nic::host::{ipv4_match, prefix_matches};
use crate::protocol::{NicInfo, NicInfoView};
use crate::text::{
    alike, cat2, cat7, decimal, decimal_text, group_views, is_alike, opt_text, or_empty, same,
    text_or_empty, texts, told, views,
};

verus! {

// ---------------------------------------------------------------------------
// The interface table
// ---------------------------------------------------------------------------

/// A row of the interface table.
#[derive(Debug, Default)]
pub struct IfRow {
    pub alias: String,
    pub desc: String,
    pub ifindex: u32,
    pub speed_mbps: u64,
    pub is_wifi: bool,
    pub in_octets: u64,
    pub out_octets: u64,
}

/// What an [`IfRow`] holds.
pub ghost struct IfRowView {
    pub alias: Seq<char>,
    pub desc: Seq<char>,
    pub ifindex: u32,
    pub speed_mbps: u64,
    pub is_wifi: bool,
    pub in_octets: u64,
    pub out_octets: u64,
}

impl View for IfRow {
    type V = IfRowView;

    open spec fn view(&self) -> IfRowView {
        IfRowView {
            alias: self.alias@,
            desc: self.desc@,
            ifindex: self.ifindex,
            speed_mbps: self.speed_mbps,
            is_wifi: self.is_wifi,
            in_octets: self.in_octets,
            out_octets: self.out_octets,
        }
    }
}

/// A row as the system gives it.
#[derive(Debug, Default)]
pub struct RawRow {
    pub alias: Vec<u16>,
    pub desc: Vec<u16>,
    pub ifindex: u32,
    pub if_type: u32,
    /// Bits in a second.
    pub receive_speed: u64,
    pub transmit_speed: u64,
    pub in_octets: u64,
    pub out_octets: u64,
}

/// The text that UTF-16 units spell.
pub uninterp spec fn utf16_text(units: Seq<u16>) -> Seq<char>;

/// Whether each unit is a character by itself: it is below the surrogates.
pub open spec fn one_each(units: Seq<u16>) -> bool {
    forall|i: int| 0 <= i < units.len() ==> #[trigger] units[i] < 0xd800
}

/// The text that UTF-16 units spell: one character each, where there are no surrogates.
pub open spec fn spelled(units: Seq<u16>) -> Seq<char> {
    if one_each(units) {
        Seq::new(units.len(), |i: int| units[i] as char)
    } else {
        utf16_text(units)
    }
}

/// `String::from_utf16_lossy`: the text that UTF-16 units spell. A unit below the surrogates is the
/// character of that number. What pairs of surrogates spell, and what stands for units that spell
/// nothing, is not stated.
#[verifier::external_body]
fn text_from_utf16(units: &[u16]) -> (r: String)
    ensures
        r@ == if one_each(units@) {
            Seq::new(units@.len(), |i: int| units@[i] as char)
        } else {
            utf16_text(units@)
        },
{
    String::from_utf16_lossy(units)
}

/// Where the first zero stands from index `i` on; the length where there is none.
pub open spec fn zero_at(units: Seq<u16>, i: int) -> int
    decreases units.len() - i,
{
    if i < 0 || i >= units.len() {
        units.len() as int
    } else if units[i] == 0 {
        i
    } else {
        zero_at(units, i + 1)
    }
}

/// The text in a buffer that ends at the first zero.
pub open spec fn text_to_zero(units: Seq<u16>) -> Seq<char> {
    spelled(units.take(zero_at(units, 0)))
}

/// The text in a buffer that ends at the first zero.
pub fn u16z(units: &Vec<u16>) -> (r: String)
    ensures
        r@ == text_to_zero(units@),
{
    let mut text: Vec<u16> = Vec::new();
    let mut i: usize = 0;
    while i < units.len() && units[i] != 0
        invariant
            i <= units@.len(),
            text@ == units@.take(i as int),
            zero_at(units@, 0) == zero_at(units@, i as int),
        decreases units@.len() - i,
    {
        text.push(units[i]);
        assert(units@.take(i as int).push(units@[i as int]) =~= units@.take(i + 1));
        i += 1;
    }
    text_from_utf16(text.as_slice())
}

/// The speed in megabits: the higher of both directions; none where a driver reports nonsense.
pub open spec fn speed_of_bits(receive: u64, transmit: u64) -> u64 {
    let bits = if receive > transmit {
        receive
    } else {
        transmit
    };
    if 0 < bits < 1_000_000_000_000 {
        bits / 1_000_000
    } else {
        0
    }
}

/// A row of the table, from what the system gives.
pub open spec fn row_of(raw: RawRow) -> IfRowView {
    IfRowView {
        alias: text_to_zero(raw.alias@),
        desc: text_to_zero(raw.desc@),
        ifindex: raw.ifindex,
        speed_mbps: speed_of_bits(raw.receive_speed, raw.transmit_speed),
        is_wifi: raw.if_type == 71,
        in_octets: raw.in_octets,
        out_octets: raw.out_octets,
    }
}

/// The rows of the table.
pub fn if_rows(raw: &Vec<RawRow>) -> (r: Vec<IfRow>)
    ensures
        r@.len() == raw@.len(),
        forall|i: int| 0 <= i < raw@.len() ==> (#[trigger] r@[i])@ == row_of(raw@[i]),
{
    let mut r: Vec<IfRow> = Vec::new();
    let mut i: usize = 0;
    while i < raw.len()
        invariant
            i <= raw@.len(),
            r@.len() == i,
            forall|k: int| 0 <= k < i ==> (#[trigger] r@[k])@ == row_of(raw@[k]),
        decreases raw@.len() - i,
    {
        let x = &raw[i];
        let bits: u64 = if x.receive_speed > x.transmit_speed {
            x.receive_speed
        } else {
            x.transmit_speed
        };
        let speed: u64 = if bits > 0 && bits < 1_000_000_000_000 {
            bits / 1_000_000
        } else {
            0
        };
        r.push(
            IfRow {
                alias: u16z(&x.alias),
                desc: u16z(&x.desc),
                ifindex: x.ifindex,
                speed_mbps: speed,
                is_wifi: x.if_type == 71,
                in_octets: x.in_octets,
                out_octets: x.out_octets,
            },
        );
        i += 1;
    }
    r
}

/// Where the first row of a name stands, from index `i` on; the length where there is none.
pub open spec fn exact_row(rows: Seq<IfRowView>, name: Seq<char>, i: int) -> int
    decreases rows.len() - i,
{
    if i < 0 || i >= rows.len() {
        rows.len() as int
    } else if rows[i].alias == name {
        i
    } else {
        exact_row(rows, name, i + 1)
    }
}

/// Where the first row stands whose name differs in case at most, from index `i` on; the length where
/// there is none.
pub open spec fn alike_row(rows: Seq<IfRowView>, name: Seq<char>, i: int) -> int
    decreases rows.len() - i,
{
    if i < 0 || i >= rows.len() {
        rows.len() as int
    } else if alike(rows[i].alias, name) {
        i
    } else {
        alike_row(rows, name, i + 1)
    }
}

/// Where the last row of a name stands among the first `n`; the length where there is none.
pub open spec fn last_row(rows: Seq<IfRowView>, name: Seq<char>, n: int) -> int
    decreases n,
{
    if n <= 0 || n > rows.len() {
        rows.len() as int
    } else if rows[n - 1].alias == name {
        n - 1
    } else {
        last_row(rows, name, n - 1)
    }
}

fn find_exact_row(rows: &Vec<IfRow>, name: &str) -> (r: usize)
    ensures
        r == exact_row(views(rows@), name@, 0),
        r <= rows@.len(),
{
    let ghost all = views(rows@);
    assert(all.len() == rows@.len());
    let mut i: usize = 0;
    while i < rows.len()
        invariant
            i <= rows@.len(),
            all == views(rows@),
            all.len() == rows@.len(),
            exact_row(all, name@, 0) == exact_row(all, name@, i as int),
        decreases rows@.len() - i,
    {
        assert(all[i as int] == rows@[i as int]@);
        if same(rows[i].alias.as_str(), name) {
            return i;
        }
        i += 1;
    }
    i
}

fn find_alike_row(rows: &Vec<IfRow>, name: &str) -> (r: usize)
    ensures
        r == alike_row(views(rows@), name@, 0),
        r <= rows@.len(),
{
    let ghost all = views(rows@);
    assert(all.len() == rows@.len());
    let mut i: usize = 0;
    while i < rows.len()
        invariant
            i <= rows@.len(),
            all == views(rows@),
            all.len() == rows@.len(),
            alike_row(all, name@, 0) == alike_row(all, name@, i as int),
        decreases rows@.len() - i,
    {
        assert(all[i as int] == rows@[i as int]@);
        if is_alike(rows[i].alias.as_str(), name) {
            return i;
        }
        i += 1;
    }
    i
}

fn find_last_row(rows: &Vec<IfRow>, name: &str) -> (r: usize)
    ensures
        r == last_row(views(rows@), name@, rows@.len() as int),
        r <= rows@.len(),
{
    let ghost all = views(rows@);
    assert(all.len() == rows@.len());
    let mut n: usize = rows.len();
    while n > 0
        invariant
            n <= rows@.len(),
            all == views(rows@),
            all.len() == rows@.len(),
            last_row(all, name@, rows@.len() as int) == last_row(all, name@, n as int),
        decreases n,
    {
        assert(all[n - 1] == rows@[n - 1]@);
        if same(rows[n - 1].alias.as_str(), name) {
            return n - 1;
        }
        n -= 1;
    }
    rows.len()
}

/// The counters of an interface: by its exact name, else by one that differs in case at most.
pub open spec fn counters_told(rows: Seq<IfRowView>, iface: Seq<char>) -> Result<
    (u64, u64),
    Seq<char>,
> {
    let exact = exact_row(rows, iface, 0);
    let at = if exact < rows.len() {
        exact
    } else {
        alike_row(rows, iface, 0)
    };
    if at < rows.len() {
        Ok((rows[at].in_octets, rows[at].out_octets))
    } else {
        Err("接口不存在: "@ + iface)
    }
}

/// The bytes that an interface received and sent, in the rows of the table.
pub fn counters(rows: &Vec<IfRow>, iface: &str) -> (r: Result<(u64, u64), String>)
    ensures
        told(r) == counters_told(views(rows@), iface@),
{
    let ghost all = views(rows@);
    assert(all.len() == rows@.len());
    let exact: usize = find_exact_row(rows, iface);
    let at: usize = if exact < rows.len() {
        exact
    } else {
        find_alike_row(rows, iface)
    };
    if at < rows.len() {
        assert(all[at as int] == rows@[at as int]@);
        Ok((rows[at].in_octets, rows[at].out_octets))
    } else {
        Err(cat2("接口不存在: ", iface))
    }
}

// ---------------------------------------------------------------------------
// The route table
// ---------------------------------------------------------------------------

/// A route. Addresses are numbers whose highest byte is the first of the address.
#[derive(Clone, Copy, Debug, Default, PartialEq, Eq, Structural)]
pub struct Route {
    pub ifindex: u32,
    pub metric: u32,
    pub destination: u32,
    pub gateway: u32,
}

/// A row of the route table.
#[derive(Clone, Copy, Debug, Default, PartialEq, Eq, Structural)]
pub struct ForwardRow {
    pub prefix_length: u8,
    pub route: Route,
}

/// Whether a route is a default one with a gateway.
pub open spec fn is_default_route(route: Route) -> bool {
    route.ifindex != 0 && route.destination == 0 && route.gateway != 0
}

/// The cheapest default route of an interface among the first `n`, the first among equals.
pub open spec fn cheapest(routes: Seq<Route>, ifindex: u32, n: int) -> Option<Route>
    decreases n,
{
    if n <= 0 {
        None
    } else {
        let before = cheapest(routes, ifindex, n - 1);
        let route = routes[n - 1];
        if !is_default_route(route) || route.ifindex != ifindex {
            before
        } else {
            match before {
                Some(b) => if route.metric < b.metric {
                    Some(route)
                } else {
                    before
                },
                None => Some(route),
            }
        }
    }
}

/// An address in its usual form.
pub open spec fn dotted(address: u32) -> Seq<char> {
    decimal((address / 16_777_216) as nat) + "."@ + decimal((address / 65_536 % 256) as nat) + "."@
        + decimal((address / 256 % 256) as nat) + "."@ + decimal((address % 256) as nat)
}

/// An address in its usual form.
pub fn dotted_text(address: u32) -> (r: String)
    ensures
        r@ == dotted(address),
{
    let a = decimal_text((address / 16_777_216) as u64);
    let b = decimal_text((address / 65_536 % 256) as u64);
    let c = decimal_text((address / 256 % 256) as u64);
    let d = decimal_text((address % 256) as u64);
    cat7(a.as_str(), ".", b.as_str(), ".", c.as_str(), ".", d.as_str())
}

/// The cheapest default route of an interface.
pub fn cheapest_route(routes: &Vec<Route>, ifindex: u32) -> (r: Option<Route>)
    ensures
        r == cheapest(routes@, ifindex, routes@.len() as int),
{
    let mut best: Option<Route> = None;
    let mut i: usize = 0;
    while i < routes.len()
        invariant
            i <= routes@.len(),
            best == cheapest(routes@, ifindex, i as int),
        decreases routes@.len() - i,
    {
        let route = routes[i];
        if route.ifindex != 0 && route.destination == 0 && route.gateway != 0 && route.ifindex
            == ifindex {
            match best {
                Some(b) => {
                    if route.metric < b.metric {
                        best = Some(route);
                    }
                },
                None => {
                    best = Some(route);
                },
            }
        }
        i += 1;
    }
    best
}

/// The default gateway of an interface.
#[derive(Debug, Default)]
pub struct DefaultGateway {
    pub ifindex: u32,
    pub gateway: String,
}

/// The default gateway listed for an interface, from index `i` on; `None` where there is none.
pub open spec fn listed_gateway(list: Seq<DefaultGateway>, ifindex: u32, i: int) -> Option<
    Seq<char>,
>
    decreases list.len() - i,
{
    if i < 0 || i >= list.len() {
        None
    } else if list[i].ifindex == ifindex {
        Some(list[i].gateway@)
    } else {
        listed_gateway(list, ifindex, i + 1)
    }
}

/// The default gateway listed for an interface; `None` where there is none.
pub fn find_default_gateway(list: &Vec<DefaultGateway>, ifindex: u32) -> (r: Option<String>)
    ensures
        opt_text(r) == listed_gateway(list@, ifindex, 0),
{
    let mut i: usize = 0;
    while i < list.len()
        invariant
            i <= list@.len(),
            listed_gateway(list@, ifindex, 0) == listed_gateway(list@, ifindex, i as int),
        decreases list@.len() - i,
    {
        if list[i].ifindex == ifindex {
            return Some(list[i].gateway.clone());
        }
        i += 1;
    }
    None
}

proof fn lemma_listed_push(list: Seq<DefaultGateway>, x: DefaultGateway, ifindex: u32, i: int)
    requires
        0 <= i <= list.len(),
    ensures
        listed_gateway(list.push(x), ifindex, i) == match listed_gateway(list, ifindex, i) {
            Some(g) => Some(g),
            None => if x.ifindex == ifindex {
                Some(x.gateway@)
            } else {
                None
            },
        },
    decreases list.len() - i,
{
    let all = list.push(x);
    if i < list.len() {
        assert(all[i] == list[i]);
        lemma_listed_push(list, x, ifindex, i + 1);
    } else {
        assert(all[i] == x);
        assert(listed_gateway(all, ifindex, i + 1) is None);
    }
}

proof fn lemma_cheapest_is_of(routes: Seq<Route>, ifindex: u32, n: int)
    requires
        0 <= n <= routes.len(),
    ensures
        match cheapest(routes, ifindex, n) {
            Some(route) => route.ifindex == ifindex && is_default_route(route) && exists|k: int|
                0 <= k < n && #[trigger] routes[k] == route,
            None => forall|k: int|
                0 <= k < n ==> !((#[trigger] routes[k]).ifindex == ifindex && is_default_route(
                    routes[k],
                )),
        },
    decreases n,
{
    if n > 0 {
        lemma_cheapest_is_of(routes, ifindex, n - 1);
        let route = routes[n - 1];
        if let Some(b) = cheapest(routes, ifindex, n - 1) {
            let k = choose|k: int| 0 <= k < n - 1 && #[trigger] routes[k] == b;
            assert(0 <= k < n && routes[k] == b);
        }
        assert(routes[n - 1] == route);
    }
}

/// The default gateway of an interface is that of one of its default routes, and none of them is
/// cheaper; there is one exactly where there is such a route.
pub proof fn lemma_gateway_is_cheapest(routes: Seq<Route>, ifindex: u32, k: int)
    requires
        0 <= k < routes.len(),
        routes[k].ifindex == ifindex,
        is_default_route(routes[k]),
    ensures
        cheapest(routes, ifindex, routes.len() as int) matches Some(route) && route.metric
            <= routes[k].metric && route.ifindex == ifindex && is_default_route(route)
            && routes.contains(route),
{
    lemma_cheapest_is_of(routes, ifindex, routes.len() as int);
    lemma_cheapest_metric(routes, ifindex, routes.len() as int, k);
}

proof fn lemma_cheapest_metric(routes: Seq<Route>, ifindex: u32, n: int, k: int)
    requires
        0 <= k < n <= routes.len(),
        routes[k].ifindex == ifindex,
        is_default_route(routes[k]),
    ensures
        cheapest(routes, ifindex, n) matches Some(route) && route.metric <= routes[k].metric,
    decreases n,
{
    if k < n - 1 {
        lemma_cheapest_metric(routes, ifindex, n - 1, k);
    }
}

/// The default gateways of all interfaces, that of the cheapest route for each.
pub fn select_default_gateways_v4(routes: &Vec<Route>) -> (r: Vec<DefaultGateway>)
    ensures
        forall|ifindex: u32| #[trigger]
            listed_gateway(r@, ifindex, 0) == match cheapest(
                routes@,
                ifindex,
                routes@.len() as int,
            ) {
                Some(route) => Some(dotted(route.gateway)),
                None => None,
            },
{
    let mut r: Vec<DefaultGateway> = Vec::new();
    let ghost all = routes@;
    let ghost len = routes@.len() as int;
    let mut i: usize = 0;
    assert forall|ifindex: u32| #[trigger] listed_gateway(r@, ifindex, 0) is None by {}
    while i < routes.len()
        invariant
            i <= routes@.len(),
            all == routes@,
            len == routes@.len(),
            forall|ifindex: u32| #[trigger]
                listed_gateway(r@, ifindex, 0) == if exists|k: int|
                    0 <= k < i && (#[trigger] all[k]).ifindex == ifindex && is_default_route(
                        all[k],
                    ) {
                    match cheapest(all, ifindex, len) {
                        Some(route) => Some(dotted(route.gateway)),
                        None => None,
                    }
                } else {
                    None
                },
        decreases routes@.len() - i,
    {
        let route = routes[i];
        let ghost before = r@;
        if route.ifindex != 0 && route.destination == 0 && route.gateway != 0 {
            assert(is_default_route(all[i as int]));
            if find_default_gateway(&r, route.ifindex).is_none() {
                proof {
                    lemma_gateway_is_cheapest(all, route.ifindex, i as int);
                }
                if let Some(best) = cheapest_route(routes, route.ifindex) {
                    let x = DefaultGateway {
                        ifindex: route.ifindex,
                        gateway: dotted_text(best.gateway),
                    };
                    proof {
                        assert forall|ifindex: u32| #[trigger]
                            listed_gateway(before.push(x), ifindex, 0) == match listed_gateway(
                                before,
                                ifindex,
                                0,
                            ) {
                                Some(g) => Some(g),
                                None => if x.ifindex == ifindex {
                                    Some(x.gateway@)
                                } else {
                                    None
                                },
                            } by {
                            lemma_listed_push(before, x, ifindex, 0);
                        }
                    }
                    r.push(x);
                }
            }
        }
        proof {
            assert forall|ifindex: u32| #[trigger] listed_gateway(r@, ifindex, 0) == if exists|
                k: int,
            |
                0 <= k < i + 1 && (#[trigger] all[k]).ifindex == ifindex && is_default_route(
                    all[k],
                ) {
                match cheapest(all, ifindex, len) {
                    Some(route) => Some(dotted(route.gateway)),
                    None => None,
                }
            } else {
                None
            } by {
                let was = listed_gateway(before, ifindex, 0);
                if exists|k: int|
                    0 <= k < i && (#[trigger] all[k]).ifindex == ifindex && is_default_route(
                        all[k],
                    ) {
                    let k = choose|k: int|
                        0 <= k < i && (#[trigger] all[k]).ifindex == ifindex && is_default_route(
                            all[k],
                        );
                    assert(0 <= k < i + 1 && all[k].ifindex == ifindex);
                    lemma_gateway_is_cheapest(all, ifindex, k);
                } else if all[i as int].ifindex == ifindex && is_default_route(all[i as int]) {
                    assert(0 <= i < i + 1);
                }
            }
        }
        i += 1;
    }
    proof {
        assert forall|ifindex: u32| #[trigger] listed_gateway(r@, ifindex, 0) == match cheapest(
            routes@,
            ifindex,
            routes@.len() as int,
        ) {
            Some(route) => Some(dotted(route.gateway)),
            None => None,
        } by {
            lemma_cheapest_is_of(all, ifindex, len);
        }
    }
    r
}

/// The routes among the first `n` rows whose prefix has no length.
pub open spec fn routes_to(rows: Seq<ForwardRow>, n: int) -> Seq<Route>
    decreases n,
{
    if n <= 0 {
        Seq::empty()
    } else if rows[n - 1].prefix_length == 0 {
        routes_to(rows, n - 1).push(rows[n - 1].route)
    } else {
        routes_to(rows, n - 1)
    }
}

/// The default gateways in the rows of the route table.
pub fn default_gateways_v4(rows: &Vec<ForwardRow>) -> (r: Vec<DefaultGateway>)
    ensures
        forall|ifindex: u32| #[trigger]
            listed_gateway(r@, ifindex, 0) == match cheapest(
                routes_to(rows@, rows@.len() as int),
                ifindex,
                routes_to(rows@, rows@.len() as int).len() as int,
            ) {
                Some(route) => Some(dotted(route.gateway)),
                None => None,
            },
{
    let mut routes: Vec<Route> = Vec::new();
    let mut i: usize = 0;
    while i < rows.len()
        invariant
            i <= rows@.len(),
            routes@ == routes_to(rows@, i as int),
        decreases rows@.len() - i,
    {
        if rows[i].prefix_length == 0 {
            routes.push(rows[i].route);
        }
        i += 1;
    }
    select_default_gateways_v4(&routes)
}

// ---------------------------------------------------------------------------
// The scan
// ---------------------------------------------------------------------------

/// An adapter as `ipconfig` shows it.
#[derive(Debug, Default)]
pub struct Adapter {
    pub name: String,
    pub disconnected: bool,
    pub ipv4: Option<String>,
    pub ipv6_ll: Option<String>,
    pub ipv6_global: Option<String>,
    pub zone: String,
}

/// A wireless interface as `netsh wlan` shows it.
#[derive(Debug, Default)]
pub struct Wlan {
    pub name: String,
    pub connected: bool,
    pub band: String,
}

/// The row of an adapter: the last of its exact name, else the first that differs in case at most;
/// the length where there is none.
pub open spec fn row_for(rows: Seq<IfRowView>, name: Seq<char>) -> int {
    let exact = last_row(rows, name, rows.len() as int);
    if exact < rows.len() {
        exact
    } else {
        alike_row(rows, name, 0)
    }
}

/// Where the first wireless interface of a name stands, from index `i` on; the length where there is
/// none.
pub open spec fn wlan_for(wlans: Seq<Wlan>, name: Seq<char>, i: int) -> int
    decreases wlans.len() - i,
{
    if i < 0 || i >= wlans.len() {
        wlans.len() as int
    } else if wlans[i].name@ == name {
        i
    } else {
        wlan_for(wlans, name, i + 1)
    }
}

fn find_wlan(wlans: &Vec<Wlan>, name: &str) -> (r: usize)
    ensures
        r == wlan_for(wlans@, name@, 0),
        r <= wlans@.len(),
{
    let mut i: usize = 0;
    while i < wlans.len()
        invariant
            i <= wlans@.len(),
            wlan_for(wlans@, name@, 0) == wlan_for(wlans@, name@, i as int),
        decreases wlans@.len() - i,
    {
        if same(wlans[i].name.as_str(), name) {
            return i;
        }
        i += 1;
    }
    i
}

/// The interface that an adapter makes; `None` where it is not connected, has no address that the
/// prefixes admit, or is a wireless one that is not connected.
pub open spec fn nic_of_adapter(
    adapter: Adapter,
    rows: Seq<IfRowView>,
    wlans: Seq<Wlan>,
    gateways: Seq<DefaultGateway>,
    prefixes: Seq<Seq<char>>,
) -> Option<NicInfoView> {
    let name = adapter.name@;
    let at = row_for(rows, name);
    let has_row = at < rows.len();
    let w = wlan_for(wlans, name, 0);
    let has_wlan = w < wlans.len();
    let is_wifi = (has_row && rows[at].is_wifi) || wifi_name(name) || has_wlan;
    let band = if has_wlan {
        wlans[w].band@
    } else {
        Seq::empty()
    };
    let speed = if has_row {
        rows[at].speed_mbps
    } else {
        0
    };
    let desc = if has_row {
        rows[at].desc
    } else {
        Seq::empty()
    };
    let ifindex = if has_row {
        rows[at].ifindex
    } else {
        0
    };
    match adapter.ipv4 {
        Some(ip) => if adapter.disconnected || !prefix_matches(ip@, prefixes) || (has_wlan
            && !wlans[w].connected) {
            None
        } else {
            Some(
                NicInfoView {
                    name,
                    description: desc,
                    role: role_of(desc, speed, is_wifi, band),
                    ipv4: ip@,
                    gateway_v4: or_empty(listed_gateway(gateways, ifindex, 0)),
                    ipv6_ll: or_empty(opt_text(adapter.ipv6_ll)),
                    ipv6_global: or_empty(opt_text(adapter.ipv6_global)),
                    zone: if adapter.zone@.len() > 0 {
                        adapter.zone@
                    } else {
                        decimal(ifindex as nat)
                    },
                    speed_mbps: speed,
                    is_wifi,
                    wifi_band: band,
                    ifindex,
                },
            )
        },
        None => None,
    }
}

/// The interface that an adapter makes.
pub fn nic_from_adapter(
    adapter: &Adapter,
    rows: &Vec<IfRow>,
    wlans: &Vec<Wlan>,
    gateways: &Vec<DefaultGateway>,
    prefixes: &Vec<String>,
) -> (r: Option<NicInfo>)
    ensures
        crate::text::opt_view(r) == nic_of_adapter(
            *adapter,
            views(rows@),
            wlans@,
            gateways@,
            texts(prefixes@),
        ),
{
    let ghost all = views(rows@);
    assert(all.len() == rows@.len());
    if adapter.disconnected {
        return None;
    }
    let ipv4 = match &adapter.ipv4 {
        Some(ip) => ip.clone(),
        None => {
            return None;
        },
    };
    if !ipv4_match(ipv4.as_str(), prefixes) {
        return None;
    }
    let name = adapter.name.as_str();
    let exact: usize = find_last_row(rows, name);
    let at: usize = if exact < rows.len() {
        exact
    } else {
        find_alike_row(rows, name)
    };
    let w: usize = find_wlan(wlans, name);
    let has_wlan = w < wlans.len();
    if has_wlan && !wlans[w].connected {
        return None;
    }
    let band = if has_wlan {
        wlans[w].band.clone()
    } else {
        let r = String::new();
        assert(r@ =~= Seq::<char>::empty());
        r
    };
    let (speed, desc, ifindex, wifi_row) = if at < rows.len() {
        assert(all[at as int] == rows@[at as int]@);
        (rows[at].speed_mbps, rows[at].desc.clone(), rows[at].ifindex, rows[at].is_wifi)
    } else {
        let r = String::new();
        assert(r@ =~= Seq::<char>::empty());
        (0u64, r, 0u32, false)
    };
    let is_wifi = wifi_row || is_wifi_name(name) || has_wlan;
    let zone = if !adapter.zone.as_str().is_empty() {
        adapter.zone.clone()
    } else {
        decimal_text(ifindex as u64)
    };
    let role = classify_role(desc.as_str(), speed, is_wifi, band.as_str());
    let gateway = find_default_gateway(gateways, ifindex);
    Some(
        NicInfo {
            name: adapter.name.clone(),
            description: desc,
            role,
            ipv4,
            gateway_v4: text_or_empty(&gateway),
            ipv6_ll: text_or_empty(&adapter.ipv6_ll),
            ipv6_global: text_or_empty(&adapter.ipv6_global),
            zone,
            speed_mbps: speed,
            is_wifi,
            wifi_band: band,
            ifindex,
        },
    )
}

/// The interfaces that the first `n` adapters make.
pub open spec fn nics_to(
    adapters: Seq<Adapter>,
    rows: Seq<IfRowView>,
    wlans: Seq<Wlan>,
    gateways: Seq<DefaultGateway>,
    prefixes: Seq<Seq<char>>,
    n: int,
) -> Seq<NicInfoView>
    decreases n,
{
    if n <= 0 {
        Seq::empty()
    } else {
        let before = nics_to(adapters, rows, wlans, gateways, prefixes, n - 1);
        match nic_of_adapter(adapters[n - 1], rows, wlans, gateways, prefixes) {
            Some(nic) => before.push(nic),
            None => before,
        }
    }
}

/// The interfaces of a Windows host, from what `ipconfig`, the interface table, the route table and
/// `netsh wlan` show.
pub fn scan_all(
    prefixes: &Vec<String>,
    adapters: &Vec<Adapter>,
    rows: &Vec<IfRow>,
    gateways: &Vec<DefaultGateway>,
    wlans: &Vec<Wlan>,
) -> (r: Vec<NicInfo>)
    ensures
        views(r@) == nics_to(
            adapters@,
            views(rows@),
            wlans@,
            gateways@,
            texts(prefixes@),
            adapters@.len() as int,
        ),
{
    broadcast use group_views;

    let mut r: Vec<NicInfo> = Vec::new();
    let mut i: usize = 0;
    while i < adapters.len()
        invariant
            i <= adapters@.len(),
            views(r@) == nics_to(
                adapters@,
                views(rows@),
                wlans@,
                gateways@,
                texts(prefixes@),
                i as int,
            ),
        decreases adapters@.len() - i,
    {
        match nic_from_adapter(&adapters[i], rows, wlans, gateways, prefixes) {
            Some(nic) => {
                r.push(nic);
            },
            None => {},
        }
        i += 1;
    }
    r
}

/// Every interface that a scan lists is one of an adapter that is connected, has an address that the
/// prefixes admit, and the role that its description, speed and band tell; one that `netsh wlan` shows
/// is on a network.
pub proof fn lemma_scan_lists_only_admitted(
    adapters: Seq<Adapter>,
    rows: Seq<IfRowView>,
    wlans: Seq<Wlan>,
    gateways: Seq<DefaultGateway>,
    prefixes: Seq<Seq<char>>,
    n: int,
    k: int,
)
    requires
        0 <= n <= adapters.len(),
        0 <= k < nics_to(adapters, rows, wlans, gateways, prefixes, n).len(),
    ensures
        ({
            let nic = nics_to(adapters, rows, wlans, gateways, prefixes, n)[k];
            let w = wlan_for(wlans, nic.name, 0);
            &&& prefix_matches(nic.ipv4, prefixes)
            &&& w < wlans.len() ==> wlans[w].connected
            &&& exists|a: int|
                0 <= a < n && (#[trigger] adapters[a]).name@ == nic.name && !adapters[a].disconnected
            &&& nic.role == role_of(nic.description, nic.speed_mbps, nic.is_wifi, nic.wifi_band)
            &&& rank_of(nic.role) < ROLE_COUNT
        }),
    decreases n,
{
    if n > 0 {
        let before = nics_to(adapters, rows, wlans, gateways, prefixes, n - 1);
        if k < before.len() {
            lemma_scan_lists_only_admitted(adapters, rows, wlans, gateways, prefixes, n - 1, k);
        } else {
            assert(adapters[n - 1].name@ == nic_of_adapter(
                adapters[n - 1],
                rows,
                wlans,
                gateways,
                prefixes,
            )->0.name);
        }
    }
}

} // verus!
