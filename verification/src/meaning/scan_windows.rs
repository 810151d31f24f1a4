//! Where each field of an interface comes from that a scan lists on Windows.
use vstd::prelude::*;
use vstd::string::*;
use crate::nic::classify::{role_of, wifi_name};
use crate::nic::host::prefix_matches;
use crate::nic::scan_windows::{
    alike_row, counters_told, dotted, exact_row, last_row, listed_gateway, nic_of_adapter, nics_to,
    routes_to, row_for, row_of, text_to_zero, wlan_for, Adapter, DefaultGateway, ForwardRow,
    IfRowView, RawRow, Wlan,
};
use crate::protocol::NicInfoView;
use crate::text::{alike, decimal};

verus! {

/// `s` is what an optional text holds, and empty where there is none.
pub open spec fn holds(given: Option<String>, s: Seq<char>) -> bool {
    match given {
        Some(text) => s == text@,
        None => s.len() == 0,
    }
}

/// The row at `r` is that of a name: the last that has it letter for letter or, where none has, the
/// first that differs in case at most.
pub open spec fn row_about(rows: Seq<IfRowView>, name: Seq<char>, r: int) -> bool {
    &&& 0 <= r < rows.len()
    &&& if rows[r].alias == name {
        forall|i: int| r < i < rows.len() ==> (#[trigger] rows[i]).alias != name
    } else {
        &&& alike(rows[r].alias, name)
        &&& forall|i: int| 0 <= i < rows.len() ==> (#[trigger] rows[i]).alias != name
        &&& forall|i: int| 0 <= i < r ==> !alike((#[trigger] rows[i]).alias, name)
    }
}

/// No row is that of a name.
pub open spec fn no_row_about(rows: Seq<IfRowView>, name: Seq<char>) -> bool {
    forall|i: int| 0 <= i < rows.len() ==> !alike((#[trigger] rows[i]).alias, name)
}

/// The wireless interface at `w` is the first of a name.
pub open spec fn wlan_about(wlans: Seq<Wlan>, name: Seq<char>, w: int) -> bool {
    &&& 0 <= w < wlans.len()
    &&& wlans[w].name@ == name
    &&& forall|i: int| 0 <= i < w ==> (#[trigger] wlans[i]).name@ != name
}

/// No wireless interface has a name.
pub open spec fn no_wlan_about(wlans: Seq<Wlan>, name: Seq<char>) -> bool {
    forall|i: int| 0 <= i < wlans.len() ==> (#[trigger] wlans[i]).name@ != name
}

/// An interface has the addresses of an adapter, each under its own name.
pub open spec fn addressed_as(nic: NicInfoView, adapter: Adapter) -> bool {
    &&& nic.name == adapter.name@
    &&& adapter.ipv4 matches Some(ip) && nic.ipv4 == ip@
    &&& holds(adapter.ipv6_ll, nic.ipv6_ll)
    &&& holds(adapter.ipv6_global, nic.ipv6_global)
    &&& nic.zone == if adapter.zone@.len() > 0 {
        adapter.zone@
    } else {
        decimal(nic.ifindex as nat)
    }
}

/// An interface has the index, the speed and the description of its row, and none without one.
pub open spec fn described_by(nic: NicInfoView, rows: Seq<IfRowView>) -> bool {
    &&& forall|r: int| #[trigger]
        row_about(rows, nic.name, r) ==> {
            &&& nic.description == rows[r].desc
            &&& nic.speed_mbps == rows[r].speed_mbps
            &&& nic.ifindex == rows[r].ifindex
            &&& rows[r].is_wifi ==> nic.is_wifi
        }
    &&& no_row_about(rows, nic.name) ==> nic.description.len() == 0 && nic.speed_mbps == 0
        && nic.ifindex == 0
}

/// An interface is on the band that `netsh wlan` shows it on, and is then wireless; one that it does
/// not show has no band and is wireless only by its name or by its row.
pub open spec fn banded_by(nic: NicInfoView, rows: Seq<IfRowView>, wlans: Seq<Wlan>) -> bool {
    &&& forall|w: int| #[trigger]
        wlan_about(wlans, nic.name, w) ==> {
            &&& nic.wifi_band == wlans[w].band@
            &&& nic.is_wifi
            &&& wlans[w].connected
        }
    &&& no_wlan_about(wlans, nic.name) ==> nic.wifi_band.len() == 0
    &&& wifi_name(nic.name) ==> nic.is_wifi
    &&& nic.is_wifi && no_wlan_about(wlans, nic.name) && !wifi_name(nic.name) ==> exists|r: int|
        #[trigger] row_about(rows, nic.name, r) && rows[r].is_wifi
}

/// An interface has the first gateway that is listed for its index.
pub open spec fn routed_by(nic: NicInfoView, gateways: Seq<DefaultGateway>) -> bool {
    &&& forall|g: int|
        0 <= g < gateways.len() && (#[trigger] gateways[g]).ifindex == nic.ifindex && (forall|i: int|
            0 <= i < g ==> (#[trigger] gateways[i]).ifindex != nic.ifindex) ==> nic.gateway_v4
            == gateways[g].gateway@
    &&& (forall|i: int| 0 <= i < gateways.len() ==> (#[trigger] gateways[i]).ifindex != nic.ifindex)
        ==> nic.gateway_v4.len() == 0
}

/// An adapter is one to list: it is connected, has an address that the prefixes admit, and is on a
/// network where `netsh wlan` shows it.
pub open spec fn to_list(adapter: Adapter, wlans: Seq<Wlan>, prefixes: Seq<Seq<char>>) -> bool {
    &&& !adapter.disconnected
    &&& adapter.ipv4 matches Some(ip) && prefix_matches(ip@, prefixes)
    &&& forall|w: int| #[trigger] wlan_about(wlans, adapter.name@, w) ==> wlans[w].connected
}

proof fn lemma_last_row(rows: Seq<IfRowView>, name: Seq<char>, n: int)
    requires
        0 <= n <= rows.len(),
    ensures
        ({
            let at = last_row(rows, name, n);
            &&& at < rows.len() ==> 0 <= at < n && rows[at].alias == name && (forall|i: int|
                at < i < n ==> (#[trigger] rows[i]).alias != name)
            &&& at >= rows.len() ==> at == rows.len() && (forall|i: int|
                0 <= i < n ==> (#[trigger] rows[i]).alias != name)
        }),
    decreases n,
{
    if n > 0 && rows[n - 1].alias != name {
        lemma_last_row(rows, name, n - 1);
    }
}

proof fn lemma_alike_row(rows: Seq<IfRowView>, name: Seq<char>, i: int)
    requires
        0 <= i <= rows.len(),
    ensures
        ({
            let at = alike_row(rows, name, i);
            &&& i <= at <= rows.len()
            &&& forall|j: int| i <= j < at ==> !alike((#[trigger] rows[j]).alias, name)
            &&& at < rows.len() ==> alike(rows[at].alias, name)
        }),
    decreases rows.len() - i,
{
    if i < rows.len() && !alike(rows[i].alias, name) {
        lemma_alike_row(rows, name, i + 1);
    }
}

proof fn lemma_exact_row(rows: Seq<IfRowView>, name: Seq<char>, i: int)
    requires
        0 <= i <= rows.len(),
    ensures
        ({
            let at = exact_row(rows, name, i);
            &&& i <= at <= rows.len()
            &&& forall|j: int| i <= j < at ==> (#[trigger] rows[j]).alias != name
            &&& at < rows.len() ==> rows[at].alias == name
        }),
    decreases rows.len() - i,
{
    if i < rows.len() && rows[i].alias != name {
        lemma_exact_row(rows, name, i + 1);
    }
}

proof fn lemma_row_for(rows: Seq<IfRowView>, name: Seq<char>)
    ensures
        row_for(rows, name) < rows.len() ==> row_about(rows, name, row_for(rows, name)),
        row_for(rows, name) >= rows.len() ==> no_row_about(rows, name),
        forall|r: int| #[trigger] row_about(rows, name, r) ==> r == row_for(rows, name),
        no_row_about(rows, name) ==> row_for(rows, name) >= rows.len(),
{
    lemma_last_row(rows, name, rows.len() as int);
    lemma_alike_row(rows, name, 0);
    let at = row_for(rows, name);
    if at < rows.len() {
        assert(row_about(rows, name, at));
        assert(alike(rows[at].alias, name));
    }
    assert forall|r: int| #[trigger] row_about(rows, name, r) implies r == at by {
        assert(alike(rows[r].alias, name));
        if rows[r].alias == name {
            let exact = last_row(rows, name, rows.len() as int);
            if exact < r {
                assert(rows[r].alias != name);
            }
            if r < exact {
                assert(rows[exact].alias != name);
            }
        }
    }
}

proof fn lemma_wlan_for(wlans: Seq<Wlan>, name: Seq<char>, i: int)
    requires
        0 <= i <= wlans.len(),
    ensures
        ({
            let at = wlan_for(wlans, name, i);
            &&& i <= at <= wlans.len()
            &&& forall|j: int| i <= j < at ==> (#[trigger] wlans[j]).name@ != name
            &&& at < wlans.len() ==> wlans[at].name@ == name
        }),
    decreases wlans.len() - i,
{
    if i < wlans.len() && wlans[i].name@ != name {
        lemma_wlan_for(wlans, name, i + 1);
    }
}

proof fn lemma_wlan_is_first(wlans: Seq<Wlan>, name: Seq<char>)
    ensures
        wlan_for(wlans, name, 0) < wlans.len() ==> wlan_about(wlans, name, wlan_for(wlans, name, 0)),
        wlan_for(wlans, name, 0) >= wlans.len() ==> no_wlan_about(wlans, name),
        forall|w: int| #[trigger] wlan_about(wlans, name, w) ==> w == wlan_for(wlans, name, 0),
        no_wlan_about(wlans, name) ==> wlan_for(wlans, name, 0) >= wlans.len(),
{
    lemma_wlan_for(wlans, name, 0);
    let at = wlan_for(wlans, name, 0);
    assert forall|w: int| #[trigger] wlan_about(wlans, name, w) implies w == at by {
        if at < w {
            assert(wlans[at].name@ != name);
        }
        if w < at {
            assert(wlans[w].name@ != name);
        }
    }
}

proof fn lemma_gateway_listed(gateways: Seq<DefaultGateway>, ifindex: u32, i: int, g: int)
    requires
        0 <= i <= g <= gateways.len(),
        forall|j: int| i <= j < g ==> (#[trigger] gateways[j]).ifindex != ifindex,
        g < gateways.len() ==> gateways[g].ifindex == ifindex,
    ensures
        listed_gateway(gateways, ifindex, i) == if g < gateways.len() {
            Some(gateways[g].gateway@)
        } else {
            None::<Seq<char>>
        },
    decreases g - i,
{
    if i < g {
        lemma_gateway_listed(gateways, ifindex, i + 1, g);
    }
}

/// An adapter is listed exactly where it is one to list, and each field of its interface comes from
/// where it belongs.
pub proof fn lemma_adapter_becomes_its_interface(
    adapter: Adapter,
    rows: Seq<IfRowView>,
    wlans: Seq<Wlan>,
    gateways: Seq<DefaultGateway>,
    prefixes: Seq<Seq<char>>,
)
    ensures
        nic_of_adapter(adapter, rows, wlans, gateways, prefixes) is Some <==> to_list(
            adapter,
            wlans,
            prefixes,
        ),
        nic_of_adapter(adapter, rows, wlans, gateways, prefixes) matches Some(nic) ==> {
            &&& addressed_as(nic, adapter)
            &&& described_by(nic, rows)
            &&& banded_by(nic, rows, wlans)
            &&& routed_by(nic, gateways)
            &&& nic.role == role_of(nic.description, nic.speed_mbps, nic.is_wifi, nic.wifi_band)
        },
{
    let name = adapter.name@;
    lemma_row_for(rows, name);
    lemma_wlan_is_first(wlans, name);
    if let Some(nic) = nic_of_adapter(adapter, rows, wlans, gateways, prefixes) {
        assert forall|g: int|
            0 <= g < gateways.len() && (#[trigger] gateways[g]).ifindex == nic.ifindex && (forall|
                i: int,
            |
                0 <= i < g ==> (#[trigger] gateways[i]).ifindex
                    != nic.ifindex) implies nic.gateway_v4 == gateways[g].gateway@ by {
            lemma_gateway_listed(gateways, nic.ifindex, 0, g);
        }
        if forall|i: int|
            0 <= i < gateways.len() ==> (#[trigger] gateways[i]).ifindex != nic.ifindex {
            lemma_gateway_listed(gateways, nic.ifindex, 0, gateways.len() as int);
        }
    }
}

/// A scan lists, in the order of the adapters, the interface of each adapter that is one to list and
/// no other: the addresses are the adapter's, each under its own name.
pub proof fn lemma_scan_lists_each_adapter(
    adapters: Seq<Adapter>,
    rows: Seq<IfRowView>,
    wlans: Seq<Wlan>,
    gateways: Seq<DefaultGateway>,
    prefixes: Seq<Seq<char>>,
    n: int,
)
    requires
        0 <= n <= adapters.len(),
    ensures
        ({
            let listed = nics_to(adapters, rows, wlans, gateways, prefixes, n);
            &&& forall|k: int|
                0 <= k < listed.len() ==> {
                    &&& described_by(#[trigger] listed[k], rows)
                    &&& banded_by(listed[k], rows, wlans)
                    &&& routed_by(listed[k], gateways)
                    &&& exists|a: int|
                        0 <= a < n && to_list(#[trigger] adapters[a], wlans, prefixes)
                            && addressed_as(listed[k], adapters[a])
                }
            &&& forall|a: int|
                0 <= a < n && to_list(#[trigger] adapters[a], wlans, prefixes) ==> exists|k: int|
                    0 <= k < listed.len() && addressed_as(#[trigger] listed[k], adapters[a])
        }),
    decreases n,
{
    if n > 0 {
        lemma_scan_lists_each_adapter(adapters, rows, wlans, gateways, prefixes, n - 1);
        lemma_adapter_becomes_its_interface(adapters[n - 1], rows, wlans, gateways, prefixes);
        let before = nics_to(adapters, rows, wlans, gateways, prefixes, n - 1);
        let listed = nics_to(adapters, rows, wlans, gateways, prefixes, n);
        assert forall|k: int| 0 <= k < listed.len() implies {
            &&& described_by(#[trigger] listed[k], rows)
            &&& banded_by(listed[k], rows, wlans)
            &&& routed_by(listed[k], gateways)
            &&& exists|a: int|
                0 <= a < n && to_list(#[trigger] adapters[a], wlans, prefixes) && addressed_as(
                    listed[k],
                    adapters[a],
                )
        } by {
            if k < before.len() {
                assert(listed[k] == before[k]);
                let a = choose|a: int|
                    0 <= a < n - 1 && to_list(#[trigger] adapters[a], wlans, prefixes)
                        && addressed_as(before[k], adapters[a]);
                assert(0 <= a < n && to_list(adapters[a], wlans, prefixes));
            } else {
                assert(to_list(adapters[n - 1], wlans, prefixes));
                assert(addressed_as(listed[k], adapters[n - 1]));
            }
        }
        assert forall|a: int|
            0 <= a < n && to_list(#[trigger] adapters[a], wlans, prefixes) implies exists|k: int|
            0 <= k < listed.len() && addressed_as(#[trigger] listed[k], adapters[a]) by {
            if a < n - 1 {
                let k = choose|k: int|
                    0 <= k < before.len() && addressed_as(#[trigger] before[k], adapters[a]);
                assert(listed[k] == before[k]);
                assert(addressed_as(listed[k], adapters[a]));
            } else {
                assert(addressed_as(listed[before.len() as int], adapters[a]));
            }
        }
    }
}

/// A row of the table keeps its names, its index and its counters; its speed is the faster of the two
/// ways in whole megabits, none where it is absurd, and it is wireless by its type alone.
pub proof fn lemma_row_keeps_the_table(raw: RawRow)
    ensures
        ({
            let row = row_of(raw);
            let faster = if raw.transmit_speed <= raw.receive_speed {
                raw.receive_speed
            } else {
                raw.transmit_speed
            };
            &&& row.alias == text_to_zero(raw.alias@)
            &&& row.desc == text_to_zero(raw.desc@)
            &&& row.ifindex == raw.ifindex
            &&& row.in_octets == raw.in_octets
            &&& row.out_octets == raw.out_octets
            &&& row.is_wifi <==> raw.if_type == 71
            &&& faster < 1_000_000_000_000 ==> row.speed_mbps * 1_000_000 <= faster < (
            row.speed_mbps + 1) * 1_000_000
            &&& faster >= 1_000_000_000_000 ==> row.speed_mbps == 0
        }),
{
}

/// The counters of an interface are those of the first row of its name or, where none has it letter
/// for letter, of the first that differs in case at most: received bytes first.
pub proof fn lemma_counters_are_the_rows(rows: Seq<IfRowView>, iface: Seq<char>)
    ensures
        counters_told(rows, iface) matches Ok(c) ==> exists|r: int|
            0 <= r < rows.len() && alike((#[trigger] rows[r]).alias, iface) && c == (
                rows[r].in_octets,
                rows[r].out_octets,
            ) && (forall|i: int|
                0 <= i < r && rows[r].alias == iface ==> (#[trigger] rows[i]).alias != iface) && (
            rows[r].alias != iface ==> (forall|i: int|
                0 <= i < rows.len() ==> (#[trigger] rows[i]).alias != iface) && (forall|i: int|
                0 <= i < r ==> !alike((#[trigger] rows[i]).alias, iface))),
        counters_told(rows, iface) is Err <==> no_row_about(rows, iface),
{
    lemma_exact_row(rows, iface, 0);
    lemma_alike_row(rows, iface, 0);
    let exact = exact_row(rows, iface, 0);
    let at = if exact < rows.len() {
        exact
    } else {
        alike_row(rows, iface, 0)
    };
    if at < rows.len() {
        assert(alike(rows[at].alias, iface));
    }
}

/// Of the route table exactly the rows are looked at that lead everywhere.
pub proof fn lemma_routes_lead_everywhere(rows: Seq<ForwardRow>, row: ForwardRow)
    ensures
        routes_to(rows.push(row), rows.len() as int + 1) == if row.prefix_length == 0 {
            routes_to(rows, rows.len() as int).push(row.route)
        } else {
            routes_to(rows, rows.len() as int)
        },
        routes_to(rows, 0).len() == 0,
{
    lemma_routes_prefix(rows, row, rows.len() as int);
}

proof fn lemma_routes_prefix(rows: Seq<ForwardRow>, row: ForwardRow, n: int)
    requires
        n <= rows.len(),
    ensures
        routes_to(rows.push(row), n) == routes_to(rows, n),
    decreases n,
{
    if n > 0 {
        lemma_routes_prefix(rows, row, n - 1);
        assert(rows.push(row)[n - 1] == rows[n - 1]);
    }
}

/// An address is written by its four bytes, the highest first.
pub proof fn lemma_address_is_written_by_bytes(address: u32, a: u8, b: u8, c: u8, d: u8)
    requires
        address == a * 0x100_0000 + b * 0x1_0000 + c * 0x100 + d,
    ensures
        dotted(address) == decimal(a as nat) + "."@ + decimal(b as nat) + "."@ + decimal(c as nat)
            + "."@ + decimal(d as nat),
{
    assert(address / 16_777_216 == a);
    assert(address / 65_536 == a * 256 + b);
    assert(address / 65_536 % 256 == b);
    assert(address / 256 == a * 65_536 + b * 256 + c);
    assert(address / 256 % 256 == c);
    assert(address % 256 == d);
}

} // verus!
