//! Where each field of an interface comes from that a scan lists on macOS.
use vstd::prelude::*;
use vstd::string::*;
use crate::address::is_ipv4;
use crate::nic::classify::role_of;
use crate::nic::host::prefix_matches;
use crate::nic::scan_linux::before_char;
use crate::nic::scan_macos::{
    airport_to, channel_band, gateway_from, gateway_in_line, ifconfig_to, medium_speed, named_block,
    nics_to, port_of, ports_to, probed, with_ipv6, with_line, BlockView, PortView, Probe,
};
use crate::protocol::NicInfoView;
use crate::text::{
    begins, find_char, has, in_small, lemma_find_char, lines_of, read_unsigned, trimmed, words_of,
};

verus! {

/// The text starts with the sign.
pub open spec fn starts(s: Seq<char>, c: char) -> bool {
    s.len() > 0 && s[0] == c
}

/// A link-local address starts with `fe80`.
pub open spec fn is_local(address: Seq<char>) -> bool {
    &&& address.len() >= 4
    &&& address[0] == 'f'
    &&& address[1] == 'e'
    &&& address[2] == '8'
    &&& address[3] == '0'
}

/// The addresses of a block are under their names: a link-local one starts with `fe80`, a global one
/// with `2` or `3`.
pub open spec fn well_named(block: BlockView) -> bool {
    &&& block.ipv6_ll matches Some(a) ==> is_local(a)
    &&& block.ipv6_global matches Some(a) ==> starts(a, '2') || starts(a, '3')
}

proof fn lemma_cut_keeps_the_start(low: Seq<char>, i: int)
    requires
        0 <= i < low.len(),
        forall|j: int| 0 <= j <= i ==> low[j] != '%',
    ensures
        before_char(low, '%').len() > i,
        forall|j: int| 0 <= j <= i ==> before_char(low, '%')[j] == low[j],
{
    lemma_find_char(low, '%', 0);
}

proof fn lemma_ipv6_is_well_named(block: BlockView, low: Seq<char>)
    requires
        well_named(block),
    ensures
        well_named(with_ipv6(block, low)),
        with_ipv6(block, low).name == block.name,
        with_ipv6(block, low).ipv4 == block.ipv4,
        with_ipv6(block, low).inactive == block.inactive,
{
    reveal_strlit("fe80");
    reveal_strlit("2");
    reveal_strlit("3");
    if begins(low, "fe80"@) {
        let head = low.subrange(0, 4);
        assert(head[0] == low[0] && head[1] == low[1] && head[2] == low[2] && head[3] == low[3]);
        lemma_cut_keeps_the_start(low, 3);
    } else if begins(low, "2"@) || begins(low, "3"@) {
        let head = low.subrange(0, 1);
        assert(head[0] == low[0]);
        lemma_cut_keeps_the_start(low, 0);
    }
}

/// What `ifconfig` says of an address goes to the field of its kind, and the first of a kind stays.
pub proof fn lemma_line_fills_its_field(block: BlockView, line: Seq<char>)
    requires
        well_named(block),
    ensures
        ({
            let t = trimmed(line);
            let after = with_line(block, line);
            &&& well_named(after)
            &&& after.name == block.name
            &&& block.ipv4 is Some ==> after.ipv4 == block.ipv4
            &&& block.ipv6_ll is Some ==> after.ipv6_ll == block.ipv6_ll
            &&& block.ipv6_global is Some ==> after.ipv6_global == block.ipv6_global
            &&& after.ipv4 != block.ipv4 ==> begins(t, "inet "@) && words_of(t.skip(5)).len() > 0
                && after.ipv4 == Some(words_of(t.skip(5))[0])
            &&& after.ipv6_ll != block.ipv6_ll ==> begins(t, "inet6 "@) && words_of(t.skip(6)).len()
                > 0 && after.ipv6_ll == Some(before_char(in_small(words_of(t.skip(6))[0]), '%'))
            &&& after.ipv6_global != block.ipv6_global ==> begins(t, "inet6 "@) && words_of(
                t.skip(6),
            ).len() > 0 && after.ipv6_global == Some(
                before_char(in_small(words_of(t.skip(6))[0]), '%'),
            )
            &&& begins(t, "inet "@) && words_of(t.skip(5)).len() > 0 && words_of(t.skip(5))[0].len()
                > 0 ==> after.ipv4 is Some
            &&& begins(t, "inet6 "@) && words_of(t.skip(6)).len() > 0 ==> {
                let low = in_small(words_of(t.skip(6))[0]);
                &&& is_local(low) ==> after.ipv6_ll is Some
                &&& starts(low, '2') || starts(low, '3') ==> after.ipv6_global is Some
            }
            &&& begins(t, "status:"@) ==> (after.inactive <==> has(t, "inactive"@))
            &&& !begins(t, "status:"@) ==> after.inactive == block.inactive
        }),
{
    reveal_strlit("inet ");
    reveal_strlit("inet6 ");
    reveal_strlit("status:");
    reveal_strlit("fe80");
    reveal_strlit("2");
    reveal_strlit("3");
    let t = trimmed(line);
    if begins(t, "inet "@) && begins(t, "inet6 "@) {
        assert(t.subrange(0, 5)[4] == t[4]);
        assert(t.subrange(0, 6)[4] == t[4]);
    }
    if begins(t, "status:"@) && (begins(t, "inet "@) || begins(t, "inet6 "@)) {
        assert(t.subrange(0, 7)[0] == t[0]);
        assert(begins(t, "inet "@) ==> t.subrange(0, 5)[0] == t[0]);
        assert(begins(t, "inet6 "@) ==> t.subrange(0, 6)[0] == t[0]);
    }
    if begins(t, "inet6 "@) && !begins(t, "inet "@) {
        let words = words_of(t.skip(6));
        let low = if words.len() > 0 {
            in_small(words[0])
        } else {
            in_small(Seq::empty())
        };
        lemma_ipv6_is_well_named(block, low);
        if words.len() > 0 {
            if is_local(low) {
                assert(low.subrange(0, 4) =~= "fe80"@);
            }
            if starts(low, '2') {
                assert(low.subrange(0, 1) =~= "2"@);
                assert(!begins(low, "fe80"@)) by {
                    if begins(low, "fe80"@) {
                        assert(low.subrange(0, 4)[0] == low[0]);
                    }
                }
            }
            if starts(low, '3') {
                assert(low.subrange(0, 1) =~= "3"@);
                assert(!begins(low, "fe80"@)) by {
                    if begins(low, "fe80"@) {
                        assert(low.subrange(0, 4)[0] == low[0]);
                    }
                }
            }
        } else {
            assert(low.len() == 0);
        }
    }
}

/// Every block that is read from `ifconfig` has its addresses under their names.
pub proof fn lemma_blocks_are_well_named(rows: Seq<Seq<char>>, n: int)
    requires
        0 <= n <= rows.len(),
    ensures
        forall|i: int|
            0 <= i < ifconfig_to(rows, n).len() ==> well_named(#[trigger] ifconfig_to(rows, n)[i]),
    decreases n,
{
    if n > 0 {
        lemma_blocks_are_well_named(rows, n - 1);
        let before = ifconfig_to(rows, n - 1);
        if before.len() > 0 {
            lemma_line_fills_its_field(before.last(), rows[n - 1]);
        }
    }
}

/// A block is named by what stands before the first colon, and has nothing yet.
pub proof fn lemma_block_starts_empty(line: Seq<char>)
    ensures
        named_block(line).name == trimmed(line.take(find_char(line, ':', 0))),
        named_block(line).ipv4 is None,
        named_block(line).ipv6_ll is None,
        named_block(line).ipv6_global is None,
        !named_block(line).inactive,
{
}

/// `s` is what an optional text holds, and empty where there is none.
pub open spec fn shows(given: Option<Seq<char>>, s: Seq<char>) -> bool {
    match given {
        Some(text) => s == text,
        None => s.len() == 0,
    }
}

/// An interface has the addresses of a block, each under its own name.
pub open spec fn addressed_as(nic: NicInfoView, block: BlockView) -> bool {
    &&& nic.name == block.name
    &&& nic.zone == block.name
    &&& block.ipv4 == Some(nic.ipv4)
    &&& shows(block.ipv6_ll, nic.ipv6_ll)
    &&& shows(block.ipv6_global, nic.ipv6_global)
}

/// A block is one to list: not the loopback, active, with an address that the prefixes admit.
pub open spec fn to_list(block: BlockView, prefixes: Seq<Seq<char>>) -> bool {
    &&& block.name != "lo0"@
    &&& !block.inactive
    &&& block.ipv4 matches Some(ip) && prefix_matches(ip, prefixes)
}

/// An interface is wireless by the name of its port, and is then as fast and on the band that the
/// system's report on Wi-Fi says; any other is as fast as it was found to be, on no band.
pub open spec fn linked_by(
    nic: NicInfoView,
    ports: Seq<PortView>,
    airport: (Seq<char>, u64),
    probes: Seq<Probe>,
) -> bool {
    &&& forall|p: int|
        0 <= p < ports.len() && (#[trigger] ports[p]).device == nic.name && (forall|q: int|
            p < q < ports.len() ==> (#[trigger] ports[q]).device != nic.name) ==> nic.description
            == ports[p].port
    &&& (forall|p: int| 0 <= p < ports.len() ==> (#[trigger] ports[p]).device != nic.name)
        ==> nic.description.len() == 0
    &&& nic.is_wifi <==> has(nic.description, "Wi-Fi"@) || has(nic.description, "AirPort"@)
    &&& nic.is_wifi ==> nic.wifi_band == airport.0 && nic.speed_mbps == airport.1
    &&& !nic.is_wifi ==> nic.wifi_band.len() == 0
    &&& forall|p: int|
        0 <= p < probes.len() && (#[trigger] probes[p]).name@ == nic.name && (forall|q: int|
            0 <= q < p ==> (#[trigger] probes[q]).name@ != nic.name) ==> {
            &&& !nic.is_wifi ==> nic.speed_mbps == probes[p].speed_mbps
            &&& probes[p].route_output is None ==> nic.gateway_v4.len() == 0
            &&& probes[p].route_output matches Some(text) ==> nic.gateway_v4 == gateway_from(
                lines_of(text@),
                0,
            )
        }
    &&& (forall|p: int| 0 <= p < probes.len() ==> (#[trigger] probes[p]).name@ != nic.name) ==> {
        &&& !nic.is_wifi ==> nic.speed_mbps == 0
        &&& nic.gateway_v4.len() == 0
    }
}

proof fn lemma_last_port(ports: Seq<PortView>, device: Seq<char>, n: int, p: int)
    requires
        0 <= p < n <= ports.len(),
        ports[p].device == device,
        forall|q: int| p < q < n ==> (#[trigger] ports[q]).device != device,
    ensures
        port_of(ports, device, n) == ports[p].port,
    decreases n,
{
    if p < n - 1 {
        lemma_last_port(ports, device, n - 1, p);
    }
}

proof fn lemma_no_port(ports: Seq<PortView>, device: Seq<char>, n: int)
    requires
        0 <= n <= ports.len(),
        forall|q: int| 0 <= q < n ==> (#[trigger] ports[q]).device != device,
    ensures
        port_of(ports, device, n).len() == 0,
    decreases n,
{
    if n > 0 {
        lemma_no_port(ports, device, n - 1);
    }
}

proof fn lemma_first_probe(probes: Seq<Probe>, name: Seq<char>, i: int, p: int)
    requires
        0 <= i <= p <= probes.len(),
        forall|q: int| i <= q < p ==> (#[trigger] probes[q]).name@ != name,
        p < probes.len() ==> probes[p].name@ == name,
    ensures
        p < probes.len() ==> probed(probes, name, i) == probed(probes, name, p),
        p == probes.len() ==> probed(probes, name, i) == (0u64, Seq::<char>::empty()),
    decreases p - i,
{
    if i < p {
        lemma_first_probe(probes, name, i + 1, p);
    }
}

/// A scan lists the interface of each block that is one to list and no other: the addresses are the
/// block's, each under its own name.
pub proof fn lemma_scan_lists_each_block(
    blocks: Seq<BlockView>,
    ports: Seq<PortView>,
    prefixes: Seq<Seq<char>>,
    airport: (Seq<char>, u64),
    probes: Seq<Probe>,
    n: int,
)
    requires
        0 <= n <= blocks.len(),
    ensures
        ({
            let listed = nics_to(blocks, ports, prefixes, airport, probes, n);
            &&& forall|k: int|
                0 <= k < listed.len() ==> {
                    &&& linked_by(#[trigger] listed[k], ports, airport, probes)
                    &&& listed[k].ifindex == 0
                    &&& listed[k].role == role_of(
                        listed[k].description,
                        listed[k].speed_mbps,
                        listed[k].is_wifi,
                        listed[k].wifi_band,
                    )
                    &&& exists|b: int|
                        0 <= b < n && to_list(#[trigger] blocks[b], prefixes) && addressed_as(
                            listed[k],
                            blocks[b],
                        )
                }
            &&& forall|b: int|
                0 <= b < n && to_list(#[trigger] blocks[b], prefixes) ==> exists|k: int|
                    0 <= k < listed.len() && addressed_as(#[trigger] listed[k], blocks[b])
        }),
    decreases n,
{
    if n > 0 {
        lemma_scan_lists_each_block(blocks, ports, prefixes, airport, probes, n - 1);
        let before = nics_to(blocks, ports, prefixes, airport, probes, n - 1);
        let listed = nics_to(blocks, ports, prefixes, airport, probes, n);
        let block = blocks[n - 1];
        assert forall|k: int| 0 <= k < listed.len() implies {
            &&& linked_by(#[trigger] listed[k], ports, airport, probes)
            &&& listed[k].ifindex == 0
            &&& listed[k].role == role_of(
                listed[k].description,
                listed[k].speed_mbps,
                listed[k].is_wifi,
                listed[k].wifi_band,
            )
            &&& exists|b: int|
                0 <= b < n && to_list(#[trigger] blocks[b], prefixes) && addressed_as(
                    listed[k],
                    blocks[b],
                )
        } by {
            if k < before.len() {
                assert(listed[k] == before[k]);
                let b = choose|b: int|
                    0 <= b < n - 1 && to_list(#[trigger] blocks[b], prefixes) && addressed_as(
                        before[k],
                        blocks[b],
                    );
                assert(0 <= b < n && to_list(blocks[b], prefixes));
            } else {
                assert(to_list(blocks[n - 1], prefixes));
                assert(addressed_as(listed[k], blocks[n - 1]));
                lemma_link_of_block(listed[k], ports, airport, probes);
            }
        }
        assert forall|b: int| 0 <= b < n && to_list(#[trigger] blocks[b], prefixes) implies exists|
            k: int,
        |
            0 <= k < listed.len() && addressed_as(#[trigger] listed[k], blocks[b]) by {
            if b < n - 1 {
                let k = choose|k: int|
                    0 <= k < before.len() && addressed_as(#[trigger] before[k], blocks[b]);
                assert(listed[k] == before[k]);
                assert(addressed_as(listed[k], blocks[b]));
            } else {
                assert(addressed_as(listed[before.len() as int], blocks[b]));
            }
        }
    }
}

proof fn lemma_link_of_block(
    nic: NicInfoView,
    ports: Seq<PortView>,
    airport: (Seq<char>, u64),
    probes: Seq<Probe>,
)
    requires
        nic.description == port_of(ports, nic.name, ports.len() as int),
        nic.is_wifi == (has(nic.description, "Wi-Fi"@) || has(nic.description, "AirPort"@)),
        nic.is_wifi ==> nic.wifi_band == airport.0 && nic.speed_mbps == airport.1,
        !nic.is_wifi ==> nic.wifi_band.len() == 0 && nic.speed_mbps == probed(probes, nic.name, 0).0,
        nic.gateway_v4 == probed(probes, nic.name, 0).1,
    ensures
        linked_by(nic, ports, airport, probes),
{
    assert forall|p: int|
        0 <= p < ports.len() && (#[trigger] ports[p]).device == nic.name && (forall|q: int|
            p < q < ports.len() ==> (#[trigger] ports[q]).device
                != nic.name) implies nic.description == ports[p].port by {
        lemma_last_port(ports, nic.name, ports.len() as int, p);
    }
    if forall|p: int| 0 <= p < ports.len() ==> (#[trigger] ports[p]).device != nic.name {
        lemma_no_port(ports, nic.name, ports.len() as int);
    }
    assert forall|p: int|
        0 <= p < probes.len() && (#[trigger] probes[p]).name@ == nic.name && (forall|q: int|
            0 <= q < p ==> (#[trigger] probes[q]).name@ != nic.name) implies {
        &&& !nic.is_wifi ==> nic.speed_mbps == probes[p].speed_mbps
        &&& probes[p].route_output is None ==> nic.gateway_v4.len() == 0
        &&& probes[p].route_output matches Some(text) ==> nic.gateway_v4 == gateway_from(
            lines_of(text@),
            0,
        )
    } by {
        lemma_first_probe(probes, nic.name, 0, p);
    }
    if forall|p: int| 0 <= p < probes.len() ==> (#[trigger] probes[p]).name@ != nic.name {
        lemma_first_probe(probes, nic.name, 0, probes.len() as int);
    }
}

/// A device belongs to the port that was named last before it.
pub proof fn lemma_device_belongs_to_its_port(rows: Seq<Seq<char>>, n: int)
    requires
        0 < n <= rows.len(),
    ensures
        ({
            let t = trimmed(rows[n - 1]);
            let (before, after) = (ports_to(rows, n - 1), ports_to(rows, n));
            &&& begins(t, "Hardware Port:"@) ==> after.0 == trimmed(t.skip(14)) && after.1
                == before.1
            &&& !begins(t, "Hardware Port:"@) ==> after.0 == before.0
            &&& !begins(t, "Hardware Port:"@) && begins(t, "Device:"@) ==> after.1.len()
                == before.1.len() + 1 && after.1.last().device == trimmed(t.skip(7))
                && after.1.last().port == before.0 && after.1.drop_last() == before.1
            &&& !begins(t, "Device:"@) ==> after.1 == before.1
        }),
{
    reveal_strlit("Hardware Port:");
    reveal_strlit("Device:");
    assert(ports_to(rows, n).1.len() > 0 ==> ports_to(rows, n - 1).1.push(
        ports_to(rows, n).1.last(),
    ).drop_last() =~= ports_to(rows, n - 1).1);
}

/// A medium of so many gigabits is a thousand times as fast as one of so many megabits.
pub proof fn lemma_gigabits_are_a_thousand_megabits(
    found: Seq<Option<Seq<char>>>,
    digits: Seq<char>,
    speed: u64,
)
    requires
        found.len() > 2,
        found[1] == Some(digits),
        read_unsigned(digits, u64::MAX as nat) == Some(speed as nat),
        speed * 1000 <= u64::MAX,
    ensures
        found[2] == Some("G"@) ==> medium_speed(found) == speed * 1000,
        found[2] is None || (found[2] is Some && found[2]->Some_0 != "G"@) ==> medium_speed(found)
            == speed,
{
    reveal_strlit("G");
    if found[2] is None {
        assert("G"@.len() == 1);
    }
}

/// The band of a channel is the one its line names.
pub proof fn lemma_channel_names_its_band(line: Seq<char>, before: Seq<char>)
    ensures
        ({
            let (two, five, six) = (
                has(line, "2.4GHz"@) || has(line, "2,4GHz"@),
                has(line, "5GHz"@),
                has(line, "6GHz"@),
            );
            &&& five ==> channel_band(line, before) == "5GHz"@
            &&& two && !five ==> channel_band(line, before) == "2.4GHz"@
            &&& six && !five && !two ==> channel_band(line, before) == "6GHz"@
            &&& !two && !five && !six ==> channel_band(line, before) == before
        }),
{
}

/// Only what stands under the current network counts, up to the networks nearby.
pub proof fn lemma_report_tells_of_the_current_network(rows: Seq<Seq<char>>, n: int)
    requires
        0 < n <= rows.len(),
    ensures
        ({
            let t = trimmed(rows[n - 1]);
            let (before, after) = (airport_to(rows, n - 1), airport_to(rows, n));
            &&& airport_to(rows, 0).band.len() == 0 && airport_to(rows, 0).rate is None
            &&& !before.in_current || before.done ==> after.band == before.band && after.rate
                == before.rate
            &&& after.band != before.band ==> begins(t, "Channel:"@) && after.band == channel_band(
                t,
                before.band,
            )
            &&& after.rate != before.rate ==> begins(t, "Transmit Rate:"@) && after.rate == Some(
                trimmed(t.skip(14)),
            )
            &&& before.done ==> after.done
            &&& begins(t, "Current Network Information:"@) && !before.done ==> after.in_current
            &&& after.in_current && !before.in_current ==> begins(
                t,
                "Current Network Information:"@,
            )
            &&& after.done && !before.done ==> begins(t, "Other Local Wi-Fi Networks:"@)
            &&& before.in_current && !before.done && begins(t, "Transmit Rate:"@) ==> after.rate
                == Some(trimmed(t.skip(14)))
            &&& before.in_current && !before.done && begins(t, "Channel:"@) ==> after.band
                == channel_band(t, before.band)
            &&& before.in_current && !before.done && begins(t, "Other Local Wi-Fi Networks:"@)
                ==> after.done
        }),
{
    reveal_strlit("Current Network Information:");
    reveal_strlit("Channel:");
    reveal_strlit("Transmit Rate:");
    reveal_strlit("Other Local Wi-Fi Networks:");
    let t = trimmed(rows[n - 1]);
    assert(begins(t, "Current Network Information:"@) ==> t.subrange(0, 28)[0] == t[0]
        && t.subrange(0, 28)[1] == t[1]);
    assert(begins(t, "Channel:"@) ==> t.subrange(0, 8)[0] == t[0] && t.subrange(0, 8)[1] == t[1]);
    assert(begins(t, "Transmit Rate:"@) ==> t.subrange(0, 14)[0] == t[0]);
    assert(begins(t, "Other Local Wi-Fi Networks:"@) ==> t.subrange(0, 27)[0] == t[0]);
}

/// A line names a gateway if it gives an IPv4 address that is not the empty one.
pub open spec fn names_gateway(line: Seq<char>, gateway: Seq<char>) -> bool {
    &&& begins(trimmed(line), "gateway:"@)
    &&& gateway == trimmed(trimmed(line).skip(8))
    &&& is_ipv4(gateway)
    &&& gateway != "0.0.0.0"@
}

/// The gateway is the one that the first line names which names one.
pub proof fn lemma_first_gateway_counts(rows: Seq<Seq<char>>, i: int, at: int, gateway: Seq<char>)
    requires
        0 <= i <= at < rows.len(),
        names_gateway(rows[at], gateway),
        forall|j: int, other: Seq<char>| i <= j < at ==> !(#[trigger] names_gateway(rows[j], other)),
    ensures
        gateway_from(rows, i) == gateway,
    decreases at - i,
{
    reveal_strlit("gateway:");
    if i < at {
        if let Some(other) = gateway_in_line(rows[i]) {
            assert(names_gateway(rows[i], other));
        }
        lemma_first_gateway_counts(rows, i + 1, at, gateway);
    }
}

/// Where no line names a gateway there is none.
pub proof fn lemma_no_gateway_without_a_line(rows: Seq<Seq<char>>, i: int)
    requires
        0 <= i <= rows.len(),
        forall|j: int, other: Seq<char>|
            i <= j < rows.len() ==> !(#[trigger] names_gateway(rows[j], other)),
    ensures
        gateway_from(rows, i).len() == 0,
    decreases rows.len() - i,
{
    reveal_strlit("gateway:");
    if i < rows.len() {
        if let Some(other) = gateway_in_line(rows[i]) {
            assert(names_gateway(rows[i], other));
        }
        lemma_no_gateway_without_a_line(rows, i + 1);
    }
}

} // verus!
