//! Where each field of an interface comes from that a scan lists on Linux.
use vstd::prelude::*;
use vstd::string::*;
use crate::import::with_texts;
use crate::json::{count_or_none, field_texts, json_count_at, json_text_at};
use crate::meaning::scan_macos::{is_local, shows, starts};
use crate::nic::classify::role_of;
use crate::nic::host::prefix_matches;
use crate::nic::scan_linux::{
    absorb, band_from, band_in_line, block_place, blocks_to, gateway_for, gateways_to, link_of,
    merged_to, nics_to, plain_address, records_of, records_to, speed_in_file, with_addresses_to,
    with_plain_address, with_record, with_v6, AddrRecordView, GatewayView, IfBlockView, LinkProbe,
};
use crate::protocol::NicInfoView;
use crate::text::{
    alike, begins, decimal, find_char, has, in_small, lines_of, opt_text, read_unsigned, trimmed,
};

verus! {

/// The addresses of a block are under their names: a link-local one starts with `fe80`, a global one
/// with `2` or `3`.
pub open spec fn well_named(block: IfBlockView) -> bool {
    &&& block.ipv6_ll matches Some(a) ==> is_local(a)
    &&& block.ipv6_global matches Some(a) ==> starts(a, '2') || starts(a, '3')
}

/// An address goes to the field of its kind, and the first of a kind stays.
pub proof fn lemma_address_fills_its_field(block: IfBlockView, address: Seq<char>, v6: bool)
    requires
        well_named(block),
    ensures
        ({
            let after = with_plain_address(block, address, v6);
            &&& well_named(after)
            &&& after.name == block.name
            &&& after.flags == block.flags
            &&& after.operstate == block.operstate
            &&& v6 ==> after.ipv4 == block.ipv4
            &&& !v6 ==> after.ipv6_ll == block.ipv6_ll && after.ipv6_global == block.ipv6_global
            &&& !v6 && block.ipv4 is None ==> after.ipv4 == Some(address)
            &&& block.ipv4 is Some ==> after.ipv4 == block.ipv4
            &&& block.ipv6_ll is Some ==> after.ipv6_ll == block.ipv6_ll
            &&& block.ipv6_global is Some ==> after.ipv6_global == block.ipv6_global
            &&& v6 && is_local(address) && block.ipv6_ll is None ==> after.ipv6_ll == Some(address)
            &&& v6 && (starts(address, '2') || starts(address, '3')) && block.ipv6_global is None
                ==> after.ipv6_global == Some(address)
        }),
{
    reveal_strlit("fe80");
    reveal_strlit("2");
    reveal_strlit("3");
    if begins(address, "fe80"@) {
        let head = address.subrange(0, 4);
        assert(head[0] == address[0] && head[1] == address[1] && head[2] == address[2] && head[3]
            == address[3]);
    }
    if begins(address, "2"@) || begins(address, "3"@) {
        assert(address.subrange(0, 1)[0] == address[0]);
    }
    if is_local(address) {
        assert(address.subrange(0, 4) =~= "fe80"@);
    }
    if starts(address, '2') {
        assert(address.subrange(0, 1) =~= "2"@);
    }
    if starts(address, '3') {
        assert(address.subrange(0, 1) =~= "3"@);
    }
}

/// An address is taken in small letters, without the zone behind it.
pub proof fn lemma_address_is_taken_plain(raw: Seq<char>)
    ensures
        plain_address(raw) == in_small(raw).take(find_char(in_small(raw), '%', 0)),
{
}

proof fn lemma_addresses_fill_their_fields(
    block: IfBlockView,
    locals: Seq<Seq<char>>,
    v6: bool,
    n: int,
)
    requires
        well_named(block),
        0 <= n <= locals.len(),
    ensures
        ({
            let after = with_addresses_to(block, locals, v6, n);
            &&& well_named(after)
            &&& after.name == block.name
            &&& after.flags == block.flags
            &&& after.operstate == block.operstate
            &&& v6 ==> after.ipv4 == block.ipv4
            &&& !v6 ==> after.ipv6_ll == block.ipv6_ll && after.ipv6_global == block.ipv6_global
            &&& block.ipv4 is Some ==> after.ipv4 == block.ipv4
            &&& block.ipv6_ll is Some ==> after.ipv6_ll == block.ipv6_ll
            &&& block.ipv6_global is Some ==> after.ipv6_global == block.ipv6_global
            &&& !v6 && block.ipv4 is None && n > 0 ==> after.ipv4 == Some(plain_address(locals[0]))
        }),
    decreases n,
{
    if n > 0 {
        lemma_addresses_fill_their_fields(block, locals, v6, n - 1);
        lemma_address_fills_its_field(
            with_addresses_to(block, locals, v6, n - 1),
            plain_address(locals[n - 1]),
            v6,
        );
    }
}

/// A record adds its flags, its state where none is known, and its addresses of one family.
pub proof fn lemma_record_adds_what_it_holds(block: IfBlockView, record: AddrRecordView, v6: bool)
    requires
        well_named(block),
    ensures
        ({
            let after = with_record(block, record, v6);
            &&& well_named(after)
            &&& after.name == block.name
            &&& after.flags == with_texts(block.flags, record.flags)
            &&& block.operstate.len() > 0 || record.operstate is None ==> after.operstate
                == block.operstate
            &&& block.operstate.len() == 0 ==> (record.operstate matches Some(state)
                ==> after.operstate == state)
            &&& v6 ==> after.ipv4 == block.ipv4
            &&& !v6 ==> after.ipv6_ll == block.ipv6_ll && after.ipv6_global == block.ipv6_global
            &&& block.ipv4 is Some ==> after.ipv4 == block.ipv4
            &&& block.ipv6_ll is Some ==> after.ipv6_ll == block.ipv6_ll
            &&& block.ipv6_global is Some ==> after.ipv6_global == block.ipv6_global
            &&& !v6 && block.ipv4 is None && record.locals.len() > 0 ==> after.ipv4 == Some(
                plain_address(record.locals[0]),
            )
        }),
{
    let flagged = IfBlockView {
        flags: with_texts(block.flags, record.flags),
        operstate: match record.operstate {
            Some(state) => if block.operstate.len() == 0 {
                state
            } else {
                block.operstate
            },
            None => block.operstate,
        },
        ..block
    };
    lemma_addresses_fill_their_fields(flagged, record.locals, v6, record.locals.len() as int);
}

/// The blocks of one family hold addresses of that family alone, each under its own name.
pub proof fn lemma_blocks_are_of_one_family(records: Seq<AddrRecordView>, v6: bool, n: int)
    requires
        0 <= n <= records.len(),
    ensures
        forall|i: int|
            0 <= i < blocks_to(records, v6, n).len() ==> {
                let block = #[trigger] blocks_to(records, v6, n)[i];
                &&& well_named(block)
                &&& v6 ==> block.ipv4 is None
                &&& !v6 ==> block.ipv6_ll is None && block.ipv6_global is None
            },
    decreases n,
{
    if n > 0 {
        lemma_blocks_are_of_one_family(records, v6, n - 1);
        let before = blocks_to(records, v6, n - 1);
        if let Some(name) = records[n - 1].ifname {
            let at = block_place(before, name, 0);
            lemma_place(before, name, 0);
            if at < before.len() {
                lemma_record_adds_what_it_holds(before[at], records[n - 1], v6);
            } else {
                lemma_record_adds_what_it_holds(
                    crate::nic::scan_linux::fresh_block(name),
                    records[n - 1],
                    v6,
                );
            }
        }
    }
}

proof fn lemma_place(blocks: Seq<IfBlockView>, name: Seq<char>, i: int)
    requires
        0 <= i <= blocks.len(),
    ensures
        ({
            let at = block_place(blocks, name, i);
            &&& i <= at <= blocks.len()
            &&& at < blocks.len() ==> blocks[at].name == name
            &&& forall|j: int| i <= j < at ==> (#[trigger] blocks[j]).name != name
        }),
    decreases blocks.len() - i,
{
    if i < blocks.len() && blocks[i].name != name {
        lemma_place(blocks, name, i + 1);
    }
}

/// A record with a name ends up in a block of that name, a record without one nowhere; all other
/// blocks stay.
pub proof fn lemma_record_goes_to_its_block(
    blocks: Seq<IfBlockView>,
    record: AddrRecordView,
    v6: bool,
)
    ensures
        ({
            let after = absorb(blocks, record, v6);
            &&& record.ifname is None ==> after == blocks
            &&& record.ifname matches Some(name) ==> {
                &&& exists|i: int| 0 <= i < after.len() && (#[trigger] after[i]).name == name
                &&& forall|i: int|
                    0 <= i < blocks.len() && (#[trigger] blocks[i]).name != name ==> after[i]
                        == blocks[i]
                &&& forall|i: int|
                    0 <= i < blocks.len() ==> (#[trigger] after[i]).name == blocks[i].name
                &&& (exists|i: int| 0 <= i < blocks.len() && (#[trigger] blocks[i]).name == name)
                    ==> after.len() == blocks.len()
                &&& (forall|i: int| 0 <= i < blocks.len() ==> (#[trigger] blocks[i]).name != name)
                    ==> after.len() == blocks.len() + 1
            }
        }),
{
    if let Some(name) = record.ifname {
        lemma_place(blocks, name, 0);
        let at = block_place(blocks, name, 0);
        let after = absorb(blocks, record, v6);
        if at < blocks.len() {
            lemma_record_keeps_the_name(blocks[at], record, v6);
            assert(after[at].name == name);
        } else {
            lemma_record_keeps_the_name(crate::nic::scan_linux::fresh_block(name), record, v6);
            assert(after[blocks.len() as int].name == name);
        }
    }
}

proof fn lemma_record_keeps_the_name(block: IfBlockView, record: AddrRecordView, v6: bool)
    ensures
        with_record(block, record, v6).name == block.name,
{
    let flagged = IfBlockView {
        flags: with_texts(block.flags, record.flags),
        operstate: match record.operstate {
            Some(state) => if block.operstate.len() == 0 {
                state
            } else {
                block.operstate
            },
            None => block.operstate,
        },
        ..block
    };
    lemma_addresses_keep_the_name(flagged, record.locals, v6, record.locals.len() as int);
}

proof fn lemma_addresses_keep_the_name(
    block: IfBlockView,
    locals: Seq<Seq<char>>,
    v6: bool,
    n: int,
)
    ensures
        with_addresses_to(block, locals, v6, n).name == block.name,
    decreases n,
{
    if n > 0 {
        lemma_addresses_keep_the_name(block, locals, v6, n - 1);
    }
}

/// What IPv6 adds to a block: addresses where none is known, and a state where none is.
pub proof fn lemma_second_family_fills_gaps(block: IfBlockView, other: IfBlockView)
    ensures
        ({
            let after = with_v6(block, other);
            &&& after.name == block.name
            &&& after.flags == block.flags
            &&& after.ipv4 == block.ipv4
            &&& block.ipv6_ll is Some ==> after.ipv6_ll == block.ipv6_ll
            &&& block.ipv6_ll is None ==> after.ipv6_ll == other.ipv6_ll
            &&& block.ipv6_global is Some ==> after.ipv6_global == block.ipv6_global
            &&& block.ipv6_global is None ==> after.ipv6_global == other.ipv6_global
            &&& block.operstate.len() > 0 ==> after.operstate == block.operstate
            &&& block.operstate.len() == 0 ==> after.operstate == other.operstate
            &&& well_named(block) && well_named(other) ==> well_named(after)
        }),
{
}

/// Bringing the families together keeps every block of the first in its place, with its name, its
/// flags and its IPv4 address.
pub proof fn lemma_merging_keeps_the_first_family(
    four: Seq<IfBlockView>,
    six: Seq<IfBlockView>,
    n: int,
)
    requires
        0 <= n <= six.len(),
        forall|i: int| 0 <= i < four.len() ==> well_named(#[trigger] four[i]),
        forall|i: int| 0 <= i < six.len() ==> well_named(#[trigger] six[i]),
    ensures
        ({
            let merged = merged_to(four, six, n);
            &&& four.len() <= merged.len()
            &&& forall|i: int| 0 <= i < merged.len() ==> well_named(#[trigger] merged[i])
            &&& forall|i: int|
                0 <= i < four.len() ==> {
                    &&& (#[trigger] merged[i]).name == four[i].name
                    &&& merged[i].flags == four[i].flags
                    &&& merged[i].ipv4 == four[i].ipv4
                }
            &&& forall|i: int|
                four.len() <= i < merged.len() ==> (#[trigger] merged[i]).flags.len() == 0
                    && merged[i].ipv4 is None
        }),
    decreases n,
{
    if n > 0 {
        lemma_merging_keeps_the_first_family(four, six, n - 1);
        lemma_place(merged_to(four, six, n - 1), six[n - 1].name, 0);
    }
}

/// The names of blocks differ.
pub open spec fn names_differ(blocks: Seq<IfBlockView>) -> bool {
    forall|i: int, j: int|
        0 <= i < j < blocks.len() ==> (#[trigger] blocks[i]).name != (#[trigger] blocks[j]).name
}

/// A block whose name both families know has the IPv6 addresses that the second knows of it.
pub proof fn lemma_merging_joins_by_name(
    four: Seq<IfBlockView>,
    six: Seq<IfBlockView>,
    n: int,
    i: int,
    j: int,
)
    requires
        0 <= j < n <= six.len(),
        0 <= i < four.len(),
        four[i].name == six[j].name,
        four[i].ipv6_ll is None,
        four[i].ipv6_global is None,
        names_differ(four),
        names_differ(six),
    ensures
        merged_to(four, six, n)[i].ipv6_ll == six[j].ipv6_ll,
        merged_to(four, six, n)[i].ipv6_global == six[j].ipv6_global,
    decreases n,
{
    lemma_merged_names(four, six, n - 1);
    let before = merged_to(four, six, n - 1);
    let other = six[n - 1];
    lemma_place(before, other.name, 0);
    let at = block_place(before, other.name, 0);
    if n - 1 == j {
        lemma_unmet_block_stays(four, six, n - 1, i);
        if at != i {
            assert(before[i].name == four[i].name);
            if at < i {
                assert(before[at].name != before[i].name);
            }
        }
    } else {
        lemma_merging_joins_by_name(four, six, n - 1, i, j);
        assert(six[j].name != other.name);
    }
}

proof fn lemma_merged_names(four: Seq<IfBlockView>, six: Seq<IfBlockView>, n: int)
    requires
        0 <= n <= six.len(),
        names_differ(four),
    ensures
        merged_to(four, six, n).len() >= four.len(),
        forall|i: int|
            0 <= i < four.len() ==> (#[trigger] merged_to(four, six, n)[i]).name == four[i].name,
        names_differ(merged_to(four, six, n)),
    decreases n,
{
    if n > 0 {
        lemma_merged_names(four, six, n - 1);
        lemma_place(merged_to(four, six, n - 1), six[n - 1].name, 0);
    }
}

proof fn lemma_unmet_block_stays(four: Seq<IfBlockView>, six: Seq<IfBlockView>, n: int, i: int)
    requires
        0 <= n < six.len(),
        0 <= i < four.len(),
        four[i].name == six[n].name,
        names_differ(four),
        names_differ(six),
    ensures
        merged_to(four, six, n)[i] == four[i],
{
    lemma_unmet_block_stays_to(four, six, n, i, six[n].name);
}

proof fn lemma_unmet_block_stays_to(
    four: Seq<IfBlockView>,
    six: Seq<IfBlockView>,
    n: int,
    i: int,
    name: Seq<char>,
)
    requires
        0 <= n <= six.len(),
        0 <= i < four.len(),
        four[i].name == name,
        names_differ(four),
        forall|j: int| 0 <= j < n ==> (#[trigger] six[j]).name != name,
    ensures
        merged_to(four, six, n).len() >= four.len(),
        merged_to(four, six, n)[i] == four[i],
    decreases n,
{
    if n > 0 {
        lemma_unmet_block_stays_to(four, six, n - 1, i, name);
        lemma_place(merged_to(four, six, n - 1), six[n - 1].name, 0);
    }
}

/// An interface has the addresses of a block, each under its own name.
pub open spec fn addressed_as(nic: NicInfoView, block: IfBlockView) -> bool {
    &&& nic.name == block.name
    &&& nic.zone == block.name
    &&& block.ipv4 == Some(nic.ipv4)
    &&& shows(block.ipv6_ll, nic.ipv6_ll)
    &&& shows(block.ipv6_global, nic.ipv6_global)
}

/// A block is one to list: not a loopback, up, not in the state `down`, with an address that the
/// prefixes admit.
pub open spec fn to_list(block: IfBlockView, prefixes: Seq<Seq<char>>) -> bool {
    &&& !begins(block.name, "lo"@)
    &&& exists|f: int| 0 <= f < block.flags.len() && #[trigger] block.flags[f] == "UP"@
    &&& !alike(block.operstate, "down"@)
    &&& block.ipv4 matches Some(ip) && prefix_matches(ip, prefixes)
}

/// An interface is wireless, as fast and on the band that its link says, and has the first gateway
/// that is listed for it.
pub open spec fn linked_by(
    nic: NicInfoView,
    gateways: Seq<GatewayView>,
    probes: Seq<LinkProbe>,
) -> bool {
    &&& forall|p: int|
        0 <= p < probes.len() && (#[trigger] probes[p]).name@ == nic.name && (forall|q: int|
            0 <= q < p ==> (#[trigger] probes[q]).name@ != nic.name) ==> {
            &&& nic.is_wifi == probes[p].is_wifi
            &&& nic.speed_mbps == speed_in_file(opt_text(probes[p].speed_file))
            &&& probes[p].is_wifi ==> (probes[p].iw_output matches Some(text) ==> nic.wifi_band
                == band_from(lines_of(text@), 0))
            &&& !probes[p].is_wifi || probes[p].iw_output is None ==> nic.wifi_band.len() == 0
        }
    &&& (forall|p: int| 0 <= p < probes.len() ==> (#[trigger] probes[p]).name@ != nic.name)
        ==> !nic.is_wifi && nic.speed_mbps == 0 && nic.wifi_band.len() == 0
    &&& nic.is_wifi ==> nic.description == "wireless"@
    &&& !nic.is_wifi ==> nic.description == "ethernet"@
    &&& forall|g: int|
        0 <= g < gateways.len() && (#[trigger] gateways[g]).dev == nic.name && (forall|i: int|
            0 <= i < g ==> (#[trigger] gateways[i]).dev != nic.name) ==> nic.gateway_v4
            == gateways[g].gateway
    &&& (forall|g: int| 0 <= g < gateways.len() ==> (#[trigger] gateways[g]).dev != nic.name)
        ==> nic.gateway_v4.len() == 0
}

proof fn lemma_first_probe(probes: Seq<LinkProbe>, name: Seq<char>, i: int, p: int)
    requires
        0 <= i <= p <= probes.len(),
        forall|q: int| i <= q < p ==> (#[trigger] probes[q]).name@ != name,
        p < probes.len() ==> probes[p].name@ == name,
    ensures
        p < probes.len() ==> link_of(probes, name, i) == link_of(probes, name, p),
        p == probes.len() ==> link_of(probes, name, i) == (false, 0u64, Seq::<char>::empty()),
    decreases p - i,
{
    if i < p {
        lemma_first_probe(probes, name, i + 1, p);
    }
}

proof fn lemma_first_gateway(gateways: Seq<GatewayView>, name: Seq<char>, i: int, g: int)
    requires
        0 <= i <= g <= gateways.len(),
        forall|q: int| i <= q < g ==> (#[trigger] gateways[q]).dev != name,
        g < gateways.len() ==> gateways[g].dev == name,
    ensures
        g < gateways.len() ==> gateway_for(gateways, name, i) == gateways[g].gateway,
        g == gateways.len() ==> gateway_for(gateways, name, i).len() == 0,
    decreases g - i,
{
    if i < g {
        lemma_first_gateway(gateways, name, i + 1, g);
    }
}

proof fn lemma_link_of_block(nic: NicInfoView, gateways: Seq<GatewayView>, probes: Seq<LinkProbe>)
    requires
        (nic.is_wifi, nic.speed_mbps, nic.wifi_band) == link_of(probes, nic.name, 0),
        nic.is_wifi ==> nic.description == "wireless"@,
        !nic.is_wifi ==> nic.description == "ethernet"@,
        nic.gateway_v4 == gateway_for(gateways, nic.name, 0),
    ensures
        linked_by(nic, gateways, probes),
{
    assert forall|p: int|
        0 <= p < probes.len() && (#[trigger] probes[p]).name@ == nic.name && (forall|q: int|
            0 <= q < p ==> (#[trigger] probes[q]).name@ != nic.name) implies {
        &&& nic.is_wifi == probes[p].is_wifi
        &&& nic.speed_mbps == speed_in_file(opt_text(probes[p].speed_file))
        &&& probes[p].is_wifi ==> (probes[p].iw_output matches Some(text) ==> nic.wifi_band
            == band_from(lines_of(text@), 0))
        &&& !probes[p].is_wifi || probes[p].iw_output is None ==> nic.wifi_band.len() == 0
    } by {
        lemma_first_probe(probes, nic.name, 0, p);
    }
    if forall|p: int| 0 <= p < probes.len() ==> (#[trigger] probes[p]).name@ != nic.name {
        lemma_first_probe(probes, nic.name, 0, probes.len() as int);
    }
    assert forall|g: int|
        0 <= g < gateways.len() && (#[trigger] gateways[g]).dev == nic.name && (forall|i: int|
            0 <= i < g ==> (#[trigger] gateways[i]).dev != nic.name) implies nic.gateway_v4
        == gateways[g].gateway by {
        lemma_first_gateway(gateways, nic.name, 0, g);
    }
    if forall|g: int| 0 <= g < gateways.len() ==> (#[trigger] gateways[g]).dev != nic.name {
        lemma_first_gateway(gateways, nic.name, 0, gateways.len() as int);
    }
}

/// A scan lists the interface of each block that is one to list and no other: the addresses are the
/// block's, each under its own name.
pub proof fn lemma_scan_lists_each_block(
    blocks: Seq<IfBlockView>,
    prefixes: Seq<Seq<char>>,
    gateways: Seq<GatewayView>,
    probes: Seq<LinkProbe>,
    n: int,
)
    requires
        0 <= n <= blocks.len(),
    ensures
        ({
            let listed = nics_to(blocks, prefixes, gateways, probes, n);
            &&& forall|k: int|
                0 <= k < listed.len() ==> {
                    &&& linked_by(#[trigger] listed[k], gateways, probes)
                    &&& listed[k].ifindex == 0
                    &&& listed[k].role == role_of(
                        listed[k].description,
                        listed[k].speed_mbps,
                        listed[k].is_wifi,
                        listed[k].wifi_band,
                    )
                    &&& exists|b: int|
                        0 <= b < n && to_list(#[trigger] blocks[b], prefixes) && addressed_as(
                            listed[k],
                            blocks[b],
                        )
                }
            &&& forall|b: int|
                0 <= b < n && to_list(#[trigger] blocks[b], prefixes) ==> exists|k: int|
                    0 <= k < listed.len() && addressed_as(#[trigger] listed[k], blocks[b])
        }),
    decreases n,
{
    if n > 0 {
        lemma_scan_lists_each_block(blocks, prefixes, gateways, probes, n - 1);
        let before = nics_to(blocks, prefixes, gateways, probes, n - 1);
        let listed = nics_to(blocks, prefixes, gateways, probes, n);
        let block = blocks[n - 1];
        assert forall|k: int| 0 <= k < listed.len() implies {
            &&& linked_by(#[trigger] listed[k], gateways, probes)
            &&& listed[k].ifindex == 0
            &&& listed[k].role == role_of(
                listed[k].description,
                listed[k].speed_mbps,
                listed[k].is_wifi,
                listed[k].wifi_band,
            )
            &&& exists|b: int|
                0 <= b < n && to_list(#[trigger] blocks[b], prefixes) && addressed_as(
                    listed[k],
                    blocks[b],
                )
        } by {
            if k < before.len() {
                assert(listed[k] == before[k]);
                let b = choose|b: int|
                    0 <= b < n - 1 && to_list(#[trigger] blocks[b], prefixes) && addressed_as(
                        before[k],
                        blocks[b],
                    );
                assert(0 <= b < n && to_list(blocks[b], prefixes));
            } else {
                let f = choose|f: int|
                    0 <= f < block.flags.len() && #[trigger] block.flags[f] == "UP"@;
                assert(to_list(blocks[n - 1], prefixes));
                assert(addressed_as(listed[k], blocks[n - 1]));
                lemma_link_of_block(listed[k], gateways, probes);
            }
        }
        assert forall|b: int| 0 <= b < n && to_list(#[trigger] blocks[b], prefixes) implies exists|
            k: int,
        |
            0 <= k < listed.len() && addressed_as(#[trigger] listed[k], blocks[b]) by {
            if b < n - 1 {
                let k = choose|k: int|
                    0 <= k < before.len() && addressed_as(#[trigger] before[k], blocks[b]);
                assert(listed[k] == before[k]);
                assert(addressed_as(listed[k], blocks[b]));
            } else {
                assert(block.flags.contains("UP"@));
                assert(addressed_as(listed[before.len() as int], blocks[b]));
            }
        }
    }
}

/// The gateways are those of the routes to `default` that give both a gateway and an interface.
pub proof fn lemma_gateways_are_of_default_routes(document: Seq<char>, n: int)
    requires
        0 < n,
    ensures
        ({
            let i = decimal((n - 1) as nat);
            let dst = json_text_at(document, ""@ + "/"@ + i + "/dst"@);
            let gateway = json_text_at(document, ""@ + "/"@ + i + "/gateway"@);
            let dev = json_text_at(document, ""@ + "/"@ + i + "/dev"@);
            let (before, after) = (gateways_to(document, n - 1), gateways_to(document, n));
            &&& dst == Some("default"@) && gateway is Some && dev is Some ==> after.len()
                == before.len() + 1 && after.last().gateway == gateway->0 && after.last().dev
                == dev->0 && after.drop_last() == before
            &&& dst != Some("default"@) || gateway is None || dev is None ==> after == before
        }),
{
    assert(gateways_to(document, n).len() > gateways_to(document, n - 1).len() ==> gateways_to(
        document,
        n,
    ).drop_last() =~= gateways_to(document, n - 1));
}

/// Records are read from where `ip -j addr` puts their fields.
pub proof fn lemma_records_are_read_in_place(document: Seq<char>, n: int)
    requires
        0 <= n,
    ensures
        records_to(document, n).len() == n,
        forall|k: int|
            0 <= k < n ==> {
                let record = #[trigger] records_to(document, n)[k];
                let at = ""@ + "/"@ + decimal(k as nat);
                &&& record.ifname == json_text_at(document, at + "/ifname"@)
                &&& record.operstate == json_text_at(document, at + "/operstate"@)
                &&& record.flags == field_texts(document, at + "/flags"@, ""@)
                &&& record.locals == field_texts(document, at + "/addr_info"@, "/local"@)
            },
        json_count_at(document, ""@) matches Some(count) ==> records_of(document).len() == count,
        json_count_at(document, ""@) is None ==> records_of(document).len() == 0,
    decreases n,
{
    if n > 0 {
        lemma_records_are_read_in_place(document, n - 1);
    }
    lemma_record_count(document, count_or_none(document, ""@) as int);
}

proof fn lemma_record_count(document: Seq<char>, n: int)
    requires
        0 <= n,
    ensures
        records_to(document, n).len() == n,
    decreases n,
{
    if n > 0 {
        lemma_record_count(document, n - 1);
    }
}

/// A line about a channel names its band by the first digit in brackets.
pub proof fn lemma_channel_names_its_band(line: Seq<char>)
    ensures
        ({
            let t = trimmed(line);
            let rest = t.skip(8);
            &&& !begins(t, "channel "@) ==> band_in_line(line) is None
            &&& begins(t, "channel "@) && has(rest, "(6"@) ==> band_in_line(line) == Some("6GHz"@)
            &&& begins(t, "channel "@) && has(rest, "(5"@) && !(has(rest, "(6"@)) ==> band_in_line(
                line,
            ) == Some("5GHz"@)
            &&& begins(t, "channel "@) && has(rest, "(2"@) && !(has(rest, "(6"@)) && !(has(
                rest,
                "(5"@,
            )) ==> band_in_line(line) == Some("2.4GHz"@)
            &&& !(has(rest, "(6"@)) && !(has(rest, "(5"@)) && !(has(rest, "(2"@)) ==> band_in_line(
                line,
            ) is None
        }),
{
    reveal_strlit("channel ");
}

/// The band is the one that the first line names which names one.
pub proof fn lemma_first_channel_counts(rows: Seq<Seq<char>>, i: int, at: int)
    requires
        0 <= i <= at <= rows.len(),
        forall|j: int| i <= j < at ==> band_in_line(#[trigger] rows[j]) is None,
        at < rows.len() ==> band_in_line(rows[at]) is Some,
    ensures
        at < rows.len() ==> Some(band_from(rows, i)) == band_in_line(rows[at]),
        at == rows.len() ==> band_from(rows, i).len() == 0,
    decreases at - i,
{
    if i < at {
        lemma_first_channel_counts(rows, i + 1, at);
    }
}

/// The speed is the number in the file; a file without one tells of none.
pub proof fn lemma_speed_is_the_number_in_the_file(content: Seq<char>, n: nat)
    ensures
        n <= i64::MAX && read_unsigned(trimmed(content), i64::MAX as nat) == Some(n)
            ==> speed_in_file(Some(content)) == n,
        read_unsigned(trimmed(content), i64::MAX as nat) is None ==> speed_in_file(Some(content))
            == 0,
        speed_in_file(None) == 0,
{
}

} // verus!
