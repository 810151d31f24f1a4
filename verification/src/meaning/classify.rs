//! Which role an interface is given, and how interfaces are ordered.
use vstd::prelude::*;
use vstd::string::*;
use crate::nic::classify::{rank_of, role_of, wifi_name};
use crate::nic::host::{nic_before, nic_row, padded, prefix_matches, row_extra, table_to};
use crate::protocol::{HostInfo, NicInfo, NicInfoView};
use crate::text::{begins, decimal, has, in_small, joined, text_before};

verus! {

/// A wireless interface has the role of its band, whatever its description and speed are.
pub proof fn lemma_wireless_role_is_its_band(description: Seq<char>, speed: u64, band: Seq<char>)
    ensures
        band == "5GHz"@ ==> role_of(description, speed, true, band) == "WIFI5G"@,
        band == "2.4GHz"@ ==> role_of(description, speed, true, band) == "WIFI2.4G"@,
        band == "6GHz"@ ==> role_of(description, speed, true, band) == "WIFI6G"@,
        band != "5GHz"@ && band != "2.4GHz"@ && band != "6GHz"@ ==> role_of(
            description,
            speed,
            true,
            band,
        ) == "WIFI"@,
{
    reveal_strlit("5GHz");
    reveal_strlit("2.4GHz");
    reveal_strlit("6GHz");
    assert("5GHz"@[0] == '5' && "2.4GHz"@[0] == '2' && "6GHz"@[0] == '6');
}

/// A wired interface that says of itself that it is a fast USB one, or a remote one, is that; any
/// other has the role of its speed, a fast one by whether it is a USB one.
pub proof fn lemma_wired_role_is_its_kind(description: Seq<char>, speed: u64, band: Seq<char>)
    ensures
        ({
            let text = in_small(description);
            let role = role_of(description, speed, false, band);
            let usb = has(text, "usb"@);
            let fast = has(text, "10g"@) && usb;
            let remote = has(text, "rndis"@) || has(text, "remote ndis"@);
            &&& fast ==> role == "10GUSB"@
            &&& remote && !fast ==> role == "RNDIS"@
            &&& !remote && !fast ==> {
                &&& 4001 <= speed <= 12_000 && usb ==> role == "10GUSB"@
                &&& 9_000 <= speed <= 12_000 && !usb ==> role == "10GETH"@
                &&& 4001 <= speed < 9_000 && !usb ==> role == "UNKNOWN"@
                &&& 3400 <= speed <= 4000 ==> role == "RNDIS"@
                &&& 2400 <= speed <= 2600 ==> role == "SGMII2.5G"@
                &&& 900 <= speed <= 1100 ==> role == "SGMII1G"@
                &&& speed < 900 || 1100 < speed < 2400 || 2600 < speed < 3400 || speed > 12_000
                    ==> role == "UNKNOWN"@
            }
        }),
{
}

/// A name sounds wireless by any of the words for it, whatever their case.
pub proof fn lemma_wireless_names(name: Seq<char>)
    ensures
        wifi_name(name) <==> has(in_small(name), "wi-fi"@) || has(in_small(name), "wifi"@) || has(
            in_small(name),
            "wireless"@,
        ) || has(in_small(name), "wlan"@) || has(in_small(name), "802.11"@) || has(name, "无线"@),
{
}

/// Roles come in the order from the fastest wired one to the unknown one, and an unheard-of role
/// behind all.
pub proof fn lemma_roles_have_their_order(role: Seq<char>)
    ensures
        rank_of("10GETH"@) < rank_of("10GUSB"@) < rank_of("SGMII2.5G"@) < rank_of("SGMII1G"@)
            < rank_of("RNDIS"@) < rank_of("WIFI5G"@) < rank_of("WIFI6G"@) < rank_of("WIFI2.4G"@)
            < rank_of("WIFI"@) < rank_of("UNKNOWN"@),
        rank_of(role) <= rank_of("UNKNOWN"@) <==> role == "10GETH"@ || role == "10GUSB"@ || role
            == "SGMII2.5G"@ || role == "SGMII1G"@ || role == "RNDIS"@ || role == "WIFI5G"@ || role
            == "WIFI6G"@ || role == "WIFI2.4G"@ || role == "WIFI"@ || role == "UNKNOWN"@,
{
    reveal_strlit("10GETH");
    reveal_strlit("10GUSB");
    reveal_strlit("SGMII2.5G");
    reveal_strlit("SGMII1G");
    reveal_strlit("RNDIS");
    reveal_strlit("WIFI5G");
    reveal_strlit("WIFI6G");
    reveal_strlit("WIFI2.4G");
    reveal_strlit("WIFI");
    reveal_strlit("UNKNOWN");
    assert("10GETH"@[3] == 'E' && "10GUSB"@[3] == 'U' && "10GETH"@.len() == 6 && "10GUSB"@.len()
        == 6);
    assert("SGMII2.5G"@.len() == 9 && "SGMII1G"@.len() == 7 && "RNDIS"@.len() == 5);
    assert("WIFI5G"@.len() == 6 && "WIFI6G"@.len() == 6 && "WIFI2.4G"@.len() == 8 && "WIFI"@.len()
        == 4);
    assert("WIFI5G"@[4] == '5' && "WIFI6G"@[4] == '6' && "WIFI5G"@[0] == 'W' && "WIFI6G"@[0]
        == 'W');
    assert("10GETH"@[0] == '1' && "10GUSB"@[0] == '1' && "SGMII1G"@[0] == 'S');
    assert("UNKNOWN"@.len() == 7 && "UNKNOWN"@[0] == 'U');
}

/// Interfaces are ordered by their roles, those of one role by their names.
pub proof fn lemma_interfaces_are_ordered_by_role(a: NicInfoView, b: NicInfoView)
    ensures
        rank_of(a.role) < rank_of(b.role) ==> nic_before(a, b) && !nic_before(b, a),
        rank_of(a.role) == rank_of(b.role) ==> (nic_before(a, b) <==> text_before(
            a.name,
            b.name,
            0,
        )),
{
}

/// An address is admitted by any prefix that it starts with, and by all where there is none; an
/// empty prefix admits nothing.
pub proof fn lemma_prefixes_admit(ip: Seq<char>, prefixes: Seq<Seq<char>>, prefix: Seq<char>)
    ensures
        prefixes.len() == 0 ==> prefix_matches(ip, prefixes),
        prefixes.len() > 0 ==> (prefix_matches(ip, prefixes.push(prefix)) <==> prefix_matches(
            ip,
            prefixes,
        ) || (prefix.len() > 0 && begins(ip, prefix))),
        prefix_matches(ip, seq![prefix]) <==> prefix.len() > 0 && begins(ip, prefix),
{
    let more = prefixes.push(prefix);
    if prefixes.len() > 0 && prefix_matches(ip, prefixes) {
        let i = choose|i: int|
            0 <= i < prefixes.len() && (#[trigger] prefixes[i]).len() > 0 && begins(ip, prefixes[i]);
        assert(more[i] == prefixes[i]);
    }
    if prefix.len() > 0 && begins(ip, prefix) {
        assert(more[prefixes.len() as int] == prefix);
        assert(seq![prefix][0] == prefix);
    }
    if prefix_matches(ip, more) {
        let i = choose|i: int|
            0 <= i < more.len() && (#[trigger] more[i]).len() > 0 && begins(ip, more[i]);
        if i < prefixes.len() {
            assert(prefixes[i] == more[i]);
        }
    }
    if prefix_matches(ip, seq![prefix]) {
        let one = seq![prefix];
        let i = choose|i: int|
            0 <= i < one.len() && (#[trigger] one[i]).len() > 0 && begins(ip, one[i]);
        assert(one[i] == prefix);
    }
}

/// What is shown of an interface besides its name is its speed, its band, its gateway and its
/// link-local address, in this order, each where it has one.
pub proof fn lemma_extras_are_shown_in_order(nic: NicInfo)
    ensures
        ({
            let extra = row_extra(nic);
            let speed = nic.speed_mbps > 0;
            let band = nic.wifi_band@.len() > 0;
            let gateway = nic.gateway_v4@.len() > 0;
            let local = nic.ipv6_ll@.len() > 0;
            &&& extra.contains(decimal(nic.speed_mbps as nat) + "Mbps"@) || !speed
            &&& extra.contains(nic.wifi_band@) || !band
            &&& extra.contains("gw:"@ + nic.gateway_v4@) || !gateway
            &&& extra.contains("v6:"@ + nic.ipv6_ll@) || !local
            &&& speed && band && gateway && local ==> extra == seq![
                decimal(nic.speed_mbps as nat) + "Mbps"@,
                nic.wifi_band@,
                "gw:"@ + nic.gateway_v4@,
                "v6:"@ + nic.ipv6_ll@,
            ]
            &&& !speed && !band && !gateway && !local ==> extra.len() == 0
        }),
{
    let extra = row_extra(nic);
    let a = crate::nic::host::said_if(
        nic.speed_mbps > 0,
        decimal(nic.speed_mbps as nat) + "Mbps"@,
    );
    let b = crate::nic::host::said_if(nic.wifi_band@.len() > 0, nic.wifi_band@);
    let c = crate::nic::host::said_if(nic.gateway_v4@.len() > 0, "gw:"@ + nic.gateway_v4@);
    let d = crate::nic::host::said_if(nic.ipv6_ll@.len() > 0, "v6:"@ + nic.ipv6_ll@);
    assert(extra == a + b + c + d);
    if a.len() > 0 {
        assert(extra[0] == a[0]);
    }
    if b.len() > 0 {
        assert(extra[a.len() as int] == b[0]);
    }
    if c.len() > 0 {
        assert(extra[(a.len() + b.len()) as int] == c[0]);
    }
    if d.len() > 0 {
        assert(extra[(a.len() + b.len() + c.len()) as int] == d[0]);
    }
}

/// A table of interfaces lists each on a row of its own behind the host's name and system.
pub proof fn lemma_table_lists_every_interface(side: Seq<char>, host: HostInfo, n: int)
    requires
        0 < n <= host.interfaces@.len(),
    ensures
        table_to(side, host, n) == table_to(side, host, n - 1) + nic_row(
            host.interfaces@[n - 1],
            n - 1,
        ),
        table_to(side, host, 0) == side + " "@ + host.hostname@ + " ("@ + host.os@ + ")：\n"@,
{
}

/// Whether a text fills a column: it is followed by spaces, and by as many as make up the width.
pub open spec fn fills(column: Seq<char>, text: Seq<char>, width: nat) -> bool {
    &&& column.len() == if text.len() < width {
        width
    } else {
        text.len()
    }
    &&& column.take(text.len() as int) == text
    &&& forall|i: int| text.len() <= i < column.len() ==> #[trigger] column[i] == ' '
}

/// A row of the table shows the number of the interface, counted from one, and then, in columns, its
/// role, its name and its address, and what else is known of it.
pub proof fn lemma_row_shows_the_interface(nic: NicInfo, i: int) -> (columns: (
    Seq<char>,
    Seq<char>,
    Seq<char>,
))
    ensures
        fills(columns.0, nic.role@, 10),
        fills(columns.1, nic.name@, 16),
        fills(columns.2, nic.ipv4@, 16),
        nic_row(nic, i) == "  ["@ + decimal((i + 1) as nat) + "] "@ + columns.0 + " "@ + columns.1
            + " "@ + columns.2 + " "@ + joined(row_extra(nic), " | "@) + "\n"@,
{
    let columns = (padded(nic.role@, 10), padded(nic.name@, 16), padded(nic.ipv4@, 16));
    assert(columns.0.take(nic.role@.len() as int) =~= nic.role@);
    assert(columns.1.take(nic.name@.len() as int) =~= nic.name@);
    assert(columns.2.take(nic.ipv4@.len() as int) =~= nic.ipv4@);
    columns
}

} // verus!
