//! Interfaces as macOS lists them: `ifconfig`, `networksetup`, `system_profiler` and `route`.
use vstd::prelude::*;
use vstd::string::*;
use crate::address::{is_ipv4, is_ipv4_text};
use crate::nic::classify::{classify_role, rank_of, role_of, ROLE_COUNT};
use crate::nic::host::{ipv4_match, prefix_matches};
use crate::nic::scan_linux::{before_char, is_global, part_before};
use crate::pattern::{captures, group_of, matches_of, Captures};
use crate::protocol::{NicInfo, NicInfoView};
use crate::text::{
    begins, contains, group_views, has, in_small, lines, lines_of, opt_text, or_empty, owned,
    parse_unsigned, read_unsigned, same, starts_with, strip_prefix, text_or_empty, texts, to_lower,
    trim, trimmed, views, words, words_of,
};

verus! {

// ---------------------------------------------------------------------------
// Addresses
// ---------------------------------------------------------------------------

/// What `ifconfig` says of an interface.
#[derive(Debug, Default)]
pub struct Block {
    pub name: String,
    pub ipv4: Option<String>,
    pub ipv6_ll: Option<String>,
    pub ipv6_global: Option<String>,
    pub inactive: bool,
}

/// What a [`Block`] holds.
pub ghost struct BlockView {
    pub name: Seq<char>,
    pub ipv4: Option<Seq<char>>,
    pub ipv6_ll: Option<Seq<char>>,
    pub ipv6_global: Option<Seq<char>>,
    pub inactive: bool,
}

impl View for Block {
    type V = BlockView;

    open spec fn view(&self) -> BlockView {
        BlockView {
            name: self.name@,
            ipv4: opt_text(self.ipv4),
            ipv6_ll: opt_text(self.ipv6_ll),
            ipv6_global: opt_text(self.ipv6_global),
            inactive: self.inactive,
        }
    }
}

/// The first word of a text, empty where there is none.
pub open spec fn first_word(s: Seq<char>) -> Seq<char> {
    if words_of(s).len() > 0 {
        words_of(s)[0]
    } else {
        Seq::empty()
    }
}

/// The first word of a text, empty where there is none.
pub fn first_word_of(s: &str) -> (r: String)
    ensures
        r@ == first_word(s@),
{
    let all = words(s);
    let ghost shown = words_of(s@);
    assert(shown.len() == all@.len());
    if all.len() > 0 {
        assert(shown[0] == all@[0]@);
        return all[0].clone();
    }
    let r = String::new();
    assert(r@ =~= Seq::<char>::empty());
    r
}

/// Whether a line of `ifconfig` starts an interface.
pub open spec fn is_head(line: Seq<char>) -> bool {
    !begins(line, " "@) && !begins(line, "\t"@) && has(line, ": flags="@)
}

/// A block of which only the name is known.
pub open spec fn named_block(line: Seq<char>) -> BlockView {
    BlockView {
        name: trimmed(before_char(line, ':')),
        ipv4: None,
        ipv6_ll: None,
        ipv6_global: None,
        inactive: false,
    }
}

/// A block with an IPv6 address in small letters: the first of each sort stays.
pub open spec fn with_ipv6(block: BlockView, low: Seq<char>) -> BlockView {
    if begins(low, "fe80"@) {
        if block.ipv6_ll is None {
            BlockView { ipv6_ll: Some(before_char(low, '%')), ..block }
        } else {
            block
        }
    } else if is_global(low) && block.ipv6_global is None {
        BlockView { ipv6_global: Some(before_char(low, '%')), ..block }
    } else {
        block
    }
}

/// A block with what a line says: the first address of each sort stays, the last status counts.
pub open spec fn with_line(block: BlockView, line: Seq<char>) -> BlockView {
    let t = trimmed(line);
    if begins(t, "inet "@) {
        let ip = first_word(t.skip("inet "@.len() as int));
        if block.ipv4 is None && ip.len() > 0 {
            BlockView { ipv4: Some(ip), ..block }
        } else {
            block
        }
    } else if begins(t, "inet6 "@) {
        with_ipv6(block, in_small(first_word(t.skip("inet6 "@.len() as int))))
    } else if begins(t, "status:"@) {
        BlockView { inactive: has(t, "inactive"@), ..block }
    } else {
        block
    }
}

/// The blocks in the first `n` lines of `ifconfig`. Lines before the first interface say nothing.
pub open spec fn ifconfig_to(rows: Seq<Seq<char>>, n: int) -> Seq<BlockView>
    decreases n,
{
    if n <= 0 {
        Seq::empty()
    } else {
        let before = ifconfig_to(rows, n - 1);
        let line = rows[n - 1];
        if is_head(line) {
            before.push(named_block(line))
        } else if before.len() > 0 {
            before.update(before.len() - 1, with_line(before.last(), line))
        } else {
            before
        }
    }
}

impl Block {
    /// Adds an IPv6 address in small letters: the first of each sort stays.
    pub fn add_ipv6(&mut self, low: &str)
        ensures
            final(self)@ == with_ipv6(old(self)@, low@),
    {
        if starts_with(low, "fe80") {
            if self.ipv6_ll.is_none() {
                self.ipv6_ll = Some(part_before(low, '%'));
            }
        } else if (starts_with(low, "2") || starts_with(low, "3")) && self.ipv6_global.is_none() {
            self.ipv6_global = Some(part_before(low, '%'));
        }
    }

    /// Adds what a line says.
    pub fn add_line(&mut self, line: &str)
        ensures
            final(self)@ == with_line(old(self)@, line@),
    {
        let t = trim(line);
        if let Some(rest) = strip_prefix(t, "inet ") {
            let ip = first_word_of(rest);
            if self.ipv4.is_none() && !ip.as_str().is_empty() {
                self.ipv4 = Some(ip);
            }
        } else if let Some(rest) = strip_prefix(t, "inet6 ") {
            let word = first_word_of(rest);
            let low = to_lower(word.as_str());
            self.add_ipv6(low.as_str());
        } else if starts_with(t, "status:") {
            self.inactive = contains(t, "inactive");
        }
    }
}

/// The interfaces in the output of `ifconfig`.
pub fn parse_ifconfig(text: &str) -> (r: Vec<Block>)
    ensures
        views(r@) == ifconfig_to(lines_of(text@), lines_of(text@).len() as int),
{
    broadcast use group_views;

    let rows = lines(text);
    let ghost all = lines_of(text@);
    assert(all.len() == rows@.len());
    let mut r: Vec<Block> = Vec::new();
    let mut i: usize = 0;
    while i < rows.len()
        invariant
            i <= rows@.len(),
            all == texts(rows@),
            all.len() == rows@.len(),
            views(r@) == ifconfig_to(all, i as int),
        decreases rows@.len() - i,
    {
        assert(all[i as int] == rows@[i as int]@);
        let line = rows[i].as_str();
        let ghost before = views(r@);
        assert(before.len() == r@.len());
        if !starts_with(line, " ") && !starts_with(line, "\t") && contains(line, ": flags=") {
            let head = part_before(line, ':');
            let block = Block {
                name: owned(trim(head.as_str())),
                ipv4: None,
                ipv6_ll: None,
                ipv6_global: None,
                inactive: false,
            };
            r.push(block);
        } else {
            match r.pop() {
                Some(last) => {
                    let mut block = last;
                    block.add_line(line);
                    let ghost after = block@;
                    assert(before.last() == last@);
                    r.push(block);
                    assert(views(r@) =~= before.update(before.len() - 1, after));
                },
                None => {},
            }
        }
        i += 1;
    }
    r
}

// ---------------------------------------------------------------------------
// Ports
// ---------------------------------------------------------------------------

/// The hardware port of a device.
#[derive(Debug, Default)]
pub struct Port {
    pub device: String,
    pub port: String,
}

/// What a [`Port`] holds.
pub ghost struct PortView {
    pub device: Seq<char>,
    pub port: Seq<char>,
}

impl View for Port {
    type V = PortView;

    open spec fn view(&self) -> PortView {
        PortView { device: self.device@, port: self.port@ }
    }
}

/// The port named last in the first `n` lines of `networksetup`, and the devices of those before.
pub open spec fn ports_to(rows: Seq<Seq<char>>, n: int) -> (Seq<char>, Seq<PortView>)
    decreases n,
{
    if n <= 0 {
        (Seq::empty(), Seq::empty())
    } else {
        let (port, list) = ports_to(rows, n - 1);
        let t = trimmed(rows[n - 1]);
        if begins(t, "Hardware Port:"@) {
            (trimmed(t.skip("Hardware Port:"@.len() as int)), list)
        } else if begins(t, "Device:"@) {
            (
                port,
                list.push(PortView { device: trimmed(t.skip("Device:"@.len() as int)), port }),
            )
        } else {
            (port, list)
        }
    }
}

/// The devices in the output of `networksetup -listallhardwareports`, each with its port.
pub fn hardware_ports(text: &str) -> (r: Vec<Port>)
    ensures
        views(r@) == ports_to(lines_of(text@), lines_of(text@).len() as int).1,
{
    broadcast use group_views;

    let rows = lines(text);
    let ghost all = lines_of(text@);
    assert(all.len() == rows@.len());
    let mut r: Vec<Port> = Vec::new();
    let mut port = String::new();
    assert(port@ =~= Seq::<char>::empty());
    let mut i: usize = 0;
    while i < rows.len()
        invariant
            i <= rows@.len(),
            all == texts(rows@),
            all.len() == rows@.len(),
            (port@, views(r@)) == ports_to(all, i as int),
        decreases rows@.len() - i,
    {
        assert(all[i as int] == rows@[i as int]@);
        let t = trim(rows[i].as_str());
        if let Some(p) = strip_prefix(t, "Hardware Port:") {
            port = owned(trim(p));
        } else if let Some(d) = strip_prefix(t, "Device:") {
            r.push(Port { device: owned(trim(d)), port: port.clone() });
        }
        i += 1;
    }
    r
}

/// The port of a device among the first `n`, the last that is listed; empty where none is.
pub open spec fn port_of(list: Seq<PortView>, device: Seq<char>, n: int) -> Seq<char>
    decreases n,
{
    if n <= 0 || n > list.len() {
        Seq::empty()
    } else if list[n - 1].device == device {
        list[n - 1].port
    } else {
        port_of(list, device, n - 1)
    }
}

/// The port of a device, the last that is listed; empty where none is.
pub fn find_port(list: &Vec<Port>, device: &str) -> (r: String)
    ensures
        r@ == port_of(views(list@), device@, list@.len() as int),
{
    let ghost all = views(list@);
    assert(all.len() == list@.len());
    let mut n: usize = list.len();
    while n > 0
        invariant
            n <= list@.len(),
            all == views(list@),
            all.len() == list@.len(),
            port_of(all, device@, list@.len() as int) == port_of(all, device@, n as int),
        decreases n,
    {
        assert(all[n - 1] == list@[n - 1]@);
        if same(list[n - 1].device.as_str(), device) {
            return list[n - 1].port.clone();
        }
        n -= 1;
    }
    let r = String::new();
    assert(r@ =~= Seq::<char>::empty());
    r
}

/// Whether a port is a Wi-Fi one.
pub open spec fn wifi_port(port: Seq<char>) -> bool {
    has(port, "Wi-Fi"@) || has(port, "AirPort"@)
}

/// Whether a port is a Wi-Fi one.
pub fn is_wifi_port(port: &str) -> (r: bool)
    ensures
        r == wifi_port(port@),
{
    contains(port, "Wi-Fi") || contains(port, "AirPort")
}

// ---------------------------------------------------------------------------
// Speed, band and gateway
// ---------------------------------------------------------------------------

/// What finds a speed among the media that `ifconfig -m` lists.
pub const MEDIA_PATTERN: &'static str = "\\((\\d+)(G?)[Bb]ase";

/// The speed in megabits of one medium: a number of megabits or, with a `G` behind it, of gigabits.
/// The product wraps at 64 bits.
pub open spec fn medium_speed(found: Seq<Option<Seq<char>>>) -> u64 {
    let number = match read_unsigned(group_of(found, 1), u64::MAX as nat) {
        Some(n) => n as u64,
        None => 0,
    };
    if group_of(found, 2) == "G"@ {
        number.wrapping_mul(1000)
    } else {
        number
    }
}

/// The highest speed among the first `n` media.
pub open spec fn best_speed_to(found: Seq<Seq<Option<Seq<char>>>>, n: int) -> u64
    decreases n,
{
    if n <= 0 {
        0
    } else {
        let before = best_speed_to(found, n - 1);
        if medium_speed(found[n - 1]) > before {
            medium_speed(found[n - 1])
        } else {
            before
        }
    }
}

/// The highest speed among media.
pub fn best_speed(found: &Vec<Captures>) -> (r: u64)
    ensures
        r == best_speed_to(views(found@), found@.len() as int),
{
    let ghost all = views(found@);
    let mut best: u64 = 0;
    let mut i: usize = 0;
    while i < found.len()
        invariant
            i <= found@.len(),
            all == views(found@),
            best == best_speed_to(all, i as int),
        decreases found@.len() - i,
    {
        assert(all[i as int] == found@[i as int]@);
        let digits = found[i].group(1);
        let unit = found[i].group(2);
        let number: u64 = match parse_unsigned(digits.as_str(), u64::MAX) {
            Some(n) => n,
            None => 0,
        };
        let speed: u64 = if same(unit.as_str(), "G") {
            number.wrapping_mul(1000)
        } else {
            number
        };
        if speed > best {
            best = speed;
        }
        i += 1;
    }
    best
}

/// The highest speed that is listed is as high as each.
pub proof fn lemma_best_speed_is_highest(found: Seq<Seq<Option<Seq<char>>>>, n: int, k: int)
    requires
        0 <= k < n <= found.len(),
    ensures
        best_speed_to(found, n) >= medium_speed(found[k]),
    decreases n,
{
    if k < n - 1 {
        lemma_best_speed_is_highest(found, n - 1, k);
    }
}

/// The highest speed in the output of `ifconfig -m`; zero where there is none.
pub open spec fn speed_in(text: Seq<char>) -> u64 {
    let found = matches_of(MEDIA_PATTERN@, text);
    best_speed_to(found, found.len() as int)
}

/// Looks for a speed in the output of `ifconfig -m`: the highest, and whether to ask again. A speed
/// that is still being negotiated is asked for at most three times.
pub fn probe_speed(text: &str, attempt: u32) -> (r: (u64, bool))
    ensures
        r.0 == speed_in(text@),
        r.1 == (r.0 == 0 && attempt < 2),
{
    let found = captures(MEDIA_PATTERN, text);
    let ghost all = matches_of(MEDIA_PATTERN@, text@);
    assert(all.len() == found@.len());
    let best: u64 = best_speed(&found);
    (best, best == 0 && attempt < 2)
}

/// What `system_profiler` says of the network in use: its band and its rate, as it spells that.
pub ghost struct AirportView {
    pub in_current: bool,
    pub done: bool,
    pub band: Seq<char>,
    pub rate: Option<Seq<char>>,
}

/// The band that a line about the channel tells, else what it was.
pub open spec fn channel_band(line: Seq<char>, before: Seq<char>) -> Seq<char> {
    if has(line, "5GHz"@) {
        "5GHz"@
    } else if has(line, "2.4GHz"@) || has(line, "2,4GHz"@) {
        "2.4GHz"@
    } else if has(line, "6GHz"@) {
        "6GHz"@
    } else {
        before
    }
}

/// What the first `n` lines of `system_profiler` say. Only what stands between the network in use
/// and the others counts.
pub open spec fn airport_to(rows: Seq<Seq<char>>, n: int) -> AirportView
    decreases n,
{
    if n <= 0 {
        AirportView { in_current: false, done: false, band: Seq::empty(), rate: None }
    } else {
        let before = airport_to(rows, n - 1);
        let t = trimmed(rows[n - 1]);
        if before.done {
            before
        } else if begins(t, "Current Network Information:"@) {
            AirportView { in_current: true, ..before }
        } else if !before.in_current {
            before
        } else if begins(t, "Channel:"@) {
            AirportView { band: channel_band(t, before.band), ..before }
        } else if begins(t, "Transmit Rate:"@) {
            AirportView { rate: Some(trimmed(t.skip("Transmit Rate:"@.len() as int))), ..before }
        } else if begins(t, "Other Local Wi-Fi Networks:"@) {
            AirportView { done: true, ..before }
        } else {
            before
        }
    }
}

/// The band and the rate of the network in use, in the output of `system_profiler`; the rate as it
/// is spelled there.
pub fn airport_info(text: &str) -> (r: (String, Option<String>))
    ensures
        r.0@ == airport_to(lines_of(text@), lines_of(text@).len() as int).band,
        opt_text(r.1) == airport_to(lines_of(text@), lines_of(text@).len() as int).rate,
{
    let rows = lines(text);
    let ghost all = lines_of(text@);
    assert(all.len() == rows@.len());
    let mut band = String::new();
    assert(band@ =~= Seq::<char>::empty());
    let mut rate: Option<String> = None;
    let mut in_current = false;
    let mut done = false;
    let mut i: usize = 0;
    while i < rows.len()
        invariant
            i <= rows@.len(),
            all == texts(rows@),
            all.len() == rows@.len(),
            airport_to(all, i as int) == (AirportView {
                in_current,
                done,
                band: band@,
                rate: opt_text(rate),
            }),
        decreases rows@.len() - i,
    {
        assert(all[i as int] == rows@[i as int]@);
        let t = trim(rows[i].as_str());
        if !done {
            if starts_with(t, "Current Network Information:") {
                in_current = true;
            } else if in_current {
                if starts_with(t, "Channel:") {
                    if contains(t, "5GHz") {
                        band = owned("5GHz");
                    } else if contains(t, "2.4GHz") || contains(t, "2,4GHz") {
                        band = owned("2.4GHz");
                    } else if contains(t, "6GHz") {
                        band = owned("6GHz");
                    }
                } else if let Some(spelled) = strip_prefix(t, "Transmit Rate:") {
                    rate = Some(owned(trim(spelled)));
                } else if starts_with(t, "Other Local Wi-Fi Networks:") {
                    done = true;
                }
            }
        }
        i += 1;
    }
    (band, rate)
}

/// The gateway that a line of `route` tells.
pub open spec fn gateway_in_line(line: Seq<char>) -> Option<Seq<char>> {
    let t = trimmed(line);
    let spelled = trimmed(t.skip("gateway:"@.len() as int));
    if begins(t, "gateway:"@) && is_ipv4(spelled) && spelled != "0.0.0.0"@ {
        Some(spelled)
    } else {
        None
    }
}

/// The gateway that the lines of `route` tell, from line `i` on; empty where none does.
pub open spec fn gateway_from(rows: Seq<Seq<char>>, i: int) -> Seq<char>
    decreases rows.len() - i,
{
    if i < 0 || i >= rows.len() {
        Seq::empty()
    } else {
        match gateway_in_line(rows[i]) {
            Some(gateway) => gateway,
            None => gateway_from(rows, i + 1),
        }
    }
}

/// The gateway in the output of `route -n get`; empty where there is no IPv4 one.
pub fn parse_route_gateway_v4(text: &str) -> (r: String)
    ensures
        r@ == gateway_from(lines_of(text@), 0),
{
    let rows = lines(text);
    let ghost all = lines_of(text@);
    assert(all.len() == rows@.len());
    let mut i: usize = 0;
    while i < rows.len()
        invariant
            i <= rows@.len(),
            all == texts(rows@),
            all == lines_of(text@),
            all.len() == rows@.len(),
            gateway_from(all, 0) == gateway_from(all, i as int),
        decreases rows@.len() - i,
    {
        assert(all[i as int] == rows@[i as int]@);
        if let Some(rest) = strip_prefix(trim(rows[i].as_str()), "gateway:") {
            let spelled = trim(rest);
            if is_ipv4_text(spelled) && !same(spelled, "0.0.0.0") {
                return owned(spelled);
            }
        }
        i += 1;
    }
    let r = String::new();
    assert(r@ =~= Seq::<char>::empty());
    r
}

// ---------------------------------------------------------------------------
// The scan
// ---------------------------------------------------------------------------

/// What the system says of one interface.
#[derive(Debug, Default)]
pub struct Probe {
    pub name: String,
    /// The speed that was found for it; zero where none was.
    pub speed_mbps: u64,
    /// What `route -n get` prints for it, where that succeeds.
    pub route_output: Option<String>,
}

/// Whether an interface is to be listed: not the loopback, active, with an IPv4 address that the
/// prefixes admit.
pub open spec fn is_candidate(block: BlockView, prefixes: Seq<Seq<char>>) -> bool {
    block.name != "lo0"@ && !block.inactive && match block.ipv4 {
        Some(ip) => prefix_matches(ip, prefixes),
        None => false,
    }
}

/// Whether an interface is to be listed.
pub fn lists_candidate(block: &Block, prefixes: &Vec<String>) -> (r: bool)
    ensures
        r == is_candidate(block@, texts(prefixes@)),
{
    if same(block.name.as_str(), "lo0") || block.inactive {
        return false;
    }
    match &block.ipv4 {
        Some(ip) => ipv4_match(ip.as_str(), prefixes),
        None => false,
    }
}

/// Whether one of the interfaces to be listed is a Wi-Fi one.
pub open spec fn any_wifi(
    blocks: Seq<BlockView>,
    ports: Seq<PortView>,
    prefixes: Seq<Seq<char>>,
) -> bool {
    exists|i: int|
        0 <= i < blocks.len() && is_candidate(#[trigger] blocks[i], prefixes) && wifi_port(
            port_of(ports, blocks[i].name, ports.len() as int),
        )
}

/// Whether one of the interfaces to be listed is a Wi-Fi one, so that it is worth the time to ask
/// `system_profiler`.
pub fn wants_airport(blocks: &Vec<Block>, ports: &Vec<Port>, prefixes: &Vec<String>) -> (r: bool)
    ensures
        r == any_wifi(views(blocks@), views(ports@), texts(prefixes@)),
{
    let ghost all = views(blocks@);
    let ghost list = views(ports@);
    assert(all.len() == blocks@.len() && list.len() == ports@.len());
    let mut i: usize = 0;
    while i < blocks.len()
        invariant
            i <= blocks@.len(),
            all == views(blocks@),
            all.len() == blocks@.len(),
            list == views(ports@),
            list.len() == ports@.len(),
            forall|k: int|
                0 <= k < i ==> !(is_candidate(#[trigger] all[k], texts(prefixes@)) && wifi_port(
                    port_of(list, all[k].name, list.len() as int),
                )),
        decreases blocks@.len() - i,
    {
        assert(all[i as int] == blocks@[i as int]@);
        if lists_candidate(&blocks[i], prefixes) {
            let port = find_port(ports, blocks[i].name.as_str());
            if is_wifi_port(port.as_str()) {
                return true;
            }
        }
        i += 1;
    }
    false
}

/// The speed and the gateway that were found for an interface, from index `i` on.
pub open spec fn probed(probes: Seq<Probe>, name: Seq<char>, i: int) -> (u64, Seq<char>)
    decreases probes.len() - i,
{
    if i < 0 || i >= probes.len() {
        (0, Seq::empty())
    } else if probes[i].name@ == name {
        (
            probes[i].speed_mbps,
            match opt_text(probes[i].route_output) {
                Some(text) => gateway_from(lines_of(text), 0),
                None => Seq::empty(),
            },
        )
    } else {
        probed(probes, name, i + 1)
    }
}

/// The speed and the gateway that were found for an interface.
pub fn find_probe(probes: &Vec<Probe>, name: &str) -> (r: (u64, String))
    ensures
        (r.0, r.1@) == probed(probes@, name@, 0),
{
    let mut i: usize = 0;
    while i < probes.len()
        invariant
            i <= probes@.len(),
            probed(probes@, name@, 0) == probed(probes@, name@, i as int),
        decreases probes@.len() - i,
    {
        if same(probes[i].name.as_str(), name) {
            let gateway = match &probes[i].route_output {
                Some(text) => parse_route_gateway_v4(text.as_str()),
                None => {
                    let r = String::new();
                    assert(r@ =~= Seq::<char>::empty());
                    r
                },
            };
            return (probes[i].speed_mbps, gateway);
        }
        i += 1;
    }
    let r = String::new();
    assert(r@ =~= Seq::<char>::empty());
    (0, r)
}

/// A block as an interface.
pub open spec fn nic_of_block(
    block: BlockView,
    port: Seq<char>,
    airport: (Seq<char>, u64),
    found: (u64, Seq<char>),
) -> NicInfoView {
    let is_wifi = wifi_port(port);
    let speed = if is_wifi {
        airport.1
    } else {
        found.0
    };
    let band = if is_wifi {
        airport.0
    } else {
        Seq::empty()
    };
    NicInfoView {
        name: block.name,
        description: port,
        role: role_of(port, speed, is_wifi, band),
        ipv4: or_empty(block.ipv4),
        gateway_v4: found.1,
        ipv6_ll: or_empty(block.ipv6_ll),
        ipv6_global: or_empty(block.ipv6_global),
        zone: block.name,
        speed_mbps: speed,
        is_wifi,
        wifi_band: band,
        ifindex: 0,
    }
}

/// The interfaces that the first `n` blocks make.
pub open spec fn nics_to(
    blocks: Seq<BlockView>,
    ports: Seq<PortView>,
    prefixes: Seq<Seq<char>>,
    airport: (Seq<char>, u64),
    probes: Seq<Probe>,
    n: int,
) -> Seq<NicInfoView>
    decreases n,
{
    if n <= 0 {
        Seq::empty()
    } else {
        let before = nics_to(blocks, ports, prefixes, airport, probes, n - 1);
        let block = blocks[n - 1];
        if is_candidate(block, prefixes) {
            before.push(
                nic_of_block(
                    block,
                    port_of(ports, block.name, ports.len() as int),
                    airport,
                    probed(probes, block.name, 0),
                ),
            )
        } else {
            before
        }
    }
}

/// The interfaces of a macOS host, from what `ifconfig -a` and `networksetup` print, the band and the
/// rate of the Wi-Fi network in use, and what was found for each interface.
pub fn scan_all(
    prefixes: &Vec<String>,
    ifconfig: &str,
    hardware: &str,
    wifi_band: &str,
    wifi_rate: u64,
    probes: &Vec<Probe>,
) -> (r: Vec<NicInfo>)
    ensures
        views(r@) == nics_to(
            ifconfig_to(lines_of(ifconfig@), lines_of(ifconfig@).len() as int),
            ports_to(lines_of(hardware@), lines_of(hardware@).len() as int).1,
            texts(prefixes@),
            (wifi_band@, wifi_rate),
            probes@,
            ifconfig_to(lines_of(ifconfig@), lines_of(ifconfig@).len() as int).len() as int,
        ),
{
    broadcast use group_views;

    let blocks = parse_ifconfig(ifconfig);
    let ports = hardware_ports(hardware);
    let ghost all = views(blocks@);
    let ghost list = views(ports@);
    assert(all.len() == blocks@.len() && list.len() == ports@.len());
    let mut r: Vec<NicInfo> = Vec::new();
    let mut i: usize = 0;
    while i < blocks.len()
        invariant
            i <= blocks@.len(),
            all == views(blocks@),
            all.len() == blocks@.len(),
            list == views(ports@),
            list.len() == ports@.len(),
            views(r@) == nics_to(
                all,
                list,
                texts(prefixes@),
                (wifi_band@, wifi_rate),
                probes@,
                i as int,
            ),
        decreases blocks@.len() - i,
    {
        assert(all[i as int] == blocks@[i as int]@);
        let block = &blocks[i];
        if lists_candidate(block, prefixes) {
            let port = find_port(&ports, block.name.as_str());
            let is_wifi = is_wifi_port(port.as_str());
            let (wired_speed, gateway) = find_probe(probes, block.name.as_str());
            let speed: u64 = if is_wifi {
                wifi_rate
            } else {
                wired_speed
            };
            let band = if is_wifi {
                owned(wifi_band)
            } else {
                let r = String::new();
                assert(r@ =~= Seq::<char>::empty());
                r
            };
            let role = classify_role(port.as_str(), speed, is_wifi, band.as_str());
            r.push(
                NicInfo {
                    name: block.name.clone(),
                    description: port,
                    role,
                    ipv4: text_or_empty(&block.ipv4),
                    gateway_v4: gateway,
                    ipv6_ll: text_or_empty(&block.ipv6_ll),
                    ipv6_global: text_or_empty(&block.ipv6_global),
                    zone: block.name.clone(),
                    speed_mbps: speed,
                    is_wifi,
                    wifi_band: band,
                    ifindex: 0,
                },
            );
        }
        i += 1;
    }
    r
}

/// Every interface that a scan lists is one of a block that is active and not the loopback, has an
/// address that the prefixes admit, and the role that its port, speed and band tell.
pub proof fn lemma_scan_lists_only_admitted(
    blocks: Seq<BlockView>,
    ports: Seq<PortView>,
    prefixes: Seq<Seq<char>>,
    airport: (Seq<char>, u64),
    probes: Seq<Probe>,
    n: int,
    k: int,
)
    requires
        0 <= n <= blocks.len(),
        0 <= k < nics_to(blocks, ports, prefixes, airport, probes, n).len(),
    ensures
        ({
            let nic = nics_to(blocks, ports, prefixes, airport, probes, n)[k];
            &&& prefix_matches(nic.ipv4, prefixes)
            &&& nic.name != "lo0"@
            &&& exists|b: int|
                0 <= b < n && is_candidate(#[trigger] blocks[b], prefixes) && blocks[b].name
                    == nic.name
            &&& nic.role == role_of(nic.description, nic.speed_mbps, nic.is_wifi, nic.wifi_band)
            &&& rank_of(nic.role) < ROLE_COUNT
        }),
    decreases n,
{
    if n > 0 {
        let before = nics_to(blocks, ports, prefixes, airport, probes, n - 1);
        if k < before.len() {
            lemma_scan_lists_only_admitted(blocks, ports, prefixes, airport, probes, n - 1, k);
        } else {
            assert(is_candidate(blocks[n - 1], prefixes));
        }
    }
}

} // verus!
