//! From a configuration back to the rows of the matrix.
use vstd::prelude::*;
use vstd::string::*;
use crate::config::{Config, NicProfile, RateTargets, TestSpec, UdpProfile, UdpProfileView};
use crate::number::{keep_usable, usable_only, Double};
use crate::plan::{direction_pinned, is_direction_pinned};
use crate::readings::{look_up, reading, side_name, side_text, Readings};
use crate::suite::{directions_meant, normalized_ui_directions, push_missing, same_opt, with_text};
use crate::sweep::{
    deduped, distinct, in_sweep, lemma_sweep_is_complete, lists_index, lists_number,
    udp_profiles_of,
};
use crate::text::{
    alike, begins, blank, cat2, cat3, copy_texts, cut, decimal, decimal_text_wide, group_views,
    in_small, is_alike, is_blank, is_text_before, join, joined, lists, opt_view, owned, same,
    same_texts, split_once, strip_prefix, text_before, texts, to_lower, trim, trimmed, views,
};

verus! {

/// One row of the matrix as read from a configuration.
#[derive(Debug)]
pub struct PairImport {
    pub src: String,
    pub dst: String,
    pub directions: Vec<String>,
    pub rx_target_bidir_ab: Option<Double>,
    pub rx_target_bidir_ba: Option<Double>,
    pub udp_groups: Vec<usize>,
    pub tcp_groups: Vec<usize>,
    pub transports: Vec<String>,
    pub ip: Vec<String>,
}

/// What a [`PairImport`] holds.
pub ghost struct PairImportView {
    pub src: Seq<char>,
    pub dst: Seq<char>,
    pub directions: Seq<Seq<char>>,
    pub rx_target_bidir_ab: Option<Double>,
    pub rx_target_bidir_ba: Option<Double>,
    pub udp_groups: Seq<usize>,
    pub tcp_groups: Seq<usize>,
    pub transports: Seq<Seq<char>>,
    pub ip: Seq<Seq<char>>,
}

impl View for PairImport {
    type V = PairImportView;

    open spec fn view(&self) -> PairImportView {
        PairImportView {
            src: self.src@,
            dst: self.dst@,
            directions: views(self.directions@),
            rx_target_bidir_ab: self.rx_target_bidir_ab,
            rx_target_bidir_ba: self.rx_target_bidir_ba,
            udp_groups: self.udp_groups@,
            tcp_groups: self.tcp_groups@,
            transports: views(self.transports@),
            ip: views(self.ip@),
        }
    }
}

/// A group of UDP parameters as read from a configuration.
#[derive(Debug)]
pub struct UdpGroupOut {
    pub name: String,
    pub bandwidths: Vec<String>,
    pub lengths: Vec<String>,
    pub windows: Vec<String>,
    pub streams: u32,
}

/// What a [`UdpGroupOut`] holds.
pub ghost struct UdpGroupOutView {
    pub name: Seq<char>,
    pub bandwidths: Seq<Seq<char>>,
    pub lengths: Seq<Seq<char>>,
    pub windows: Seq<Seq<char>>,
    pub streams: u32,
}

impl View for UdpGroupOut {
    type V = UdpGroupOutView;

    open spec fn view(&self) -> UdpGroupOutView {
        UdpGroupOutView {
            name: self.name@,
            bandwidths: views(self.bandwidths@),
            lengths: views(self.lengths@),
            windows: views(self.windows@),
            streams: self.streams,
        }
    }
}

/// A group of TCP parameters as read from a configuration.
#[derive(Debug)]
pub struct TcpGroupOut {
    pub name: String,
    pub windows: Vec<String>,
    pub streams: Vec<u32>,
}

/// What a [`TcpGroupOut`] holds.
pub ghost struct TcpGroupOutView {
    pub name: Seq<char>,
    pub windows: Seq<Seq<char>>,
    pub streams: Seq<u32>,
}

impl View for TcpGroupOut {
    type V = TcpGroupOutView;

    open spec fn view(&self) -> TcpGroupOutView {
        TcpGroupOutView {
            name: self.name@,
            windows: views(self.windows@),
            streams: self.streams@,
        }
    }
}

/// The numbers of streams that go with one list of windows.
#[derive(Debug)]
pub struct TcpSteps {
    pub windows: Vec<String>,
    pub streams: Vec<u32>,
}

/// What a [`TcpSteps`] holds.
pub ghost struct TcpStepsView {
    pub windows: Seq<Seq<char>>,
    pub streams: Seq<u32>,
}

impl View for TcpSteps {
    type V = TcpStepsView;

    open spec fn view(&self) -> TcpStepsView {
        TcpStepsView {
            windows: views(self.windows@),
            streams: self.streams@,
        }
    }
}

/// A row and its TCP parameters so far.
#[derive(Debug)]
pub struct ImportRow {
    pub pair: PairImport,
    pub tcp: Vec<TcpSteps>,
}

/// What a [`ImportRow`] holds.
pub ghost struct ImportRowView {
    pub pair: PairImportView,
    pub tcp: Seq<TcpStepsView>,
}

impl View for ImportRow {
    type V = ImportRowView;

    open spec fn view(&self) -> ImportRowView {
        ImportRowView {
            pair: self.pair@,
            tcp: views(self.tcp@),
        }
    }
}

/// What has been read from the tests so far.
#[derive(Debug)]
pub struct ImportState {
    pub rows: Vec<ImportRow>,
    pub groups: Vec<UdpGroupOut>,
    /// Endpoints that name no interface.
    pub unresolved: Vec<String>,
    /// Whether some loads are not every combination of their values, each once.
    pub ragged: bool,
}

/// What a [`ImportState`] holds.
pub ghost struct ImportStateView {
    pub rows: Seq<ImportRowView>,
    pub groups: Seq<UdpGroupOutView>,
    pub unresolved: Seq<Seq<char>>,
    pub ragged: bool,
}

impl View for ImportState {
    type V = ImportStateView;

    open spec fn view(&self) -> ImportStateView {
        ImportStateView {
            rows: views(self.rows@),
            groups: views(self.groups@),
            unresolved: views(self.unresolved@),
            ragged: self.ragged,
        }
    }
}

// ---------------------------------------------------------------------------
// Endpoints
// ---------------------------------------------------------------------------

/// The host that a text in small letters names.
pub open spec fn host_named(text: Seq<char>) -> Option<Seq<char>> {
    if text == "master"@ || text == "local"@ || text == "主控"@ {
        Some("master"@)
    } else if text == "agent"@ || text == "remote"@ || text == "辅测"@ {
        Some("agent"@)
    } else {
        None
    }
}

/// The host that a text means, in letters of any case.
pub open spec fn host_meant(raw: Seq<char>) -> Option<Seq<char>> {
    host_named(in_small(trimmed(raw)))
}

/// The host that a text means.
pub fn read_host(raw: &str) -> (r: Option<&'static str>)
    ensures
        opt_view(r) == host_meant(raw@),
{
    let low = to_lower(trim(raw));
    find_host(low.as_str())
}

/// The host that a text in small letters names.
pub fn find_host(text: &str) -> (r: Option<&'static str>)
    ensures
        opt_view(r) == host_named(text@),
{
    if same(text, "master") || same(text, "local") || same(text, "主控") {
        Some("master")
    } else if same(text, "agent") || same(text, "remote") || same(text, "辅测") {
        Some("agent")
    } else {
        None
    }
}

/// The interface name in a selector such as `NAME=eth0`.
pub open spec fn selected_name(raw: Seq<char>) -> Option<Seq<char>> {
    let text = trimmed(raw);
    if begins(text, "NAME="@) {
        Some(trimmed(text.skip("NAME="@.len() as int)))
    } else if begins(text, "name="@) {
        Some(trimmed(text.skip("name="@.len() as int)))
    } else {
        None
    }
}

/// The one spelling of an endpoint, `host:NAME=name`: of the interface it resolves to, or of the
/// name it gives where nothing resolves it.
pub open spec fn endpoint_spelled(rd: Readings, raw: Seq<char>) -> Option<Seq<char>> {
    match reading(rd.endpoints@, raw) {
        Ok(end) => Some(side_text(end.side) + ":NAME="@ + end.nic.name@),
        Err(_) => match cut(raw, ':') {
            None => None,
            Some((host, rest)) => match (host_meant(host), selected_name(rest)) {
                (Some(side), Some(name)) => if name.len() > 0 {
                    Some(side + ":NAME="@ + name)
                } else {
                    None
                },
                _ => None,
            },
        },
    }
}

/// The one spelling of an endpoint.
pub fn canonical_endpoint(rd: &Readings, raw: &str) -> (r: Option<String>)
    ensures
        opt_view(r) == endpoint_spelled(*rd, raw@),
{
    if let Ok(end) = look_up(&rd.endpoints, raw) {
        return Some(cat3(side_name(end.side), ":NAME=", end.nic.name.as_str()));
    }
    let (host, rest) = match split_once(raw, ':') {
        Some(parts) => parts,
        None => {
            return None;
        },
    };
    let side = match read_host(host) {
        Some(side) => side,
        None => {
            return None;
        },
    };
    let text = trim(rest);
    let name = match strip_prefix(text, "NAME=") {
        Some(name) => trim(name),
        None => match strip_prefix(text, "name=") {
            Some(name) => trim(name),
            None => {
                return None;
            },
        },
    };
    if name.is_empty() {
        None
    } else {
        Some(cat3(side, ":NAME=", name))
    }
}

/// Whether a profile fixes the UDP bandwidth of an interface of a host.
pub open spec fn pins(profile: NicProfile, host: Seq<char>, name: Seq<char>) -> bool {
    profile.udp_bandwidth is Some && !blank(profile.udp_bandwidth->0@) && alike(
        profile.host@,
        host,
    ) && alike(profile.name@, name)
}

/// Whether a configuration fixes the UDP bandwidth of an endpoint.
pub open spec fn bandwidth_pinned(profiles: Seq<NicProfile>, endpoint: Seq<char>) -> bool {
    match cut(endpoint, ':') {
        None => false,
        Some((host, rest)) => begins(rest, "NAME="@) && exists|i: int|
            0 <= i < profiles.len() && pins(
                #[trigger] profiles[i],
                host,
                rest.skip("NAME="@.len() as int),
            ),
    }
}

/// Whether a configuration fixes the UDP bandwidth of an endpoint.
pub fn endpoint_pins_udp_bandwidth(profiles: &Vec<NicProfile>, endpoint: &str) -> (r: bool)
    ensures
        r == bandwidth_pinned(profiles@, endpoint@),
{
    let (host, rest) = match split_once(endpoint, ':') {
        Some(parts) => parts,
        None => {
            return false;
        },
    };
    let name = match strip_prefix(rest, "NAME=") {
        Some(name) => name,
        None => {
            return false;
        },
    };
    let mut i: usize = 0;
    while i < profiles.len()
        invariant
            i <= profiles@.len(),
            cut(endpoint@, ':') == Some((host@, rest@)),
            begins(rest@, "NAME="@),
            name@ == rest@.skip("NAME="@.len() as int),
            forall|k: int| 0 <= k < i ==> !pins(#[trigger] profiles@[k], host@, name@),
        decreases profiles@.len() - i,
    {
        let profile = &profiles[i];
        let fixed = match &profile.udp_bandwidth {
            Some(value) => !is_blank(value.as_str()),
            None => false,
        };
        if fixed && is_alike(profile.host.as_str(), host) && is_alike(profile.name.as_str(), name) {
            return true;
        }
        i += 1;
    }
    false
}

/// Whether every end that sends in a test has its bandwidth fixed.
pub open spec fn all_pinned(dirs: Seq<Seq<char>>, src_pinned: bool, dst_pinned: bool) -> bool {
    dirs.len() > 0 && forall|i: int|
        0 <= i < dirs.len() ==> direction_pinned(#[trigger] dirs[i], src_pinned, dst_pinned)
}

/// Whether every end that sends in a test has its bandwidth fixed: its loads are then place-holders.
pub open spec fn test_pinned(
    profiles: Seq<NicProfile>,
    test: TestSpec,
    src: Seq<char>,
    dst: Seq<char>,
) -> bool {
    all_pinned(
        directions_meant(test.direction@),
        bandwidth_pinned(profiles, src),
        bandwidth_pinned(profiles, dst),
    )
}

/// Whether every end that sends in a test has its bandwidth fixed.
pub fn test_udp_all_directions_pinned(
    profiles: &Vec<NicProfile>,
    test: &TestSpec,
    src: &str,
    dst: &str,
) -> (r: bool)
    ensures
        r == test_pinned(profiles@, *test, src@, dst@),
{
    let src_pinned = endpoint_pins_udp_bandwidth(profiles, src);
    let dst_pinned = endpoint_pins_udp_bandwidth(profiles, dst);
    let list = test.direction.to_list();
    let dirs = normalized_ui_directions(&list);
    let ghost all = texts(dirs@);
    assert(all.len() == dirs@.len());
    let mut i: usize = 0;
    while i < dirs.len()
        invariant
            i <= dirs@.len(),
            all == texts(dirs@),
            all.len() == dirs@.len(),
            all == directions_meant(test.direction@),
            src_pinned == bandwidth_pinned(profiles@, src@),
            dst_pinned == bandwidth_pinned(profiles@, dst@),
            forall|k: int|
                0 <= k < i ==> direction_pinned(#[trigger] all[k], src_pinned, dst_pinned),
        decreases dirs@.len() - i,
    {
        assert(all[i as int] == dirs@[i as int]@);
        if !is_direction_pinned(dirs[i].as_str(), src_pinned, dst_pinned) {
            return false;
        }
        i += 1;
    }
    dirs.len() > 0
}

// ---------------------------------------------------------------------------
// Groups
// ---------------------------------------------------------------------------

/// The bandwidths of the first `n` loads.
pub open spec fn load_bandwidths(profiles: Seq<UdpProfileView>) -> Seq<Seq<char>> {
    Seq::new(profiles.len(), |i: int| profiles[i].bandwidth)
}

/// The lengths that the first `n` loads give.
pub open spec fn lengths_to(profiles: Seq<UdpProfileView>, n: int) -> Seq<Seq<char>>
    decreases n,
{
    if n <= 0 {
        Seq::empty()
    } else {
        match profiles[n - 1].length {
            Some(length) => lengths_to(profiles, n - 1).push(length),
            None => lengths_to(profiles, n - 1),
        }
    }
}

/// The windows that the first `n` loads give.
pub open spec fn windows_to(profiles: Seq<UdpProfileView>, n: int) -> Seq<Seq<char>>
    decreases n,
{
    if n <= 0 {
        Seq::empty()
    } else {
        match profiles[n - 1].window {
            Some(window) => windows_to(profiles, n - 1).push(window),
            None => windows_to(profiles, n - 1),
        }
    }
}

/// The values of loads along each axis, each once.
pub open spec fn axes_of(profiles: Seq<UdpProfileView>) -> (
    Seq<Seq<char>>,
    Seq<Seq<char>>,
    Seq<Seq<char>>,
) {
    (
        deduped(load_bandwidths(profiles)),
        deduped(lengths_to(profiles, profiles.len() as int)),
        deduped(windows_to(profiles, profiles.len() as int)),
    )
}

/// The values of loads along each axis, each once.
pub fn axes_of_loads(profiles: &Vec<UdpProfile>) -> (r: (Vec<String>, Vec<String>, Vec<String>))
    ensures
        (texts(r.0@), texts(r.1@), texts(r.2@)) == axes_of(views(profiles@)),
{
    broadcast use group_views;

    let ghost all = views(profiles@);
    let ghost all_bandwidths = load_bandwidths(all);
    let mut bandwidths: Vec<String> = Vec::new();
    let mut lengths: Vec<String> = Vec::new();
    let mut windows: Vec<String> = Vec::new();
    let mut i: usize = 0;
    while i < profiles.len()
        invariant
            i <= profiles@.len(),
            all == views(profiles@),
            all_bandwidths == load_bandwidths(all),
            texts(bandwidths@) == all_bandwidths.take(i as int),
            texts(lengths@) == lengths_to(all, i as int),
            texts(windows@) == windows_to(all, i as int),
        decreases profiles@.len() - i,
    {
        let profile = &profiles[i];
        assert(all[i as int] == profile@);
        bandwidths.push(profile.bandwidth.clone());
        assert(all_bandwidths.take(i as int).push(all_bandwidths[i as int]) =~= all_bandwidths.take(
            i + 1,
        ));
        if let Some(length) = &profile.length {
            lengths.push(length.clone());
        }
        if let Some(window) = &profile.window {
            windows.push(window.clone());
        }
        i += 1;
    }
    assert(all_bandwidths.take(i as int) =~= all_bandwidths);
    (distinct(&bandwidths), distinct(&lengths), distinct(&windows))
}

/// The number of choices along an axis.
pub open spec fn choice_count(n: nat) -> nat {
    if n > 1 {
        n
    } else {
        1
    }
}

/// The group of parameters that loads come to.
pub open spec fn group_of(profiles: Seq<UdpProfileView>, streams: u32) -> UdpGroupOutView {
    let (bandwidths, lengths, windows) = axes_of(profiles);
    UdpGroupOutView { name: Seq::empty(), bandwidths, lengths, windows, streams }
}

/// Whether loads are all combinations of the values that they have along each axis.
pub open spec fn complete(loads: Seq<UdpProfileView>) -> bool {
    let (bandwidths, lengths, windows) = axes_of(loads);
    loads.len() > 0 && forall|load: UdpProfileView| #[trigger]
        loads.contains(load) <==> in_sweep(bandwidths, lengths, windows, load)
}

/// Whether loads are as many as the combinations of their values.
pub open spec fn is_exact(profiles: Seq<UdpProfileView>) -> bool {
    let (bandwidths, lengths, windows) = axes_of(profiles);
    choice_count(bandwidths.len()) * choice_count(lengths.len()) * choice_count(windows.len())
        == profiles.len()
}

/// The product of three counts, where it fits.
pub fn product(a: usize, b: usize, c: usize) -> (r: Option<usize>)
    requires
        a > 0,
        b > 0,
        c > 0,
    ensures
        r is Some == (a * b * c <= usize::MAX),
        r is Some ==> r->0 == a * b * c && r->0 > 0,
{
    assert(0 < a * b <= a * b * c) by (nonlinear_arith)
        requires
            a > 0,
            b > 0,
            c > 0,
    ;
    match a.checked_mul(b) {
        None => None,
        Some(ab) => ab.checked_mul(c),
    }
}

/// The number of choices along an axis.
pub fn count_choices(n: usize) -> (r: usize)
    ensures
        r == choice_count(n as nat),
        r > 0,
{
    if n > 1 {
        n
    } else {
        1
    }
}

/// Whether loads are every combination of their values along the three axes, each once.
pub open spec fn is_neat(loads: Seq<UdpProfileView>) -> bool {
    is_exact(loads) && complete(loads)
}

/// Whether two loads are the same.
pub fn same_load(a: &UdpProfile, b: &UdpProfile) -> (r: bool)
    ensures
        r == (a@ == b@),
{
    same(a.bandwidth.as_str(), b.bandwidth.as_str()) && same_opt(
        &a.length,
        &b.length,
    ) && same_opt(&a.window, &b.window)
}

/// Whether a load is among others.
pub fn lists_load(loads: &Vec<UdpProfile>, load: &UdpProfile) -> (r: bool)
    ensures
        r == views(loads@).contains(load@),
{
    let mut i: usize = 0;
    while i < loads.len()
        invariant
            i <= loads@.len(),
            forall|k: int| 0 <= k < i ==> (#[trigger] loads@[k])@ != load@,
        decreases loads@.len() - i,
    {
        if same_load(&loads[i], load) {
            assert(views(loads@)[i as int] == load@);
            return true;
        }
        i += 1;
    }
    assert forall|k: int| 0 <= k < views(loads@).len() implies views(loads@)[k] != load@ by {
        assert(views(loads@)[k] == loads@[k]@);
    }
    false
}

/// Whether all loads are among others.
pub fn lists_all_loads(loads: &Vec<UdpProfile>, wanted: &Vec<UdpProfile>) -> (r: bool)
    ensures
        r == forall|load: UdpProfileView| #[trigger]
            views(wanted@).contains(load) ==> views(loads@).contains(load),
{
    let mut i: usize = 0;
    while i < wanted.len()
        invariant
            i <= wanted@.len(),
            forall|k: int| 0 <= k < i ==> views(loads@).contains((#[trigger] wanted@[k])@),
        decreases wanted@.len() - i,
    {
        if !lists_load(loads, &wanted[i]) {
            assert(views(wanted@)[i as int] == wanted@[i as int]@);
            assert(views(wanted@).contains(wanted@[i as int]@));
            return false;
        }
        i += 1;
    }
    assert forall|load: UdpProfileView| #[trigger] views(wanted@).contains(load) implies views(
        loads@,
    ).contains(load) by {
        let k = choose|k: int| 0 <= k < views(wanted@).len() && views(wanted@)[k] == load;
        assert(views(loads@).contains(wanted@[k]@));
    }
    true
}

/// The group of parameters that loads come to, and whether they are a neat cross product: every
/// combination of their values, each once. Where they are not, the group does not run just them.
pub fn udp_group_from_profiles(profiles: &Vec<UdpProfile>, streams: u32) -> (r: (
    UdpGroupOut,
    bool,
))
    ensures
        r.0@ == group_of(views(profiles@), streams),
        r.1 == is_neat(views(profiles@)),
{
    let (bandwidths, lengths, windows) = axes_of_loads(profiles);
    assert(texts(bandwidths@).len() == bandwidths@.len());
    assert(texts(lengths@).len() == lengths@.len());
    assert(texts(windows@).len() == windows@.len());
    let count: usize = profiles.len();
    let exact = match product(
        count_choices(bandwidths.len()),
        count_choices(lengths.len()),
        count_choices(windows.len()),
    ) {
        Some(combinations) => combinations == count,
        None => false,
    };
    let neat = if exact {
        let sweep = udp_profiles_of(&bandwidths, &lengths, &windows);
        let all = lists_all_loads(profiles, &sweep) && lists_all_loads(&sweep, profiles);
        proof {
            let loads = views(profiles@);
            let (b, l, w) = axes_of(loads);
            assert forall|load: UdpProfileView|
                #[trigger] views(sweep@).contains(load) <==> in_sweep(b, l, w, load) by {
                lemma_sweep_is_complete(b, l, w, load);
            }
            assert(loads.len() > 0);
            if all {
                assert forall|load: UdpProfileView| #[trigger] loads.contains(load) <==> in_sweep(
                    b,
                    l,
                    w,
                    load,
                ) by {
                    assert(views(sweep@).contains(load) <==> in_sweep(b, l, w, load));
                }
            } else if complete(loads) {
                assert forall|load: UdpProfileView|
                    #[trigger] loads.contains(load) == views(sweep@).contains(load) by {
                    assert(views(sweep@).contains(load) <==> in_sweep(b, l, w, load));
                }
                assert forall|load: UdpProfileView| #[trigger] views(sweep@).contains(load)
                    implies loads.contains(load) by {
                    assert(loads.contains(load) == views(sweep@).contains(load));
                }
            }
        }
        all
    } else {
        false
    };
    (UdpGroupOut { name: String::new(), bandwidths, lengths, windows, streams }, neat)
}

/// Whether two groups run the same loads; names do not count.
pub open spec fn same_udp_run(a: UdpGroupOutView, b: UdpGroupOutView) -> bool {
    a.bandwidths == b.bandwidths && a.lengths == b.lengths && a.windows == b.windows && a.streams
        == b.streams
}

impl UdpGroupOut {
    /// Whether two groups run the same loads; names do not count.
    pub fn same_run_as(&self, other: &UdpGroupOut) -> (r: bool)
        ensures
            r == same_udp_run(self@, other@),
    {
        same_texts(&self.bandwidths, &other.bandwidths) && same_texts(
            &self.lengths,
            &other.lengths,
        ) && same_texts(&self.windows, &other.windows) && self.streams == other.streams
    }
}

/// Where a number goes in a row of rising numbers: behind the first `k` as far as they are smaller.
pub open spec fn rising_slot(s: Seq<u32>, x: u32, k: int) -> int
    decreases k,
{
    if k <= 0 {
        0
    } else if s[k - 1] <= x {
        k
    } else {
        rising_slot(s, x, k - 1)
    }
}

/// The first `n` numbers in rising order.
pub open spec fn risen_to(s: Seq<u32>, n: int) -> Seq<u32>
    decreases n,
{
    if n <= 0 {
        Seq::empty()
    } else {
        let before = risen_to(s, n - 1);
        before.insert(rising_slot(before, s[n - 1], before.len() as int), s[n - 1])
    }
}

/// The numbers in rising order.
pub open spec fn risen(s: Seq<u32>) -> Seq<u32> {
    risen_to(s, s.len() as int)
}

/// Whether numbers never fall.
pub open spec fn rising(s: Seq<u32>) -> bool {
    forall|i: int, j: int| 0 <= i < j < s.len() ==> #[trigger] s[i] <= #[trigger] s[j]
}

proof fn lemma_rising_slot(s: Seq<u32>, x: u32, k: int)
    requires
        0 <= k <= s.len(),
    ensures
        0 <= rising_slot(s, x, k) <= k,
        rising_slot(s, x, k) > 0 ==> s[rising_slot(s, x, k) - 1] <= x,
        forall|i: int| rising_slot(s, x, k) <= i < k ==> #[trigger] s[i] > x,
    decreases k,
{
    if k > 0 && s[k - 1] > x {
        lemma_rising_slot(s, x, k - 1);
    }
}

proof fn lemma_risen_to(s: Seq<u32>, n: int)
    requires
        0 <= n <= s.len(),
    ensures
        rising(risen_to(s, n)),
        risen_to(s, n).to_multiset() =~= s.take(n).to_multiset(),
    decreases n,
{
    broadcast use vstd::seq_lib::group_to_multiset_ensures;

    if n > 0 {
        lemma_risen_to(s, n - 1);
        let before = risen_to(s, n - 1);
        let x = s[n - 1];
        lemma_rising_slot(before, x, before.len() as int);
        let at = rising_slot(before, x, before.len() as int);
        let after = before.insert(at, x);
        assert forall|i: int, j: int| 0 <= i < j < after.len() implies #[trigger] after[i]
            <= #[trigger] after[j] by {
            let a = if i < at {
                i
            } else {
                i - 1
            };
            let b = if j < at {
                j
            } else {
                j - 1
            };
            if i != at {
                assert(after[i] == before[a]);
            }
            if j != at {
                assert(after[j] == before[b]);
            }
            if j == at && i < at - 1 {
                assert(before[i] <= before[at - 1]);
            }
        }
        assert(s.take(n) =~= s.take(n - 1).push(x));
        before.to_multiset_ensures();
        s.take(n - 1).to_multiset_ensures();
        assert(after.to_multiset() =~= before.to_multiset().insert(x)) by {
            vstd::seq_lib::to_multiset_insert(before, at, x);
        }
    } else {
        assert(s.take(0) =~= Seq::<u32>::empty());
    }
}

/// Numbers in rising order never fall, and are the same numbers.
pub proof fn lemma_risen_sorts(s: Seq<u32>)
    ensures
        rising(risen(s)),
        risen(s).to_multiset() =~= s.to_multiset(),
{
    lemma_risen_to(s, s.len() as int);
    assert(s.take(s.len() as int) =~= s);
}

/// The numbers in rising order.
pub fn sort_numbers(s: &Vec<u32>) -> (r: Vec<u32>)
    ensures
        r@ == risen(s@),
{
    let mut r: Vec<u32> = Vec::new();
    let mut n: usize = 0;
    while n < s.len()
        invariant
            n <= s@.len(),
            r@ == risen_to(s@, n as int),
        decreases s@.len() - n,
    {
        let x: u32 = s[n];
        let mut k: usize = r.len();
        while k > 0 && r[k - 1] > x
            invariant
                k <= r@.len(),
                rising_slot(r@, x, r@.len() as int) == rising_slot(r@, x, k as int),
            decreases k,
        {
            k -= 1;
        }
        r.insert(k, x);
        n += 1;
    }
    r
}

/// The numbers in rising order, each once.
pub open spec fn norm(s: Seq<u32>) -> Seq<u32> {
    deduped(risen(s))
}

/// The numbers in rising order, each once.
pub fn norm_of(s: &Vec<u32>) -> (r: Vec<u32>)
    ensures
        r@ == norm(s@),
{
    let sorted = sort_numbers(s);
    crate::sweep::distinct_numbers(&sorted)
}

/// Whether two numbers lists are the same.
pub fn same_numbers(a: &Vec<u32>, b: &Vec<u32>) -> (r: bool)
    ensures
        r == (a@ == b@),
{
    if a.len() != b.len() {
        return false;
    }
    let mut i: usize = 0;
    while i < a.len()
        invariant
            i <= a@.len(),
            a@.len() == b@.len(),
            forall|k: int| 0 <= k < i ==> a@[k] == b@[k],
        decreases a@.len() - i,
    {
        if a[i] != b[i] {
            return false;
        }
        i += 1;
    }
    assert(a@ =~= b@);
    true
}

/// Whether two groups run the same tests: windows in the same order, and the same numbers of
/// streams in any order. Names do not count.
pub open spec fn same_tcp_run(a: TcpGroupOutView, b: TcpGroupOutView) -> bool {
    a.windows == b.windows && norm(a.streams) == norm(b.streams)
}

impl TcpGroupOut {
    /// Whether two groups run the same tests.
    pub fn same_run_as(&self, other: &TcpGroupOut) -> (r: bool)
        ensures
            r == same_tcp_run(self@, other@),
    {
        same_texts(&self.windows, &other.windows) && same_numbers(
            &norm_of(&self.streams),
            &norm_of(&other.streams),
        )
    }
}

// ---------------------------------------------------------------------------
// One test
// ---------------------------------------------------------------------------

/// A list with texts added where they are missing, the first `n` of `more`.
pub open spec fn with_texts_to(list: Seq<Seq<char>>, more: Seq<Seq<char>>, n: int) -> Seq<Seq<char>>
    decreases n,
{
    if n <= 0 {
        list
    } else {
        with_text(with_texts_to(list, more, n - 1), more[n - 1])
    }
}

/// A list with texts added where they are missing.
pub open spec fn with_texts(list: Seq<Seq<char>>, more: Seq<Seq<char>>) -> Seq<Seq<char>> {
    with_texts_to(list, more, more.len() as int)
}

/// Adds texts to a list where they are missing.
pub fn push_all_missing(list: &mut Vec<String>, more: &Vec<String>)
    ensures
        texts(final(list)@) == with_texts(texts(old(list)@), texts(more@)),
{
    let ghost before = texts(list@);
    let mut i: usize = 0;
    while i < more.len()
        invariant
            i <= more@.len(),
            texts(list@) == with_texts_to(before, texts(more@), i as int),
        decreases more@.len() - i,
    {
        push_missing(list, more[i].as_str());
        i += 1;
    }
}

/// A direction as seen from the other end.
pub open spec fn flipped(dir: Seq<char>) -> Seq<char> {
    if dir == "ab"@ {
        "ba"@
    } else if dir == "ba"@ {
        "ab"@
    } else {
        dir
    }
}

/// Directions, as seen from the other end where `flip` is set.
pub open spec fn directions_seen(dirs: Seq<Seq<char>>, flip: bool) -> Seq<Seq<char>> {
    Seq::new(
        dirs.len(),
        |i: int|
            if flip {
                flipped(dirs[i])
            } else {
                dirs[i]
            },
    )
}

/// The directions of a test, as seen from the other end where `flip` is set.
pub fn directions_of_test(test: &TestSpec, flip: bool) -> (r: Vec<String>)
    ensures
        texts(r@) == directions_seen(directions_meant(test.direction@), flip),
{
    broadcast use group_views;

    let list = test.direction.to_list();
    let dirs = normalized_ui_directions(&list);
    let ghost meant = texts(dirs@);
    let ghost all = directions_seen(meant, flip);
    let mut r: Vec<String> = Vec::new();
    let mut i: usize = 0;
    assert(meant.len() == dirs@.len());
    while i < dirs.len()
        invariant
            i <= dirs@.len(),
            meant == texts(dirs@),
            meant.len() == dirs@.len(),
            all == directions_seen(meant, flip),
            texts(r@) == all.take(i as int),
        decreases dirs@.len() - i,
    {
        assert(meant[i as int] == dirs@[i as int]@);
        let dir = dirs[i].as_str();
        let seen = if flip && same(dir, "ab") {
            owned("ba")
        } else if flip && same(dir, "ba") {
            owned("ab")
        } else {
            owned(dir)
        };
        assert(seen@ == all[i as int]);
        r.push(seen);
        assert(all.take(i as int).push(all[i as int]) =~= all.take(i + 1));
        i += 1;
    }
    assert(all.take(i as int) =~= all);
    r
}

/// A list with a text behind it where it is `a` or `b`.
pub open spec fn with_known(
    list: Seq<Seq<char>>,
    text: Seq<char>,
    a: Seq<char>,
    b: Seq<char>,
) -> Seq<Seq<char>> {
    if text == a || text == b {
        list.push(text)
    } else {
        list
    }
}

/// Adds a text to a list where it is `a` or `b`.
pub fn push_known(list: &mut Vec<String>, text: String, a: &str, b: &str)
    ensures
        texts(final(list)@) == with_known(texts(old(list)@), text@, a@, b@),
{
    broadcast use group_views;

    if same(text.as_str(), a) || same(text.as_str(), b) {
        list.push(text);
    }
}

/// Those of the first `n` texts that are `a` or `b` once trimmed and in small letters.
pub open spec fn known_to(list: Seq<Seq<char>>, a: Seq<char>, b: Seq<char>, n: int) -> Seq<
    Seq<char>,
>
    decreases n,
{
    if n <= 0 {
        Seq::empty()
    } else {
        with_known(known_to(list, a, b, n - 1), in_small(trimmed(list[n - 1])), a, b)
    }
}

/// Those texts that are `a` or `b` once trimmed and in small letters.
pub fn known_texts(list: &Vec<String>, a: &str, b: &str) -> (r: Vec<String>)
    ensures
        texts(r@) == known_to(texts(list@), a@, b@, list@.len() as int),
{
    broadcast use group_views;

    let mut r: Vec<String> = Vec::new();
    let mut i: usize = 0;
    while i < list.len()
        invariant
            i <= list@.len(),
            texts(r@) == known_to(texts(list@), a@, b@, i as int),
        decreases list@.len() - i,
    {
        assert(texts(list@)[i as int] == list@[i as int]@);
        let text = to_lower(trim(list[i].as_str()));
        push_known(&mut r, text, a, b);
        i += 1;
    }
    r
}

/// Whether a list holds a text that is `text` once trimmed.
pub open spec fn holds_trimmed(list: Seq<String>, text: Seq<char>) -> bool {
    exists|i: int| 0 <= i < list.len() && trimmed((#[trigger] list[i])@) == text
}

/// Whether a list holds a text that is `text` once trimmed.
pub fn does_hold_trimmed(list: &Vec<String>, text: &str) -> (r: bool)
    ensures
        r == holds_trimmed(list@, text@),
{
    let mut i: usize = 0;
    while i < list.len()
        invariant
            i <= list@.len(),
            forall|k: int| 0 <= k < i ==> trimmed((#[trigger] list@[k])@) != text@,
        decreases list@.len() - i,
    {
        if same(trim(list[i].as_str()), text) {
            return true;
        }
        i += 1;
    }
    false
}

/// The transports of a test.
pub open spec fn test_transports(test: TestSpec) -> Seq<Seq<char>> {
    known_to(texts(test.transports@), "tcp"@, "udp"@, test.transports@.len() as int)
}

/// The transports of a test as the matrix shows them: ping is one of them.
pub open spec fn shown_transports(test: TestSpec) -> Seq<Seq<char>> {
    if holds_trimmed(test.kinds@, "ping"@) {
        test_transports(test).push("ping"@)
    } else {
        test_transports(test)
    }
}

/// A positive count, or `fallback`.
pub open spec fn count_or(count: Option<u32>, fallback: u32) -> u32 {
    match count {
        Some(n) => if n > 0 {
            n
        } else {
            fallback
        },
        None => fallback,
    }
}

/// A positive count, or `fallback`.
pub fn pick_count(count: Option<u32>, fallback: u32) -> (r: u32)
    ensures
        r == count_or(count, fallback),
{
    match count {
        Some(n) => if n > 0 {
            n
        } else {
            fallback
        },
        None => fallback,
    }
}

/// A list of numbers with one added where it is missing.
pub open spec fn with_number(list: Seq<u32>, x: u32) -> Seq<u32> {
    if list.contains(x) {
        list
    } else {
        list.push(x)
    }
}

/// The index of the first steps from `i` on with these windows; the length where there are none.
pub open spec fn steps_index(tcp: Seq<TcpStepsView>, windows: Seq<Seq<char>>, i: int) -> int
    decreases tcp.len() - i,
{
    if i < 0 || i >= tcp.len() {
        tcp.len() as int
    } else if tcp[i].windows == windows {
        i
    } else {
        steps_index(tcp, windows, i + 1)
    }
}

/// The TCP parameters of a row with one more number of streams for a list of windows.
pub open spec fn with_steps(tcp: Seq<TcpStepsView>, windows: Seq<Seq<char>>, stream: u32) -> Seq<
    TcpStepsView,
> {
    let at = steps_index(tcp, windows, 0);
    if at < tcp.len() {
        tcp.update(
            at,
            TcpStepsView { windows: tcp[at].windows, streams: with_number(tcp[at].streams, stream) },
        )
    } else {
        tcp.push(TcpStepsView { windows, streams: seq![stream] })
    }
}

/// Adds a number of streams for a list of windows.
pub fn add_steps(tcp: &mut Vec<TcpSteps>, windows: &Vec<String>, stream: u32)
    ensures
        views(final(tcp)@) == with_steps(views(old(tcp)@), texts(windows@), stream),
{
    broadcast use group_views;

    let ghost before = views(tcp@);
    let mut i: usize = 0;
    while i < tcp.len() && !same_texts(&tcp[i].windows, windows)
        invariant
            i <= tcp@.len(),
            before == views(tcp@),
            tcp@ == old(tcp)@,
            steps_index(before, texts(windows@), 0) == steps_index(
                before,
                texts(windows@),
                i as int,
            ),
        decreases tcp@.len() - i,
    {
        assert(before[i as int] == tcp@[i as int]@);
        i += 1;
    }
    if i < tcp.len() {
        assert(before[i as int] == tcp@[i as int]@);
        if !lists_number(&tcp[i].streams, stream) {
            tcp[i].streams.push(stream);
        }
        assert(views(tcp@) =~= with_steps(before, texts(windows@), stream));
    } else {
        let mut streams: Vec<u32> = Vec::new();
        streams.push(stream);
        assert(streams@ =~= seq![stream]);
        tcp.push(TcpSteps { windows: copy_texts(windows), streams });
    }
}

/// The index of the first group from `i` on that runs the same loads; the length where there is
/// none.
pub open spec fn udp_group_index(
    groups: Seq<UdpGroupOutView>,
    group: UdpGroupOutView,
    i: int,
) -> int
    decreases groups.len() - i,
{
    if i < 0 || i >= groups.len() {
        groups.len() as int
    } else if same_udp_run(groups[i], group) {
        i
    } else {
        udp_group_index(groups, group, i + 1)
    }
}

/// The groups with one that runs these loads, and its number: zero for the default group, and for
/// loads without a bandwidth.
pub open spec fn with_udp_group(
    groups: Seq<UdpGroupOutView>,
    default_group: UdpGroupOutView,
    group: UdpGroupOutView,
) -> (Seq<UdpGroupOutView>, usize) {
    let at = udp_group_index(groups, group, 0);
    if group.bandwidths.len() == 0 || same_udp_run(group, default_group) {
        (groups, 0)
    } else if at < groups.len() {
        (groups, (at + 1) as usize)
    } else {
        (
            groups.push(
                UdpGroupOutView { name: "组 "@ + decimal(groups.len() + 2), ..group },
            ),
            (groups.len() + 1) as usize,
        )
    }
}

/// Finds or adds a group that runs these loads, and returns its number.
pub fn add_udp_group(
    groups: &mut Vec<UdpGroupOut>,
    default_group: &UdpGroupOut,
    group: UdpGroupOut,
) -> (r: usize)
    ensures
        (views(final(groups)@), r) == with_udp_group(
            views(old(groups)@),
            default_group@,
            group@,
        ),
{
    broadcast use group_views;

    let ghost before = views(groups@);
    assert(texts(group.bandwidths@).len() == group.bandwidths@.len());
    if group.bandwidths.len() == 0 || group.same_run_as(default_group) {
        return 0;
    }
    let mut i: usize = 0;
    while i < groups.len() && !groups[i].same_run_as(&group)
        invariant
            i <= groups@.len(),
            before == views(groups@),
            groups@ == old(groups)@,
            udp_group_index(before, group@, 0) == udp_group_index(before, group@, i as int),
        decreases groups@.len() - i,
    {
        assert(before[i as int] == groups@[i as int]@);
        i += 1;
    }
    if i < groups.len() {
        assert(before[i as int] == groups@[i as int]@);
        return i + 1;
    }
    let number = decimal_text_wide(groups.len() as u128 + 2);
    let mut named = group;
    named.name = cat2("组 ", number.as_str());
    groups.push(named);
    groups.len()
}

/// A list of group numbers with one added where it is missing.
pub open spec fn with_index(list: Seq<usize>, x: usize) -> Seq<usize> {
    if list.contains(x) {
        list
    } else {
        list.push(x)
    }
}

/// Adds a group number where it is missing.
pub fn push_index(list: &mut Vec<usize>, x: usize)
    ensures
        final(list)@ == with_index(old(list)@, x),
{
    if !lists_index(list, x) {
        list.push(x);
    }
}

/// Whether the loads of a test say which group it runs: it has UDP, and an end whose bandwidth is
/// not fixed.
pub open spec fn tells_group(
    profiles: Seq<NicProfile>,
    test: TestSpec,
    src: Seq<char>,
    dst: Seq<char>,
) -> bool {
    test_transports(test).contains("udp"@) && !test_pinned(profiles, test, src, dst)
        && test.udp_profiles is Some
}

/// The index of the first row from `i` on with these ends; the length where there is none.
pub open spec fn row_index(rows: Seq<ImportRowView>, src: Seq<char>, dst: Seq<char>, i: int) -> int
    decreases rows.len() - i,
{
    if i < 0 || i >= rows.len() {
        rows.len() as int
    } else if rows[i].pair.src == src && rows[i].pair.dst == dst {
        i
    } else {
        row_index(rows, src, dst, i + 1)
    }
}

/// The index of the first row with these ends; the length where there is none.
pub fn find_row(rows: &Vec<ImportRow>, src: &str, dst: &str) -> (r: usize)
    ensures
        r == row_index(views(rows@), src@, dst@, 0),
        r <= rows@.len(),
{
    let ghost all = views(rows@);
    let mut i: usize = 0;
    while i < rows.len()
        invariant
            i <= rows@.len(),
            all == views(rows@),
            row_index(all, src@, dst@, 0) == row_index(all, src@, dst@, i as int),
        decreases rows@.len() - i,
    {
        assert(all[i as int] == rows@[i as int]@);
        if same(rows[i].pair.src.as_str(), src) && same(rows[i].pair.dst.as_str(), dst) {
            return i;
        }
        i += 1;
    }
    i
}

/// A row without anything to run.
pub open spec fn empty_row(src: Seq<char>, dst: Seq<char>) -> ImportRowView {
    ImportRowView {
        pair: PairImportView {
            src,
            dst,
            directions: Seq::empty(),
            rx_target_bidir_ab: None,
            rx_target_bidir_ba: None,
            udp_groups: Seq::empty(),
            tcp_groups: Seq::empty(),
            transports: Seq::empty(),
            ip: Seq::empty(),
        },
        tcp: Seq::empty(),
    }
}

/// A row without anything to run.
pub fn new_row(src: String, dst: String) -> (r: ImportRow)
    ensures
        r@ == empty_row(src@, dst@),
{
    broadcast use group_views;

    ImportRow {
        pair: PairImport {
            src,
            dst,
            directions: Vec::new(),
            rx_target_bidir_ab: None,
            rx_target_bidir_ba: None,
            udp_groups: Vec::new(),
            tcp_groups: Vec::new(),
            transports: Vec::new(),
            ip: Vec::new(),
        },
        tcp: Vec::new(),
    }
}

/// The first usable threshold of a row.
pub open spec fn kept_target(own: Option<Double>, more: Option<Double>) -> Option<Double> {
    if own is Some {
        own
    } else {
        usable_only(more)
    }
}

/// The thresholds of a test for both directions at once.
pub open spec fn test_bidir(test: TestSpec) -> RateTargets {
    match test.rate_targets_bidir_mbps {
        Some(targets) => targets,
        None => RateTargets::none(),
    }
}

/// A row with a test added, all but its UDP group. `flip` says that the test names the ends in the
/// other order.
pub open spec fn row_with(
    row: ImportRowView,
    test: TestSpec,
    flip: bool,
    default_tcp: TcpGroupOutView,
) -> ImportRowView {
    let bidir = test_bidir(test);
    let (ab, ba) = if flip {
        (bidir.ba, bidir.ab)
    } else {
        (bidir.ab, bidir.ba)
    };
    let windows = match test.tcp_windows {
        Some(windows) => texts(windows@),
        None => default_tcp.windows,
    };
    ImportRowView {
        pair: PairImportView {
            directions: with_texts(
                row.pair.directions,
                directions_seen(directions_meant(test.direction@), flip),
            ),
            transports: with_texts(row.pair.transports, shown_transports(test)),
            ip: with_texts(
                row.pair.ip,
                known_to(texts(test.ip@), "v4"@, "v6"@, test.ip@.len() as int),
            ),
            rx_target_bidir_ab: kept_target(row.pair.rx_target_bidir_ab, ab),
            rx_target_bidir_ba: kept_target(row.pair.rx_target_bidir_ba, ba),
            ..row.pair
        },
        tcp: if test_transports(test).contains("tcp"@) {
            with_steps(row.tcp, windows, count_or(test.tcp_streams, 1))
        } else {
            row.tcp
        },
    }
}

/// Adds a test to a row, all but its UDP group.
pub fn add_to_row(row: &mut ImportRow, test: &TestSpec, flip: bool, default_tcp: &TcpGroupOut)
    ensures
        final(row)@ == row_with(old(row)@, *test, flip, default_tcp@),
{
    broadcast use group_views;

    let mut transports = known_texts(&test.transports, "tcp", "udp");
    if lists(&transports, "tcp") {
        let stream: u32 = pick_count(test.tcp_streams, 1);
        match &test.tcp_windows {
            Some(windows) => {
                add_steps(&mut row.tcp, windows, stream);
            },
            None => {
                add_steps(&mut row.tcp, &default_tcp.windows, stream);
            },
        }
    }
    if does_hold_trimmed(&test.kinds, "ping") {
        transports.push(owned("ping"));
    }
    push_all_missing(&mut row.pair.directions, &directions_of_test(test, flip));
    push_all_missing(&mut row.pair.transports, &transports);
    push_all_missing(&mut row.pair.ip, &known_texts(&test.ip, "v4", "v6"));
    let bidir = match test.rate_targets_bidir_mbps {
        Some(targets) => targets,
        None => RateTargets { forward: None, ab: None, ba: None },
    };
    let (ab, ba) = if flip {
        (bidir.ba, bidir.ab)
    } else {
        (bidir.ab, bidir.ba)
    };
    if row.pair.rx_target_bidir_ab.is_none() {
        row.pair.rx_target_bidir_ab = keep_usable(ab);
    }
    if row.pair.rx_target_bidir_ba.is_none() {
        row.pair.rx_target_bidir_ba = keep_usable(ba);
    }
}

/// What has been read, with one more test of a row that is there. `at` is the row, `flip` says that
/// the test names the ends in the other order.
pub open spec fn state_with(
    st: ImportStateView,
    profiles: Seq<NicProfile>,
    test: TestSpec,
    src: Seq<char>,
    dst: Seq<char>,
    at: int,
    flip: bool,
    default_udp: UdpGroupOutView,
    default_tcp: TcpGroupOutView,
) -> ImportStateView {
    let row = row_with(st.rows[at], test, flip, default_tcp);
    if tells_group(profiles, test, src, dst) {
        let loads = views(test.udp_profiles->0@);
        let group = group_of(loads, count_or(test.udp_streams, default_udp.streams));
        let (groups, number) = with_udp_group(st.groups, default_udp, group);
        ImportStateView {
            rows: st.rows.update(
                at,
                ImportRowView {
                    pair: PairImportView {
                        udp_groups: with_index(row.pair.udp_groups, number),
                        ..row.pair
                    },
                    ..row
                },
            ),
            groups,
            ragged: st.ragged || !is_neat(loads),
            ..st
        }
    } else {
        ImportStateView { rows: st.rows.update(at, row), ..st }
    }
}

/// What has been read, with one more test.
pub open spec fn import_step(
    st: ImportStateView,
    rd: Readings,
    profiles: Seq<NicProfile>,
    test: TestSpec,
    default_udp: UdpGroupOutView,
    default_tcp: TcpGroupOutView,
) -> ImportStateView {
    match (endpoint_spelled(rd, test.src@), endpoint_spelled(rd, test.dst@)) {
        (Some(src), Some(dst)) => {
            let forth = row_index(st.rows, src, dst, 0);
            let back = row_index(st.rows, dst, src, 0);
            if forth < st.rows.len() {
                state_with(st, profiles, test, src, dst, forth, false, default_udp, default_tcp)
            } else if back < st.rows.len() {
                state_with(st, profiles, test, src, dst, back, true, default_udp, default_tcp)
            } else {
                let grown = ImportStateView { rows: st.rows.push(empty_row(src, dst)), ..st };
                state_with(
                    grown,
                    profiles,
                    test,
                    src,
                    dst,
                    st.rows.len() as int,
                    false,
                    default_udp,
                    default_tcp,
                )
            }
        },
        (src, dst) => {
            let first = if src is None {
                with_text(st.unresolved, test.src@)
            } else {
                st.unresolved
            };
            ImportStateView {
                unresolved: if dst is None {
                    with_text(first, test.dst@)
                } else {
                    first
                },
                ..st
            }
        },
    }
}

/// Reads one more test.
pub fn import_test(
    st: &mut ImportState,
    rd: &Readings,
    profiles: &Vec<NicProfile>,
    test: &TestSpec,
    default_udp: &UdpGroupOut,
    default_tcp: &TcpGroupOut,
)
    ensures
        final(st)@ == import_step(
            old(st)@,
            *rd,
            profiles@,
            *test,
            default_udp@,
            default_tcp@,
        ),
{
    broadcast use group_views;

    let ghost before = st@;
    let src = canonical_endpoint(rd, test.src.as_str());
    let dst = canonical_endpoint(rd, test.dst.as_str());
    let (src, dst) = match (src, dst) {
        (Some(src), Some(dst)) => (src, dst),
        (src, dst) => {
            if src.is_none() {
                push_missing(&mut st.unresolved, test.src.as_str());
            }
            if dst.is_none() {
                push_missing(&mut st.unresolved, test.dst.as_str());
            }
            return ;
        },
    };
    let count: usize = st.rows.len();
    assert(before.rows.len() == count);
    let forth: usize = find_row(&st.rows, src.as_str(), dst.as_str());
    let mut at: usize = forth;
    let mut flip = false;
    if forth == count {
        let back: usize = find_row(&st.rows, dst.as_str(), src.as_str());
        at = back;
        if back < count {
            flip = true;
        } else {
            st.rows.push(new_row(src.clone(), dst.clone()));
        }
    }
    let ghost grown = st@;
    assert(grown.rows.len() == st.rows@.len());
    assert(grown.rows[at as int] == st.rows@[at as int]@);
    add_to_row(&mut st.rows[at], test, flip, default_tcp);
    assert(st@.rows =~= grown.rows.update(
        at as int,
        row_with(grown.rows[at as int], *test, flip, default_tcp@),
    ));
    let transports = known_texts(&test.transports, "tcp", "udp");
    if lists(&transports, "udp") && !test_udp_all_directions_pinned(
        profiles,
        test,
        src.as_str(),
        dst.as_str(),
    ) {
        if let Some(loads) = &test.udp_profiles {
            let (group, neat) = udp_group_from_profiles(
                loads,
                pick_count(test.udp_streams, default_udp.streams),
            );
            let number: usize = add_udp_group(&mut st.groups, default_udp, group);
            if !neat {
                st.ragged = true;
            }
            push_index(&mut st.rows[at].pair.udp_groups, number);
        }
    }
    proof {
        let expected = state_with(
            grown,
            profiles@,
            *test,
            src@,
            dst@,
            at as int,
            flip,
            default_udp@,
            default_tcp@,
        );
        assert(st@.rows =~= expected.rows);
        assert(st@ == expected);
    }
}

// ---------------------------------------------------------------------------
// All tests
// ---------------------------------------------------------------------------

/// What has been read before the first test.
pub open spec fn import_start() -> ImportStateView {
    ImportStateView {
        rows: Seq::empty(),
        groups: Seq::empty(),
        unresolved: Seq::empty(),
        ragged: false,
    }
}

/// What has been read from the first `n` tests.
pub open spec fn import_to(
    rd: Readings,
    cfg: Config,
    default_udp: UdpGroupOutView,
    default_tcp: TcpGroupOutView,
    n: int,
) -> ImportStateView
    decreases n,
{
    if n <= 0 {
        import_start()
    } else {
        import_step(
            import_to(rd, cfg, default_udp, default_tcp, n - 1),
            rd,
            cfg.link_profiles.by_nic@,
            cfg.tests@[n - 1],
            default_udp,
            default_tcp,
        )
    }
}

/// Reads all tests.
pub fn import_tests(
    rd: &Readings,
    cfg: &Config,
    default_udp: &UdpGroupOut,
    default_tcp: &TcpGroupOut,
) -> (r: ImportState)
    ensures
        r@ == import_to(*rd, *cfg, default_udp@, default_tcp@, cfg.tests@.len() as int),
{
    broadcast use group_views;

    let mut st = ImportState {
        rows: Vec::new(),
        groups: Vec::new(),
        unresolved: Vec::new(),
        ragged: false,
    };
    assert(st@ == import_start());
    let mut i: usize = 0;
    while i < cfg.tests.len()
        invariant
            i <= cfg.tests@.len(),
            st@ == import_to(*rd, *cfg, default_udp@, default_tcp@, i as int),
        decreases cfg.tests@.len() - i,
    {
        import_test(
            &mut st,
            rd,
            &cfg.link_profiles.by_nic,
            &cfg.tests[i],
            default_udp,
            default_tcp,
        );
        i += 1;
    }
    st
}

/// Whether a list of texts comes before another, from index `i` on.
pub open spec fn list_before(a: Seq<Seq<char>>, b: Seq<Seq<char>>, i: int) -> bool
    decreases b.len() - i,
{
    if i < 0 || i >= b.len() {
        false
    } else if i >= a.len() {
        true
    } else if a[i] != b[i] {
        text_before(a[i], b[i], 0)
    } else {
        list_before(a, b, i + 1)
    }
}

/// Whether a list of texts comes before another.
pub fn is_list_before(a: &Vec<String>, b: &Vec<String>) -> (r: bool)
    ensures
        r == list_before(texts(a@), texts(b@), 0),
{
    let ghost x = texts(a@);
    let ghost y = texts(b@);
    let mut i: usize = 0;
    assert(x.len() == a@.len() && y.len() == b@.len());
    while i < b.len()
        invariant
            i <= b@.len(),
            x == texts(a@),
            y == texts(b@),
            x.len() == a@.len(),
            y.len() == b@.len(),
            list_before(x, y, 0) == list_before(x, y, i as int),
        decreases b@.len() - i,
    {
        if i >= a.len() {
            return true;
        }
        assert(x[i as int] == a@[i as int]@ && y[i as int] == b@[i as int]@);
        if !same(a[i].as_str(), b[i].as_str()) {
            return is_text_before(a[i].as_str(), b[i].as_str());
        }
        i += 1;
    }
    false
}

/// Where steps go among the first `k` that are placed: behind all whose windows do not come after
/// theirs.
pub open spec fn steps_slot(
    placed: Seq<usize>,
    tcp: Seq<TcpStepsView>,
    windows: Seq<Seq<char>>,
    k: int,
) -> int
    decreases k,
{
    if k <= 0 {
        0
    } else if !list_before(windows, tcp[placed[k - 1] as int].windows, 0) {
        k
    } else {
        steps_slot(placed, tcp, windows, k - 1)
    }
}

/// The first `n` steps of a row in the order of their windows.
pub open spec fn steps_order_to(tcp: Seq<TcpStepsView>, n: int) -> Seq<usize>
    decreases n,
{
    if n <= 0 {
        Seq::empty()
    } else {
        let placed = steps_order_to(tcp, n - 1);
        placed.insert(
            steps_slot(placed, tcp, tcp[n - 1].windows, placed.len() as int),
            (n - 1) as usize,
        )
    }
}

/// The steps of a row in the order of their windows.
pub open spec fn steps_order(tcp: Seq<TcpStepsView>) -> Seq<usize> {
    steps_order_to(tcp, tcp.len() as int)
}

proof fn lemma_steps_slot(placed: Seq<usize>, tcp: Seq<TcpStepsView>, windows: Seq<Seq<char>>, k: int)
    requires
        0 <= k <= placed.len(),
    ensures
        0 <= steps_slot(placed, tcp, windows, k) <= k,
    decreases k,
{
    if k > 0 && list_before(windows, tcp[placed[k - 1] as int].windows, 0) {
        lemma_steps_slot(placed, tcp, windows, k - 1);
    }
}

proof fn lemma_steps_order_to(tcp: Seq<TcpStepsView>, n: int)
    requires
        0 <= n <= tcp.len(),
        tcp.len() <= usize::MAX,
    ensures
        steps_order_to(tcp, n).len() == n,
        forall|i: int| 0 <= i < n ==> #[trigger] steps_order_to(tcp, n)[i] < n,
    decreases n,
{
    if n > 0 {
        lemma_steps_order_to(tcp, n - 1);
        let placed = steps_order_to(tcp, n - 1);
        lemma_steps_slot(placed, tcp, tcp[n - 1].windows, placed.len() as int);
        let at = steps_slot(placed, tcp, tcp[n - 1].windows, placed.len() as int);
        let all = steps_order_to(tcp, n);
        assert forall|i: int| 0 <= i < n implies #[trigger] all[i] < n by {
            if i < at {
                assert(all[i] == placed[i]);
            } else if i > at {
                assert(all[i] == placed[i - 1]);
            }
        }
    }
}

/// The steps of a row in the order of their windows.
pub fn order_steps(tcp: &Vec<TcpSteps>) -> (r: Vec<usize>)
    ensures
        r@ == steps_order(views(tcp@)),
        r@.len() == tcp@.len(),
        forall|i: int| 0 <= i < r@.len() ==> #[trigger] r@[i] < tcp@.len(),
{
    let ghost all = views(tcp@);
    let count: usize = tcp.len();
    let mut placed: Vec<usize> = Vec::new();
    let mut n: usize = 0;
    while n < count
        invariant
            n <= count,
            count == tcp@.len(),
            all == views(tcp@),
            all.len() == count,
            placed@ == steps_order_to(all, n as int),
        decreases count - n,
    {
        proof {
            lemma_steps_order_to(all, n as int);
            assert(all[n as int] == tcp@[n as int]@);
        }
        let ghost windows = all[n as int].windows;
        let mut k: usize = placed.len();
        while k > 0 && is_list_before(&tcp[n].windows, &tcp[placed[k - 1]].windows)
            invariant
                k <= placed@.len(),
                n < tcp@.len(),
                all == views(tcp@),
                windows == texts(tcp@[n as int].windows@),
                forall|i: int| 0 <= i < placed@.len() ==> #[trigger] placed@[i] < tcp@.len(),
                steps_slot(placed@, all, windows, placed@.len() as int) == steps_slot(
                    placed@,
                    all,
                    windows,
                    k as int,
                ),
            decreases k,
        {
            assert(all[placed@[k - 1] as int] == tcp@[placed@[k - 1] as int]@);
            k -= 1;
        }
        proof {
            if k > 0 {
                assert(all[placed@[k - 1] as int] == tcp@[placed@[k - 1] as int]@);
            }
        }
        placed.insert(k, n);
        n += 1;
    }
    proof {
        lemma_steps_order_to(all, n as int);
    }
    placed
}

/// The index of the first group from `i` on that runs the same tests; the length where there is
/// none.
pub open spec fn tcp_group_index(
    groups: Seq<TcpGroupOutView>,
    group: TcpGroupOutView,
    i: int,
) -> int
    decreases groups.len() - i,
{
    if i < 0 || i >= groups.len() {
        groups.len() as int
    } else if same_tcp_run(groups[i], group) {
        i
    } else {
        tcp_group_index(groups, group, i + 1)
    }
}

/// The groups with one that runs these tests, and its number: zero for the default group.
pub open spec fn with_tcp_group(
    groups: Seq<TcpGroupOutView>,
    default_group: TcpGroupOutView,
    group: TcpGroupOutView,
) -> (Seq<TcpGroupOutView>, usize) {
    let at = tcp_group_index(groups, group, 0);
    if same_tcp_run(group, default_group) {
        (groups, 0)
    } else if at < groups.len() {
        (groups, (at + 1) as usize)
    } else {
        (
            groups.push(
                TcpGroupOutView { name: "TCP 组 "@ + decimal(groups.len() + 2), ..group },
            ),
            (groups.len() + 1) as usize,
        )
    }
}

/// Finds or adds a group that runs these tests, and returns its number.
pub fn add_tcp_group(
    groups: &mut Vec<TcpGroupOut>,
    default_group: &TcpGroupOut,
    group: TcpGroupOut,
) -> (r: usize)
    ensures
        (views(final(groups)@), r) == with_tcp_group(
            views(old(groups)@),
            default_group@,
            group@,
        ),
{
    broadcast use group_views;

    let ghost before = views(groups@);
    if group.same_run_as(default_group) {
        return 0;
    }
    let mut i: usize = 0;
    while i < groups.len() && !groups[i].same_run_as(&group)
        invariant
            i <= groups@.len(),
            before == views(groups@),
            groups@ == old(groups)@,
            tcp_group_index(before, group@, 0) == tcp_group_index(before, group@, i as int),
        decreases groups@.len() - i,
    {
        assert(before[i as int] == groups@[i as int]@);
        i += 1;
    }
    if i < groups.len() {
        assert(before[i as int] == groups@[i as int]@);
        return i + 1;
    }
    let number = decimal_text_wide(groups.len() as u128 + 2);
    let mut named = group;
    named.name = cat2("TCP 组 ", number.as_str());
    groups.push(named);
    groups.len()
}

/// The group that steps come to.
pub open spec fn steps_group(steps: TcpStepsView) -> TcpGroupOutView {
    TcpGroupOutView {
        name: Seq::empty(),
        windows: steps.windows,
        streams: risen(steps.streams),
    }
}

/// The groups, and the group numbers of a row, after the first `n` of its steps in order.
pub open spec fn row_groups_to(
    groups: Seq<TcpGroupOutView>,
    tcp: Seq<TcpStepsView>,
    default_tcp: TcpGroupOutView,
    n: int,
) -> (Seq<TcpGroupOutView>, Seq<usize>)
    decreases n,
{
    if n <= 0 {
        (groups, Seq::empty())
    } else {
        let (known, numbers) = row_groups_to(groups, tcp, default_tcp, n - 1);
        let steps = tcp[steps_order(tcp)[n - 1] as int];
        let (after, number) = with_tcp_group(known, default_tcp, steps_group(steps));
        (after, with_index(numbers, number))
    }
}

/// A list of group numbers, or the default group where it is empty.
pub open spec fn or_default(numbers: Seq<usize>) -> Seq<usize> {
    if numbers.len() == 0 {
        seq![0usize]
    } else {
        numbers
    }
}

/// The finished form of a row whose TCP groups have these numbers.
pub open spec fn finished_row(row: ImportRowView, numbers: Seq<usize>) -> PairImportView {
    PairImportView {
        udp_groups: or_default(row.pair.udp_groups),
        tcp_groups: or_default(numbers),
        ..row.pair
    }
}

/// The TCP groups and the finished rows after the first `n` rows.
pub open spec fn finish_to(
    rows: Seq<ImportRowView>,
    default_tcp: TcpGroupOutView,
    n: int,
) -> (Seq<TcpGroupOutView>, Seq<PairImportView>)
    decreases n,
{
    if n <= 0 {
        (Seq::empty(), Seq::empty())
    } else {
        let (groups, pairs) = finish_to(rows, default_tcp, n - 1);
        let row = rows[n - 1];
        let (after, numbers) = row_groups_to(groups, row.tcp, default_tcp, row.tcp.len() as int);
        (after, pairs.push(finished_row(row, numbers)))
    }
}

/// Finds the TCP groups of a row.
pub fn find_row_groups(
    groups: &mut Vec<TcpGroupOut>,
    tcp: &Vec<TcpSteps>,
    default_tcp: &TcpGroupOut,
) -> (r: Vec<usize>)
    ensures
        (views(final(groups)@), r@) == row_groups_to(
            views(old(groups)@),
            views(tcp@),
            default_tcp@,
            tcp@.len() as int,
        ),
{
    broadcast use group_views;

    let ghost before = views(groups@);
    let ghost all = views(tcp@);
    let order = order_steps(tcp);
    let mut numbers: Vec<usize> = Vec::new();
    let mut i: usize = 0;
    while i < order.len()
        invariant
            i <= order@.len(),
            order@.len() == tcp@.len(),
            all == views(tcp@),
            order@ == steps_order(all),
            forall|k: int| 0 <= k < order@.len() ==> #[trigger] order@[k] < tcp@.len(),
            (views(groups@), numbers@) == row_groups_to(before, all, default_tcp@, i as int),
        decreases order@.len() - i,
    {
        let steps = &tcp[order[i]];
        assert(all[order@[i as int] as int] == steps@);
        let candidate = TcpGroupOut {
            name: String::new(),
            windows: copy_texts(&steps.windows),
            streams: sort_numbers(&steps.streams),
        };
        assert(candidate@ == steps_group(steps@));
        let number: usize = add_tcp_group(groups, default_tcp, candidate);
        push_index(&mut numbers, number);
        i += 1;
    }
    numbers
}

/// The finished rows and the TCP groups.
pub fn finish_rows(rows: Vec<ImportRow>, default_tcp: &TcpGroupOut) -> (r: (
    Vec<TcpGroupOut>,
    Vec<PairImport>,
))
    ensures
        (views(r.0@), views(r.1@)) == finish_to(
            views(rows@),
            default_tcp@,
            rows@.len() as int,
        ),
{
    broadcast use group_views;

    let ghost all = views(rows@);
    let mut groups: Vec<TcpGroupOut> = Vec::new();
    let mut pairs: Vec<PairImport> = Vec::new();
    for row in it: rows
        invariant
            it.seq() == rows@,
            all == views(rows@),
            (views(groups@), views(pairs@)) == finish_to(all, default_tcp@, it.index@ as int),
    {
        let ghost i = it.index@ as int;
        assert(all[i] == row@);
        assert(views(row.tcp@).len() == row.tcp@.len());
        let mut numbers = find_row_groups(&mut groups, &row.tcp, default_tcp);
        let ghost found = numbers@;
        if numbers.len() == 0 {
            numbers.push(0);
            assert(numbers@ =~= seq![0usize]);
        }
        let ghost shown = row@;
        let mut pair = row.pair;
        if pair.udp_groups.len() == 0 {
            pair.udp_groups.push(0);
            assert(pair.udp_groups@ =~= seq![0usize]);
        }
        pair.tcp_groups = numbers;
        assert(pair@ == finished_row(shown, found));
        pairs.push(pair);
    }
    (groups, pairs)
}

/// The notice about groups that were added.
pub open spec fn groups_notice(kind: Seq<char>, count: nat) -> Seq<Seq<char>> {
    if count == 0 {
        Seq::empty()
    } else {
        seq![
            "文件里有 "@ + decimal(count) + " 组和默认组不同的 "@ + kind
                + " 参数，已建成附加组并按行选好。"@,
        ]
    }
}

/// What is to be said of what was read.
pub open spec fn import_notices(st: ImportStateView, tcp_groups: nat) -> Seq<Seq<char>> {
    (if st.unresolved.len() == 0 {
        Seq::<Seq<char>>::empty()
    } else {
        seq![
            "这些端点在当前网口表里找不到，相关配对没有导入："@ + joined(st.unresolved, "、"@),
        ]
    }) + (if st.ragged {
        seq![
            "文件里有 UDP 档位不是「每档 -b × 每档 -l × 每档 -w」的整齐组合（手写配置常见）。参数组按三个轴各取一次去重来表示，导入后跑的档位会比文件里多；要原样跑请直接 `master --auto --config 那个文件`。"@,
        ]
    } else {
        Seq::<Seq<char>>::empty()
    }) + groups_notice("TCP"@, tcp_groups) + groups_notice("UDP"@, st.groups.len())
}

/// Adds the notice about groups that were added.
pub fn push_groups_notice(notices: &mut Vec<String>, kind: &str, count: usize)
    ensures
        texts(final(notices)@) == texts(old(notices)@) + groups_notice(kind@, count as nat),
{
    broadcast use group_views;

    let ghost before = texts(notices@);
    if count > 0 {
        let number = decimal_text_wide(count as u128);
        notices.push(
            crate::text::cat5(
                "文件里有 ",
                number.as_str(),
                " 组和默认组不同的 ",
                kind,
                " 参数，已建成附加组并按行选好。",
            ),
        );
    }
    assert(texts(notices@) =~= before + groups_notice(kind@, count as nat));
}

/// The matrix that a configuration comes to: rows, UDP groups, TCP groups and notices.
pub fn pairs_from_tests(
    rd: &Readings,
    cfg: &Config,
    default_group: &UdpGroupOut,
    default_tcp_group: &TcpGroupOut,
) -> (r: (Vec<PairImport>, Vec<UdpGroupOut>, Vec<TcpGroupOut>, Vec<String>))
    ensures
        ({
            let st = import_to(
                *rd,
                *cfg,
                default_group@,
                default_tcp_group@,
                cfg.tests@.len() as int,
            );
            let (tcp_groups, pairs) = finish_to(st.rows, default_tcp_group@, st.rows.len() as int);
            &&& views(r.0@) == pairs
            &&& views(r.1@) == st.groups
            &&& views(r.2@) == tcp_groups
            &&& texts(r.3@) == import_notices(st, tcp_groups.len())
        }),
{
    broadcast use group_views;

    let st = import_tests(rd, cfg, default_group, default_tcp_group);
    let ghost shown = st@;
    assert(views(st.rows@).len() == st.rows@.len());
    assert(texts(st.unresolved@).len() == st.unresolved@.len());
    assert(views(st.groups@).len() == st.groups@.len());
    let mut notices: Vec<String> = Vec::new();
    if st.unresolved.len() > 0 {
        let list = join(&st.unresolved, "、");
        notices.push(cat2("这些端点在当前网口表里找不到，相关配对没有导入：", list.as_str()));
    }
    if st.ragged {
        notices.push(
            owned(
                "文件里有 UDP 档位不是「每档 -b × 每档 -l × 每档 -w」的整齐组合（手写配置常见）。参数组按三个轴各取一次去重来表示，导入后跑的档位会比文件里多；要原样跑请直接 `master --auto --config 那个文件`。",
            ),
        );
    }
    let (tcp_groups, pairs) = finish_rows(st.rows, default_tcp_group);
    assert(views(tcp_groups@).len() == tcp_groups@.len());
    push_groups_notice(&mut notices, "TCP", tcp_groups.len());
    push_groups_notice(&mut notices, "UDP", st.groups.len());
    assert(texts(notices@) =~= import_notices(shown, views(tcp_groups@).len()));
    (pairs, st.groups, tcp_groups, notices)
}

} // verus!
