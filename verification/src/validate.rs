//! What a request must be before anything runs: each complaint names the field and what it may be.
use vstd::prelude::*;
use vstd::string::*;
use crate::model::{
    NicPolicySelection, PairSelection, RunRequest, TcpGroup, UdpGroup, UiState, WifiBandThreshold,
    WifiPairThreshold,
};
use crate::number::Double;
use crate::ping::MAX_PAYLOAD;
use crate::protocol::NicInfo;
use crate::readings::{look_up, reading, Readings};
use crate::text::{
    begins, blank, cat2, cat3, cat4, cat5, cat6, cut, debug_text, decimal, decimal_text, ends,
    group_views, is_blank, lists, owned, quoted, same, split_once, strip_prefix, strip_suffix,
    texts, told, trim, trimmed, views,
};
use crate::wifi::{band_of, canonical_wifi_band};

verus! {

/// The largest number of UDP streams.
pub const MAX_UDP_STREAMS: u32 = 32;

/// The largest UDP payload in bytes.
pub const MAX_UDP_LENGTH: u64 = 65_507;

/// The bit pattern of 200, the largest share in percent.
pub const MAX_PERCENT_BITS: u64 = 0x4069_0000_0000_0000;

/// The bit pattern of 400000, the largest UDP bandwidth in Mbps.
pub const MAX_UDP_BANDWIDTH_BITS: u64 = 0x4118_6a00_0000_0000;

// ---------------------------------------------------------------------------
// Thresholds
// ---------------------------------------------------------------------------

/// A receive threshold: a rate, or a share of the negotiated speed.
#[derive(Clone, Copy, Debug, PartialEq, Eq, Structural)]
pub enum RxTarget {
    Mbps(Double),
    Percent(Double),
}

/// What a threshold text says: nothing, a rate such as `1800`, or a share such as `90%`.
pub open spec fn rx_target(rd: Readings, raw: Seq<char>) -> Result<Option<RxTarget>, Seq<char>> {
    let text = trimmed(raw);
    let percent = ends(text, "%"@);
    let number = if percent {
        trimmed(text.take(text.len() - "%"@.len()))
    } else {
        text
    };
    if text.len() == 0 {
        Ok(None)
    } else {
        match reading(rd.numbers@, number) {
            Err(_) => Err("看不懂的门限写法 "@ + debug_text(raw) + "，请填 1800 或 90%"@),
            Ok(value) => if !value.usable() {
                Err("门限必须是大于 0 的有限值，当前 "@ + debug_text(raw))
            } else if !percent {
                Ok(Some(RxTarget::Mbps(value)))
            } else if value.over(MAX_PERCENT_BITS) {
                Err("百分比门限 "@ + debug_text(raw) + " 超过 200%，请确认是不是写错了"@)
            } else {
                Ok(Some(RxTarget::Percent(value)))
            },
        }
    }
}

/// Reads a threshold text.
pub fn parse_rx_target(rd: &Readings, raw: &str) -> (r: Result<Option<RxTarget>, String>)
    ensures
        told(r) == rx_target(*rd, raw@),
{
    let text = trim(raw);
    if text.is_empty() {
        return Ok(None);
    }
    let (number, percent) = match strip_suffix(text, "%") {
        Some(rest) => (trim(rest), true),
        None => (text, false),
    };
    match look_up(&rd.numbers, number) {
        Err(_) => {
            let shown = quoted(raw);
            Err(cat3("看不懂的门限写法 ", shown.as_str(), "，请填 1800 或 90%"))
        },
        Ok(value) => {
            if !value.is_usable() {
                let shown = quoted(raw);
                Err(cat2("门限必须是大于 0 的有限值，当前 ", shown.as_str()))
            } else if !percent {
                Ok(Some(RxTarget::Mbps(*value)))
            } else if value.is_over(MAX_PERCENT_BITS) {
                let shown = quoted(raw);
                Err(cat3("百分比门限 ", shown.as_str(), " 超过 200%，请确认是不是写错了"))
            } else {
                Ok(Some(RxTarget::Percent(*value)))
            }
        },
    }
}

// ---------------------------------------------------------------------------
// Endpoints and choices
// ---------------------------------------------------------------------------

/// Whether an interface of that name is in the list.
pub open spec fn nic_named(nics: Seq<NicInfo>, name: Seq<char>) -> bool {
    exists|i: int| 0 <= i < nics.len() && (#[trigger] nics[i]).name@ == name
}

/// Whether an interface of that name is in the list.
pub fn has_nic(nics: &Vec<NicInfo>, name: &str) -> (r: bool)
    ensures
        r == nic_named(nics@, name@),
{
    let mut i: usize = 0;
    while i < nics.len()
        invariant
            i <= nics@.len(),
            forall|k: int| 0 <= k < i ==> (#[trigger] nics@[k]).name@ != name@,
        decreases nics@.len() - i,
    {
        if same(nics[i].name.as_str(), name) {
            return true;
        }
        i += 1;
    }
    false
}

/// Whether `host:NAME=name` names an interface that was found on that host.
pub open spec fn endpoint_known(state: UiState, endpoint: Seq<char>) -> bool {
    match cut(endpoint, ':') {
        Some((host, selector)) => {
            let name = selector.skip("NAME="@.len() as int);
            begins(selector, "NAME="@) && if host == "master"@ {
                nic_named(state.master.interfaces@, name)
            } else {
                host == "agent"@ && nic_named(state.agent.interfaces@, name)
            }
        },
        None => false,
    }
}

/// Whether `host:NAME=name` names an interface that was found on that host.
pub fn endpoint_exists(state: &UiState, endpoint: &str) -> (r: bool)
    ensures
        r == endpoint_known(*state, endpoint@),
{
    match split_once(endpoint, ':') {
        None => false,
        Some((host, selector)) => match strip_prefix(selector, "NAME=") {
            None => false,
            Some(name) => if same(host, "master") {
                has_nic(&state.master.interfaces, name)
            } else if same(host, "agent") {
                has_nic(&state.agent.interfaces, name)
            } else {
                false
            },
        },
    }
}

/// Whether an endpoint names a known interface or resolves to one.
pub open spec fn ui_endpoint_known(state: UiState, rd: Readings, endpoint: Seq<char>) -> bool {
    endpoint_known(state, endpoint) || reading(rd.endpoints@, endpoint) is Ok
}

/// Whether an endpoint names a known interface or resolves to one.
pub fn ui_endpoint_exists(state: &UiState, rd: &Readings, endpoint: &str) -> (r: bool)
    ensures
        r == ui_endpoint_known(*state, *rd, endpoint@),
{
    endpoint_exists(state, endpoint) || look_up(&rd.endpoints, endpoint).is_ok()
}

/// Whether there are values and each is one of those allowed.
pub open spec fn all_allowed(values: Seq<Seq<char>>, allowed: Seq<Seq<char>>) -> bool {
    values.len() > 0 && forall|i: int|
        0 <= i < values.len() ==> allowed.contains(#[trigger] values[i])
}

/// Whether there are values and each is one of those allowed.
pub fn values_are_allowed(values: &Vec<String>, allowed: &Vec<&str>) -> (r: bool)
    ensures
        r == all_allowed(texts(values@), views(allowed@)),
{
    if values.len() == 0 {
        return false;
    }
    let mut i: usize = 0;
    while i < values.len()
        invariant
            i <= values@.len(),
            forall|k: int| 0 <= k < i ==> views(allowed@).contains(#[trigger] texts(values@)[k]),
        decreases values@.len() - i,
    {
        let mut j: usize = 0;
        let mut found = false;
        while j < allowed.len()
            invariant
                i < values@.len(),
                j <= allowed@.len(),
                found ==> views(allowed@).contains(values@[i as int]@),
                !found ==> forall|k: int| 0 <= k < j ==> views(allowed@)[k] != values@[i as int]@,
            decreases allowed@.len() - j,
        {
            if same(values[i].as_str(), allowed[j]) {
                assert(views(allowed@)[j as int] == values@[i as int]@);
                found = true;
            }
            j += 1;
        }
        if !found {
            assert(!views(allowed@).contains(texts(values@)[i as int]));
            return false;
        }
        assert(texts(values@)[i as int] == values@[i as int]@);
        i += 1;
    }
    true
}

// ---------------------------------------------------------------------------
// Lists of texts
// ---------------------------------------------------------------------------

/// The first `n` texts trimmed, without those that are then empty.
pub open spec fn cleaned_to(raw: Seq<Seq<char>>, n: int) -> Seq<Seq<char>>
    decreases n,
{
    if n <= 0 {
        Seq::empty()
    } else if blank(raw[n - 1]) {
        cleaned_to(raw, n - 1)
    } else {
        cleaned_to(raw, n - 1).push(trimmed(raw[n - 1]))
    }
}

/// The texts trimmed, without those that are then empty.
pub open spec fn cleaned(raw: Seq<Seq<char>>) -> Seq<Seq<char>> {
    cleaned_to(raw, raw.len() as int)
}

/// The texts trimmed, without those that are then empty.
pub fn cleaned_list(raw: &Vec<String>) -> (r: Vec<String>)
    ensures
        texts(r@) == cleaned(texts(raw@)),
{
    broadcast use group_views;

    let mut r: Vec<String> = Vec::new();
    let mut i: usize = 0;
    while i < raw.len()
        invariant
            i <= raw@.len(),
            texts(r@) == cleaned_to(texts(raw@), i as int),
        decreases raw@.len() - i,
    {
        let text = trim(raw[i].as_str());
        if !text.is_empty() {
            r.push(owned(text));
        }
        i += 1;
    }
    r
}

// ---------------------------------------------------------------------------
// Sizes and bandwidths
// ---------------------------------------------------------------------------

/// The size that `text` reads as, or the complaint that shows it as `shown`.
pub open spec fn size_told(
    rd: Readings,
    prefix: Seq<char>,
    shown: Seq<char>,
    text: Seq<char>,
) -> Result<u64, Seq<char>> {
    match reading(rd.sizes@, text) {
        Ok(bytes) => Ok(bytes),
        Err(e) => Err(prefix + debug_text(shown) + " 无效："@ + e),
    }
}

/// The size that `text` reads as, or the complaint that shows it as `shown`.
pub fn check_size(rd: &Readings, prefix: &str, shown: &str, text: &str) -> (r: Result<u64, String>)
    ensures
        told(r) == size_told(*rd, prefix@, shown@, text@),
{
    match look_up(&rd.sizes, text) {
        Ok(bytes) => Ok(*bytes),
        Err(e) => {
            let quote = quoted(shown);
            Err(cat4(prefix, quote.as_str(), " 无效：", e.as_str()))
        },
    }
}

/// The first complaint about window sizes from index `i` on; blank texts are passed over.
pub open spec fn windows_told(
    rd: Readings,
    list: Seq<Seq<char>>,
    prefix: Seq<char>,
    i: int,
) -> Result<(), Seq<char>>
    decreases list.len() - i,
{
    if i < 0 || i >= list.len() {
        Ok(())
    } else if blank(list[i]) {
        windows_told(rd, list, prefix, i + 1)
    } else {
        match size_told(rd, prefix, list[i], trimmed(list[i])) {
            Err(e) => Err(e),
            Ok(_) => windows_told(rd, list, prefix, i + 1),
        }
    }
}

/// Checks window sizes; blank texts are passed over.
pub fn check_windows(rd: &Readings, list: &Vec<String>, prefix: &str) -> (r: Result<(), String>)
    ensures
        told(r) == windows_told(*rd, texts(list@), prefix@, 0),
{
    let mut i: usize = 0;
    while i < list.len()
        invariant
            i <= list@.len(),
            windows_told(*rd, texts(list@), prefix@, 0) == windows_told(
                *rd,
                texts(list@),
                prefix@,
                i as int,
            ),
        decreases list@.len() - i,
    {
        assert(texts(list@)[i as int] == list@[i as int]@);
        let text = trim(list[i].as_str());
        if !text.is_empty() {
            if let Err(e) = check_size(rd, prefix, list[i].as_str(), text) {
                return Err(e);
            }
        }
        i += 1;
    }
    Ok(())
}

/// A datagram length that `text` reads as, or the complaint. A length that no datagram can hold is
/// answered with `over`, or with a text that shows it where `over` is `None`.
pub open spec fn length_told(
    rd: Readings,
    prefix: Seq<char>,
    over: Option<Seq<char>>,
    shown: Seq<char>,
    text: Seq<char>,
) -> Result<(), Seq<char>> {
    match size_told(rd, prefix, shown, text) {
        Err(e) => Err(e),
        Ok(bytes) => if bytes > MAX_UDP_LENGTH {
            match over {
                Some(e) => Err(e),
                None => Err(prefix + debug_text(shown) + " 超过单个 UDP 报文上限 65507 字节"@),
            }
        } else {
            Ok(())
        },
    }
}

/// Checks a datagram length.
pub fn check_length(
    rd: &Readings,
    prefix: &str,
    over: &Option<String>,
    shown: &str,
    text: &str,
) -> (r: Result<(), String>)
    ensures
        told(r) == length_told(*rd, prefix@, crate::text::opt_view(*over), shown@, text@),
{
    match check_size(rd, prefix, shown, text) {
        Err(e) => Err(e),
        Ok(bytes) => {
            if bytes > MAX_UDP_LENGTH {
                match over {
                    Some(e) => Err(owned(e.as_str())),
                    None => {
                        let quote = quoted(shown);
                        Err(cat3(prefix, quote.as_str(), " 超过单个 UDP 报文上限 65507 字节"))
                    },
                }
            } else {
                Ok(())
            }
        },
    }
}

/// The first complaint about datagram lengths from index `i` on; blank texts are passed over.
pub open spec fn lengths_told(
    rd: Readings,
    list: Seq<Seq<char>>,
    prefix: Seq<char>,
    over: Option<Seq<char>>,
    i: int,
) -> Result<(), Seq<char>>
    decreases list.len() - i,
{
    if i < 0 || i >= list.len() {
        Ok(())
    } else if blank(list[i]) {
        lengths_told(rd, list, prefix, over, i + 1)
    } else {
        match length_told(rd, prefix, over, list[i], trimmed(list[i])) {
            Err(e) => Err(e),
            Ok(_) => lengths_told(rd, list, prefix, over, i + 1),
        }
    }
}

/// Checks datagram lengths; blank texts are passed over.
pub fn check_lengths(
    rd: &Readings,
    list: &Vec<String>,
    prefix: &str,
    over: &Option<String>,
) -> (r: Result<(), String>)
    ensures
        told(r) == lengths_told(*rd, texts(list@), prefix@, crate::text::opt_view(*over), 0),
{
    let ghost over_text = crate::text::opt_view(*over);
    let mut i: usize = 0;
    while i < list.len()
        invariant
            i <= list@.len(),
            over_text == crate::text::opt_view(*over),
            lengths_told(*rd, texts(list@), prefix@, over_text, 0) == lengths_told(
                *rd,
                texts(list@),
                prefix@,
                over_text,
                i as int,
            ),
        decreases list@.len() - i,
    {
        assert(texts(list@)[i as int] == list@[i as int]@);
        let text = trim(list[i].as_str());
        if !text.is_empty() {
            if let Err(e) = check_length(rd, prefix, over, list[i].as_str(), text) {
                return Err(e);
            }
        }
        i += 1;
    }
    Ok(())
}

/// The complaint about a UDP bandwidth: one that cannot be read, or one beyond any link.
pub open spec fn bandwidth_told(rd: Readings, raw: Seq<char>, label: Seq<char>) -> Result<
    (),
    Seq<char>,
> {
    match reading(rd.bandwidths@, raw) {
        Err(e) => Err(label + " 的 UDP -b "@ + debug_text(raw) + " 无效："@ + e),
        Ok(parsed) => if parsed.mbps.over(MAX_UDP_BANDWIDTH_BITS) {
            Err(
                label + " 的 UDP -b "@ + debug_text(raw) + " 折合 "@ + parsed.shown@
                    + " Mbps，超出这套工具面对的任何链路。输入框里的裸数字按 Mbps 算（`1000` = 1000Mbps），要写 bit/s 请加后缀：`1000m` 或 `1G` 都是 1000Mbps"@,
            )
        } else {
            Ok(())
        },
    }
}

/// Checks a UDP bandwidth; `label` says which field it stands in.
pub fn check_udp_bandwidth(rd: &Readings, raw: &str, label: &str) -> (r: Result<(), String>)
    ensures
        told(r) == bandwidth_told(*rd, raw@, label@),
{
    match look_up(&rd.bandwidths, raw) {
        Err(e) => {
            let shown = quoted(raw);
            Err(cat5(label, " 的 UDP -b ", shown.as_str(), " 无效：", e.as_str()))
        },
        Ok(parsed) => {
            if parsed.mbps.is_over(MAX_UDP_BANDWIDTH_BITS) {
                let shown = quoted(raw);
                Err(
                    cat6(
                        label,
                        " 的 UDP -b ",
                        shown.as_str(),
                        " 折合 ",
                        parsed.shown.as_str(),
                        " Mbps，超出这套工具面对的任何链路。输入框里的裸数字按 Mbps 算（`1000` = 1000Mbps），要写 bit/s 请加后缀：`1000m` 或 `1G` 都是 1000Mbps",
                    ),
                )
            } else {
                Ok(())
            }
        },
    }
}

/// The first complaint about UDP bandwidths from index `i` on; blank texts are passed over.
pub open spec fn bandwidths_told(
    rd: Readings,
    list: Seq<Seq<char>>,
    label: Seq<char>,
    i: int,
) -> Result<(), Seq<char>>
    decreases list.len() - i,
{
    if i < 0 || i >= list.len() {
        Ok(())
    } else if blank(list[i]) {
        bandwidths_told(rd, list, label, i + 1)
    } else {
        match bandwidth_told(rd, trimmed(list[i]), label) {
            Err(e) => Err(e),
            Ok(_) => bandwidths_told(rd, list, label, i + 1),
        }
    }
}

/// Checks UDP bandwidths; blank texts are passed over.
pub fn check_bandwidths(rd: &Readings, list: &Vec<String>, label: &str) -> (r: Result<(), String>)
    ensures
        told(r) == bandwidths_told(*rd, texts(list@), label@, 0),
{
    let mut i: usize = 0;
    while i < list.len()
        invariant
            i <= list@.len(),
            bandwidths_told(*rd, texts(list@), label@, 0) == bandwidths_told(
                *rd,
                texts(list@),
                label@,
                i as int,
            ),
        decreases list@.len() - i,
    {
        assert(texts(list@)[i as int] == list@[i as int]@);
        let text = trim(list[i].as_str());
        if !text.is_empty() {
            if let Err(e) = check_udp_bandwidth(rd, text, label) {
                return Err(e);
            }
        }
        i += 1;
    }
    Ok(())
}

/// Whether every stream count is from 1 to 32.
pub open spec fn streams_fit(streams: Seq<u32>) -> bool {
    forall|i: int| 0 <= i < streams.len() ==> 1 <= #[trigger] streams[i] <= 32
}

/// Whether every stream count is from 1 to 32.
pub fn do_streams_fit(streams: &Vec<u32>) -> (r: bool)
    ensures
        r == streams_fit(streams@),
{
    let mut i: usize = 0;
    while i < streams.len()
        invariant
            i <= streams@.len(),
            forall|k: int| 0 <= k < i ==> 1 <= #[trigger] streams@[k] <= 32,
        decreases streams@.len() - i,
    {
        if streams[i] < 1 || streams[i] > 32 {
            return false;
        }
        i += 1;
    }
    true
}

// ---------------------------------------------------------------------------
// Groups of parameters
// ---------------------------------------------------------------------------

/// How a message calls the `index`th group: by its name, or by its number where it has none.
pub open spec fn group_label(kind: Seq<char>, index: nat, name: Seq<char>) -> Seq<char> {
    if blank(name) {
        kind + " 参数组 "@ + decimal(index)
    } else {
        kind + " 参数组「"@ + trimmed(name) + "」"@
    }
}

/// How a message calls the `index`th group.
pub fn label_of_group(kind: &str, index: usize, name: &str) -> (r: String)
    ensures
        r@ == group_label(kind@, index as nat, name@),
{
    let text = trim(name);
    if text.is_empty() {
        let number = decimal_text(index as u64);
        cat3(kind, " 参数组 ", number.as_str())
    } else {
        cat4(kind, " 参数组「", text, "」")
    }
}

/// The first complaint about a further UDP group.
pub open spec fn udp_group_told(rd: Readings, index: nat, group: UdpGroup) -> Result<
    (),
    Seq<char>,
> {
    let label = group_label("UDP"@, index, group.name@);
    let bandwidths = cleaned(texts(group.bandwidths@));
    if bandwidths.len() == 0 {
        Err(label + " 没填 -b：组是完整定义，不继承默认组的档位"@)
    } else {
        match bandwidths_told(rd, bandwidths, label, 0) {
            Err(e) => Err(e),
            Ok(_) => match lengths_told(
                rd,
                cleaned(texts(group.lengths@)),
                label + " 的 -l "@,
                None,
                0,
            ) {
                Err(e) => Err(e),
                Ok(_) => match windows_told(
                    rd,
                    cleaned(texts(group.windows@)),
                    label + " 的 -w "@,
                    0,
                ) {
                    Err(e) => Err(e),
                    Ok(_) => if group.streams > MAX_UDP_STREAMS {
                        Err(label + " 的流数 "@ + decimal(group.streams as nat) + " 超过上限 32"@)
                    } else {
                        Ok(())
                    },
                },
            },
        }
    }
}

/// Checks a further UDP group; `index` counts from one.
pub fn validate_udp_group(rd: &Readings, index: usize, group: &UdpGroup) -> (r: Result<(), String>)
    ensures
        told(r) == udp_group_told(*rd, index as nat, *group),
{
    let label = label_of_group("UDP", index, group.name.as_str());
    let bandwidths = cleaned_list(&group.bandwidths);
    assert(texts(bandwidths@).len() == bandwidths@.len());
    if bandwidths.len() == 0 {
        return Err(cat2(label.as_str(), " 没填 -b：组是完整定义，不继承默认组的档位"));
    }
    if let Err(e) = check_bandwidths(rd, &bandwidths, label.as_str()) {
        return Err(e);
    }
    let length_prefix = cat2(label.as_str(), " 的 -l ");
    if let Err(e) = check_lengths(
        rd,
        &cleaned_list(&group.lengths),
        length_prefix.as_str(),
        &None,
    ) {
        return Err(e);
    }
    let window_prefix = cat2(label.as_str(), " 的 -w ");
    if let Err(e) = check_windows(rd, &cleaned_list(&group.windows), window_prefix.as_str()) {
        return Err(e);
    }
    if group.streams > MAX_UDP_STREAMS {
        let number = decimal_text(group.streams as u64);
        return Err(cat4(label.as_str(), " 的流数 ", number.as_str(), " 超过上限 32"));
    }
    Ok(())
}

/// The first complaint about a further TCP group.
pub open spec fn tcp_group_told(rd: Readings, index: nat, group: TcpGroup) -> Result<
    (),
    Seq<char>,
> {
    let label = group_label("TCP"@, index, group.name@);
    match windows_told(rd, cleaned(texts(group.windows@)), label + " 的 -w "@, 0) {
        Err(e) => Err(e),
        Ok(_) => if !streams_fit(group.streams@) {
            Err(label + " 的 -P 每一档都必须在 1..=32 之间"@)
        } else {
            Ok(())
        },
    }
}

/// Checks a further TCP group; `index` counts from one.
pub fn validate_tcp_group(rd: &Readings, index: usize, group: &TcpGroup) -> (r: Result<(), String>)
    ensures
        told(r) == tcp_group_told(*rd, index as nat, *group),
{
    let label = label_of_group("TCP", index, group.name.as_str());
    let window_prefix = cat2(label.as_str(), " 的 -w ");
    if let Err(e) = check_windows(rd, &cleaned_list(&group.windows), window_prefix.as_str()) {
        return Err(e);
    }
    if !do_streams_fit(&group.streams) {
        return Err(cat2(label.as_str(), " 的 -P 每一档都必须在 1..=32 之间"));
    }
    Ok(())
}

// ---------------------------------------------------------------------------
// Values that all tests share
// ---------------------------------------------------------------------------

/// The first value from index `i` on that is not a finite value of at least zero.
pub open spec fn nonnegative_told(
    fields: Seq<(Seq<char>, Double)>,
    complaint: Seq<char>,
    i: int,
) -> Result<(), Seq<char>>
    decreases fields.len() - i,
{
    if i < 0 || i >= fields.len() {
        Ok(())
    } else if !fields[i].1.nonnegative() {
        Err(fields[i].0 + complaint)
    } else {
        nonnegative_told(fields, complaint, i + 1)
    }
}

/// Named values, by the texts of their names.
pub open spec fn fields_of(fields: Seq<(&str, Double)>) -> Seq<(Seq<char>, Double)> {
    Seq::new(fields.len(), |i: int| (fields[i].0@, fields[i].1))
}

/// Checks that named values are finite and at least zero.
pub fn check_nonnegative(fields: &Vec<(&str, Double)>, complaint: &str) -> (r: Result<(), String>)
    ensures
        told(r) == nonnegative_told(fields_of(fields@), complaint@, 0),
{
    let mut i: usize = 0;
    while i < fields.len()
        invariant
            i <= fields@.len(),
            nonnegative_told(fields_of(fields@), complaint@, 0) == nonnegative_told(
                fields_of(fields@),
                complaint@,
                i as int,
            ),
        decreases fields@.len() - i,
    {
        if !fields[i].1.is_nonnegative() {
            return Err(cat2(fields[i].0, complaint));
        }
        i += 1;
    }
    Ok(())
}

/// The complaint about a threshold that is negative or not finite.
pub const NONNEGATIVE: &'static str = "必须是非负有限值，0 表示不覆盖";

/// The Wi-Fi thresholds that hold for all bands.
pub open spec fn wifi_fields(req: RunRequest) -> Seq<(Seq<char>, Double)> {
    seq![
        ("Wi-Fi 互测单向 RX 门限"@, req.wifi_pair_rx_target_mbps),
        ("Wi-Fi 互测双向每方向 RX 门限"@, req.wifi_pair_bidir_rx_target_mbps),
        ("Wi-Fi 互测双向 RX 合计门限"@, req.wifi_pair_bidir_total_rx_target_mbps),
    ]
}

/// The round-trip thresholds of a request.
pub open spec fn ping_fields(req: RunRequest) -> Seq<(Seq<char>, Double)> {
    seq![
        ("有线 small Avg RTT"@, req.ping_wired_small_avg_rtt_ms),
        ("有线 small Max RTT"@, req.ping_wired_small_max_rtt_ms),
        ("有线 medium Avg RTT"@, req.ping_wired_medium_avg_rtt_ms),
        ("有线 medium Max RTT"@, req.ping_wired_medium_max_rtt_ms),
        ("有线 large Avg RTT"@, req.ping_wired_large_avg_rtt_ms),
        ("有线 large Max RTT"@, req.ping_wired_large_max_rtt_ms),
        ("Wi-Fi small Avg RTT"@, req.ping_wifi_small_avg_rtt_ms),
        ("Wi-Fi small Max RTT"@, req.ping_wifi_small_max_rtt_ms),
        ("Wi-Fi medium Avg RTT"@, req.ping_wifi_medium_avg_rtt_ms),
        ("Wi-Fi medium Max RTT"@, req.ping_wifi_medium_max_rtt_ms),
        ("Wi-Fi large Avg RTT"@, req.ping_wifi_large_avg_rtt_ms),
        ("Wi-Fi large Max RTT"@, req.ping_wifi_large_max_rtt_ms),
        ("兼容旧版有线 small Max RTT"@, req.ping_max_rtt_ms),
    ]
}

/// The first complaint about the round-trip thresholds.
pub open spec fn ping_thresholds_told(req: RunRequest) -> Result<(), Seq<char>> {
    nonnegative_told(ping_fields(req), NONNEGATIVE@, 0)
}

/// Checks the round-trip thresholds.
pub fn validate_ping_thresholds(req: &RunRequest) -> (r: Result<(), String>)
    ensures
        told(r) == ping_thresholds_told(*req),
{
    let fields: Vec<(&str, Double)> = vec![
        ("有线 small Avg RTT", req.ping_wired_small_avg_rtt_ms),
        ("有线 small Max RTT", req.ping_wired_small_max_rtt_ms),
        ("有线 medium Avg RTT", req.ping_wired_medium_avg_rtt_ms),
        ("有线 medium Max RTT", req.ping_wired_medium_max_rtt_ms),
        ("有线 large Avg RTT", req.ping_wired_large_avg_rtt_ms),
        ("有线 large Max RTT", req.ping_wired_large_max_rtt_ms),
        ("Wi-Fi small Avg RTT", req.ping_wifi_small_avg_rtt_ms),
        ("Wi-Fi small Max RTT", req.ping_wifi_small_max_rtt_ms),
        ("Wi-Fi medium Avg RTT", req.ping_wifi_medium_avg_rtt_ms),
        ("Wi-Fi medium Max RTT", req.ping_wifi_medium_max_rtt_ms),
        ("Wi-Fi large Avg RTT", req.ping_wifi_large_avg_rtt_ms),
        ("Wi-Fi large Max RTT", req.ping_wifi_large_max_rtt_ms),
        ("兼容旧版有线 small Max RTT", req.ping_max_rtt_ms),
    ];
    assert(fields_of(fields@) =~= ping_fields(*req));
    check_nonnegative(&fields, NONNEGATIVE)
}

/// Whether a band rule uses the current fields.
pub open spec fn rule_is_current(rule: WifiBandThreshold) -> bool {
    !blank(rule.master_band@) || !blank(rule.agent_band@)
}

/// Whether a band rule uses the older fields.
pub open spec fn rule_is_older(rule: WifiBandThreshold) -> bool {
    !blank(rule.src_band@) || !blank(rule.dst_band@)
}

/// Whether two rules of the current form are about the same bands.
pub open spec fn same_current_bands(a: WifiBandThreshold, b: WifiBandThreshold) -> bool {
    band_of(a.master_band@) == band_of(b.master_band@) && band_of(a.agent_band@) == band_of(
        b.agent_band@,
    )
}

/// Whether two rules of the older form are about the same bands.
pub open spec fn same_older_bands(a: WifiBandThreshold, b: WifiBandThreshold) -> bool {
    band_of(a.src_band@) == band_of(b.src_band@) && band_of(a.dst_band@) == band_of(b.dst_band@)
}

/// Whether an earlier rule of the same form is about the same bands as the `i`th.
pub open spec fn band_rule_repeats(rules: Seq<WifiBandThreshold>, i: int) -> bool {
    exists|j: int|
        0 <= j < i && rule_is_current(#[trigger] rules[j]) == rule_is_current(rules[i]) && if rule_is_current(
            rules[i],
        ) {
            same_current_bands(rules[j], rules[i])
        } else {
            same_older_bands(rules[j], rules[i])
        }
}

/// Whether a band rule uses the current fields.
pub fn is_rule_current(rule: &WifiBandThreshold) -> (r: bool)
    ensures
        r == rule_is_current(*rule),
{
    !is_blank(rule.master_band.as_str()) || !is_blank(rule.agent_band.as_str())
}

/// Whether an earlier rule of the same form is about the same bands as the `i`th.
pub fn does_band_rule_repeat(rules: &Vec<WifiBandThreshold>, i: usize) -> (r: bool)
    requires
        i < rules@.len(),
    ensures
        r == band_rule_repeats(rules@, i as int),
{
    let current = is_rule_current(&rules[i]);
    let mut j: usize = 0;
    while j < i
        invariant
            j <= i < rules@.len(),
            current == rule_is_current(rules@[i as int]),
            forall|k: int|
                0 <= k < j ==> !(rule_is_current(#[trigger] rules@[k]) == current && if current {
                    same_current_bands(rules@[k], rules@[i as int])
                } else {
                    same_older_bands(rules@[k], rules@[i as int])
                }),
        decreases i - j,
    {
        if is_rule_current(&rules[j]) == current {
            let repeats = if current {
                same(
                    canonical_wifi_band(rules[j].master_band.as_str()),
                    canonical_wifi_band(rules[i].master_band.as_str()),
                ) && same(
                    canonical_wifi_band(rules[j].agent_band.as_str()),
                    canonical_wifi_band(rules[i].agent_band.as_str()),
                )
            } else {
                same(
                    canonical_wifi_band(rules[j].src_band.as_str()),
                    canonical_wifi_band(rules[i].src_band.as_str()),
                ) && same(
                    canonical_wifi_band(rules[j].dst_band.as_str()),
                    canonical_wifi_band(rules[i].dst_band.as_str()),
                )
            };
            if repeats {
                return true;
            }
        }
        j += 1;
    }
    false
}

/// The thresholds of a band rule of the current form.
pub open spec fn current_rule_fields(rule: WifiBandThreshold) -> Seq<(Seq<char>, Double)> {
    seq![
        ("Wi-Fi 单向主控→辅测 RX 门限"@, rule.rx_target_master_to_agent_mbps),
        ("Wi-Fi 单向辅测→主控 RX 门限"@, rule.rx_target_agent_to_master_mbps),
        ("Wi-Fi 双向 RX 合计门限"@, rule.bidir_total_rx_target_mbps),
        ("Wi-Fi 双向主控→辅测 RX 门限"@, rule.bidir_rx_target_master_to_agent_mbps),
        ("Wi-Fi 双向辅测→主控 RX 门限"@, rule.bidir_rx_target_agent_to_master_mbps),
    ]
}

/// The thresholds of a band rule of the older form.
pub open spec fn older_rule_fields(rule: WifiBandThreshold) -> Seq<(Seq<char>, Double)> {
    seq![
        ("Wi-Fi 频段单向 RX 门限"@, rule.rx_target_mbps),
        ("Wi-Fi 频段双向每方向 RX 门限"@, rule.bidir_rx_target_mbps),
    ]
}

/// The first complaint about the `i`th band rule.
pub open spec fn band_rule_told(rules: Seq<WifiBandThreshold>, i: int) -> Result<(), Seq<char>> {
    let rule = rules[i];
    let row = "Wi-Fi 频段门限第 "@ + decimal((i + 1) as nat);
    if rule_is_current(rule) && rule_is_older(rule) {
        Err(row + " 行混用了新旧字段"@)
    } else if rule_is_current(rule) {
        if blank(rule.master_band@) || blank(rule.agent_band@) {
            Err(row + " 行缺少主控或辅测频段"@)
        } else if band_rule_repeats(rules, i) {
            Err(row + " 行与已有规则重复"@)
        } else {
            nonnegative_told(current_rule_fields(rule), NONNEGATIVE@, 0)
        }
    } else if blank(rule.src_band@) || blank(rule.dst_band@) {
        Err(row + " 行缺少发送或接收频段"@)
    } else if band_rule_repeats(rules, i) {
        Err(row + " 行与已有规则重复"@)
    } else {
        nonnegative_told(older_rule_fields(rule), NONNEGATIVE@, 0)
    }
}

/// Checks the `i`th band rule.
pub fn check_band_rule(rules: &Vec<WifiBandThreshold>, i: usize) -> (r: Result<(), String>)
    requires
        i < rules.len(),
    ensures
        told(r) == band_rule_told(rules@, i as int),
{
    let rule = &rules[i];
    let number = decimal_text(i as u64 + 1);
    let row = cat2("Wi-Fi 频段门限第 ", number.as_str());
    let current = is_rule_current(rule);
    let older = !is_blank(rule.src_band.as_str()) || !is_blank(rule.dst_band.as_str());
    if current && older {
        return Err(cat2(row.as_str(), " 行混用了新旧字段"));
    }
    if current {
        if is_blank(rule.master_band.as_str()) || is_blank(rule.agent_band.as_str()) {
            return Err(cat2(row.as_str(), " 行缺少主控或辅测频段"));
        }
        if does_band_rule_repeat(rules, i) {
            return Err(cat2(row.as_str(), " 行与已有规则重复"));
        }
        let fields: Vec<(&str, Double)> = vec![
            ("Wi-Fi 单向主控→辅测 RX 门限", rule.rx_target_master_to_agent_mbps),
            ("Wi-Fi 单向辅测→主控 RX 门限", rule.rx_target_agent_to_master_mbps),
            ("Wi-Fi 双向 RX 合计门限", rule.bidir_total_rx_target_mbps),
            ("Wi-Fi 双向主控→辅测 RX 门限", rule.bidir_rx_target_master_to_agent_mbps),
            ("Wi-Fi 双向辅测→主控 RX 门限", rule.bidir_rx_target_agent_to_master_mbps),
        ];
        assert(fields_of(fields@) =~= current_rule_fields(*rule));
        return check_nonnegative(&fields, NONNEGATIVE);
    }
    if is_blank(rule.src_band.as_str()) || is_blank(rule.dst_band.as_str()) {
        return Err(cat2(row.as_str(), " 行缺少发送或接收频段"));
    }
    if does_band_rule_repeat(rules, i) {
        return Err(cat2(row.as_str(), " 行与已有规则重复"));
    }
    let fields: Vec<(&str, Double)> = vec![
        ("Wi-Fi 频段单向 RX 门限", rule.rx_target_mbps),
        ("Wi-Fi 频段双向每方向 RX 门限", rule.bidir_rx_target_mbps),
    ];
    assert(fields_of(fields@) =~= older_rule_fields(*rule));
    check_nonnegative(&fields, NONNEGATIVE)
}

/// The first complaint about band rules from index `i` on.
pub open spec fn band_rules_told(rules: Seq<WifiBandThreshold>, i: int) -> Result<(), Seq<char>>
    decreases rules.len() - i,
{
    if i < 0 || i >= rules.len() {
        Ok(())
    } else {
        match band_rule_told(rules, i) {
            Err(e) => Err(e),
            Ok(_) => band_rules_told(rules, i + 1),
        }
    }
}

/// Whether an earlier rule is about the same pair of interfaces as the `i`th.
pub open spec fn pair_rule_repeats(rules: Seq<WifiPairThreshold>, i: int) -> bool {
    exists|j: int|
        0 <= j < i && trimmed((#[trigger] rules[j]).src_endpoint@) == trimmed(
            rules[i].src_endpoint@,
        ) && trimmed(rules[j].dst_endpoint@) == trimmed(rules[i].dst_endpoint@)
}

/// Whether an earlier rule is about the same pair of interfaces as the `i`th.
pub fn does_pair_rule_repeat(rules: &Vec<WifiPairThreshold>, i: usize) -> (r: bool)
    requires
        i < rules@.len(),
    ensures
        r == pair_rule_repeats(rules@, i as int),
{
    let src = trim(rules[i].src_endpoint.as_str());
    let dst = trim(rules[i].dst_endpoint.as_str());
    let mut j: usize = 0;
    while j < i
        invariant
            j <= i < rules@.len(),
            src@ == trimmed(rules@[i as int].src_endpoint@),
            dst@ == trimmed(rules@[i as int].dst_endpoint@),
            forall|k: int|
                0 <= k < j ==> !(trimmed((#[trigger] rules@[k]).src_endpoint@) == src@ && trimmed(
                    rules@[k].dst_endpoint@,
                ) == dst@),
        decreases i - j,
    {
        if same(trim(rules[j].src_endpoint.as_str()), src) && same(
            trim(rules[j].dst_endpoint.as_str()),
            dst,
        ) {
            return true;
        }
        j += 1;
    }
    false
}

/// The thresholds of an interface pair rule.
pub open spec fn pair_rule_fields(rule: WifiPairThreshold) -> Seq<(Seq<char>, Double)> {
    seq![
        ("Wi-Fi 网口对单向 A→B RX 门限"@, rule.rx_target_ab_mbps),
        ("Wi-Fi 网口对单向 B→A RX 门限"@, rule.rx_target_ba_mbps),
        ("Wi-Fi 网口对双向 A→B RX 门限"@, rule.bidir_rx_target_ab_mbps),
        ("Wi-Fi 网口对双向 B→A RX 门限"@, rule.bidir_rx_target_ba_mbps),
    ]
}

/// The first complaint about the `i`th interface pair rule.
pub open spec fn pair_rule_told(rules: Seq<WifiPairThreshold>, i: int) -> Result<(), Seq<char>> {
    let rule = rules[i];
    let row = "Wi-Fi 网口对门限第 "@ + decimal((i + 1) as nat);
    if blank(rule.src_endpoint@) || blank(rule.dst_endpoint@) {
        Err(row + " 行缺少发送或接收网口"@)
    } else if pair_rule_repeats(rules, i) {
        Err(row + " 行与已有规则重复"@)
    } else {
        nonnegative_told(pair_rule_fields(rule), NONNEGATIVE@, 0)
    }
}

/// Checks the `i`th interface pair rule.
pub fn check_pair_rule(rules: &Vec<WifiPairThreshold>, i: usize) -> (r: Result<(), String>)
    requires
        i < rules.len(),
    ensures
        told(r) == pair_rule_told(rules@, i as int),
{
    let rule = &rules[i];
    let number = decimal_text(i as u64 + 1);
    let row = cat2("Wi-Fi 网口对门限第 ", number.as_str());
    if is_blank(rule.src_endpoint.as_str()) || is_blank(rule.dst_endpoint.as_str()) {
        return Err(cat2(row.as_str(), " 行缺少发送或接收网口"));
    }
    if does_pair_rule_repeat(rules, i) {
        return Err(cat2(row.as_str(), " 行与已有规则重复"));
    }
    let fields: Vec<(&str, Double)> = vec![
        ("Wi-Fi 网口对单向 A→B RX 门限", rule.rx_target_ab_mbps),
        ("Wi-Fi 网口对单向 B→A RX 门限", rule.rx_target_ba_mbps),
        ("Wi-Fi 网口对双向 A→B RX 门限", rule.bidir_rx_target_ab_mbps),
        ("Wi-Fi 网口对双向 B→A RX 门限", rule.bidir_rx_target_ba_mbps),
    ];
    assert(fields_of(fields@) =~= pair_rule_fields(*rule));
    check_nonnegative(&fields, NONNEGATIVE)
}

/// The first complaint about interface pair rules from index `i` on.
pub open spec fn pair_rules_told(rules: Seq<WifiPairThreshold>, i: int) -> Result<(), Seq<char>>
    decreases rules.len() - i,
{
    if i < 0 || i >= rules.len() {
        Ok(())
    } else {
        match pair_rule_told(rules, i) {
            Err(e) => Err(e),
            Ok(_) => pair_rules_told(rules, i + 1),
        }
    }
}

/// The first complaint about the Wi-Fi rules: the band rules, then the interface pair rules.
pub open spec fn wifi_thresholds_told(req: RunRequest) -> Result<(), Seq<char>> {
    match band_rules_told(req.wifi_band_thresholds@, 0) {
        Err(e) => Err(e),
        Ok(_) => pair_rules_told(req.wifi_pair_thresholds@, 0),
    }
}

/// Checks the Wi-Fi rules.
pub fn validate_wifi_thresholds(req: &RunRequest) -> (r: Result<(), String>)
    ensures
        told(r) == wifi_thresholds_told(*req),
{
    let mut i: usize = 0;
    while i < req.wifi_band_thresholds.len()
        invariant
            i <= req.wifi_band_thresholds@.len(),
            band_rules_told(req.wifi_band_thresholds@, 0) == band_rules_told(
                req.wifi_band_thresholds@,
                i as int,
            ),
        decreases req.wifi_band_thresholds@.len() - i,
    {
        if let Err(e) = check_band_rule(&req.wifi_band_thresholds, i) {
            return Err(e);
        }
        i += 1;
    }
    let mut k: usize = 0;
    while k < req.wifi_pair_thresholds.len()
        invariant
            k <= req.wifi_pair_thresholds@.len(),
            band_rules_told(req.wifi_band_thresholds@, 0) == Ok::<(), Seq<char>>(()),
            pair_rules_told(req.wifi_pair_thresholds@, 0) == pair_rules_told(
                req.wifi_pair_thresholds@,
                k as int,
            ),
        decreases req.wifi_pair_thresholds@.len() - k,
    {
        if let Err(e) = check_pair_rule(&req.wifi_pair_thresholds, k) {
            return Err(e);
        }
        k += 1;
    }
    Ok(())
}

/// The first complaint about payload sizes from index `i` on.
pub open spec fn payloads_told(sizes: Seq<u32>, i: int) -> Result<(), Seq<char>>
    decreases sizes.len() - i,
{
    if i < 0 || i >= sizes.len() {
        Ok(())
    } else if sizes[i] > MAX_PAYLOAD {
        Err("ping 包长档位 "@ + decimal(sizes[i] as nat) + " 超过单包上限 65500 字节"@)
    } else {
        payloads_told(sizes, i + 1)
    }
}

/// Checks payload sizes.
pub fn check_payloads(sizes: &Vec<u32>) -> (r: Result<(), String>)
    ensures
        told(r) == payloads_told(sizes@, 0),
{
    let mut i: usize = 0;
    while i < sizes.len()
        invariant
            i <= sizes@.len(),
            payloads_told(sizes@, 0) == payloads_told(sizes@, i as int),
        decreases sizes@.len() - i,
    {
        if sizes[i] > MAX_PAYLOAD {
            let number = decimal_text(sizes[i] as u64);
            return Err(cat3("ping 包长档位 ", number.as_str(), " 超过单包上限 65500 字节"));
        }
        i += 1;
    }
    Ok(())
}

/// The first complaint about the texts that all tests share: windows, bandwidths and lengths.
pub open spec fn global_texts_told(rd: Readings, req: RunRequest) -> Result<(), Seq<char>> {
    match windows_told(rd, texts(req.tcp_windows@), "TCP -w 档位 "@, 0) {
        Err(e) => Err(e),
        Ok(_) => match bandwidths_told(rd, texts(req.udp_bandwidths@), "默认组"@, 0) {
            Err(e) => Err(e),
            Ok(_) => match windows_told(rd, texts(req.udp_windows@), "UDP -w 档位 "@, 0) {
                Err(e) => Err(e),
                Ok(_) => lengths_told(rd, texts(req.udp_lengths@), "UDP -l 档位 "@, None, 0),
            },
        },
    }
}

/// The first complaint about the values that all tests share.
pub open spec fn global_values_told(rd: Readings, req: RunRequest) -> Result<(), Seq<char>> {
    if !(1 <= req.duration <= 86_400) {
        Err("时长必须在 1..=86400 秒之间"@)
    } else if !streams_fit(req.tcp_streams@) {
        Err("TCP -P 每一档都必须在 1..=32 之间"@)
    } else if !(1 <= req.udp_streams <= 32) {
        Err("UDP 流数必须在 1..=32 之间"@)
    } else {
        match nonnegative_told(wifi_fields(req), "必须是非负有限 Mbps，0 表示不覆盖"@, 0) {
            Err(e) => Err(e),
            Ok(_) => match ping_thresholds_told(req) {
                Err(e) => Err(e),
                Ok(_) => match wifi_thresholds_told(req) {
                    Err(e) => Err(e),
                    Ok(_) => match global_texts_told(rd, req) {
                        Err(e) => Err(e),
                        Ok(_) => match payloads_told(req.ping_payload_sizes@, 0) {
                            Err(e) => Err(e),
                            Ok(_) => if req.ping_count > 100_000 {
                                Err(
                                    "ping 次数 "@ + decimal(req.ping_count as nat)
                                        + " 超过上限 100000"@,
                                )
                            } else {
                                Ok(())
                            },
                        },
                    },
                },
            },
        }
    }
}

/// Checks the texts that all tests share.
pub fn check_global_texts(rd: &Readings, req: &RunRequest) -> (r: Result<(), String>)
    ensures
        told(r) == global_texts_told(*rd, *req),
{
    if let Err(e) = check_windows(rd, &req.tcp_windows, "TCP -w 档位 ") {
        return Err(e);
    }
    if let Err(e) = check_bandwidths(rd, &req.udp_bandwidths, "默认组") {
        return Err(e);
    }
    if let Err(e) = check_windows(rd, &req.udp_windows, "UDP -w 档位 ") {
        return Err(e);
    }
    check_lengths(rd, &req.udp_lengths, "UDP -l 档位 ", &None)
}

/// Checks the values that all tests share.
pub fn validate_global_values(rd: &Readings, req: &RunRequest) -> (r: Result<(), String>)
    ensures
        told(r) == global_values_told(*rd, *req),
{
    if req.duration < 1 || req.duration > 86_400 {
        return Err(owned("时长必须在 1..=86400 秒之间"));
    }
    if !do_streams_fit(&req.tcp_streams) {
        return Err(owned("TCP -P 每一档都必须在 1..=32 之间"));
    }
    if req.udp_streams < 1 || req.udp_streams > 32 {
        return Err(owned("UDP 流数必须在 1..=32 之间"));
    }
    let fields: Vec<(&str, Double)> = vec![
        ("Wi-Fi 互测单向 RX 门限", req.wifi_pair_rx_target_mbps),
        ("Wi-Fi 互测双向每方向 RX 门限", req.wifi_pair_bidir_rx_target_mbps),
        ("Wi-Fi 互测双向 RX 合计门限", req.wifi_pair_bidir_total_rx_target_mbps),
    ];
    assert(fields_of(fields@) =~= wifi_fields(*req));
    if let Err(e) = check_nonnegative(&fields, "必须是非负有限 Mbps，0 表示不覆盖") {
        return Err(e);
    }
    if let Err(e) = validate_ping_thresholds(req) {
        return Err(e);
    }
    if let Err(e) = validate_wifi_thresholds(req) {
        return Err(e);
    }
    if let Err(e) = check_global_texts(rd, req) {
        return Err(e);
    }
    if let Err(e) = check_payloads(&req.ping_payload_sizes) {
        return Err(e);
    }
    if req.ping_count > 100_000 {
        let number = decimal_text(req.ping_count as u64);
        return Err(cat3("ping 次数 ", number.as_str(), " 超过上限 100000"));
    }
    Ok(())
}

/// The first complaint about a matrix without a suite plan: nothing chosen, then the shared values.
pub open spec fn global_sweeps_told(rd: Readings, req: RunRequest) -> Result<(), Seq<char>> {
    if req.pairs@.len() == 0 {
        Err("一个测试项都没勾"@)
    } else {
        global_values_told(rd, req)
    }
}

/// Checks a matrix without a suite plan: something must be chosen.
pub fn validate_global_sweeps(rd: &Readings, req: &RunRequest) -> (r: Result<(), String>)
    ensures
        told(r) == global_sweeps_told(*rd, *req),
{
    if req.pairs.len() == 0 {
        return Err(owned("一个测试项都没勾"));
    }
    validate_global_values(rd, req)
}

// ---------------------------------------------------------------------------
// Rows of the matrix
// ---------------------------------------------------------------------------

/// How a message starts that is about a pair.
pub open spec fn pair_label(pair: PairSelection) -> Seq<char> {
    "配对 "@ + pair.src@ + " / "@ + pair.dst@
}

/// The complaint about one threshold for both directions at once.
pub open spec fn pair_threshold_told(
    rd: Readings,
    pair: PairSelection,
    label: Seq<char>,
    raw: Seq<char>,
) -> Result<(), Seq<char>> {
    let bidir = texts(pair.directions@).contains("bidir"@);
    if blank(raw) {
        Ok(())
    } else if !bidir {
        Err(
            pair_label(pair) + " 填了 "@ + label
                + " 双向门限，却没有勾「双向」。双向门限只作用于双向并发单元；单向的门限在「网口与策略」里改"@,
        )
    } else {
        match rx_target(rd, raw) {
            Err(e) => Err(pair_label(pair) + " 的 "@ + label + " 双向门限："@ + e),
            Ok(Some(RxTarget::Percent(_))) => Err(
                pair_label(pair) + " 的 "@ + label
                    + " 双向门限只能填绝对 Mbps。百分比要按单块网卡的协商速率换算，而双向门限说的是这两块口并发时的能力，两者不成比例"@,
            ),
            Ok(_) => Ok(()),
        }
    }
}

/// How a message starts that is about a pair.
pub fn label_of_pair(pair: &PairSelection) -> (r: String)
    ensures
        r@ == pair_label(*pair),
{
    cat4("配对 ", pair.src.as_str(), " / ", pair.dst.as_str())
}

/// Checks one threshold for both directions at once.
pub fn check_pair_threshold(
    rd: &Readings,
    pair: &PairSelection,
    label: &str,
    raw: &str,
) -> (r: Result<(), String>)
    ensures
        told(r) == pair_threshold_told(*rd, *pair, label@, raw@),
{
    if is_blank(raw) {
        return Ok(());
    }
    let name = label_of_pair(pair);
    if !lists(&pair.directions, "bidir") {
        return Err(
            cat4(
                name.as_str(),
                " 填了 ",
                label,
                " 双向门限，却没有勾「双向」。双向门限只作用于双向并发单元；单向的门限在「网口与策略」里改",
            ),
        );
    }
    match parse_rx_target(rd, raw) {
        Err(e) => Err(cat5(name.as_str(), " 的 ", label, " 双向门限：", e.as_str())),
        Ok(Some(RxTarget::Percent(_))) => Err(
            cat4(
                name.as_str(),
                " 的 ",
                label,
                " 双向门限只能填绝对 Mbps。百分比要按单块网卡的协商速率换算，而双向门限说的是这两块口并发时的能力，两者不成比例",
            ),
        ),
        Ok(_) => Ok(()),
    }
}

/// Whether a group beyond the `count` further ones is chosen.
pub open spec fn group_beyond(groups: Seq<usize>, count: usize) -> bool {
    exists|i: int| 0 <= i < groups.len() && #[trigger] groups[i] > count
}

/// Whether a group beyond the `count` further ones is chosen.
pub fn has_group_beyond(groups: &Vec<usize>, count: usize) -> (r: bool)
    ensures
        r == group_beyond(groups@, count),
{
    let mut i: usize = 0;
    while i < groups.len()
        invariant
            i <= groups@.len(),
            forall|k: int| 0 <= k < i ==> #[trigger] groups@[k] <= count,
        decreases groups@.len() - i,
    {
        if groups[i] > count {
            return true;
        }
        i += 1;
    }
    false
}

/// The complaint about the groups that a pair runs for one transport.
pub open spec fn pair_groups_told(
    pair: PairSelection,
    kind: Seq<char>,
    selected: bool,
    groups: Seq<usize>,
    count: usize,
) -> Result<(), Seq<char>> {
    if !selected && group_beyond(groups, 0) {
        Err(pair_label(pair) + " 选了 "@ + kind + " 参数组，却没有勾 "@ + kind)
    } else if group_beyond(groups, count) {
        Err(
            pair_label(pair) + " 选的 "@ + kind + " 参数组不存在（共 "@ + decimal(count as nat)
                + " 个附加组）"@,
        )
    } else {
        Ok(())
    }
}

/// Checks the groups that a pair runs for one transport.
pub fn check_pair_groups(
    pair: &PairSelection,
    kind: &str,
    selected: bool,
    groups: &Vec<usize>,
    count: usize,
) -> (r: Result<(), String>)
    ensures
        told(r) == pair_groups_told(*pair, kind@, selected, groups@, count),
{
    let name = label_of_pair(pair);
    if !selected && has_group_beyond(groups, 0) {
        return Err(cat5(name.as_str(), " 选了 ", kind, " 参数组，却没有勾 ", kind));
    }
    if has_group_beyond(groups, count) {
        let number = decimal_text(count as u64);
        return Err(
            cat6(
                name.as_str(),
                " 选的 ",
                kind,
                " 参数组不存在（共 ",
                number.as_str(),
                " 个附加组）",
            ),
        );
    }
    Ok(())
}

/// The first complaint about a row of the matrix.
pub open spec fn pair_told(
    state: UiState,
    rd: Readings,
    pair: PairSelection,
    udp_group_count: usize,
    tcp_group_count: usize,
) -> Result<(), Seq<char>> {
    let transports = texts(pair.transports@);
    if pair.src@ == pair.dst@ || !endpoint_known(state, pair.src@) || !endpoint_known(
        state,
        pair.dst@,
    ) {
        Err("测试配对已失效："@ + pair.src@ + " -> "@ + pair.dst@ + "。请刷新网口后重新选择"@)
    } else if !all_allowed(texts(pair.directions@), seq!["ab"@, "ba"@, "bidir"@]) {
        Err(pair_label(pair) + " 至少勾一个有效方向"@)
    } else {
        match pair_threshold_told(rd, pair, "A→B"@, pair.rx_target_bidir_ab@) {
            Err(e) => Err(e),
            Ok(_) => match pair_threshold_told(rd, pair, "B→A"@, pair.rx_target_bidir_ba@) {
                Err(e) => Err(e),
                Ok(_) => match pair_threshold_told(
                    rd,
                    pair,
                    "双向 RX 合计"@,
                    pair.rx_target_bidir_total@,
                ) {
                    Err(e) => Err(e),
                    Ok(_) => match pair_groups_told(
                        pair,
                        "UDP"@,
                        transports.contains("udp"@),
                        pair.udp_groups@,
                        udp_group_count,
                    ) {
                        Err(e) => Err(e),
                        Ok(_) => match pair_groups_told(
                            pair,
                            "TCP"@,
                            transports.contains("tcp"@),
                            pair.tcp_groups@,
                            tcp_group_count,
                        ) {
                            Err(e) => Err(e),
                            Ok(_) => if !all_allowed(transports, seq!["tcp"@, "udp"@, "ping"@]) {
                                Err(pair_label(pair) + " 至少勾 TCP / UDP / PING 之一"@)
                            } else if !all_allowed(texts(pair.ip@), seq!["v4"@, "v6"@]) {
                                Err(pair_label(pair) + " 至少勾 IPv4 或 IPv6"@)
                            } else {
                                Ok(())
                            },
                        },
                    },
                },
            },
        }
    }
}

/// Checks a row of the matrix.
pub fn validate_pair(
    state: &UiState,
    rd: &Readings,
    pair: &PairSelection,
    udp_group_count: usize,
    tcp_group_count: usize,
) -> (r: Result<(), String>)
    ensures
        told(r) == pair_told(*state, *rd, *pair, udp_group_count, tcp_group_count),
{
    if same(pair.src.as_str(), pair.dst.as_str()) || !endpoint_exists(state, pair.src.as_str())
        || !endpoint_exists(state, pair.dst.as_str()) {
        return Err(
            cat5(
                "测试配对已失效：",
                pair.src.as_str(),
                " -> ",
                pair.dst.as_str(),
                "。请刷新网口后重新选择",
            ),
        );
    }
    let name = label_of_pair(pair);
    let directions: Vec<&str> = vec!["ab", "ba", "bidir"];
    assert(views(directions@) =~= seq!["ab"@, "ba"@, "bidir"@]);
    if !values_are_allowed(&pair.directions, &directions) {
        return Err(cat2(name.as_str(), " 至少勾一个有效方向"));
    }
    if let Err(e) = check_pair_threshold(rd, pair, "A→B", pair.rx_target_bidir_ab.as_str()) {
        return Err(e);
    }
    if let Err(e) = check_pair_threshold(rd, pair, "B→A", pair.rx_target_bidir_ba.as_str()) {
        return Err(e);
    }
    if let Err(e) = check_pair_threshold(
        rd,
        pair,
        "双向 RX 合计",
        pair.rx_target_bidir_total.as_str(),
    ) {
        return Err(e);
    }
    let udp = lists(&pair.transports, "udp");
    if let Err(e) = check_pair_groups(pair, "UDP", udp, &pair.udp_groups, udp_group_count) {
        return Err(e);
    }
    let tcp = lists(&pair.transports, "tcp");
    if let Err(e) = check_pair_groups(pair, "TCP", tcp, &pair.tcp_groups, tcp_group_count) {
        return Err(e);
    }
    let transports: Vec<&str> = vec!["tcp", "udp", "ping"];
    assert(views(transports@) =~= seq!["tcp"@, "udp"@, "ping"@]);
    if !values_are_allowed(&pair.transports, &transports) {
        return Err(cat2(name.as_str(), " 至少勾 TCP / UDP / PING 之一"));
    }
    let versions: Vec<&str> = vec!["v4", "v6"];
    assert(views(versions@) =~= seq!["v4"@, "v6"@]);
    if !values_are_allowed(&pair.ip, &versions) {
        return Err(cat2(name.as_str(), " 至少勾 IPv4 或 IPv6"));
    }
    Ok(())
}

// ---------------------------------------------------------------------------
// Interface policies
// ---------------------------------------------------------------------------

/// The endpoints of a list of policies.
pub open spec fn policy_endpoints(policies: Seq<NicPolicySelection>) -> Seq<Seq<char>> {
    Seq::new(policies.len(), |i: int| policies[i].endpoint@)
}

/// The complaint about the texts of a policy.
pub open spec fn policy_texts_told(rd: Readings, policy: NicPolicySelection) -> Result<
    (),
    Seq<char>,
> {
    let endpoint = policy.endpoint@;
    match rx_target(rd, policy.rx_target@) {
        Err(e) => Err(endpoint + " 的 RX 门限："@ + e),
        Ok(_) => {
            let length = if blank(policy.udp_length@) {
                Ok(())
            } else {
                match reading(rd.sizes@, trimmed(policy.udp_length@)) {
                    Err(e) => Err(endpoint + " 的 UDP -l 无效："@ + e),
                    Ok(bytes) => if bytes > MAX_UDP_LENGTH {
                        Err(endpoint + " 的 UDP -l 超过单个 UDP 报文上限 65507 字节"@)
                    } else {
                        Ok(())
                    },
                }
            };
            match length {
                Err(e) => Err(e),
                Ok(_) => if blank(policy.udp_bandwidth@) {
                    Ok(())
                } else {
                    bandwidth_told(rd, trimmed(policy.udp_bandwidth@), endpoint)
                },
            }
        },
    }
}

/// Checks the texts of a policy.
pub fn check_policy_texts(rd: &Readings, policy: &NicPolicySelection) -> (r: Result<(), String>)
    ensures
        told(r) == policy_texts_told(*rd, *policy),
{
    let endpoint = policy.endpoint.as_str();
    if let Err(e) = parse_rx_target(rd, policy.rx_target.as_str()) {
        return Err(cat3(endpoint, " 的 RX 门限：", e.as_str()));
    }
    let length = trim(policy.udp_length.as_str());
    if !length.is_empty() {
        match look_up(&rd.sizes, length) {
            Err(e) => {
                return Err(cat3(endpoint, " 的 UDP -l 无效：", e.as_str()));
            },
            Ok(bytes) => {
                if *bytes > MAX_UDP_LENGTH {
                    return Err(cat2(endpoint, " 的 UDP -l 超过单个 UDP 报文上限 65507 字节"));
                }
            },
        }
    }
    let bandwidth = trim(policy.udp_bandwidth.as_str());
    if !bandwidth.is_empty() {
        return check_udp_bandwidth(rd, bandwidth, endpoint);
    }
    Ok(())
}

/// The first complaint about interface policies from index `i` on.
pub open spec fn policies_told(
    state: UiState,
    rd: Readings,
    policies: Seq<NicPolicySelection>,
    i: int,
) -> Result<(), Seq<char>>
    decreases policies.len() - i,
{
    if i < 0 || i >= policies.len() {
        Ok(())
    } else {
        let endpoint = policies[i].endpoint@;
        if !endpoint_known(state, endpoint) {
            Err("网口策略已失效："@ + endpoint + "。请刷新网口后重新填写"@)
        } else if policy_endpoints(policies).take(i).contains(endpoint) {
            Err("网口策略重复："@ + endpoint)
        } else {
            match policy_texts_told(rd, policies[i]) {
                Err(e) => Err(e),
                Ok(_) => policies_told(state, rd, policies, i + 1),
            }
        }
    }
}

/// Checks the interface policies.
pub fn validate_nic_policies(state: &UiState, rd: &Readings, req: &RunRequest) -> (r: Result<
    (),
    String,
>)
    ensures
        told(r) == policies_told(*state, *rd, req.nic_policies@, 0),
{
    broadcast use group_views;

    let policies = &req.nic_policies;
    let mut seen: Vec<String> = Vec::new();
    let mut i: usize = 0;
    while i < policies.len()
        invariant
            i <= policies@.len(),
            policies@ == req.nic_policies@,
            texts(seen@) == policy_endpoints(policies@).take(i as int),
            policies_told(*state, *rd, policies@, 0) == policies_told(
                *state,
                *rd,
                policies@,
                i as int,
            ),
        decreases policies@.len() - i,
    {
        let endpoint = policies[i].endpoint.as_str();
        if !endpoint_exists(state, endpoint) {
            return Err(cat3("网口策略已失效：", endpoint, "。请刷新网口后重新填写"));
        }
        if lists(&seen, endpoint) {
            return Err(cat2("网口策略重复：", endpoint));
        }
        seen.push(owned(endpoint));
        assert(policy_endpoints(policies@).take(i as int).push(endpoint@) =~= policy_endpoints(
            policies@,
        ).take(i + 1));
        if let Err(e) = check_policy_texts(rd, &policies[i]) {
            return Err(e);
        }
        i += 1;
    }
    Ok(())
}

/// The endpoints of the first `n` policies that fix a UDP bandwidth.
pub open spec fn pinned_to(policies: Seq<NicPolicySelection>, n: int) -> Seq<Seq<char>>
    decreases n,
{
    if n <= 0 {
        Seq::empty()
    } else if blank(policies[n - 1].udp_bandwidth@) {
        pinned_to(policies, n - 1)
    } else {
        pinned_to(policies, n - 1).push(policies[n - 1].endpoint@)
    }
}

/// The endpoints whose UDP bandwidth a policy fixes.
pub open spec fn pinned_endpoints(policies: Seq<NicPolicySelection>) -> Seq<Seq<char>> {
    pinned_to(policies, policies.len() as int)
}

/// The endpoints whose UDP bandwidth a policy fixes.
pub fn udp_pinned_senders(policies: &Vec<NicPolicySelection>) -> (r: Vec<String>)
    ensures
        texts(r@) == pinned_endpoints(policies@),
{
    broadcast use group_views;

    let mut r: Vec<String> = Vec::new();
    let mut i: usize = 0;
    while i < policies.len()
        invariant
            i <= policies@.len(),
            texts(r@) == pinned_to(policies@, i as int),
        decreases policies@.len() - i,
    {
        if !is_blank(policies[i].udp_bandwidth.as_str()) {
            r.push(owned(policies[i].endpoint.as_str()));
        }
        i += 1;
    }
    r
}

} // verus!
