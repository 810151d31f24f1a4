//! What a request must say to be accepted.
use vstd::prelude::*;
use vstd::string::*;
use crate::meaning::lists::lemma_cleaning_keeps_what_is_written;
use crate::meaning::settings::{lemma_cut_is_at_the_first, names_interface};
use crate::meaning::thresholds::{lemma_threshold_is_read, says_mbps, says_percent};
use crate::model::{
    NicPolicySelection, PairSelection, RunRequest, TcpGroup, UdpGroup, UiState, WifiBandThreshold,
    WifiPairThreshold,
};
use crate::number::{Double, INFINITY_BITS, SIGN_BIT};
use crate::protocol::NicInfo;
use crate::readings::{reading, Readings};
use crate::text::{begins, blank, cut, lemma_trim_idempotent, texts, trimmed};
use crate::validate::{
    band_rule_told, band_rules_told, bandwidths_told, cleaned, endpoint_known, global_values_told,
    group_beyond, lengths_told, nonnegative_told, pair_groups_told, pair_rule_told, pair_rules_told,
    pair_threshold_told, pair_told, payloads_told, ping_fields, policies_told, policy_endpoints,
    policy_texts_told, rx_target, tcp_group_told, udp_group_told, wifi_fields, windows_told,
    RxTarget,
};
use crate::validate_plan::{pairs_told, request_told, tcp_groups_told, udp_groups_told};
use crate::wifi::band_of;

verus! {

// ---------------------------------------------------------------------------
// Texts
// ---------------------------------------------------------------------------

/// A text is a size in bytes.
pub open spec fn is_size(rd: Readings, text: Seq<char>) -> bool {
    reading(rd.sizes@, text) is Ok
}

/// A text is the length of a datagram: a size that one holds.
pub open spec fn is_length(rd: Readings, text: Seq<char>) -> bool {
    reading(rd.sizes@, text) is Ok && reading(rd.sizes@, text)->Ok_0 <= 65_507
}

/// A text is a bandwidth that some link has.
pub open spec fn is_bandwidth(rd: Readings, text: Seq<char>) -> bool {
    reading(rd.bandwidths@, text) is Ok && !(0x4118_6a00_0000_0000 < reading(
        rd.bandwidths@,
        text,
    )->Ok_0.mbps.bits <= INFINITY_BITS)
}

/// Every text of a list that is not blank is a size.
pub open spec fn all_sizes(rd: Readings, list: Seq<Seq<char>>) -> bool {
    forall|i: int|
        0 <= i < list.len() && !blank(#[trigger] list[i]) ==> is_size(rd, trimmed(list[i]))
}

/// Every text of a list that is not blank is a length.
pub open spec fn all_lengths(rd: Readings, list: Seq<Seq<char>>) -> bool {
    forall|i: int|
        0 <= i < list.len() && !blank(#[trigger] list[i]) ==> is_length(rd, trimmed(list[i]))
}

/// Every text of a list that is not blank is a bandwidth.
pub open spec fn all_bandwidths(rd: Readings, list: Seq<Seq<char>>) -> bool {
    forall|i: int|
        0 <= i < list.len() && !blank(#[trigger] list[i]) ==> is_bandwidth(rd, trimmed(list[i]))
}

/// Windows are accepted where each is a size.
pub proof fn lemma_windows_must_be_sizes(
    rd: Readings,
    list: Seq<Seq<char>>,
    prefix: Seq<char>,
    i: int,
)
    requires
        0 <= i <= list.len(),
    ensures
        windows_told(rd, list, prefix, i) is Ok <==> (forall|k: int|
            i <= k < list.len() && !blank(#[trigger] list[k]) ==> is_size(rd, trimmed(list[k]))),
    decreases list.len() - i,
{
    if i < list.len() {
        lemma_windows_must_be_sizes(rd, list, prefix, i + 1);
    }
}

/// Lengths are accepted where each is a size that a datagram holds.
pub proof fn lemma_lengths_must_fit(
    rd: Readings,
    list: Seq<Seq<char>>,
    prefix: Seq<char>,
    over: Option<Seq<char>>,
    i: int,
)
    requires
        0 <= i <= list.len(),
    ensures
        lengths_told(rd, list, prefix, over, i) is Ok <==> (forall|k: int|
            i <= k < list.len() && !blank(#[trigger] list[k]) ==> is_length(rd, trimmed(list[k]))),
    decreases list.len() - i,
{
    if i < list.len() {
        lemma_lengths_must_fit(rd, list, prefix, over, i + 1);
    }
}

/// Bandwidths are accepted where each is one that some link has.
pub proof fn lemma_bandwidths_must_be_real(
    rd: Readings,
    list: Seq<Seq<char>>,
    label: Seq<char>,
    i: int,
)
    requires
        0 <= i <= list.len(),
    ensures
        bandwidths_told(rd, list, label, i) is Ok <==> (forall|k: int|
            i <= k < list.len() && !blank(#[trigger] list[k]) ==> is_bandwidth(
                rd,
                trimmed(list[k]),
            )),
    decreases list.len() - i,
{
    if i < list.len() {
        lemma_bandwidths_must_be_real(rd, list, label, i + 1);
    }
}

proof fn lemma_cleaned_texts(raw: Seq<Seq<char>>)
    ensures
        forall|k: int|
            0 <= k < cleaned(raw).len() ==> exists|i: int|
                0 <= i < raw.len() && !blank(#[trigger] raw[i]) && trimmed(raw[i])
                    == #[trigger] cleaned(raw)[k],
        forall|i: int|
            0 <= i < raw.len() && !blank(#[trigger] raw[i]) ==> cleaned(raw).contains(
                trimmed(raw[i]),
            ),
{
    assert forall|k: int| 0 <= k < cleaned(raw).len() implies exists|i: int|
        0 <= i < raw.len() && !blank(#[trigger] raw[i]) && trimmed(raw[i])
            == #[trigger] cleaned(raw)[k] by {
        let x = cleaned(raw)[k];
        assert(cleaned(raw).contains(x));
        lemma_cleaning_keeps_what_is_written(raw, x);
        let i = choose|i: int| 0 <= i < raw.len() && !blank(#[trigger] raw[i]) && trimmed(raw[i])
            == x;
        assert(trimmed(raw[i]) == cleaned(raw)[k]);
    }
    assert forall|i: int| 0 <= i < raw.len() && !blank(#[trigger] raw[i]) implies cleaned(
        raw,
    ).contains(trimmed(raw[i])) by {
        lemma_cleaning_keeps_what_is_written(raw, trimmed(raw[i]));
    }
}

proof fn lemma_cleaning_keeps_the_kinds(rd: Readings, raw: Seq<Seq<char>>)
    ensures
        all_sizes(rd, cleaned(raw)) <==> all_sizes(rd, raw),
        all_lengths(rd, cleaned(raw)) <==> all_lengths(rd, raw),
        all_bandwidths(rd, cleaned(raw)) <==> all_bandwidths(rd, raw),
{
    lemma_cleaned_texts(raw);
    let tidy = cleaned(raw);
    assert forall|k: int| 0 <= k < tidy.len() implies !blank(#[trigger] tidy[k]) && exists|i: int|
        0 <= i < raw.len() && !blank(#[trigger] raw[i]) && trimmed(raw[i]) == trimmed(tidy[k]) by {
        let i = choose|i: int|
            0 <= i < raw.len() && !blank(#[trigger] raw[i]) && trimmed(raw[i]) == tidy[k];
        lemma_trim_idempotent(raw[i]);
        assert(trimmed(raw[i]) == trimmed(tidy[k]));
    }
    assert forall|i: int| 0 <= i < raw.len() && !blank(#[trigger] raw[i]) implies exists|k: int|
        0 <= k < tidy.len() && !blank(#[trigger] tidy[k]) && trimmed(tidy[k]) == trimmed(
            raw[i],
        ) by {
        lemma_trim_idempotent(raw[i]);
        let k = choose|k: int| 0 <= k < tidy.len() && tidy[k] == trimmed(raw[i]);
        assert(!blank(tidy[k]) && trimmed(tidy[k]) == trimmed(raw[i]));
    }
    if all_sizes(rd, raw) {
        assert(all_sizes(rd, tidy));
    }
    if all_sizes(rd, tidy) {
        assert forall|i: int| 0 <= i < raw.len() && !blank(#[trigger] raw[i]) implies is_size(
            rd,
            trimmed(raw[i]),
        ) by {
            let k = choose|k: int|
                0 <= k < tidy.len() && !blank(#[trigger] tidy[k]) && trimmed(tidy[k]) == trimmed(
                    raw[i],
                );
            assert(is_size(rd, trimmed(tidy[k])));
        }
    }
    if all_lengths(rd, tidy) {
        assert forall|i: int| 0 <= i < raw.len() && !blank(#[trigger] raw[i]) implies is_length(
            rd,
            trimmed(raw[i]),
        ) by {
            let k = choose|k: int|
                0 <= k < tidy.len() && !blank(#[trigger] tidy[k]) && trimmed(tidy[k]) == trimmed(
                    raw[i],
                );
            assert(is_length(rd, trimmed(tidy[k])));
        }
    }
    if all_bandwidths(rd, tidy) {
        assert forall|i: int| 0 <= i < raw.len() && !blank(#[trigger] raw[i]) implies is_bandwidth(
            rd,
            trimmed(raw[i]),
        ) by {
            let k = choose|k: int|
                0 <= k < tidy.len() && !blank(#[trigger] tidy[k]) && trimmed(tidy[k]) == trimmed(
                    raw[i],
                );
            assert(is_bandwidth(rd, trimmed(tidy[k])));
        }
    }
}

// ---------------------------------------------------------------------------
// Groups
// ---------------------------------------------------------------------------

/// Numbers of streams are from one to thirty-two.
pub open spec fn all_streams(streams: Seq<u32>) -> bool {
    forall|i: int| 0 <= i < streams.len() ==> 1 <= #[trigger] streams[i] <= 32
}

/// A UDP group gives a bandwidth, and all that it gives is of its kind.
pub open spec fn is_udp_group(rd: Readings, group: UdpGroup) -> bool {
    &&& exists|i: int| 0 <= i < group.bandwidths@.len() && !blank((#[trigger] group.bandwidths@[i])@)
    &&& all_bandwidths(rd, texts(group.bandwidths@))
    &&& all_lengths(rd, texts(group.lengths@))
    &&& all_sizes(rd, texts(group.windows@))
    &&& group.streams <= 32
}

/// A UDP group is accepted exactly where it is one.
pub proof fn lemma_udp_group_is_checked(rd: Readings, index: nat, group: UdpGroup)
    ensures
        udp_group_told(rd, index, group) is Ok <==> is_udp_group(rd, group),
{
    let label = crate::validate::group_label("UDP"@, index, group.name@);
    let (b, l, w) = (texts(group.bandwidths@), texts(group.lengths@), texts(group.windows@));
    lemma_cleaning_keeps_the_kinds(rd, b);
    lemma_cleaning_keeps_the_kinds(rd, l);
    lemma_cleaning_keeps_the_kinds(rd, w);
    lemma_bandwidths_must_be_real(rd, cleaned(b), label, 0);
    lemma_lengths_must_fit(rd, cleaned(l), label + " 的 -l "@, None, 0);
    lemma_windows_must_be_sizes(rd, cleaned(w), label + " 的 -w "@, 0);
    lemma_cleaned_texts(b);
    if exists|i: int| 0 <= i < group.bandwidths@.len() && !blank((#[trigger] group.bandwidths@[i])@) {
        let i = choose|i: int|
            0 <= i < group.bandwidths@.len() && !blank((#[trigger] group.bandwidths@[i])@);
        assert(!blank(b[i]));
        assert(cleaned(b).contains(trimmed(b[i])));
    } else if cleaned(b).len() > 0 {
        let i = choose|i: int| 0 <= i < b.len() && !blank(#[trigger] b[i]) && trimmed(b[i])
            == cleaned(b)[0];
        assert(!blank(group.bandwidths@[i]@));
    }
}

/// A TCP group gives windows that are sizes and numbers of streams in bounds.
pub open spec fn is_tcp_group(rd: Readings, group: TcpGroup) -> bool {
    all_sizes(rd, texts(group.windows@)) && all_streams(group.streams@)
}

/// A TCP group is accepted exactly where it is one.
pub proof fn lemma_tcp_group_is_checked(rd: Readings, index: nat, group: TcpGroup)
    ensures
        tcp_group_told(rd, index, group) is Ok <==> is_tcp_group(rd, group),
{
    let label = crate::validate::group_label("TCP"@, index, group.name@);
    lemma_cleaning_keeps_the_kinds(rd, texts(group.windows@));
    lemma_windows_must_be_sizes(rd, cleaned(texts(group.windows@)), label + " 的 -w "@, 0);
}

// ---------------------------------------------------------------------------
// Numbers
// ---------------------------------------------------------------------------

/// A number that is neither negative nor infinite.
pub open spec fn is_amount(v: Double) -> bool {
    v.bits < INFINITY_BITS || v.bits == SIGN_BIT
}

proof fn lemma_amounts(fields: Seq<(Seq<char>, Double)>, complaint: Seq<char>, i: int)
    requires
        0 <= i <= fields.len(),
    ensures
        nonnegative_told(fields, complaint, i) is Ok <==> forall|k: int|
            i <= k < fields.len() ==> is_amount((#[trigger] fields[k]).1),
    decreases fields.len() - i,
{
    if i < fields.len() {
        lemma_amounts(fields, complaint, i + 1);
    }
}

/// The thresholds for wireless links and for pings are amounts.
pub open spec fn amounts_given(req: RunRequest) -> bool {
    &&& is_amount(req.wifi_pair_rx_target_mbps)
    &&& is_amount(req.wifi_pair_bidir_rx_target_mbps)
    &&& is_amount(req.wifi_pair_bidir_total_rx_target_mbps)
    &&& is_amount(req.ping_wired_small_avg_rtt_ms)
    &&& is_amount(req.ping_wired_small_max_rtt_ms)
    &&& is_amount(req.ping_wired_medium_avg_rtt_ms)
    &&& is_amount(req.ping_wired_medium_max_rtt_ms)
    &&& is_amount(req.ping_wired_large_avg_rtt_ms)
    &&& is_amount(req.ping_wired_large_max_rtt_ms)
    &&& is_amount(req.ping_wifi_small_avg_rtt_ms)
    &&& is_amount(req.ping_wifi_small_max_rtt_ms)
    &&& is_amount(req.ping_wifi_medium_avg_rtt_ms)
    &&& is_amount(req.ping_wifi_medium_max_rtt_ms)
    &&& is_amount(req.ping_wifi_large_avg_rtt_ms)
    &&& is_amount(req.ping_wifi_large_max_rtt_ms)
    &&& is_amount(req.ping_max_rtt_ms)
}

/// A band rule is in the current form: it names a band of the master or of the agent.
pub open spec fn in_current_form(rule: WifiBandThreshold) -> bool {
    !blank(rule.master_band@) || !blank(rule.agent_band@)
}

/// A band rule names both bands in one form only, gives amounts, and repeats no rule before it of
/// the same form.
pub open spec fn is_band_rule(rules: Seq<WifiBandThreshold>, i: int) -> bool {
    let rule = rules[i];
    if in_current_form(rule) {
        &&& blank(rule.src_band@) && blank(rule.dst_band@)
        &&& !blank(rule.master_band@) && !blank(rule.agent_band@)
        &&& forall|j: int|
            0 <= j < i && in_current_form(#[trigger] rules[j]) ==> !(band_of(rules[j].master_band@)
                == band_of(rule.master_band@) && band_of(rules[j].agent_band@) == band_of(
                rule.agent_band@,
            ))
        &&& is_amount(rule.rx_target_master_to_agent_mbps)
        &&& is_amount(rule.rx_target_agent_to_master_mbps)
        &&& is_amount(rule.bidir_total_rx_target_mbps)
        &&& is_amount(rule.bidir_rx_target_master_to_agent_mbps)
        &&& is_amount(rule.bidir_rx_target_agent_to_master_mbps)
    } else {
        &&& !blank(rule.src_band@) && !blank(rule.dst_band@)
        &&& forall|j: int|
            0 <= j < i && !in_current_form(#[trigger] rules[j]) ==> !(band_of(rules[j].src_band@)
                == band_of(rule.src_band@) && band_of(rules[j].dst_band@) == band_of(
                rule.dst_band@,
            ))
        &&& is_amount(rule.rx_target_mbps)
        &&& is_amount(rule.bidir_rx_target_mbps)
    }
}

proof fn lemma_band_rule(rules: Seq<WifiBandThreshold>, i: int)
    requires
        0 <= i < rules.len(),
    ensures
        band_rule_told(rules, i) is Ok <==> is_band_rule(rules, i),
{
    let rule = rules[i];
    let current = crate::validate::current_rule_fields(rule);
    let older = crate::validate::older_rule_fields(rule);
    lemma_amounts(current, crate::validate::NONNEGATIVE@, 0);
    lemma_amounts(older, crate::validate::NONNEGATIVE@, 0);
    assert(current[0].1 == rule.rx_target_master_to_agent_mbps);
    assert(current[1].1 == rule.rx_target_agent_to_master_mbps);
    assert(current[2].1 == rule.bidir_total_rx_target_mbps);
    assert(current[3].1 == rule.bidir_rx_target_master_to_agent_mbps);
    assert(current[4].1 == rule.bidir_rx_target_agent_to_master_mbps);
    assert(older[0].1 == rule.rx_target_mbps);
    assert(older[1].1 == rule.bidir_rx_target_mbps);
}

proof fn lemma_band_rules(rules: Seq<WifiBandThreshold>, i: int)
    requires
        0 <= i <= rules.len(),
    ensures
        band_rules_told(rules, i) is Ok <==> forall|k: int|
            i <= k < rules.len() ==> #[trigger] is_band_rule(rules, k),
    decreases rules.len() - i,
{
    if i < rules.len() {
        lemma_band_rules(rules, i + 1);
        lemma_band_rule(rules, i);
    }
}

/// A pair rule names both ends, gives amounts, and repeats no rule before it.
pub open spec fn is_pair_rule(rules: Seq<WifiPairThreshold>, i: int) -> bool {
    let rule = rules[i];
    &&& !blank(rule.src_endpoint@) && !blank(rule.dst_endpoint@)
    &&& forall|j: int|
        0 <= j < i ==> !(trimmed((#[trigger] rules[j]).src_endpoint@) == trimmed(rule.src_endpoint@)
            && trimmed(rules[j].dst_endpoint@) == trimmed(rule.dst_endpoint@))
    &&& is_amount(rule.rx_target_ab_mbps)
    &&& is_amount(rule.rx_target_ba_mbps)
    &&& is_amount(rule.bidir_rx_target_ab_mbps)
    &&& is_amount(rule.bidir_rx_target_ba_mbps)
}

proof fn lemma_pair_rules(rules: Seq<WifiPairThreshold>, i: int)
    requires
        0 <= i <= rules.len(),
    ensures
        pair_rules_told(rules, i) is Ok <==> forall|k: int|
            i <= k < rules.len() ==> #[trigger] is_pair_rule(rules, k),
    decreases rules.len() - i,
{
    if i < rules.len() {
        lemma_pair_rules(rules, i + 1);
        let rule = rules[i];
        let fields = crate::validate::pair_rule_fields(rule);
        lemma_amounts(fields, crate::validate::NONNEGATIVE@, 0);
        assert(fields[0].1 == rule.rx_target_ab_mbps);
        assert(fields[1].1 == rule.rx_target_ba_mbps);
        assert(fields[2].1 == rule.bidir_rx_target_ab_mbps);
        assert(fields[3].1 == rule.bidir_rx_target_ba_mbps);
        assert(pair_rule_told(rules, i) is Ok <==> is_pair_rule(rules, i));
    }
}

proof fn lemma_payloads(sizes: Seq<u32>, i: int)
    requires
        0 <= i <= sizes.len(),
    ensures
        payloads_told(sizes, i) is Ok <==> forall|k: int|
            i <= k < sizes.len() ==> #[trigger] sizes[k] <= 65_500,
    decreases sizes.len() - i,
{
    if i < sizes.len() {
        lemma_payloads(sizes, i + 1);
    }
}

/// The values of a request that hold for all its tests are in bounds.
pub open spec fn values_fit(rd: Readings, req: RunRequest) -> bool {
    &&& 1 <= req.duration <= 86_400
    &&& all_streams(req.tcp_streams@)
    &&& 1 <= req.udp_streams <= 32
    &&& amounts_given(req)
    &&& forall|k: int|
        0 <= k < req.wifi_band_thresholds@.len() ==> #[trigger] is_band_rule(
            req.wifi_band_thresholds@,
            k,
        )
    &&& forall|k: int|
        0 <= k < req.wifi_pair_thresholds@.len() ==> #[trigger] is_pair_rule(
            req.wifi_pair_thresholds@,
            k,
        )
    &&& all_sizes(rd, texts(req.tcp_windows@))
    &&& all_bandwidths(rd, texts(req.udp_bandwidths@))
    &&& all_sizes(rd, texts(req.udp_windows@))
    &&& all_lengths(rd, texts(req.udp_lengths@))
    &&& forall|k: int|
        0 <= k < req.ping_payload_sizes@.len() ==> #[trigger] req.ping_payload_sizes@[k] <= 65_500
    &&& req.ping_count <= 100_000
}

/// The common values are accepted exactly where they are in bounds.
#[verifier::rlimit(40)]
pub proof fn lemma_values_are_checked(rd: Readings, req: RunRequest)
    ensures
        global_values_told(rd, req) is Ok <==> values_fit(rd, req),
{
    let wifi = wifi_fields(req);
    let ping = ping_fields(req);
    lemma_amounts(wifi, "必须是非负有限 Mbps，0 表示不覆盖"@, 0);
    lemma_amounts(ping, crate::validate::NONNEGATIVE@, 0);
    assert(wifi[0].1 == req.wifi_pair_rx_target_mbps);
    assert(wifi[1].1 == req.wifi_pair_bidir_rx_target_mbps);
    assert(wifi[2].1 == req.wifi_pair_bidir_total_rx_target_mbps);
    assert(ping[0].1 == req.ping_wired_small_avg_rtt_ms);
    assert(ping[1].1 == req.ping_wired_small_max_rtt_ms);
    assert(ping[2].1 == req.ping_wired_medium_avg_rtt_ms);
    assert(ping[3].1 == req.ping_wired_medium_max_rtt_ms);
    assert(ping[4].1 == req.ping_wired_large_avg_rtt_ms);
    assert(ping[5].1 == req.ping_wired_large_max_rtt_ms);
    assert(ping[6].1 == req.ping_wifi_small_avg_rtt_ms);
    assert(ping[7].1 == req.ping_wifi_small_max_rtt_ms);
    assert(ping[8].1 == req.ping_wifi_medium_avg_rtt_ms);
    assert(ping[9].1 == req.ping_wifi_medium_max_rtt_ms);
    assert(ping[10].1 == req.ping_wifi_large_avg_rtt_ms);
    assert(ping[11].1 == req.ping_wifi_large_max_rtt_ms);
    assert(ping[12].1 == req.ping_max_rtt_ms);
    assert(wifi.len() == 3 && ping.len() == 13);
    let amounts = (forall|k: int| 0 <= k < wifi.len() ==> is_amount((#[trigger] wifi[k]).1)) && (
    forall|k: int| 0 <= k < ping.len() ==> is_amount((#[trigger] ping[k]).1));
    assert(amounts <==> amounts_given(req));
    lemma_band_rules(req.wifi_band_thresholds@, 0);
    lemma_pair_rules(req.wifi_pair_thresholds@, 0);
    lemma_payloads(req.ping_payload_sizes@, 0);
    lemma_windows_must_be_sizes(rd, texts(req.tcp_windows@), "TCP -w 档位 "@, 0);
    lemma_bandwidths_must_be_real(rd, texts(req.udp_bandwidths@), "默认组"@, 0);
    lemma_windows_must_be_sizes(rd, texts(req.udp_windows@), "UDP -w 档位 "@, 0);
    lemma_lengths_must_fit(rd, texts(req.udp_lengths@), "UDP -l 档位 "@, None, 0);
}

// ---------------------------------------------------------------------------
// Rows
// ---------------------------------------------------------------------------

/// An interface of a list has a name.
pub open spec fn is_among(nics: Seq<NicInfo>, name: Seq<char>) -> bool {
    exists|i: int| 0 <= i < nics.len() && (#[trigger] nics[i]).name@ == name
}

/// An endpoint names an interface of a list on a host.
pub open spec fn names_one_of(endpoint: Seq<char>, host: Seq<char>, nics: Seq<NicInfo>) -> bool {
    exists|name: Seq<char>| #[trigger]
        names_interface(endpoint, host, name) && is_among(nics, name)
}

/// An endpoint names an interface that the console knows of its host.
pub open spec fn is_known(state: UiState, endpoint: Seq<char>) -> bool {
    ||| names_one_of(endpoint, "master"@, state.master.interfaces@)
    ||| names_one_of(endpoint, "agent"@, state.agent.interfaces@)
}

proof fn lemma_named(endpoint: Seq<char>, host: Seq<char>, name: Seq<char>)
    requires
        names_interface(endpoint, host, name),
    ensures
        cut(endpoint, ':') == Some((host, "NAME="@ + name)),
        begins("NAME="@ + name, "NAME="@),
        ("NAME="@ + name).skip("NAME="@.len() as int) == name,
{
    reveal_strlit("NAME=");
    reveal_strlit(":NAME=");
    let rest = "NAME="@ + name;
    assert(":NAME="@ =~= seq![':'] + "NAME="@);
    assert(endpoint =~= host + seq![':'] + rest);
    lemma_cut_is_at_the_first(endpoint, ':', host, rest);
    assert(rest.subrange(0, 5) =~= "NAME="@);
    assert(rest.skip(5) =~= name);
}

/// An endpoint is known exactly where its host has the interface.
pub proof fn lemma_endpoints_are_looked_up(state: UiState, endpoint: Seq<char>)
    ensures
        endpoint_known(state, endpoint) <==> is_known(state, endpoint),
{
    reveal_strlit("NAME=");
    reveal_strlit(":NAME=");
    reveal_strlit("master");
    reveal_strlit("agent");
    assert(":NAME="@ =~= seq![':'] + "NAME="@);
    assert("master"@.len() == 6 && "agent"@.len() == 5);
    if let Some((host, rest)) = cut(endpoint, ':') {
        lemma_cut_is_at_the_first(endpoint, ':', host, rest);
        if begins(rest, "NAME="@) {
            let name = rest.skip(5);
            assert(rest =~= rest.subrange(0, 5) + name);
            assert(endpoint =~= host + ":NAME="@ + name);
            assert(names_interface(endpoint, host, name));
        }
    }
    if names_one_of(endpoint, "master"@, state.master.interfaces@) {
        let name = choose|name: Seq<char>| #[trigger]
            names_interface(endpoint, "master"@, name) && is_among(state.master.interfaces@, name);
        lemma_named(endpoint, "master"@, name);
    }
    if names_one_of(endpoint, "agent"@, state.agent.interfaces@) {
        let name = choose|name: Seq<char>| #[trigger]
            names_interface(endpoint, "agent"@, name) && is_among(state.agent.interfaces@, name);
        lemma_named(endpoint, "agent"@, name);
    }
}

/// A threshold of a row is blank, or a rate where the row runs both ways at once.
pub open spec fn threshold_fits(rd: Readings, pair: PairSelection, raw: Seq<char>) -> bool {
    blank(raw) || (texts(pair.directions@).contains("bidir"@) && exists|v: Double| #[trigger]
        says_mbps(rd, raw, v))
}

proof fn lemma_threshold_fits(
    rd: Readings,
    pair: PairSelection,
    label: Seq<char>,
    raw: Seq<char>,
)
    ensures
        pair_threshold_told(rd, pair, label, raw) is Ok <==> threshold_fits(rd, pair, raw),
{
    match rx_target(rd, raw) {
        Ok(Some(RxTarget::Mbps(v))) => {
            lemma_threshold_is_read(rd, raw, v);
            assert(says_mbps(rd, raw, v));
        },
        _ => {
            if exists|v: Double| #[trigger] says_mbps(rd, raw, v) {
                let v = choose|v: Double| #[trigger] says_mbps(rd, raw, v);
                lemma_threshold_is_read(rd, raw, v);
            }
            if rx_target(rd, raw) == Ok::<Option<RxTarget>, Seq<char>>(None) {
                lemma_threshold_is_read(rd, raw, Double { bits: 0 });
            }
        },
    }
}

/// The groups of a row exist, and further ones are asked for only with their transport.
pub open spec fn groups_fit(selected: bool, groups: Seq<usize>, count: nat) -> bool {
    forall|i: int|
        0 <= i < groups.len() ==> #[trigger] groups[i] <= count && (groups[i] > 0 ==> selected)
}

/// All of a list is among some words, and there is at least one.
pub open spec fn chosen_from(list: Seq<Seq<char>>, words: Seq<Seq<char>>) -> bool {
    list.len() > 0 && forall|i: int| 0 <= i < list.len() ==> words.contains(#[trigger] list[i])
}

/// A row has two known ends that differ, words that the matrix knows, and thresholds and groups that
/// fit.
pub open spec fn is_row(state: UiState, rd: Readings, req: RunRequest, pair: PairSelection) -> bool {
    &&& pair.src@ != pair.dst@
    &&& is_known(state, pair.src@)
    &&& is_known(state, pair.dst@)
    &&& chosen_from(texts(pair.directions@), seq!["ab"@, "ba"@, "bidir"@])
    &&& chosen_from(texts(pair.transports@), seq!["tcp"@, "udp"@, "ping"@])
    &&& chosen_from(texts(pair.ip@), seq!["v4"@, "v6"@])
    &&& threshold_fits(rd, pair, pair.rx_target_bidir_ab@)
    &&& threshold_fits(rd, pair, pair.rx_target_bidir_ba@)
    &&& threshold_fits(rd, pair, pair.rx_target_bidir_total@)
    &&& groups_fit(
        texts(pair.transports@).contains("udp"@),
        pair.udp_groups@,
        req.udp_groups@.len(),
    )
    &&& groups_fit(
        texts(pair.transports@).contains("tcp"@),
        pair.tcp_groups@,
        req.tcp_groups@.len(),
    )
}

proof fn lemma_groups_fit(
    pair: PairSelection,
    kind: Seq<char>,
    selected: bool,
    groups: Seq<usize>,
    count: usize,
)
    ensures
        pair_groups_told(pair, kind, selected, groups, count) is Ok <==> groups_fit(
            selected,
            groups,
            count as nat,
        ),
{
    if group_beyond(groups, 0) {
        let i = choose|i: int| 0 <= i < groups.len() && #[trigger] groups[i] > 0usize;
        assert(groups[i] > 0);
    }
    if group_beyond(groups, count) {
        let i = choose|i: int| 0 <= i < groups.len() && #[trigger] groups[i] > count;
        assert(groups[i] > count);
    }
}

proof fn lemma_row_is_checked(state: UiState, rd: Readings, req: RunRequest, pair: PairSelection)
    ensures
        pair_told(
            state,
            rd,
            pair,
            req.udp_groups@.len() as usize,
            req.tcp_groups@.len() as usize,
        ) is Ok <==> is_row(state, rd, req, pair),
{
    assert(req.udp_groups@.len() == req.udp_groups.len());
    assert(req.tcp_groups@.len() == req.tcp_groups.len());
    lemma_endpoints_are_looked_up(state, pair.src@);
    lemma_endpoints_are_looked_up(state, pair.dst@);
    lemma_threshold_fits(rd, pair, "A→B"@, pair.rx_target_bidir_ab@);
    lemma_threshold_fits(rd, pair, "B→A"@, pair.rx_target_bidir_ba@);
    lemma_threshold_fits(rd, pair, "双向 RX 合计"@, pair.rx_target_bidir_total@);
    let transports = texts(pair.transports@);
    lemma_groups_fit(
        pair,
        "UDP"@,
        transports.contains("udp"@),
        pair.udp_groups@,
        req.udp_groups@.len() as usize,
    );
    lemma_groups_fit(
        pair,
        "TCP"@,
        transports.contains("tcp"@),
        pair.tcp_groups@,
        req.tcp_groups@.len() as usize,
    );
}

proof fn lemma_rows_are_checked(state: UiState, rd: Readings, req: RunRequest, i: int)
    requires
        0 <= i <= req.pairs@.len(),
    ensures
        pairs_told(state, rd, req, i) is Ok <==> forall|k: int|
            i <= k < req.pairs@.len() ==> is_row(state, rd, req, #[trigger] req.pairs@[k]),
    decreases req.pairs@.len() - i,
{
    if i < req.pairs@.len() {
        lemma_rows_are_checked(state, rd, req, i + 1);
        lemma_row_is_checked(state, rd, req, req.pairs@[i]);
    }
}

// ---------------------------------------------------------------------------
// Policies
// ---------------------------------------------------------------------------

/// A policy is about a known interface that no policy before it is about, and what it says is of its
/// kind.
pub open spec fn is_policy(
    state: UiState,
    rd: Readings,
    policies: Seq<NicPolicySelection>,
    i: int,
) -> bool {
    let policy = policies[i];
    &&& is_known(state, policy.endpoint@)
    &&& forall|j: int| 0 <= j < i ==> (#[trigger] policies[j]).endpoint@ != policy.endpoint@
    &&& blank(policy.rx_target@) || (exists|v: Double| #[trigger]
        says_mbps(rd, policy.rx_target@, v)) || (exists|v: Double| #[trigger]
        says_percent(rd, policy.rx_target@, v))
    &&& blank(policy.udp_length@) || is_length(rd, trimmed(policy.udp_length@))
    &&& blank(policy.udp_bandwidth@) || is_bandwidth(rd, trimmed(policy.udp_bandwidth@))
}

proof fn lemma_policies_are_checked(
    state: UiState,
    rd: Readings,
    policies: Seq<NicPolicySelection>,
    i: int,
)
    requires
        0 <= i <= policies.len(),
    ensures
        policies_told(state, rd, policies, i) is Ok <==> forall|k: int|
            i <= k < policies.len() ==> #[trigger] is_policy(state, rd, policies, k),
    decreases policies.len() - i,
{
    if i < policies.len() {
        lemma_policies_are_checked(state, rd, policies, i + 1);
        let policy = policies[i];
        let raw = policy.rx_target@;
        lemma_endpoints_are_looked_up(state, policy.endpoint@);
        let head = policy_endpoints(policies).take(i);
        assert(head.contains(policy.endpoint@) <==> exists|j: int|
            0 <= j < i && (#[trigger] policies[j]).endpoint@ == policy.endpoint@) by {
            if head.contains(policy.endpoint@) {
                let j = choose|j: int| 0 <= j < head.len() && head[j] == policy.endpoint@;
                assert(policies[j].endpoint@ == policy.endpoint@);
            }
            if exists|j: int| 0 <= j < i && (#[trigger] policies[j]).endpoint@ == policy.endpoint@ {
                let j = choose|j: int|
                    0 <= j < i && (#[trigger] policies[j]).endpoint@ == policy.endpoint@;
                assert(head[j] == policy.endpoint@);
            }
        }
        match rx_target(rd, raw) {
            Ok(Some(RxTarget::Mbps(v))) => {
                lemma_threshold_is_read(rd, raw, v);
                assert(says_mbps(rd, raw, v));
            },
            Ok(Some(RxTarget::Percent(v))) => {
                lemma_threshold_is_read(rd, raw, v);
                assert(says_percent(rd, raw, v));
            },
            Ok(None) => {
                lemma_threshold_is_read(rd, raw, Double { bits: 0 });
            },
            Err(_) => {
                lemma_threshold_is_read(rd, raw, Double { bits: 0 });
                if exists|v: Double| #[trigger] says_mbps(rd, raw, v) {
                    let v = choose|v: Double| #[trigger] says_mbps(rd, raw, v);
                    lemma_threshold_is_read(rd, raw, v);
                }
                if exists|v: Double| #[trigger] says_percent(rd, raw, v) {
                    let v = choose|v: Double| #[trigger] says_percent(rd, raw, v);
                    lemma_threshold_is_read(rd, raw, v);
                }
            },
        }
        assert(is_policy(state, rd, policies, i) <==> endpoint_known(state, policy.endpoint@)
            && !head.contains(policy.endpoint@) && policy_texts_told(rd, policy) is Ok);
    }
}

proof fn lemma_udp_groups_are_checked(rd: Readings, req: RunRequest, i: int)
    requires
        0 <= i <= req.udp_groups@.len(),
    ensures
        udp_groups_told(rd, req, i) is Ok <==> forall|k: int|
            i <= k < req.udp_groups@.len() ==> is_udp_group(rd, #[trigger] req.udp_groups@[k]),
    decreases req.udp_groups@.len() - i,
{
    if i < req.udp_groups@.len() {
        lemma_udp_groups_are_checked(rd, req, i + 1);
        lemma_udp_group_is_checked(rd, (i + 1) as nat, req.udp_groups@[i]);
    }
}

proof fn lemma_tcp_groups_are_checked(rd: Readings, req: RunRequest, i: int)
    requires
        0 <= i <= req.tcp_groups@.len(),
    ensures
        tcp_groups_told(rd, req, i) is Ok <==> forall|k: int|
            i <= k < req.tcp_groups@.len() ==> is_tcp_group(rd, #[trigger] req.tcp_groups@[k]),
    decreases req.tcp_groups@.len() - i,
{
    if i < req.tcp_groups@.len() {
        lemma_tcp_groups_are_checked(rd, req, i + 1);
        lemma_tcp_group_is_checked(rd, (i + 1) as nat, req.tcp_groups@[i]);
    }
}

/// What a request must say whatever form it has.
pub open spec fn common_parts_fit(state: UiState, rd: Readings, req: RunRequest) -> bool {
    &&& values_fit(rd, req)
    &&& forall|k: int|
        0 <= k < req.udp_groups@.len() ==> is_udp_group(rd, #[trigger] req.udp_groups@[k])
    &&& forall|k: int|
        0 <= k < req.tcp_groups@.len() ==> is_tcp_group(rd, #[trigger] req.tcp_groups@[k])
    &&& forall|k: int|
        0 <= k < req.nic_policies@.len() ==> #[trigger] is_policy(state, rd, req.nic_policies@, k)
}

/// A matrix is accepted exactly where it has a row, and all its rows, groups, policies and values
/// are in order.
pub proof fn lemma_matrix_is_checked(state: UiState, rd: Readings, req: RunRequest)
    requires
        req.ui_plan is None,
    ensures
        request_told(state, rd, req) is Ok <==> {
            &&& req.pairs@.len() > 0
            &&& forall|k: int|
                0 <= k < req.pairs@.len() ==> is_row(state, rd, req, #[trigger] req.pairs@[k])
            &&& common_parts_fit(state, rd, req)
        },
{
    lemma_values_are_checked(rd, req);
    lemma_rows_are_checked(state, rd, req, 0);
    lemma_udp_groups_are_checked(rd, req, 0);
    lemma_tcp_groups_are_checked(rd, req, 0);
    lemma_policies_are_checked(state, rd, req.nic_policies@, 0);
}

/// A suite plan is accepted exactly where it comes without rows, is in order itself, and all else of
/// the request is.
pub proof fn lemma_plan_comes_alone(
    state: UiState,
    rd: Readings,
    req: RunRequest,
    plan: crate::model::UiPlan,
)
    requires
        req.ui_plan == Some(plan),
    ensures
        request_told(state, rd, req) is Ok <==> {
            &&& req.pairs@.len() == 0
            &&& crate::validate_plan::plan_told(state, rd, plan) is Ok
            &&& common_parts_fit(state, rd, req)
        },
{
    lemma_values_are_checked(rd, req);
    lemma_udp_groups_are_checked(rd, req, 0);
    lemma_tcp_groups_are_checked(rd, req, 0);
    lemma_policies_are_checked(state, rd, req.nic_policies@, 0);
}

} // verus!
