//! What the complaints about a request name.
use vstd::prelude::*;
use vstd::string::*;
use crate::compile::{nothing_built, repeat_notice, resume_notice};
use crate::model::{
    NicPolicySelection, PairSelection, RunRequest, TcpGroup, UdpGroup, UiBinding, UiLinkSet, UiPlan,
    UiRecipe, UiState, UiSuite, UiTask, WifiBandThreshold, WifiPairThreshold,
};
use crate::number::Double;
use crate::readings::Readings;
use crate::text::{
    begins, blank, debug_text, decimal, has, joined, joined_to, occurs_at, texts, trimmed,
};
use crate::validate::{
    band_rule_told, bandwidth_told, bandwidths_told, current_rule_fields, group_label, length_told,
    lengths_told, nonnegative_told, older_rule_fields, pair_groups_told, pair_label,
    pair_rule_fields, pair_rule_told, pair_threshold_told, pair_told, payloads_told, ping_fields,
    policy_texts_told, rx_target, size_told, tcp_group_told, udp_group_told, wifi_fields,
    windows_told, NONNEGATIVE,
};
use crate::validate_plan::{
    binding_told, bound_pairs_told, order_told, pair_ref_label, pair_topology_told,
    plain_profiles_told, recipe_refs_told, recipe_told, task_label, task_numbers_told,
    tcp_profiles_told, tcp_recipe_told, udp_profiles_told, udp_recipe_told, udp_shape_told,
};

verus! {

broadcast proof fn lemma_begins_itself(p: Seq<char>)
    ensures
        #[trigger] begins(p, p),
{
    assert(p.subrange(0, p.len() as int) =~= p);
}

broadcast proof fn lemma_begins_longer(s: Seq<char>, t: Seq<char>, p: Seq<char>)
    requires
        begins(s, p),
    ensures
        #[trigger] begins(s + t, p),
{
    assert((s + t).subrange(0, p.len() as int) =~= s.subrange(0, p.len() as int));
}

broadcast proof fn lemma_has_itself(p: Seq<char>)
    ensures
        #[trigger] has(p, p),
{
    assert(p.subrange(0, p.len() as int) =~= p);
    assert(occurs_at(p, p, 0));
}

broadcast proof fn lemma_has_in_either(s: Seq<char>, t: Seq<char>, p: Seq<char>)
    requires
        has(s, p) || has(t, p),
    ensures
        #[trigger] has(s + t, p),
{
    if has(s, p) {
        let i = choose|i: int| occurs_at(s, p, i);
        assert((s + t).subrange(i, i + p.len()) =~= s.subrange(i, i + p.len()));
        assert(occurs_at(s + t, p, i));
    } else {
        let i = choose|i: int| occurs_at(t, p, i);
        let k = s.len() + i;
        assert((s + t).subrange(k, k + p.len()) =~= t.subrange(i, i + p.len()));
        assert(occurs_at(s + t, p, k));
    }
}

broadcast group group_naming {
    lemma_begins_itself,
    lemma_begins_longer,
    lemma_has_itself,
    lemma_has_in_either,
}

/// Whether a complaint begins with what it is about.
pub open spec fn about<T>(r: Result<T, Seq<char>>, subject: Seq<char>) -> bool {
    r matches Err(e) ==> begins(e, subject)
}

/// Whether a complaint shows a text.
pub open spec fn shows<T>(r: Result<T, Seq<char>>, text: Seq<char>) -> bool {
    r matches Err(e) ==> has(e, text)
}

/// A complaint about a size, a length or a bandwidth begins with what the text was given for and
/// shows the text.
pub proof fn lemma_complaints_show_the_text(
    rd: Readings,
    subject: Seq<char>,
    shown: Seq<char>,
    text: Seq<char>,
)
    ensures
        about(size_told(rd, subject, shown, text), subject),
        shows(size_told(rd, subject, shown, text), debug_text(shown)),
        about(length_told(rd, subject, None, shown, text), subject),
        shows(length_told(rd, subject, None, shown, text), debug_text(shown)),
        about(bandwidth_told(rd, text, subject), subject),
        shows(bandwidth_told(rd, text, subject), debug_text(text)),
        shows(rx_target(rd, text), debug_text(text)),
{
    broadcast use group_naming;

}

/// A complaint about a list begins with what the list was given for.
pub proof fn lemma_complaints_about_lists(
    rd: Readings,
    list: Seq<Seq<char>>,
    subject: Seq<char>,
    i: int,
)
    requires
        0 <= i <= list.len(),
    ensures
        about(windows_told(rd, list, subject, i), subject),
        about(lengths_told(rd, list, subject, None, i), subject),
        about(bandwidths_told(rd, list, subject, i), subject),
    decreases list.len() - i,
{
    if i < list.len() {
        lemma_complaints_about_lists(rd, list, subject, i + 1);
        lemma_complaints_show_the_text(rd, subject, list[i], trimmed(list[i]));
    }
}

proof fn lemma_longer_subject<T>(r: Result<T, Seq<char>>, label: Seq<char>, more: Seq<char>)
    requires
        about(r, label + more),
    ensures
        about(r, label),
{
    if let Err(e) = r {
        let long = label + more;
        assert(e.subrange(0, label.len() as int) =~= e.subrange(0, long.len() as int).subrange(
            0,
            label.len() as int,
        ));
        assert(long.subrange(0, label.len() as int) =~= label);
    }
}

/// A group is called by its name, or by its number where it has none.
pub proof fn lemma_groups_are_called_by_name(kind: Seq<char>, index: nat, name: Seq<char>)
    ensures
        begins(group_label(kind, index, name), kind),
        !(blank(name)) ==> has(group_label(kind, index, name), trimmed(name)),
        blank(name) ==> has(group_label(kind, index, name), decimal(index)),
{
    broadcast use group_naming;

}

/// A complaint about a group names the group.
pub proof fn lemma_complaints_name_the_group(
    rd: Readings,
    index: nat,
    udp: UdpGroup,
    tcp: TcpGroup,
)
    ensures
        about(udp_group_told(rd, index, udp), group_label("UDP"@, index, udp.name@)),
        about(tcp_group_told(rd, index, tcp), group_label("TCP"@, index, tcp.name@)),
{
    broadcast use group_naming;

    let label = group_label("UDP"@, index, udp.name@);
    let (b, l, w) = (
        crate::validate::cleaned(texts(udp.bandwidths@)),
        crate::validate::cleaned(texts(udp.lengths@)),
        crate::validate::cleaned(texts(udp.windows@)),
    );
    lemma_complaints_about_lists(rd, b, label, 0);
    lemma_complaints_about_lists(rd, l, label + " 的 -l "@, 0);
    lemma_longer_subject(lengths_told(rd, l, label + " 的 -l "@, None, 0), label, " 的 -l "@);
    lemma_complaints_about_lists(rd, w, label + " 的 -w "@, 0);
    lemma_longer_subject(windows_told(rd, w, label + " 的 -w "@, 0), label, " 的 -w "@);
    let other = group_label("TCP"@, index, tcp.name@);
    let v = crate::validate::cleaned(texts(tcp.windows@));
    lemma_complaints_about_lists(rd, v, other + " 的 -w "@, 0);
    lemma_longer_subject(windows_told(rd, v, other + " 的 -w "@, 0), other, " 的 -w "@);
}

// ---------------------------------------------------------------------------
// Numbers
// ---------------------------------------------------------------------------

/// Of several numbers the first that is negative or infinite is complained of, by its own name.
pub proof fn lemma_first_bad_number_is_named(
    fields: Seq<(Seq<char>, Double)>,
    complaint: Seq<char>,
    i: int,
    at: int,
)
    requires
        0 <= i <= at < fields.len(),
        forall|k: int| i <= k < at ==> (#[trigger] fields[k]).1.nonnegative(),
        !fields[at].1.nonnegative(),
    ensures
        nonnegative_told(fields, complaint, i) == Err::<(), Seq<char>>(fields[at].0 + complaint),
    decreases at - i,
{
    if i < at {
        assert(fields[i].1.nonnegative());
        lemma_first_bad_number_is_named(fields, complaint, i + 1, at);
    }
}

/// Each threshold for pings goes by its own name: the kind of link, the size and whether it is an
/// average or a largest value.
pub proof fn lemma_ping_thresholds_have_names(req: RunRequest)
    ensures
        ({
            let fields = ping_fields(req);
            &&& fields.len() == 13
            &&& fields.contains(("有线 small Avg RTT"@, req.ping_wired_small_avg_rtt_ms))
            &&& fields.contains(("有线 small Max RTT"@, req.ping_wired_small_max_rtt_ms))
            &&& fields.contains(("有线 medium Avg RTT"@, req.ping_wired_medium_avg_rtt_ms))
            &&& fields.contains(("有线 medium Max RTT"@, req.ping_wired_medium_max_rtt_ms))
            &&& fields.contains(("有线 large Avg RTT"@, req.ping_wired_large_avg_rtt_ms))
            &&& fields.contains(("有线 large Max RTT"@, req.ping_wired_large_max_rtt_ms))
            &&& fields.contains(("Wi-Fi small Avg RTT"@, req.ping_wifi_small_avg_rtt_ms))
            &&& fields.contains(("Wi-Fi small Max RTT"@, req.ping_wifi_small_max_rtt_ms))
            &&& fields.contains(("Wi-Fi medium Avg RTT"@, req.ping_wifi_medium_avg_rtt_ms))
            &&& fields.contains(("Wi-Fi medium Max RTT"@, req.ping_wifi_medium_max_rtt_ms))
            &&& fields.contains(("Wi-Fi large Avg RTT"@, req.ping_wifi_large_avg_rtt_ms))
            &&& fields.contains(("Wi-Fi large Max RTT"@, req.ping_wifi_large_max_rtt_ms))
            &&& fields.contains(("兼容旧版有线 small Max RTT"@, req.ping_max_rtt_ms))
        }),
{
    let fields = ping_fields(req);
    assert(fields[0] == ("有线 small Avg RTT"@, req.ping_wired_small_avg_rtt_ms));
    assert(fields[1] == ("有线 small Max RTT"@, req.ping_wired_small_max_rtt_ms));
    assert(fields[2] == ("有线 medium Avg RTT"@, req.ping_wired_medium_avg_rtt_ms));
    assert(fields[3] == ("有线 medium Max RTT"@, req.ping_wired_medium_max_rtt_ms));
    assert(fields[4] == ("有线 large Avg RTT"@, req.ping_wired_large_avg_rtt_ms));
    assert(fields[5] == ("有线 large Max RTT"@, req.ping_wired_large_max_rtt_ms));
    assert(fields[6] == ("Wi-Fi small Avg RTT"@, req.ping_wifi_small_avg_rtt_ms));
    assert(fields[7] == ("Wi-Fi small Max RTT"@, req.ping_wifi_small_max_rtt_ms));
    assert(fields[8] == ("Wi-Fi medium Avg RTT"@, req.ping_wifi_medium_avg_rtt_ms));
    assert(fields[9] == ("Wi-Fi medium Max RTT"@, req.ping_wifi_medium_max_rtt_ms));
    assert(fields[10] == ("Wi-Fi large Avg RTT"@, req.ping_wifi_large_avg_rtt_ms));
    assert(fields[11] == ("Wi-Fi large Max RTT"@, req.ping_wifi_large_max_rtt_ms));
    assert(fields[12] == ("兼容旧版有线 small Max RTT"@, req.ping_max_rtt_ms));
}

/// Each Wi-Fi threshold goes by its own name: in one direction or both, and from which end.
pub proof fn lemma_wifi_thresholds_have_names(
    req: RunRequest,
    band: WifiBandThreshold,
    pair: WifiPairThreshold,
)
    ensures
        wifi_fields(req).contains(("Wi-Fi 互测单向 RX 门限"@, req.wifi_pair_rx_target_mbps)),
        wifi_fields(req).contains(
            ("Wi-Fi 互测双向每方向 RX 门限"@, req.wifi_pair_bidir_rx_target_mbps),
        ),
        wifi_fields(req).contains(
            ("Wi-Fi 互测双向 RX 合计门限"@, req.wifi_pair_bidir_total_rx_target_mbps),
        ),
        current_rule_fields(band).contains(
            ("Wi-Fi 单向主控→辅测 RX 门限"@, band.rx_target_master_to_agent_mbps),
        ),
        current_rule_fields(band).contains(
            ("Wi-Fi 单向辅测→主控 RX 门限"@, band.rx_target_agent_to_master_mbps),
        ),
        current_rule_fields(band).contains(
            ("Wi-Fi 双向 RX 合计门限"@, band.bidir_total_rx_target_mbps),
        ),
        current_rule_fields(band).contains(
            ("Wi-Fi 双向主控→辅测 RX 门限"@, band.bidir_rx_target_master_to_agent_mbps),
        ),
        current_rule_fields(band).contains(
            ("Wi-Fi 双向辅测→主控 RX 门限"@, band.bidir_rx_target_agent_to_master_mbps),
        ),
        older_rule_fields(band).contains(("Wi-Fi 频段单向 RX 门限"@, band.rx_target_mbps)),
        older_rule_fields(band).contains(
            ("Wi-Fi 频段双向每方向 RX 门限"@, band.bidir_rx_target_mbps),
        ),
        pair_rule_fields(pair).contains(("Wi-Fi 网口对单向 A→B RX 门限"@, pair.rx_target_ab_mbps)),
        pair_rule_fields(pair).contains(("Wi-Fi 网口对单向 B→A RX 门限"@, pair.rx_target_ba_mbps)),
        pair_rule_fields(pair).contains(
            ("Wi-Fi 网口对双向 A→B RX 门限"@, pair.bidir_rx_target_ab_mbps),
        ),
        pair_rule_fields(pair).contains(
            ("Wi-Fi 网口对双向 B→A RX 门限"@, pair.bidir_rx_target_ba_mbps),
        ),
{
    let (w, c, o, p) = (
        wifi_fields(req),
        current_rule_fields(band),
        older_rule_fields(band),
        pair_rule_fields(pair),
    );
    assert(w[0] == ("Wi-Fi 互测单向 RX 门限"@, req.wifi_pair_rx_target_mbps));
    assert(w[1] == ("Wi-Fi 互测双向每方向 RX 门限"@, req.wifi_pair_bidir_rx_target_mbps));
    assert(w[2] == ("Wi-Fi 互测双向 RX 合计门限"@, req.wifi_pair_bidir_total_rx_target_mbps));
    assert(c[0] == ("Wi-Fi 单向主控→辅测 RX 门限"@, band.rx_target_master_to_agent_mbps));
    assert(c[1] == ("Wi-Fi 单向辅测→主控 RX 门限"@, band.rx_target_agent_to_master_mbps));
    assert(c[2] == ("Wi-Fi 双向 RX 合计门限"@, band.bidir_total_rx_target_mbps));
    assert(c[3] == ("Wi-Fi 双向主控→辅测 RX 门限"@, band.bidir_rx_target_master_to_agent_mbps));
    assert(c[4] == ("Wi-Fi 双向辅测→主控 RX 门限"@, band.bidir_rx_target_agent_to_master_mbps));
    assert(o[0] == ("Wi-Fi 频段单向 RX 门限"@, band.rx_target_mbps));
    assert(o[1] == ("Wi-Fi 频段双向每方向 RX 门限"@, band.bidir_rx_target_mbps));
    assert(p[0] == ("Wi-Fi 网口对单向 A→B RX 门限"@, pair.rx_target_ab_mbps));
    assert(p[1] == ("Wi-Fi 网口对单向 B→A RX 门限"@, pair.rx_target_ba_mbps));
    assert(p[2] == ("Wi-Fi 网口对双向 A→B RX 门限"@, pair.bidir_rx_target_ab_mbps));
    assert(p[3] == ("Wi-Fi 网口对双向 B→A RX 门限"@, pair.bidir_rx_target_ba_mbps));
}

/// A rule that lacks an end, mixes old and new fields or repeats another is named by its row,
/// counted from one.
pub proof fn lemma_complaints_name_the_rule(
    bands: Seq<WifiBandThreshold>,
    pairs: Seq<WifiPairThreshold>,
    i: int,
)
    requires
        0 <= i < bands.len(),
        0 <= i < pairs.len(),
    ensures
        nonnegative_told(current_rule_fields(bands[i]), NONNEGATIVE@, 0) is Ok && nonnegative_told(
            older_rule_fields(bands[i]),
            NONNEGATIVE@,
            0,
        ) is Ok ==> about(
            band_rule_told(bands, i),
            "Wi-Fi 频段门限第 "@ + decimal((i + 1) as nat),
        ),
        nonnegative_told(pair_rule_fields(pairs[i]), NONNEGATIVE@, 0) is Ok ==> about(
            pair_rule_told(pairs, i),
            "Wi-Fi 网口对门限第 "@ + decimal((i + 1) as nat),
        ),
{
    broadcast use group_naming;

}

/// A payload that does not fit is named.
pub proof fn lemma_complaints_name_the_payload(sizes: Seq<u32>, i: int, at: int)
    requires
        0 <= i <= at < sizes.len(),
        forall|k: int| i <= k < at ==> #[trigger] sizes[k] <= 65_500,
        sizes[at] > 65_500,
    ensures
        payloads_told(sizes, i) is Err,
        shows(payloads_told(sizes, i), decimal(sizes[at] as nat)),
    decreases at - i,
{
    broadcast use group_naming;

    if i < at {
        assert(sizes[i] <= 65_500);
        lemma_complaints_name_the_payload(sizes, i + 1, at);
    }
}

// ---------------------------------------------------------------------------
// Rows and policies
// ---------------------------------------------------------------------------

/// A complaint about a row of the matrix shows both ends of the row; one about a threshold shows
/// which threshold, and one about groups which kind.
#[verifier::rlimit(60)]
pub proof fn lemma_complaints_name_the_row(
    state: UiState,
    rd: Readings,
    pair: PairSelection,
    which: Seq<char>,
    raw: Seq<char>,
    selected: bool,
    groups: Seq<usize>,
    udp: usize,
    tcp: usize,
)
    ensures
        shows(pair_told(state, rd, pair, udp, tcp), pair.src@),
        shows(pair_told(state, rd, pair, udp, tcp), pair.dst@),
        about(pair_threshold_told(rd, pair, which, raw), pair_label(pair)),
        shows(pair_threshold_told(rd, pair, which, raw), which),
        about(pair_groups_told(pair, which, selected, groups, udp), pair_label(pair)),
        shows(pair_groups_told(pair, which, selected, groups, udp), which),
        shows(pair_threshold_told(rd, pair, which, raw), pair.src@),
        shows(pair_threshold_told(rd, pair, which, raw), pair.dst@),
        shows(pair_groups_told(pair, which, selected, groups, udp), pair.src@),
        shows(pair_groups_told(pair, which, selected, groups, udp), pair.dst@),
{
    broadcast use group_naming;

}

/// A complaint about a policy begins with the interface that the policy is for.
pub proof fn lemma_complaints_name_the_interface(rd: Readings, policy: NicPolicySelection)
    ensures
        about(policy_texts_told(rd, policy), policy.endpoint@),
{
    broadcast use group_naming;

    lemma_complaints_show_the_text(
        rd,
        policy.endpoint@,
        trimmed(policy.udp_bandwidth@),
        trimmed(policy.udp_bandwidth@),
    );
}

// ---------------------------------------------------------------------------
// Plans without units
// ---------------------------------------------------------------------------

proof fn lemma_list_shows(v: Seq<Seq<char>>, sep: Seq<char>, n: int, i: int)
    requires
        0 <= i < n <= v.len(),
    ensures
        has(joined_to(v, sep, n), v[i]),
    decreases n,
{
    broadcast use group_naming;

    if n > 1 && i < n - 1 {
        lemma_list_shows(v, sep, n - 1, i);
    }
}

/// A plan that comes to nothing is told of with every notice; what is skipped is told with how many
/// units are and how many there are.
pub proof fn lemma_empty_plans_tell_why(
    notices: Seq<Seq<char>>,
    i: int,
    skipped: nat,
    all: nat,
)
    ensures
        0 <= i < notices.len() ==> has(nothing_built(notices), notices[i]),
        has(resume_notice(skipped, all), decimal(all)),
        skipped > 0 ==> has(resume_notice(skipped, all), decimal(skipped) + "/"@ + decimal(all)),
        all > skipped ==> repeat_notice(all, skipped).len() == 1 && has(
            repeat_notice(all, skipped)[0],
            decimal((all - skipped) as nat),
        ),
        all <= skipped ==> repeat_notice(all, skipped).len() == 0,
{
    broadcast use group_naming;

    if 0 <= i < notices.len() {
        lemma_list_shows(notices, "；"@, notices.len() as int, i);
        let list = joined(notices, "；"@);
        assert(has(list, notices[i]));
        assert(has("："@ + list, notices[i]));
    }
    if skipped > 0 {
        let (head, mid, tail) = (
            "resume 已开启："@,
            decimal(skipped) + "/"@ + decimal(all),
            " 个单元在 24 小时内已 PASS，预计跳过。执行时还会再判一次"@,
        );
        assert(head + decimal(skipped) + "/"@ + decimal(all) =~= head + mid);
        assert(has(head + mid, mid));
        assert(has(head + mid + tail, mid));
    }
}

// ---------------------------------------------------------------------------
// Suite plans
// ---------------------------------------------------------------------------

proof fn lemma_tcp_profiles(rd: Readings, recipe: UiRecipe, i: int)
    requires
        0 <= i <= recipe.profiles@.len(),
    ensures
        about(tcp_profiles_told(rd, recipe, i), "TCP 配置 "@ + recipe.id@),
    decreases recipe.profiles@.len() - i,
{
    broadcast use group_naming;

    if i < recipe.profiles@.len() {
        lemma_tcp_profiles(rd, recipe, i + 1);
        let window = recipe.profiles@[i].window;
        let label = "TCP 配置 "@ + recipe.id@;
        if window is Some {
            let text = window->0@;
            lemma_complaints_show_the_text(rd, label + " 的 profile -w "@, text, trimmed(text));
            lemma_longer_subject(
                size_told(rd, label + " 的 profile -w "@, text, trimmed(text)),
                label,
                " 的 profile -w "@,
            );
        }
    }
}

proof fn lemma_shape(rd: Readings, recipe: UiRecipe, length: Option<String>, window: Option<String>)
    ensures
        about(udp_shape_told(rd, recipe, length, window), "UDP 配置 "@ + recipe.id@),
{
    broadcast use group_naming;

    let label = "UDP 配置 "@ + recipe.id@;
    if length is Some {
        let text = length->0@;
        lemma_complaints_show_the_text(rd, label + " 的 profile -l "@, text, trimmed(text));
        lemma_longer_subject(
            size_told(rd, label + " 的 profile -l "@, text, trimmed(text)),
            label,
            " 的 profile -l "@,
        );
    }
    if window is Some {
        let text = window->0@;
        lemma_complaints_show_the_text(rd, label + " 的 profile -w "@, text, trimmed(text));
        lemma_longer_subject(
            size_told(rd, label + " 的 profile -w "@, text, trimmed(text)),
            label,
            " 的 profile -w "@,
        );
    }
}

proof fn lemma_udp_profiles(rd: Readings, recipe: UiRecipe, i: int)
    requires
        0 <= i <= recipe.profiles@.len(),
    ensures
        about(udp_profiles_told(rd, recipe, i), "UDP 配置 "@ + recipe.id@),
    decreases recipe.profiles@.len() - i,
{
    broadcast use group_naming;

    if i < recipe.profiles@.len() {
        lemma_udp_profiles(rd, recipe, i + 1);
        let profile = recipe.profiles@[i];
        let label = "UDP 配置 "@ + recipe.id@;
        lemma_shape(rd, recipe, profile.length, profile.window);
        if profile.bandwidth is Some {
            let text = trimmed(profile.bandwidth->0@);
            lemma_complaints_show_the_text(rd, label, text, text);
        }
    }
}

proof fn lemma_plain_profiles(rd: Readings, recipe: UiRecipe, i: int)
    requires
        0 <= i <= recipe.udp_profiles@.len(),
    ensures
        about(plain_profiles_told(rd, recipe, i), "UDP 配置 "@ + recipe.id@),
    decreases recipe.udp_profiles@.len() - i,
{
    broadcast use group_naming;

    if i < recipe.udp_profiles@.len() {
        lemma_plain_profiles(rd, recipe, i + 1);
        let profile = recipe.udp_profiles@[i];
        let label = "UDP 配置 "@ + recipe.id@;
        lemma_shape(rd, recipe, profile.length, profile.window);
        let text = trimmed(profile.bandwidth@);
        lemma_complaints_show_the_text(rd, label, text, text);
    }
}

proof fn lemma_over_lengths(
    rd: Readings,
    list: Seq<Seq<char>>,
    label: Seq<char>,
    more: Seq<char>,
    over: Seq<char>,
    i: int,
)
    requires
        0 <= i <= list.len(),
        begins(over, label),
    ensures
        about(lengths_told(rd, list, label + more, Some(over), i), label),
    decreases list.len() - i,
{
    if i < list.len() {
        lemma_over_lengths(rd, list, label, more, over, i + 1);
        lemma_complaints_show_the_text(rd, label + more, list[i], trimmed(list[i]));
        lemma_longer_subject(
            size_told(rd, label + more, list[i], trimmed(list[i])),
            label,
            more,
        );
    }
}

/// A complaint about a recipe names its protocol and its id.
pub proof fn lemma_complaints_name_the_recipe(rd: Readings, recipe: UiRecipe, index: nat)
    ensures
        about(tcp_recipe_told(rd, recipe), "TCP 配置 "@ + recipe.id@),
        about(udp_recipe_told(rd, recipe), "UDP 配置 "@ + recipe.id@),
        shows(recipe_told(rd, "ping"@, recipe, index), "ping"@),
        blank(recipe.id@) ==> shows(recipe_told(rd, "tcp"@, recipe, index), decimal(index + 1)),
        !(blank(recipe.id@)) ==> shows(recipe_told(rd, "ping"@, recipe, index), recipe.id@),
{
    broadcast use group_naming;

    reveal_strlit("ping");
    reveal_strlit("tcp");
    reveal_strlit("udp");
    assert("ping"@.len() == 4 && "tcp"@.len() == 3 && "udp"@.len() == 3);
    let tcp = "TCP 配置 "@ + recipe.id@;
    let (a, b) = (texts(recipe.tcp_windows@), texts(recipe.windows@));
    lemma_complaints_about_lists(rd, a, tcp + " 的 -w "@, 0);
    lemma_longer_subject(windows_told(rd, a, tcp + " 的 -w "@, 0), tcp, " 的 -w "@);
    lemma_complaints_about_lists(rd, b, tcp + " 的 -w "@, 0);
    lemma_longer_subject(windows_told(rd, b, tcp + " 的 -w "@, 0), tcp, " 的 -w "@);
    lemma_tcp_profiles(rd, recipe, 0);
    let udp = "UDP 配置 "@ + recipe.id@;
    lemma_complaints_about_lists(rd, texts(recipe.bandwidths@), udp, 0);
    assert(begins(udp + " 的 -l 超过 65507 字节"@, udp));
    lemma_over_lengths(
        rd,
        texts(recipe.lengths@),
        udp,
        " 的 -l "@,
        udp + " 的 -l 超过 65507 字节"@,
        0,
    );
    lemma_complaints_about_lists(rd, b, udp + " 的 -w "@, 0);
    lemma_longer_subject(windows_told(rd, b, udp + " 的 -w "@, 0), udp, " 的 -w "@);
    lemma_udp_profiles(rd, recipe, 0);
    lemma_plain_profiles(rd, recipe, 0);
}

/// A complaint about the numbers of a task begins with its suite; a task is called by the ids of its
/// suite and itself.
pub proof fn lemma_complaints_name_the_task(suite: UiSuite, task: UiTask, protocol: Seq<char>)
    ensures
        about(task_numbers_told(suite, task, protocol), "suite "@ + suite.id@),
        begins(task_label(suite, task), "suite "@ + suite.id@),
        has(task_label(suite, task), task.id@),
{
    broadcast use group_naming;

}

/// A complaint about what a task refers to begins with the task and shows the reference.
pub proof fn lemma_complaints_name_the_reference(
    recipes: Seq<UiRecipe>,
    label: Seq<char>,
    protocol: Seq<char>,
    refs: Seq<Seq<char>>,
    i: int,
)
    requires
        0 <= i <= refs.len(),
    ensures
        about(recipe_refs_told(recipes, label, protocol, refs, i), label),
        recipe_refs_told(recipes, label, protocol, refs, i) matches Err(e) ==> exists|k: int|
            i <= k < refs.len() && has(e, #[trigger] refs[k]),
    decreases refs.len() - i,
{
    broadcast use group_naming;

    if i < refs.len() {
        lemma_complaints_name_the_reference(recipes, label, protocol, refs, i + 1);
        if let Err(e) = recipe_refs_told(recipes, label, protocol, refs, i) {
            if refs.take(i).contains(refs[i]) || !crate::validate_plan::recipe_ids(recipes).contains(
                refs[i],
            ) {
                assert(has(e, refs[i]));
            }
        }
    }
}

/// A complaint about an order shows the suite.
pub proof fn lemma_complaints_name_the_suite(suite: UiSuite, i: int)
    requires
        0 <= i <= suite.order@.len(),
    ensures
        about(order_told(suite, i), "suite "@ + suite.id@),
    decreases suite.order@.len() - i,
{
    broadcast use group_naming;

    if i < suite.order@.len() {
        lemma_complaints_name_the_suite(suite, i + 1);
    }
}

proof fn lemma_bound_pairs(binding: UiBinding, set: UiLinkSet, i: int)
    requires
        0 <= i <= binding.pair_ids@.len(),
    ensures
        about(bound_pairs_told(binding, set, i), "binding "@ + binding.id@),
    decreases binding.pair_ids@.len() - i,
{
    broadcast use group_naming;

    if i < binding.pair_ids@.len() {
        lemma_bound_pairs(binding, set, i + 1);
    }
}

/// A complaint about a binding begins with the binding, and shows the link set or the suite that is
/// not there.
pub proof fn lemma_complaints_name_the_binding(plan: UiPlan, binding: UiBinding)
    ensures
        about(binding_told(plan, binding), "binding "@ + binding.id@),
        !(crate::validate_plan::set_ids(plan.link_sets@).contains(binding.link_set_id@)) ==> shows(
            binding_told(plan, binding),
            binding.link_set_id@,
        ) && binding_told(plan, binding) is Err,
{
    broadcast use group_naming;

    let at = crate::validate_plan::set_index(plan.link_sets@, binding.link_set_id@, 0);
    lemma_set_found(plan.link_sets@, binding.link_set_id@, 0);
    if at < plan.link_sets@.len() {
        lemma_bound_pairs(binding, plan.link_sets@[at], 0);
        assert(crate::validate_plan::set_ids(plan.link_sets@)[at] == binding.link_set_id@);
    }
}

proof fn lemma_set_found(sets: Seq<UiLinkSet>, id: Seq<char>, i: int)
    requires
        0 <= i <= sets.len(),
    ensures
        ({
            let at = crate::validate_plan::set_index(sets, id, i);
            i <= at <= sets.len() && (at < sets.len() ==> sets[at].id@ == id)
        }),
    decreases sets.len() - i,
{
    if i < sets.len() && sets[i].id@ != id {
        lemma_set_found(sets, id, i + 1);
    }
}

/// A complaint about a pair of a link set begins with the link set; a pair is called by its number,
/// counted from one.
pub proof fn lemma_complaints_name_the_link_set(
    state: UiState,
    rd: Readings,
    plan: UiPlan,
    set: UiLinkSet,
    i: int,
)
    requires
        0 <= i < set.pair_refs@.len(),
    ensures
        about(pair_topology_told(state, rd, plan, set, i), "link_set "@ + set.id@),
        has(pair_ref_label(set, i), decimal((i + 1) as nat)),
        begins(pair_ref_label(set, i), "link_set "@ + set.id@),
{
    broadcast use group_naming;

}

} // verus!
