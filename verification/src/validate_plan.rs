//! What a suite plan must be before anything runs.
use vstd::prelude::*;
use vstd::string::*;
use crate::config::RateTargets;
use crate::model::{
    RunRequest, UiBinding, UiLinkSet, UiPairRef, UiPlan, UiRecipe, UiState, UiSuite, UiTask,
    UiU32Values,
};
use crate::number::Double;
use crate::ping::MAX_PAYLOAD;
use crate::readings::{look_up, reading, Readings};
use crate::text::{
    alike, ascii_lower, blank, cat2, cat3, cat4, cat5, cat6, cat8, debug_text, decimal,
    decimal_text, group_views, is_alike, is_blank, lists, lowered, opt_view, owned, quoted, same,
    texts, told, trim, trimmed,
};
use crate::validate::{
    bandwidth_told, bandwidths_told, check_bandwidths, check_length, check_lengths, check_size,
    check_udp_bandwidth, check_windows, do_streams_fit, global_sweeps_told, global_values_told,
    length_told, lengths_told, pair_told, parse_rx_target, policies_told, rx_target, size_told,
    streams_fit, tcp_group_told, udp_group_told, ui_endpoint_exists, ui_endpoint_known,
    validate_global_sweeps, validate_global_values, validate_nic_policies, validate_pair,
    validate_tcp_group, validate_udp_group, windows_told, RxTarget,
};

verus! {

// ---------------------------------------------------------------------------
// Spellings
// ---------------------------------------------------------------------------

/// The direction that a text means: `ab`, `ba`, `bidir` for both at once, `both` for one after the
/// other.
pub open spec fn direction_of(raw: Seq<char>) -> Option<Seq<char>> {
    let text = lowered(trimmed(raw));
    if text == "ab"@ || text == "a->b"@ || text == "a>b"@ || text == "a_to_b"@ {
        Some("ab"@)
    } else if text == "ba"@ || text == "b->a"@ || text == "b>a"@ || text == "b_to_a"@ {
        Some("ba"@)
    } else if text == "bidir"@ || text == "both-way"@ || text == "a<->b"@ || text == "双向"@ {
        Some("bidir"@)
    } else if text == "both"@ {
        Some("both"@)
    } else {
        None
    }
}

/// The direction that a text means.
pub fn canonical_ui_direction(raw: &str) -> (r: Option<&'static str>)
    ensures
        opt_view(r) == direction_of(raw@),
{
    let lower = ascii_lower(trim(raw));
    let text = lower.as_str();
    if same(text, "ab") || same(text, "a->b") || same(text, "a>b") || same(text, "a_to_b") {
        Some("ab")
    } else if same(text, "ba") || same(text, "b->a") || same(text, "b>a") || same(text, "b_to_a") {
        Some("ba")
    } else if same(text, "bidir") || same(text, "both-way") || same(text, "a<->b") || same(
        text,
        "双向",
    ) {
        Some("bidir")
    } else if same(text, "both") {
        Some("both")
    } else {
        None
    }
}

/// The IP version that a text means.
pub open spec fn ip_of(raw: Seq<char>) -> Option<Seq<char>> {
    let text = lowered(trimmed(raw));
    if text == "v4"@ || text == "ipv4"@ || text == "4"@ {
        Some("v4"@)
    } else if text == "v6"@ || text == "ipv6"@ || text == "6"@ {
        Some("v6"@)
    } else {
        None
    }
}

/// The IP version that a text means.
pub fn canonical_ui_ip(raw: &str) -> (r: Option<&'static str>)
    ensures
        opt_view(r) == ip_of(raw@),
{
    let lower = ascii_lower(trim(raw));
    let text = lower.as_str();
    if same(text, "v4") || same(text, "ipv4") || same(text, "4") {
        Some("v4")
    } else if same(text, "v6") || same(text, "ipv6") || same(text, "6") {
        Some("v6")
    } else {
        None
    }
}

/// The protocol of a task: what it names, or its only transport.
pub open spec fn task_protocol(task: UiTask) -> Option<Seq<char>> {
    let raw = if !blank(task.protocol@) {
        lowered(trimmed(task.protocol@))
    } else if task.transports@.len() == 1 {
        lowered(trimmed(task.transports@[0]@))
    } else {
        Seq::empty()
    };
    if raw == "tcp"@ || raw == "udp"@ || raw == "ping"@ {
        Some(raw)
    } else {
        None
    }
}

/// The protocol of a task: what it names, or its only transport.
pub fn ui_task_protocol(task: &UiTask) -> (r: Option<String>)
    ensures
        opt_view(r) == task_protocol(*task),
{
    let raw = if !is_blank(task.protocol.as_str()) {
        ascii_lower(trim(task.protocol.as_str()))
    } else if task.transports.len() == 1 {
        ascii_lower(trim(task.transports[0].as_str()))
    } else {
        String::new()
    };
    if same(raw.as_str(), "tcp") || same(raw.as_str(), "udp") || same(raw.as_str(), "ping") {
        Some(raw)
    } else {
        None
    }
}

// ---------------------------------------------------------------------------
// Recipes
// ---------------------------------------------------------------------------

/// A text that is there and not blank.
pub open spec fn filled(text: Option<String>) -> bool {
    match text {
        Some(s) => !blank(s@),
        None => false,
    }
}

/// Whether a text is there and not blank.
pub fn is_filled(text: &Option<String>) -> (r: bool)
    ensures
        r == filled(*text),
{
    match text {
        Some(s) => !is_blank(s.as_str()),
        None => false,
    }
}

/// The stream counts of a profile: those of its protocol where given, else the common ones.
pub open spec fn profile_streams(own: Option<UiU32Values>, common: UiU32Values) -> Seq<u32> {
    match own {
        Some(values) => values@,
        None => common@,
    }
}

/// The stream counts of a profile.
pub fn streams_of_profile(own: &Option<UiU32Values>, common: &UiU32Values) -> (r: Vec<u32>)
    ensures
        r@ == profile_streams(*own, *common),
{
    match own {
        Some(values) => values.values(),
        None => common.values(),
    }
}

/// The complaint about an optional window size.
pub open spec fn opt_window_told(rd: Readings, prefix: Seq<char>, window: Option<String>) -> Result<
    (),
    Seq<char>,
> {
    if filled(window) {
        match size_told(rd, prefix, window->0@, trimmed(window->0@)) {
            Err(e) => Err(e),
            Ok(_) => Ok(()),
        }
    } else {
        Ok(())
    }
}

/// Checks an optional window size.
pub fn check_opt_window(rd: &Readings, prefix: &str, window: &Option<String>) -> (r: Result<
    (),
    String,
>)
    ensures
        told(r) == opt_window_told(*rd, prefix@, *window),
{
    match window {
        Some(s) => {
            let text = trim(s.as_str());
            if !text.is_empty() {
                if let Err(e) = check_size(rd, prefix, s.as_str(), text) {
                    return Err(e);
                }
            }
            Ok(())
        },
        None => Ok(()),
    }
}

/// The complaint about an optional datagram length.
pub open spec fn opt_length_told(
    rd: Readings,
    prefix: Seq<char>,
    over: Seq<char>,
    length: Option<String>,
) -> Result<(), Seq<char>> {
    if filled(length) {
        length_told(rd, prefix, Some(over), length->0@, trimmed(length->0@))
    } else {
        Ok(())
    }
}

/// Checks an optional datagram length.
pub fn check_opt_length(
    rd: &Readings,
    prefix: &str,
    over: &str,
    length: &Option<String>,
) -> (r: Result<(), String>)
    ensures
        told(r) == opt_length_told(*rd, prefix@, over@, *length),
{
    match length {
        Some(s) => {
            let text = trim(s.as_str());
            if text.is_empty() {
                Ok(())
            } else {
                let complaint = Some(owned(over));
                check_length(rd, prefix, &complaint, s.as_str(), text)
            }
        },
        None => Ok(()),
    }
}

/// The first complaint about the complete profiles of a TCP recipe from index `i` on.
pub open spec fn tcp_profiles_told(rd: Readings, recipe: UiRecipe, i: int) -> Result<(), Seq<char>>
    decreases recipe.profiles@.len() - i,
{
    if i < 0 || i >= recipe.profiles@.len() {
        Ok(())
    } else {
        let profile = recipe.profiles@[i];
        match opt_window_told(
            rd,
            "TCP 配置 "@ + recipe.id@ + " 的 profile -w "@,
            profile.window,
        ) {
            Err(e) => Err(e),
            Ok(_) => if !streams_fit(profile_streams(profile.tcp_streams, profile.streams)) {
                Err("TCP 配置 "@ + recipe.id@ + " 的 -P 必须在 1..=32 之间"@)
            } else {
                tcp_profiles_told(rd, recipe, i + 1)
            },
        }
    }
}

/// Checks the complete profiles of a TCP recipe.
pub fn check_tcp_profiles(rd: &Readings, recipe: &UiRecipe) -> (r: Result<(), String>)
    ensures
        told(r) == tcp_profiles_told(*rd, *recipe, 0),
{
    let prefix = cat3("TCP 配置 ", recipe.id.as_str(), " 的 profile -w ");
    let mut i: usize = 0;
    while i < recipe.profiles.len()
        invariant
            i <= recipe.profiles@.len(),
            prefix@ == "TCP 配置 "@ + recipe.id@ + " 的 profile -w "@,
            tcp_profiles_told(*rd, *recipe, 0) == tcp_profiles_told(*rd, *recipe, i as int),
        decreases recipe.profiles@.len() - i,
    {
        let profile = &recipe.profiles[i];
        if let Err(e) = check_opt_window(rd, prefix.as_str(), &profile.window) {
            return Err(e);
        }
        if !do_streams_fit(&streams_of_profile(&profile.tcp_streams, &profile.streams)) {
            return Err(cat3("TCP 配置 ", recipe.id.as_str(), " 的 -P 必须在 1..=32 之间"));
        }
        i += 1;
    }
    Ok(())
}

/// The first complaint about a TCP recipe.
pub open spec fn tcp_recipe_told(rd: Readings, recipe: UiRecipe) -> Result<(), Seq<char>> {
    let prefix = "TCP 配置 "@ + recipe.id@ + " 的 -w "@;
    match windows_told(rd, texts(recipe.tcp_windows@), prefix, 0) {
        Err(e) => Err(e),
        Ok(_) => match windows_told(rd, texts(recipe.windows@), prefix, 0) {
            Err(e) => Err(e),
            Ok(_) => match tcp_profiles_told(rd, recipe, 0) {
                Err(e) => Err(e),
                Ok(_) => if !streams_fit(recipe.tcp_streams@) {
                    Err("TCP 配置 "@ + recipe.id@ + " 的 -P 必须在 1..=32 之间"@)
                } else {
                    Ok(())
                },
            },
        },
    }
}

/// Checks a TCP recipe.
pub fn check_tcp_recipe(rd: &Readings, recipe: &UiRecipe) -> (r: Result<(), String>)
    ensures
        told(r) == tcp_recipe_told(*rd, *recipe),
{
    let prefix = cat3("TCP 配置 ", recipe.id.as_str(), " 的 -w ");
    if let Err(e) = check_windows(rd, &recipe.tcp_windows, prefix.as_str()) {
        return Err(e);
    }
    if let Err(e) = check_windows(rd, &recipe.windows, prefix.as_str()) {
        return Err(e);
    }
    if let Err(e) = check_tcp_profiles(rd, recipe) {
        return Err(e);
    }
    if !do_streams_fit(&recipe.tcp_streams) {
        return Err(cat3("TCP 配置 ", recipe.id.as_str(), " 的 -P 必须在 1..=32 之间"));
    }
    Ok(())
}

/// The complaint about the length and the window of a UDP profile of a recipe.
pub open spec fn udp_shape_told(
    rd: Readings,
    recipe: UiRecipe,
    length: Option<String>,
    window: Option<String>,
) -> Result<(), Seq<char>> {
    let label = "UDP 配置 "@ + recipe.id@;
    match opt_length_told(
        rd,
        label + " 的 profile -l "@,
        label + " 的 profile -l 超过 65507 字节"@,
        length,
    ) {
        Err(e) => Err(e),
        Ok(_) => opt_window_told(rd, label + " 的 profile -w "@, window),
    }
}

/// Checks the length and the window of a UDP profile of a recipe.
pub fn check_udp_shape(
    rd: &Readings,
    recipe: &UiRecipe,
    length: &Option<String>,
    window: &Option<String>,
) -> (r: Result<(), String>)
    ensures
        told(r) == udp_shape_told(*rd, *recipe, *length, *window),
{
    let length_prefix = cat3("UDP 配置 ", recipe.id.as_str(), " 的 profile -l ");
    let over = cat3("UDP 配置 ", recipe.id.as_str(), " 的 profile -l 超过 65507 字节");
    if let Err(e) = check_opt_length(rd, length_prefix.as_str(), over.as_str(), length) {
        return Err(e);
    }
    let window_prefix = cat3("UDP 配置 ", recipe.id.as_str(), " 的 profile -w ");
    check_opt_window(rd, window_prefix.as_str(), window)
}

/// The first complaint about the complete profiles of a UDP recipe from index `i` on.
pub open spec fn udp_profiles_told(rd: Readings, recipe: UiRecipe, i: int) -> Result<(), Seq<char>>
    decreases recipe.profiles@.len() - i,
{
    if i < 0 || i >= recipe.profiles@.len() {
        Ok(())
    } else {
        let profile = recipe.profiles@[i];
        let label = "UDP 配置 "@ + recipe.id@;
        let bandwidth = if filled(profile.bandwidth) {
            bandwidth_told(rd, trimmed(profile.bandwidth->0@), label)
        } else {
            Ok(())
        };
        match bandwidth {
            Err(e) => Err(e),
            Ok(_) => match udp_shape_told(rd, recipe, profile.length, profile.window) {
                Err(e) => Err(e),
                Ok(_) => if !streams_fit(profile_streams(profile.udp_streams, profile.streams)) {
                    Err(label + " 的流数必须在 1..=32 之间"@)
                } else {
                    udp_profiles_told(rd, recipe, i + 1)
                },
            },
        }
    }
}

/// Checks the complete profiles of a UDP recipe.
pub fn check_udp_profiles(rd: &Readings, recipe: &UiRecipe) -> (r: Result<(), String>)
    ensures
        told(r) == udp_profiles_told(*rd, *recipe, 0),
{
    let label = cat2("UDP 配置 ", recipe.id.as_str());
    let mut i: usize = 0;
    while i < recipe.profiles.len()
        invariant
            i <= recipe.profiles@.len(),
            label@ == "UDP 配置 "@ + recipe.id@,
            udp_profiles_told(*rd, *recipe, 0) == udp_profiles_told(*rd, *recipe, i as int),
        decreases recipe.profiles@.len() - i,
    {
        let profile = &recipe.profiles[i];
        if let Some(bandwidth) = &profile.bandwidth {
            let text = trim(bandwidth.as_str());
            if !text.is_empty() {
                if let Err(e) = check_udp_bandwidth(rd, text, label.as_str()) {
                    return Err(e);
                }
            }
        }
        if let Err(e) = check_udp_shape(rd, recipe, &profile.length, &profile.window) {
            return Err(e);
        }
        if !do_streams_fit(&streams_of_profile(&profile.udp_streams, &profile.streams)) {
            return Err(cat2(label.as_str(), " 的流数必须在 1..=32 之间"));
        }
        i += 1;
    }
    Ok(())
}

/// The first complaint about the plain UDP profiles of a recipe from index `i` on.
pub open spec fn plain_profiles_told(rd: Readings, recipe: UiRecipe, i: int) -> Result<
    (),
    Seq<char>,
>
    decreases recipe.udp_profiles@.len() - i,
{
    if i < 0 || i >= recipe.udp_profiles@.len() {
        Ok(())
    } else {
        let profile = recipe.udp_profiles@[i];
        match bandwidth_told(rd, trimmed(profile.bandwidth@), "UDP 配置 "@ + recipe.id@) {
            Err(e) => Err(e),
            Ok(_) => match udp_shape_told(rd, recipe, profile.length, profile.window) {
                Err(e) => Err(e),
                Ok(_) => plain_profiles_told(rd, recipe, i + 1),
            },
        }
    }
}

/// Checks the plain UDP profiles of a recipe.
pub fn check_plain_profiles(rd: &Readings, recipe: &UiRecipe) -> (r: Result<(), String>)
    ensures
        told(r) == plain_profiles_told(*rd, *recipe, 0),
{
    let label = cat2("UDP 配置 ", recipe.id.as_str());
    let mut i: usize = 0;
    while i < recipe.udp_profiles.len()
        invariant
            i <= recipe.udp_profiles@.len(),
            label@ == "UDP 配置 "@ + recipe.id@,
            plain_profiles_told(*rd, *recipe, 0) == plain_profiles_told(*rd, *recipe, i as int),
        decreases recipe.udp_profiles@.len() - i,
    {
        let profile = &recipe.udp_profiles[i];
        if let Err(e) = check_udp_bandwidth(rd, trim(profile.bandwidth.as_str()), label.as_str()) {
            return Err(e);
        }
        if let Err(e) = check_udp_shape(rd, recipe, &profile.length, &profile.window) {
            return Err(e);
        }
        i += 1;
    }
    Ok(())
}

/// Whether a list holds a text that is not blank.
pub open spec fn any_filled(list: Seq<String>) -> bool {
    exists|i: int| 0 <= i < list.len() && !blank((#[trigger] list[i])@)
}

/// Whether a list holds a text that is not blank.
pub fn has_filled(list: &Vec<String>) -> (r: bool)
    ensures
        r == any_filled(list@),
{
    let mut i: usize = 0;
    while i < list.len()
        invariant
            i <= list@.len(),
            forall|k: int| 0 <= k < i ==> blank((#[trigger] list@[k])@),
        decreases list@.len() - i,
    {
        if !is_blank(list[i].as_str()) {
            return true;
        }
        i += 1;
    }
    false
}

/// Whether a UDP recipe gives a bandwidth to run with.
pub open spec fn gives_bandwidth(recipe: UiRecipe) -> bool {
    if recipe.udp_profiles@.len() > 0 {
        exists|i: int|
            0 <= i < recipe.udp_profiles@.len() && !blank(
                (#[trigger] recipe.udp_profiles@[i]).bandwidth@,
            )
    } else if recipe.profiles@.len() > 0 {
        any_filled(recipe.bandwidths@) || exists|i: int|
            0 <= i < recipe.profiles@.len() && filled((#[trigger] recipe.profiles@[i]).bandwidth)
    } else {
        any_filled(recipe.bandwidths@)
    }
}

/// Whether a UDP recipe gives a bandwidth to run with.
pub fn does_give_bandwidth(recipe: &UiRecipe) -> (r: bool)
    ensures
        r == gives_bandwidth(*recipe),
{
    if recipe.udp_profiles.len() > 0 {
        let mut i: usize = 0;
        while i < recipe.udp_profiles.len()
            invariant
                i <= recipe.udp_profiles@.len(),
                recipe.udp_profiles@.len() > 0,
                forall|k: int|
                    0 <= k < i ==> blank((#[trigger] recipe.udp_profiles@[k]).bandwidth@),
            decreases recipe.udp_profiles@.len() - i,
        {
            if !is_blank(recipe.udp_profiles[i].bandwidth.as_str()) {
                return true;
            }
            i += 1;
        }
        return false;
    }
    if has_filled(&recipe.bandwidths) {
        return true;
    }
    let mut i: usize = 0;
    while i < recipe.profiles.len()
        invariant
            i <= recipe.profiles@.len(),
            recipe.udp_profiles@.len() == 0,
            !any_filled(recipe.bandwidths@),
            forall|k: int| 0 <= k < i ==> !filled((#[trigger] recipe.profiles@[k]).bandwidth),
        decreases recipe.profiles@.len() - i,
    {
        if is_filled(&recipe.profiles[i].bandwidth) {
            return true;
        }
        i += 1;
    }
    false
}

/// Whether a UDP recipe says anything of its own.
pub open spec fn configured(recipe: UiRecipe) -> bool {
    recipe.udp_profiles@.len() > 0 || recipe.profiles@.len() > 0 || recipe.bandwidths@.len() > 0
        || recipe.lengths@.len() > 0 || recipe.windows@.len() > 0 || recipe.udp_streams@.len() > 0
}

/// The first complaint about a UDP recipe.
pub open spec fn udp_recipe_told(rd: Readings, recipe: UiRecipe) -> Result<(), Seq<char>> {
    let label = "UDP 配置 "@ + recipe.id@;
    match bandwidths_told(rd, texts(recipe.bandwidths@), label, 0) {
        Err(e) => Err(e),
        Ok(_) => match lengths_told(
            rd,
            texts(recipe.lengths@),
            label + " 的 -l "@,
            Some(label + " 的 -l 超过 65507 字节"@),
            0,
        ) {
            Err(e) => Err(e),
            Ok(_) => match windows_told(rd, texts(recipe.windows@), label + " 的 -w "@, 0) {
                Err(e) => Err(e),
                Ok(_) => match udp_profiles_told(rd, recipe, 0) {
                    Err(e) => Err(e),
                    Ok(_) => if !streams_fit(recipe.udp_streams@) {
                        Err(label + " 的流数必须在 1..=32 之间"@)
                    } else {
                        match plain_profiles_told(rd, recipe, 0) {
                            Err(e) => Err(e),
                            Ok(_) => if configured(recipe) && !gives_bandwidth(recipe) {
                                Err(label + " 没有有效的 -b 档位，无法生成测试单元"@)
                            } else {
                                Ok(())
                            },
                        }
                    },
                },
            },
        },
    }
}

/// Checks a UDP recipe.
pub fn check_udp_recipe(rd: &Readings, recipe: &UiRecipe) -> (r: Result<(), String>)
    ensures
        told(r) == udp_recipe_told(*rd, *recipe),
{
    let label = cat2("UDP 配置 ", recipe.id.as_str());
    if let Err(e) = check_bandwidths(rd, &recipe.bandwidths, label.as_str()) {
        return Err(e);
    }
    let length_prefix = cat2(label.as_str(), " 的 -l ");
    let over = Some(cat2(label.as_str(), " 的 -l 超过 65507 字节"));
    if let Err(e) = check_lengths(rd, &recipe.lengths, length_prefix.as_str(), &over) {
        return Err(e);
    }
    let window_prefix = cat2(label.as_str(), " 的 -w ");
    if let Err(e) = check_windows(rd, &recipe.windows, window_prefix.as_str()) {
        return Err(e);
    }
    if let Err(e) = check_udp_profiles(rd, recipe) {
        return Err(e);
    }
    if !do_streams_fit(&recipe.udp_streams) {
        return Err(cat2(label.as_str(), " 的流数必须在 1..=32 之间"));
    }
    if let Err(e) = check_plain_profiles(rd, recipe) {
        return Err(e);
    }
    let says_something = recipe.udp_profiles.len() > 0 || recipe.profiles.len() > 0
        || recipe.bandwidths.len() > 0 || recipe.lengths.len() > 0 || recipe.windows.len() > 0
        || recipe.udp_streams.len() > 0;
    if says_something && !does_give_bandwidth(recipe) {
        return Err(cat2(label.as_str(), " 没有有效的 -b 档位，无法生成测试单元"));
    }
    Ok(())
}

/// The first complaint about a recipe; `index` counts from zero.
pub open spec fn recipe_told(
    rd: Readings,
    protocol: Seq<char>,
    recipe: UiRecipe,
    index: nat,
) -> Result<(), Seq<char>> {
    if blank(recipe.id@) {
        Err(protocol + " 配置 "@ + decimal(index + 1) + " 缺少稳定 id"@)
    } else if !blank(recipe.mode@) {
        Err(
            protocol + " 配置 "@ + recipe.id@ + " 的 mode 字段已废弃（当前值 "@ + debug_text(
                trimmed(recipe.mode@),
            )
                + "）：档位由轴的取值个数决定，单值就是钉死、多值就是扫描，mode 从来没有被计划编译器读过。把这一行从项目文件里删掉即可。"@,
        )
    } else if protocol == "tcp"@ {
        tcp_recipe_told(rd, recipe)
    } else if protocol == "udp"@ {
        udp_recipe_told(rd, recipe)
    } else {
        Ok(())
    }
}

/// Checks a recipe; `index` counts from zero.
pub fn validate_ui_recipe(rd: &Readings, protocol: &str, recipe: &UiRecipe, index: usize) -> (r:
    Result<(), String>)
    requires
        index < usize::MAX,
    ensures
        told(r) == recipe_told(*rd, protocol@, *recipe, index as nat),
{
    if is_blank(recipe.id.as_str()) {
        let number = decimal_text((index + 1) as u64);
        return Err(cat4(protocol, " 配置 ", number.as_str(), " 缺少稳定 id"));
    }
    let mode = trim(recipe.mode.as_str());
    if !mode.is_empty() {
        let shown = quoted(mode);
        return Err(
            cat6(
                protocol,
                " 配置 ",
                recipe.id.as_str(),
                " 的 mode 字段已废弃（当前值 ",
                shown.as_str(),
                "）：档位由轴的取值个数决定，单值就是钉死、多值就是扫描，mode 从来没有被计划编译器读过。把这一行从项目文件里删掉即可。",
            ),
        );
    }
    if same(protocol, "tcp") {
        check_tcp_recipe(rd, recipe)
    } else if same(protocol, "udp") {
        check_udp_recipe(rd, recipe)
    } else {
        Ok(())
    }
}

/// The ids of a list of recipes.
pub open spec fn recipe_ids(recipes: Seq<UiRecipe>) -> Seq<Seq<char>> {
    Seq::new(recipes.len(), |i: int| recipes[i].id@)
}

/// The first complaint about recipes of one protocol from index `i` on. No id may occur in
/// `before` or earlier in the list.
pub open spec fn recipes_told(
    rd: Readings,
    protocol: Seq<char>,
    recipes: Seq<UiRecipe>,
    before: Seq<Seq<char>>,
    i: int,
) -> Result<(), Seq<char>>
    decreases recipes.len() - i,
{
    if i < 0 || i >= recipes.len() {
        Ok(())
    } else if blank(recipes[i].id@) || (before + recipe_ids(recipes).take(i)).contains(
        recipes[i].id@,
    ) {
        Err(protocol + " 配置 id 缺失或重复："@ + recipes[i].id@)
    } else {
        match recipe_told(rd, protocol, recipes[i], i as nat) {
            Err(e) => Err(e),
            Ok(_) => recipes_told(rd, protocol, recipes, before, i + 1),
        }
    }
}

/// Checks the recipes of one protocol; `seen` gathers the ids.
pub fn check_recipes(
    rd: &Readings,
    protocol: &str,
    recipes: &Vec<UiRecipe>,
    seen: &mut Vec<String>,
) -> (r: Result<(), String>)
    ensures
        told(r) == recipes_told(*rd, protocol@, recipes@, texts(old(seen)@), 0),
        r is Ok ==> texts(final(seen)@) == texts(old(seen)@) + recipe_ids(recipes@),
{
    broadcast use group_views;

    let ghost before = texts(seen@);
    let mut i: usize = 0;
    assert(before + recipe_ids(recipes@).take(0) =~= before);
    while i < recipes.len()
        invariant
            i <= recipes@.len(),
            before == texts(old(seen)@),
            texts(seen@) == before + recipe_ids(recipes@).take(i as int),
            recipes_told(*rd, protocol@, recipes@, before, 0) == recipes_told(
                *rd,
                protocol@,
                recipes@,
                before,
                i as int,
            ),
        decreases recipes@.len() - i,
    {
        let id = recipes[i].id.as_str();
        if is_blank(id) || lists(seen, id) {
            return Err(cat3(protocol, " 配置 id 缺失或重复：", id));
        }
        seen.push(owned(id));
        assert((before + recipe_ids(recipes@).take(i as int)).push(id@) =~= before + recipe_ids(
            recipes@,
        ).take(i + 1));
        if let Err(e) = validate_ui_recipe(rd, protocol, &recipes[i], i) {
            return Err(e);
        }
        i += 1;
    }
    assert(recipe_ids(recipes@).take(i as int) =~= recipe_ids(recipes@));
    Ok(())
}

// ---------------------------------------------------------------------------
// Thresholds of tasks
// ---------------------------------------------------------------------------

/// The complaint about one threshold of a task.
pub open spec fn rate_target_told(label: Seq<char>, direction: Seq<char>, value: Option<Double>) -> Result<
    (),
    Seq<char>,
> {
    if value is Some && !value->0.usable() {
        Err(label + " 的 "@ + direction + " 目标必须是大于 0 的有限 Mbps"@)
    } else {
        Ok(())
    }
}

/// The first complaint about the thresholds of a task.
pub open spec fn rate_targets_told(label: Seq<char>, targets: RateTargets) -> Result<
    (),
    Seq<char>,
> {
    match rate_target_told(label, "forward"@, targets.forward) {
        Err(e) => Err(e),
        Ok(_) => match rate_target_told(label, "ab"@, targets.ab) {
            Err(e) => Err(e),
            Ok(_) => rate_target_told(label, "ba"@, targets.ba),
        },
    }
}

/// Checks one threshold of a task.
pub fn check_rate_target(label: &str, direction: &str, value: Option<Double>) -> (r: Result<
    (),
    String,
>)
    ensures
        told(r) == rate_target_told(label@, direction@, value),
{
    match value {
        Some(x) => if !x.is_usable() {
            Err(cat4(label, " 的 ", direction, " 目标必须是大于 0 的有限 Mbps"))
        } else {
            Ok(())
        },
        None => Ok(()),
    }
}

/// Checks the thresholds of a task: a value that is given must be one to hold a rate to.
pub fn validate_ui_rate_targets(label: &str, targets: &RateTargets) -> (r: Result<(), String>)
    ensures
        told(r) == rate_targets_told(label@, *targets),
{
    if let Err(e) = check_rate_target(label, "forward", targets.forward) {
        return Err(e);
    }
    if let Err(e) = check_rate_target(label, "ab", targets.ab) {
        return Err(e);
    }
    check_rate_target(label, "ba", targets.ba)
}

// ---------------------------------------------------------------------------
// Tasks and suites
// ---------------------------------------------------------------------------

/// How a message starts that is about a task.
pub open spec fn task_label(suite: UiSuite, task: UiTask) -> Seq<char> {
    "suite "@ + suite.id@ + " 的 task "@ + task.id@
}

/// How a message starts that is about a task.
pub fn label_of_task(suite: &UiSuite, task: &UiTask) -> (r: String)
    ensures
        r@ == task_label(*suite, *task),
{
    cat4("suite ", suite.id.as_str(), " 的 task ", task.id.as_str())
}

/// Whether every transport is blank or the protocol itself.
pub open spec fn transports_agree(transports: Seq<String>, protocol: Seq<char>) -> bool {
    forall|i: int|
        0 <= i < transports.len() ==> blank((#[trigger] transports[i])@) || lowered(
            trimmed(transports[i]@),
        ) == protocol
}

/// Whether every transport is blank or the protocol itself.
pub fn do_transports_agree(transports: &Vec<String>, protocol: &str) -> (r: bool)
    ensures
        r == transports_agree(transports@, protocol@),
{
    let mut i: usize = 0;
    while i < transports.len()
        invariant
            i <= transports@.len(),
            forall|k: int|
                0 <= k < i ==> blank((#[trigger] transports@[k])@) || lowered(
                    trimmed(transports@[k]@),
                ) == protocol@,
        decreases transports@.len() - i,
    {
        let text = trim(transports[i].as_str());
        let lower = ascii_lower(text);
        if !text.is_empty() && !same(lower.as_str(), protocol) {
            return false;
        }
        i += 1;
    }
    true
}

/// Whether there are directions and each can be read.
pub open spec fn directions_read(directions: Seq<String>) -> bool {
    directions.len() > 0 && forall|i: int|
        0 <= i < directions.len() ==> direction_of((#[trigger] directions[i])@) is Some
}

/// Whether there are directions and each can be read.
pub fn do_directions_read(directions: &Vec<String>) -> (r: bool)
    ensures
        r == directions_read(directions@),
{
    let mut i: usize = 0;
    while i < directions.len()
        invariant
            i <= directions@.len(),
            forall|k: int| 0 <= k < i ==> direction_of((#[trigger] directions@[k])@) is Some,
        decreases directions@.len() - i,
    {
        if canonical_ui_direction(directions[i].as_str()).is_none() {
            return false;
        }
        i += 1;
    }
    directions.len() > 0
}

/// Whether there are IP versions and each can be read.
pub open spec fn versions_read(versions: Seq<String>) -> bool {
    versions.len() > 0 && forall|i: int|
        0 <= i < versions.len() ==> ip_of((#[trigger] versions[i])@) is Some
}

/// Whether there are IP versions and each can be read.
pub fn do_versions_read(versions: &Vec<String>) -> (r: bool)
    ensures
        r == versions_read(versions@),
{
    let mut i: usize = 0;
    while i < versions.len()
        invariant
            i <= versions@.len(),
            forall|k: int| 0 <= k < i ==> ip_of((#[trigger] versions@[k])@) is Some,
        decreases versions@.len() - i,
    {
        if canonical_ui_ip(versions[i].as_str()).is_none() {
            return false;
        }
        i += 1;
    }
    versions.len() > 0
}

/// Whether both directions are to run at once.
pub open spec fn wants_bidir(directions: Seq<String>) -> bool {
    exists|i: int|
        0 <= i < directions.len() && direction_of((#[trigger] directions[i])@) == Some("bidir"@)
}

/// Whether both directions are to run at once.
pub fn does_want_bidir(directions: &Vec<String>) -> (r: bool)
    ensures
        r == wants_bidir(directions@),
{
    let mut i: usize = 0;
    while i < directions.len()
        invariant
            i <= directions@.len(),
            forall|k: int|
                0 <= k < i ==> direction_of((#[trigger] directions@[k])@) != Some("bidir"@),
        decreases directions@.len() - i,
    {
        if let Some(direction) = canonical_ui_direction(directions[i].as_str()) {
            if same(direction, "bidir") {
                return true;
            }
        }
        i += 1;
    }
    false
}

/// The recipes that tasks of a protocol refer to.
pub open spec fn recipes_for(plan: UiPlan, protocol: Seq<char>) -> Seq<UiRecipe> {
    if protocol == "tcp"@ {
        plan.recipes.tcp@
    } else if protocol == "udp"@ {
        plan.recipes.udp@
    } else {
        plan.recipes.ping@
    }
}

/// Whether a recipe with that id is in the list.
pub fn has_recipe(recipes: &Vec<UiRecipe>, id: &str) -> (r: bool)
    ensures
        r == recipe_ids(recipes@).contains(id@),
{
    let mut i: usize = 0;
    while i < recipes.len()
        invariant
            i <= recipes@.len(),
            forall|k: int| 0 <= k < i ==> recipe_ids(recipes@)[k] != id@,
        decreases recipes@.len() - i,
    {
        if same(recipes[i].id.as_str(), id) {
            assert(recipe_ids(recipes@)[i as int] == id@);
            return true;
        }
        i += 1;
    }
    false
}

/// The first complaint about the recipes that a task refers to, from index `i` on.
pub open spec fn recipe_refs_told(
    recipes: Seq<UiRecipe>,
    label: Seq<char>,
    protocol: Seq<char>,
    refs: Seq<Seq<char>>,
    i: int,
) -> Result<(), Seq<char>>
    decreases refs.len() - i,
{
    if i < 0 || i >= refs.len() {
        Ok(())
    } else if refs.take(i).contains(refs[i]) {
        Err(label + " 重复引用 "@ + protocol + " 配置 "@ + refs[i])
    } else if !recipe_ids(recipes).contains(refs[i]) {
        Err(label + " 引用了不存在的 "@ + protocol + " 配置 "@ + refs[i])
    } else {
        recipe_refs_told(recipes, label, protocol, refs, i + 1)
    }
}

/// Whether the `i`th text of a list occurs before it.
pub fn repeats_at(list: &Vec<String>, i: usize) -> (r: bool)
    requires
        i < list@.len(),
    ensures
        r == texts(list@).take(i as int).contains(list@[i as int]@),
{
    let mut j: usize = 0;
    while j < i
        invariant
            j <= i < list@.len(),
            forall|k: int| 0 <= k < j ==> list@[k]@ != list@[i as int]@,
        decreases i - j,
    {
        if same(list[j].as_str(), list[i].as_str()) {
            assert(texts(list@).take(i as int)[j as int] == list@[i as int]@);
            return true;
        }
        j += 1;
    }
    assert forall|k: int| 0 <= k < i implies texts(list@).take(i as int)[k] != list@[i as int]@ by {
        assert(texts(list@).take(i as int)[k] == list@[k]@);
    }
    false
}

/// Checks the recipes that a task refers to.
pub fn check_recipe_refs(
    recipes: &Vec<UiRecipe>,
    label: &str,
    protocol: &str,
    refs: &Vec<String>,
) -> (r: Result<(), String>)
    ensures
        told(r) == recipe_refs_told(recipes@, label@, protocol@, texts(refs@), 0),
{
    let mut i: usize = 0;
    while i < refs.len()
        invariant
            i <= refs@.len(),
            recipe_refs_told(recipes@, label@, protocol@, texts(refs@), 0) == recipe_refs_told(
                recipes@,
                label@,
                protocol@,
                texts(refs@),
                i as int,
            ),
        decreases refs@.len() - i,
    {
        assert(texts(refs@)[i as int] == refs@[i as int]@);
        let id = refs[i].as_str();
        if repeats_at(refs, i) {
            return Err(cat5(label, " 重复引用 ", protocol, " 配置 ", id));
        }
        if !has_recipe(recipes, id) {
            return Err(cat5(label, " 引用了不存在的 ", protocol, " 配置 ", id));
        }
        i += 1;
    }
    Ok(())
}

/// The complaint about one threshold of a task for both directions at once.
pub open spec fn task_threshold_told(
    rd: Readings,
    label: Seq<char>,
    directions: Seq<String>,
    which: Seq<char>,
    raw: Seq<char>,
) -> Result<(), Seq<char>> {
    if blank(raw) {
        Ok(())
    } else if !wants_bidir(directions) {
        Err(label + " 填了 "@ + which + " 双向门限但未选择双向"@)
    } else {
        match rx_target(rd, raw) {
            Err(e) => Err(e),
            Ok(Some(RxTarget::Percent(_))) => Err(label + " 双向门限只能填绝对 Mbps"@),
            Ok(_) => Ok(()),
        }
    }
}

/// Checks one threshold of a task for both directions at once.
pub fn check_task_threshold(
    rd: &Readings,
    label: &str,
    directions: &Vec<String>,
    which: &str,
    raw: &str,
) -> (r: Result<(), String>)
    ensures
        told(r) == task_threshold_told(*rd, label@, directions@, which@, raw@),
{
    if is_blank(raw) {
        return Ok(());
    }
    if !does_want_bidir(directions) {
        return Err(cat4(label, " 填了 ", which, " 双向门限但未选择双向"));
    }
    match parse_rx_target(rd, raw) {
        Err(e) => Err(e),
        Ok(Some(RxTarget::Percent(_))) => Err(cat2(label, " 双向门限只能填绝对 Mbps")),
        Ok(_) => Ok(()),
    }
}

/// Whether a payload size is too large for a ping.
pub open spec fn payload_too_large(sizes: Seq<u32>) -> bool {
    exists|i: int| 0 <= i < sizes.len() && #[trigger] sizes[i] > MAX_PAYLOAD
}

/// Whether a payload size is too large for a ping.
pub fn has_payload_too_large(sizes: &Vec<u32>) -> (r: bool)
    ensures
        r == payload_too_large(sizes@),
{
    let mut i: usize = 0;
    while i < sizes.len()
        invariant
            i <= sizes@.len(),
            forall|k: int| 0 <= k < i ==> #[trigger] sizes@[k] <= MAX_PAYLOAD,
        decreases sizes@.len() - i,
    {
        if sizes[i] > MAX_PAYLOAD {
            return true;
        }
        i += 1;
    }
    false
}

/// The first complaint about the numbers of a task: duration, rates, ping count and payloads.
pub open spec fn task_numbers_told(suite: UiSuite, task: UiTask, protocol: Seq<char>) -> Result<
    (),
    Seq<char>,
> {
    let label = task_label(suite, task);
    let targets = match task.rate_targets_mbps {
        Some(targets) => rate_targets_told(label + " rate_targets_mbps"@, targets),
        None => Ok(()),
    };
    if task.duration is Some && !(1 <= task.duration->0 <= 86_400) {
        Err(label + " 时长必须在 1..=86400 秒之间"@)
    } else {
        match targets {
            Err(e) => Err(e),
            Ok(_) => if protocol == "ping"@ && task.ping_count is Some && task.ping_count->0
                > 100_000 {
                Err("suite "@ + suite.id@ + " 的 ping 次数超过 100000"@)
            } else if task.ping_payload_sizes is Some && payload_too_large(
                task.ping_payload_sizes->0@,
            ) {
                Err("suite "@ + suite.id@ + " 的 ping 包长超过上限"@)
            } else if protocol == "ping"@ && task.ping_payload_sizes is Some
                && task.ping_payload_sizes->0@.len() == 0 {
                Err(label + " 至少需要一个 ping 包长"@)
            } else {
                Ok(())
            },
        }
    }
}

/// Checks the numbers of a task.
pub fn check_task_numbers(suite: &UiSuite, task: &UiTask, protocol: &str) -> (r: Result<
    (),
    String,
>)
    ensures
        told(r) == task_numbers_told(*suite, *task, protocol@),
{
    let label = label_of_task(suite, task);
    if let Some(duration) = task.duration {
        if duration < 1 || duration > 86_400 {
            return Err(cat2(label.as_str(), " 时长必须在 1..=86400 秒之间"));
        }
    }
    if let Some(targets) = &task.rate_targets_mbps {
        let name = cat2(label.as_str(), " rate_targets_mbps");
        if let Err(e) = validate_ui_rate_targets(name.as_str(), targets) {
            return Err(e);
        }
    }
    let ping = same(protocol, "ping");
    if let Some(count) = task.ping_count {
        if ping && count > 100_000 {
            return Err(cat3("suite ", suite.id.as_str(), " 的 ping 次数超过 100000"));
        }
    }
    if let Some(sizes) = &task.ping_payload_sizes {
        if has_payload_too_large(sizes) {
            return Err(cat3("suite ", suite.id.as_str(), " 的 ping 包长超过上限"));
        }
        if ping && sizes.len() == 0 {
            return Err(cat2(label.as_str(), " 至少需要一个 ping 包长"));
        }
    }
    Ok(())
}

/// The first complaint about the three thresholds of a task for both directions at once.
pub open spec fn task_thresholds_told(rd: Readings, suite: UiSuite, task: UiTask) -> Result<
    (),
    Seq<char>,
> {
    let label = task_label(suite, task);
    match task_threshold_told(rd, label, task.directions@, "A→B"@, task.rx_target_bidir_ab@) {
        Err(e) => Err(e),
        Ok(_) => match task_threshold_told(
            rd,
            label,
            task.directions@,
            "B→A"@,
            task.rx_target_bidir_ba@,
        ) {
            Err(e) => Err(e),
            Ok(_) => task_threshold_told(
                rd,
                label,
                task.directions@,
                "双向 RX 合计"@,
                task.rx_target_bidir_total@,
            ),
        },
    }
}

/// Checks the three thresholds of a task for both directions at once.
pub fn check_task_thresholds(rd: &Readings, suite: &UiSuite, task: &UiTask) -> (r: Result<
    (),
    String,
>)
    ensures
        told(r) == task_thresholds_told(*rd, *suite, *task),
{
    let label = label_of_task(suite, task);
    if let Err(e) = check_task_threshold(
        rd,
        label.as_str(),
        &task.directions,
        "A→B",
        task.rx_target_bidir_ab.as_str(),
    ) {
        return Err(e);
    }
    if let Err(e) = check_task_threshold(
        rd,
        label.as_str(),
        &task.directions,
        "B→A",
        task.rx_target_bidir_ba.as_str(),
    ) {
        return Err(e);
    }
    check_task_threshold(
        rd,
        label.as_str(),
        &task.directions,
        "双向 RX 合计",
        task.rx_target_bidir_total.as_str(),
    )
}

/// The first complaint about a task, its id apart.
pub open spec fn task_told(rd: Readings, plan: UiPlan, suite: UiSuite, task: UiTask) -> Result<
    (),
    Seq<char>,
> {
    let label = task_label(suite, task);
    match task_protocol(task) {
        None => Err(label + " 协议无效"@),
        Some(protocol) => if !transports_agree(task.transports@, protocol) {
            Err(label + " protocol 与 transports 不一致"@)
        } else if !directions_read(task.directions@) {
            Err(label + " 方向无效"@)
        } else if !versions_read(task.ip@) {
            Err(label + " IP 版本无效"@)
        } else if protocol == "ping"@ && task.recipe_ids@.len() > 0 {
            Err(label + " 暂不支持 PING 配置引用，请直接填写 ping 次数和包长"@)
        } else {
            match recipe_refs_told(
                recipes_for(plan, protocol),
                label,
                protocol,
                texts(task.recipe_ids@),
                0,
            ) {
                Err(e) => Err(e),
                Ok(_) => match task_numbers_told(suite, task, protocol) {
                    Err(e) => Err(e),
                    Ok(_) => task_thresholds_told(rd, suite, task),
                },
            }
        },
    }
}

/// Checks a task, its id apart.
pub fn check_task(rd: &Readings, plan: &UiPlan, suite: &UiSuite, task: &UiTask) -> (r: Result<
    (),
    String,
>)
    ensures
        told(r) == task_told(*rd, *plan, *suite, *task),
{
    let label = label_of_task(suite, task);
    let protocol = match ui_task_protocol(task) {
        Some(protocol) => protocol,
        None => {
            return Err(cat2(label.as_str(), " 协议无效"));
        },
    };
    if !do_transports_agree(&task.transports, protocol.as_str()) {
        return Err(cat2(label.as_str(), " protocol 与 transports 不一致"));
    }
    if !do_directions_read(&task.directions) {
        return Err(cat2(label.as_str(), " 方向无效"));
    }
    if !do_versions_read(&task.ip) {
        return Err(cat2(label.as_str(), " IP 版本无效"));
    }
    if same(protocol.as_str(), "ping") && task.recipe_ids.len() > 0 {
        return Err(
            cat2(
                label.as_str(),
                " 暂不支持 PING 配置引用，请直接填写 ping 次数和包长",
            ),
        );
    }
    let recipes = if same(protocol.as_str(), "tcp") {
        &plan.recipes.tcp
    } else if same(protocol.as_str(), "udp") {
        &plan.recipes.udp
    } else {
        &plan.recipes.ping
    };
    if let Err(e) = check_recipe_refs(recipes, label.as_str(), protocol.as_str(), &task.recipe_ids) {
        return Err(e);
    }
    if let Err(e) = check_task_numbers(suite, task, protocol.as_str()) {
        return Err(e);
    }
    check_task_thresholds(rd, suite, task)
}

/// The ids of a list of tasks.
pub open spec fn task_ids(tasks: Seq<UiTask>) -> Seq<Seq<char>> {
    Seq::new(tasks.len(), |i: int| tasks[i].id@)
}

/// The first complaint about the tasks of a suite from index `i` on.
pub open spec fn tasks_told(rd: Readings, plan: UiPlan, suite: UiSuite, i: int) -> Result<
    (),
    Seq<char>,
>
    decreases suite.tasks@.len() - i,
{
    if i < 0 || i >= suite.tasks@.len() {
        Ok(())
    } else {
        let task = suite.tasks@[i];
        if blank(task.id@) || task_ids(suite.tasks@).take(i).contains(task.id@) {
            Err("suite "@ + suite.id@ + " 的 task id 缺失或重复"@)
        } else {
            match task_told(rd, plan, suite, task) {
                Err(e) => Err(e),
                Ok(_) => tasks_told(rd, plan, suite, i + 1),
            }
        }
    }
}

/// Checks the tasks of a suite, and returns their ids.
pub fn check_tasks(rd: &Readings, plan: &UiPlan, suite: &UiSuite) -> (r: Result<
    Vec<String>,
    String,
>)
    ensures
        match r {
            Ok(ids) => tasks_told(*rd, *plan, *suite, 0) is Ok && texts(ids@) == task_ids(
                suite.tasks@,
            ),
            Err(e) => tasks_told(*rd, *plan, *suite, 0) == Err::<(), Seq<char>>(e@),
        },
{
    broadcast use group_views;

    let mut ids: Vec<String> = Vec::new();
    let mut i: usize = 0;
    while i < suite.tasks.len()
        invariant
            i <= suite.tasks@.len(),
            texts(ids@) == task_ids(suite.tasks@).take(i as int),
            tasks_told(*rd, *plan, *suite, 0) == tasks_told(*rd, *plan, *suite, i as int),
        decreases suite.tasks@.len() - i,
    {
        let task = &suite.tasks[i];
        if is_blank(task.id.as_str()) || lists(&ids, task.id.as_str()) {
            return Err(cat3("suite ", suite.id.as_str(), " 的 task id 缺失或重复"));
        }
        ids.push(owned(task.id.as_str()));
        assert(task_ids(suite.tasks@).take(i as int).push(task.id@) =~= task_ids(suite.tasks@).take(
            i + 1,
        ));
        if let Err(e) = check_task(rd, plan, suite, task) {
            return Err(e);
        }
        i += 1;
    }
    assert(task_ids(suite.tasks@).take(i as int) =~= task_ids(suite.tasks@));
    Ok(ids)
}

/// The first complaint about the order of a suite from index `i` on.
pub open spec fn order_told(suite: UiSuite, i: int) -> Result<(), Seq<char>>
    decreases suite.order@.len() - i,
{
    if i < 0 || i >= suite.order@.len() {
        Ok(())
    } else {
        let id = suite.order@[i]@;
        if !task_ids(suite.tasks@).contains(id) || texts(suite.order@).take(i).contains(id) {
            Err("suite "@ + suite.id@ + " 的 order 引用了无效或重复 task "@ + id)
        } else {
            order_told(suite, i + 1)
        }
    }
}

/// Checks the order of a suite whose task ids are `ids`.
pub fn check_order(suite: &UiSuite, ids: &Vec<String>) -> (r: Result<(), String>)
    requires
        texts(ids@) == task_ids(suite.tasks@),
    ensures
        told(r) == order_told(*suite, 0),
{
    let mut i: usize = 0;
    while i < suite.order.len()
        invariant
            i <= suite.order@.len(),
            texts(ids@) == task_ids(suite.tasks@),
            order_told(*suite, 0) == order_told(*suite, i as int),
        decreases suite.order@.len() - i,
    {
        let id = suite.order[i].as_str();
        if !lists(ids, id) || repeats_at(&suite.order, i) {
            return Err(
                cat4("suite ", suite.id.as_str(), " 的 order 引用了无效或重复 task ", id),
            );
        }
        i += 1;
    }
    Ok(())
}

/// The ids of a list of suites.
pub open spec fn suite_ids(suites: Seq<UiSuite>) -> Seq<Seq<char>> {
    Seq::new(suites.len(), |i: int| suites[i].id@)
}

/// The first complaint about the suites of a plan from index `i` on.
pub open spec fn suites_told(rd: Readings, plan: UiPlan, i: int) -> Result<(), Seq<char>>
    decreases plan.suites@.len() - i,
{
    if i < 0 || i >= plan.suites@.len() {
        Ok(())
    } else {
        let suite = plan.suites@[i];
        if blank(suite.id@) || suite_ids(plan.suites@).take(i).contains(suite.id@) {
            Err("suite id 缺失或重复："@ + suite.id@)
        } else if !blank(suite.execution@) && !alike(suite.execution@, "sequential"@) {
            Err("suite "@ + suite.id@ + " 只支持 execution=sequential"@)
        } else if suite.tasks@.len() == 0 {
            Err("suite "@ + suite.id@ + " 没有任务"@)
        } else {
            match tasks_told(rd, plan, suite, 0) {
                Err(e) => Err(e),
                Ok(_) => match order_told(suite, 0) {
                    Err(e) => Err(e),
                    Ok(_) => suites_told(rd, plan, i + 1),
                },
            }
        }
    }
}

/// Checks the suites of a plan, and returns their ids.
pub fn check_suites(rd: &Readings, plan: &UiPlan) -> (r: Result<Vec<String>, String>)
    ensures
        match r {
            Ok(ids) => suites_told(*rd, *plan, 0) is Ok && texts(ids@) == suite_ids(plan.suites@),
            Err(e) => suites_told(*rd, *plan, 0) == Err::<(), Seq<char>>(e@),
        },
{
    broadcast use group_views;

    let mut ids: Vec<String> = Vec::new();
    let mut i: usize = 0;
    while i < plan.suites.len()
        invariant
            i <= plan.suites@.len(),
            texts(ids@) == suite_ids(plan.suites@).take(i as int),
            suites_told(*rd, *plan, 0) == suites_told(*rd, *plan, i as int),
        decreases plan.suites@.len() - i,
    {
        let suite = &plan.suites[i];
        let id = suite.id.as_str();
        if is_blank(id) || lists(&ids, id) {
            return Err(cat2("suite id 缺失或重复：", id));
        }
        ids.push(owned(id));
        assert(suite_ids(plan.suites@).take(i as int).push(id@) =~= suite_ids(plan.suites@).take(
            i + 1,
        ));
        if !is_blank(suite.execution.as_str()) && !is_alike(
            suite.execution.as_str(),
            "sequential",
        ) {
            return Err(cat3("suite ", id, " 只支持 execution=sequential"));
        }
        if suite.tasks.len() == 0 {
            return Err(cat3("suite ", id, " 没有任务"));
        }
        match check_tasks(rd, plan, suite) {
            Err(e) => {
                return Err(e);
            },
            Ok(task_ids) => {
                if let Err(e) = check_order(suite, &task_ids) {
                    return Err(e);
                }
            },
        }
        i += 1;
    }
    assert(suite_ids(plan.suites@).take(i as int) =~= suite_ids(plan.suites@));
    Ok(ids)
}

// ---------------------------------------------------------------------------
// Link sets
// ---------------------------------------------------------------------------

/// Whether a binding runs a pair of a link set: all pairs of the set, or this one by its id.
pub open spec fn binds(binding: UiBinding, set_id: Seq<char>, pair_id: Seq<char>) -> bool {
    binding.link_set_id@ == set_id && (binding.pair_ids@.len() == 0 || texts(
        binding.pair_ids@,
    ).contains(pair_id))
}

/// Whether some binding runs a pair of a link set.
pub open spec fn referenced(plan: UiPlan, set_id: Seq<char>, pair_id: Seq<char>) -> bool {
    exists|i: int|
        0 <= i < plan.bindings@.len() && binds(#[trigger] plan.bindings@[i], set_id, pair_id)
}

/// Whether some binding runs a pair of a link set.
pub fn is_referenced(plan: &UiPlan, set_id: &str, pair_id: &str) -> (r: bool)
    ensures
        r == referenced(*plan, set_id@, pair_id@),
{
    let mut i: usize = 0;
    while i < plan.bindings.len()
        invariant
            i <= plan.bindings@.len(),
            forall|k: int| 0 <= k < i ==> !binds(#[trigger] plan.bindings@[k], set_id@, pair_id@),
        decreases plan.bindings@.len() - i,
    {
        let binding = &plan.bindings[i];
        if same(binding.link_set_id.as_str(), set_id) && (binding.pair_ids.len() == 0 || lists(
            &binding.pair_ids,
            pair_id,
        )) {
            return true;
        }
        i += 1;
    }
    false
}

/// The ids of a list of pairs.
pub open spec fn pair_ids(pairs: Seq<UiPairRef>) -> Seq<Seq<char>> {
    Seq::new(pairs.len(), |i: int| pairs[i].id@)
}

/// The key of the interface that an endpoint text resolves to.
pub open spec fn resolved_key(rd: Readings, endpoint: Seq<char>) -> Seq<char> {
    match reading(rd.endpoints@, endpoint) {
        Ok(end) => end.key_text(),
        Err(_) => Seq::empty(),
    }
}

/// Whether two pairs join the same two interfaces, in either order.
pub open spec fn same_link(rd: Readings, a: UiPairRef, b: UiPairRef) -> bool {
    let (a_src, a_dst) = (resolved_key(rd, a.src@), resolved_key(rd, a.dst@));
    let (b_src, b_dst) = (resolved_key(rd, b.src@), resolved_key(rd, b.dst@));
    (a_src == b_src && a_dst == b_dst) || (a_src == b_dst && a_dst == b_src)
}

/// Whether an earlier pair of the set that some binding runs joins the same two interfaces as the
/// `i`th.
pub open spec fn link_repeats(rd: Readings, plan: UiPlan, set: UiLinkSet, i: int) -> bool {
    exists|j: int|
        0 <= j < i && referenced(plan, set.id@, (#[trigger] set.pair_refs@[j]).id@) && same_link(
            rd,
            set.pair_refs@[j],
            set.pair_refs@[i],
        )
}

/// The key of the interface that an endpoint text resolves to.
pub fn key_of(rd: &Readings, endpoint: &str) -> (r: String)
    ensures
        r@ == resolved_key(*rd, endpoint@),
{
    match look_up(&rd.endpoints, endpoint) {
        Ok(end) => end.key(),
        Err(_) => String::new(),
    }
}

/// Whether an earlier pair of the set that some binding runs joins the same two interfaces as the
/// `i`th.
pub fn does_link_repeat(rd: &Readings, plan: &UiPlan, set: &UiLinkSet, i: usize) -> (r: bool)
    requires
        i < set.pair_refs@.len(),
    ensures
        r == link_repeats(*rd, *plan, *set, i as int),
{
    let src = key_of(rd, set.pair_refs[i].src.as_str());
    let dst = key_of(rd, set.pair_refs[i].dst.as_str());
    let mut j: usize = 0;
    while j < i
        invariant
            j <= i < set.pair_refs@.len(),
            src@ == resolved_key(*rd, set.pair_refs@[i as int].src@),
            dst@ == resolved_key(*rd, set.pair_refs@[i as int].dst@),
            forall|k: int|
                0 <= k < j ==> !(referenced(*plan, set.id@, (#[trigger] set.pair_refs@[k]).id@)
                    && same_link(*rd, set.pair_refs@[k], set.pair_refs@[i as int])),
        decreases i - j,
    {
        let pair = &set.pair_refs[j];
        if is_referenced(plan, set.id.as_str(), pair.id.as_str()) {
            let other_src = key_of(rd, pair.src.as_str());
            let other_dst = key_of(rd, pair.dst.as_str());
            if (same(other_src.as_str(), src.as_str()) && same(other_dst.as_str(), dst.as_str()))
                || (same(other_src.as_str(), dst.as_str()) && same(
                other_dst.as_str(),
                src.as_str(),
            )) {
                return true;
            }
        }
        j += 1;
    }
    false
}

/// How a message starts that is about the `i`th pair of a link set.
pub open spec fn pair_ref_label(set: UiLinkSet, i: int) -> Seq<char> {
    "link_set "@ + set.id@ + " 的 pair_ref "@ + decimal((i + 1) as nat)
}

/// The complaint about the `i`th pair of a set that some binding runs: whether its ends are there,
/// are two interfaces, and are not the ends of an earlier pair.
pub open spec fn pair_topology_told(
    state: UiState,
    rd: Readings,
    plan: UiPlan,
    set: UiLinkSet,
    i: int,
) -> Result<(), Seq<char>> {
    let pair = set.pair_refs@[i];
    let label = pair_ref_label(set, i);
    if !ui_endpoint_known(state, rd, pair.src@) || !ui_endpoint_known(state, rd, pair.dst@) {
        Err(label + " 已失效："@ + pair.src@ + " -> "@ + pair.dst@)
    } else {
        match (reading(rd.endpoints@, pair.src@), reading(rd.endpoints@, pair.dst@)) {
            (Err(e), _) => Err(label + " 源端点无效："@ + e),
            (_, Err(e)) => Err(label + " 目标端点无效："@ + e),
            (Ok(src), Ok(dst)) => if src.key_text() == dst.key_text() {
                Err(label + " 源和目标不能是同一块网口"@)
            } else if link_repeats(rd, plan, set, i) {
                Err(
                    "link_set "@ + set.id@ + " 包含重复的网口对："@ + pair.src@ + " -> "@
                        + pair.dst@,
                )
            } else {
                Ok(())
            },
        }
    }
}

/// Checks the ends of the `i`th pair of a set that some binding runs.
pub fn check_pair_topology(
    state: &UiState,
    rd: &Readings,
    plan: &UiPlan,
    set: &UiLinkSet,
    i: usize,
) -> (r: Result<(), String>)
    requires
        i < set.pair_refs.len(),
    ensures
        told(r) == pair_topology_told(*state, *rd, *plan, *set, i as int),
{
    let pair = &set.pair_refs[i];
    let number = decimal_text((i + 1) as u64);
    let label = cat4("link_set ", set.id.as_str(), " 的 pair_ref ", number.as_str());
    if !ui_endpoint_exists(state, rd, pair.src.as_str()) || !ui_endpoint_exists(
        state,
        rd,
        pair.dst.as_str(),
    ) {
        return Err(
            cat5(label.as_str(), " 已失效：", pair.src.as_str(), " -> ", pair.dst.as_str()),
        );
    }
    let src = match look_up(&rd.endpoints, pair.src.as_str()) {
        Ok(end) => end.key(),
        Err(e) => {
            return Err(cat3(label.as_str(), " 源端点无效：", e.as_str()));
        },
    };
    let dst = match look_up(&rd.endpoints, pair.dst.as_str()) {
        Ok(end) => end.key(),
        Err(e) => {
            return Err(cat3(label.as_str(), " 目标端点无效：", e.as_str()));
        },
    };
    if same(src.as_str(), dst.as_str()) {
        return Err(cat2(label.as_str(), " 源和目标不能是同一块网口"));
    }
    if does_link_repeat(rd, plan, set, i) {
        return Err(
            cat6(
                "link_set ",
                set.id.as_str(),
                " 包含重复的网口对：",
                pair.src.as_str(),
                " -> ",
                pair.dst.as_str(),
            ),
        );
    }
    Ok(())
}

/// The first complaint about the pairs of a link set from index `i` on. Pairs that no binding runs
/// need not be there.
pub open spec fn pair_refs_told(
    state: UiState,
    rd: Readings,
    plan: UiPlan,
    set: UiLinkSet,
    i: int,
) -> Result<(), Seq<char>>
    decreases set.pair_refs@.len() - i,
{
    if i < 0 || i >= set.pair_refs@.len() {
        Ok(())
    } else {
        let pair = set.pair_refs@[i];
        if blank(pair.id@) || pair_ids(set.pair_refs@).take(i).contains(pair.id@) {
            Err("link_set "@ + set.id@ + " 的 pair_ref id 缺失或重复"@)
        } else if blank(pair.src@) || blank(pair.dst@) || pair.src@ == pair.dst@ {
            Err(
                pair_ref_label(set, i) + " 端点为空或源目标相同："@ + pair.src@ + " -> "@
                    + pair.dst@,
            )
        } else if !referenced(plan, set.id@, pair.id@) {
            pair_refs_told(state, rd, plan, set, i + 1)
        } else {
            match pair_topology_told(state, rd, plan, set, i) {
                Err(e) => Err(e),
                Ok(_) => pair_refs_told(state, rd, plan, set, i + 1),
            }
        }
    }
}

/// Checks the pairs of a link set.
pub fn check_pair_refs(state: &UiState, rd: &Readings, plan: &UiPlan, set: &UiLinkSet) -> (r:
    Result<(), String>)
    ensures
        told(r) == pair_refs_told(*state, *rd, *plan, *set, 0),
{
    broadcast use group_views;

    let mut ids: Vec<String> = Vec::new();
    let mut i: usize = 0;
    while i < set.pair_refs.len()
        invariant
            i <= set.pair_refs@.len(),
            texts(ids@) == pair_ids(set.pair_refs@).take(i as int),
            pair_refs_told(*state, *rd, *plan, *set, 0) == pair_refs_told(
                *state,
                *rd,
                *plan,
                *set,
                i as int,
            ),
        decreases set.pair_refs@.len() - i,
    {
        let pair = &set.pair_refs[i];
        let id = pair.id.as_str();
        if is_blank(id) || lists(&ids, id) {
            return Err(cat3("link_set ", set.id.as_str(), " 的 pair_ref id 缺失或重复"));
        }
        ids.push(owned(id));
        assert(pair_ids(set.pair_refs@).take(i as int).push(id@) =~= pair_ids(set.pair_refs@).take(
            i + 1,
        ));
        if is_blank(pair.src.as_str()) || is_blank(pair.dst.as_str()) || same(
            pair.src.as_str(),
            pair.dst.as_str(),
        ) {
            let number = decimal_text((i + 1) as u64);
            return Err(
                cat8(
                    "link_set ",
                    set.id.as_str(),
                    " 的 pair_ref ",
                    number.as_str(),
                    " 端点为空或源目标相同：",
                    pair.src.as_str(),
                    " -> ",
                    pair.dst.as_str(),
                ),
            );
        }
        if is_referenced(plan, set.id.as_str(), id) {
            if let Err(e) = check_pair_topology(state, rd, plan, set, i) {
                return Err(e);
            }
        }
        i += 1;
    }
    Ok(())
}

/// The ids of a list of link sets.
pub open spec fn set_ids(sets: Seq<UiLinkSet>) -> Seq<Seq<char>> {
    Seq::new(sets.len(), |i: int| sets[i].id@)
}

/// The first complaint about the link sets of a plan from index `i` on.
pub open spec fn link_sets_told(state: UiState, rd: Readings, plan: UiPlan, i: int) -> Result<
    (),
    Seq<char>,
>
    decreases plan.link_sets@.len() - i,
{
    if i < 0 || i >= plan.link_sets@.len() {
        Ok(())
    } else {
        let set = plan.link_sets@[i];
        if blank(set.id@) || set_ids(plan.link_sets@).take(i).contains(set.id@) {
            Err("link_set "@ + decimal((i + 1) as nat) + " 的 id 缺失或重复"@)
        } else {
            match pair_refs_told(state, rd, plan, set, 0) {
                Err(e) => Err(e),
                Ok(_) => link_sets_told(state, rd, plan, i + 1),
            }
        }
    }
}

/// Checks the link sets of a plan.
pub fn check_link_sets(state: &UiState, rd: &Readings, plan: &UiPlan) -> (r: Result<(), String>)
    ensures
        told(r) == link_sets_told(*state, *rd, *plan, 0),
{
    broadcast use group_views;

    let mut ids: Vec<String> = Vec::new();
    let mut i: usize = 0;
    while i < plan.link_sets.len()
        invariant
            i <= plan.link_sets@.len(),
            texts(ids@) == set_ids(plan.link_sets@).take(i as int),
            link_sets_told(*state, *rd, *plan, 0) == link_sets_told(
                *state,
                *rd,
                *plan,
                i as int,
            ),
        decreases plan.link_sets@.len() - i,
    {
        let set = &plan.link_sets[i];
        let id = set.id.as_str();
        if is_blank(id) || lists(&ids, id) {
            let number = decimal_text((i + 1) as u64);
            return Err(cat3("link_set ", number.as_str(), " 的 id 缺失或重复"));
        }
        ids.push(owned(id));
        assert(set_ids(plan.link_sets@).take(i as int).push(id@) =~= set_ids(plan.link_sets@).take(
            i + 1,
        ));
        if let Err(e) = check_pair_refs(state, rd, plan, set) {
            return Err(e);
        }
        i += 1;
    }
    Ok(())
}

// ---------------------------------------------------------------------------
// Bindings
// ---------------------------------------------------------------------------

/// The index of the first link set with that id from `i` on; the length where there is none.
pub open spec fn set_index(sets: Seq<UiLinkSet>, id: Seq<char>, i: int) -> int
    decreases sets.len() - i,
{
    if i < 0 || i >= sets.len() {
        sets.len() as int
    } else if sets[i].id@ == id {
        i
    } else {
        set_index(sets, id, i + 1)
    }
}

/// The index of the first link set with that id; the length where there is none.
pub fn find_set(sets: &Vec<UiLinkSet>, id: &str) -> (r: usize)
    ensures
        r == set_index(sets@, id@, 0),
        r <= sets@.len(),
{
    let mut i: usize = 0;
    while i < sets.len()
        invariant
            i <= sets@.len(),
            set_index(sets@, id@, 0) == set_index(sets@, id@, i as int),
        decreases sets@.len() - i,
    {
        if same(sets[i].id.as_str(), id) {
            return i;
        }
        i += 1;
    }
    i
}

/// The index of the first suite with that id from `i` on; the length where there is none.
pub open spec fn suite_index(suites: Seq<UiSuite>, id: Seq<char>, i: int) -> int
    decreases suites.len() - i,
{
    if i < 0 || i >= suites.len() {
        suites.len() as int
    } else if suites[i].id@ == id {
        i
    } else {
        suite_index(suites, id, i + 1)
    }
}

/// The index of the first suite with that id; the length where there is none.
pub fn find_suite(suites: &Vec<UiSuite>, id: &str) -> (r: usize)
    ensures
        r == suite_index(suites@, id@, 0),
        r <= suites@.len(),
{
    let mut i: usize = 0;
    while i < suites.len()
        invariant
            i <= suites@.len(),
            suite_index(suites@, id@, 0) == suite_index(suites@, id@, i as int),
        decreases suites@.len() - i,
    {
        if same(suites[i].id.as_str(), id) {
            return i;
        }
        i += 1;
    }
    i
}

/// Whether a pair with that id is in the list.
pub fn has_pair(pairs: &Vec<UiPairRef>, id: &str) -> (r: bool)
    ensures
        r == pair_ids(pairs@).contains(id@),
{
    let mut i: usize = 0;
    while i < pairs.len()
        invariant
            i <= pairs@.len(),
            forall|k: int| 0 <= k < i ==> pair_ids(pairs@)[k] != id@,
        decreases pairs@.len() - i,
    {
        if same(pairs[i].id.as_str(), id) {
            assert(pair_ids(pairs@)[i as int] == id@);
            return true;
        }
        i += 1;
    }
    false
}

/// The first complaint about the pairs that a binding names from index `i` on.
pub open spec fn bound_pairs_told(binding: UiBinding, set: UiLinkSet, i: int) -> Result<
    (),
    Seq<char>,
>
    decreases binding.pair_ids@.len() - i,
{
    if i < 0 || i >= binding.pair_ids@.len() {
        Ok(())
    } else {
        let id = binding.pair_ids@[i]@;
        if texts(binding.pair_ids@).take(i).contains(id) {
            Err("binding "@ + binding.id@ + " 重复引用了 pair_ref "@ + id)
        } else if !pair_ids(set.pair_refs@).contains(id) {
            Err("binding "@ + binding.id@ + " 引用了不存在的 pair_ref "@ + id)
        } else {
            bound_pairs_told(binding, set, i + 1)
        }
    }
}

/// Checks the pairs that a binding names.
pub fn check_bound_pairs(binding: &UiBinding, set: &UiLinkSet) -> (r: Result<(), String>)
    ensures
        told(r) == bound_pairs_told(*binding, *set, 0),
{
    let mut i: usize = 0;
    while i < binding.pair_ids.len()
        invariant
            i <= binding.pair_ids@.len(),
            bound_pairs_told(*binding, *set, 0) == bound_pairs_told(*binding, *set, i as int),
        decreases binding.pair_ids@.len() - i,
    {
        let id = binding.pair_ids[i].as_str();
        if repeats_at(&binding.pair_ids, i) {
            return Err(cat4("binding ", binding.id.as_str(), " 重复引用了 pair_ref ", id));
        }
        if !has_pair(&set.pair_refs, id) {
            return Err(cat4("binding ", binding.id.as_str(), " 引用了不存在的 pair_ref ", id));
        }
        i += 1;
    }
    Ok(())
}

/// The complaint about one binding, its id apart.
pub open spec fn binding_told(plan: UiPlan, binding: UiBinding) -> Result<(), Seq<char>> {
    let at = set_index(plan.link_sets@, binding.link_set_id@, 0);
    let label = "binding "@ + binding.id@;
    if at >= plan.link_sets@.len() {
        Err(label + " 引用了不存在的 link_set "@ + binding.link_set_id@)
    } else if !suite_ids(plan.suites@).contains(binding.suite_id@) {
        Err(label + " 引用了不存在的 suite "@ + binding.suite_id@)
    } else if !blank(binding.mode@) && !alike(trimmed(binding.mode@), "replace"@) {
        Err(label + " 的 mode 只支持 replace（append 尚未支持）"@)
    } else {
        match bound_pairs_told(binding, plan.link_sets@[at], 0) {
            Err(e) => Err(e),
            Ok(_) => if binding.pair_ids@.len() == 0 && plan.link_sets@[at].pair_refs@.len() == 0 {
                Err(label + " 没有可执行的 pair_ref；请先为链路集合添加网口对"@)
            } else {
                Ok(())
            },
        }
    }
}

/// Checks one binding, its id apart; `known` holds the ids of the plan's suites.
pub fn check_binding(plan: &UiPlan, binding: &UiBinding, known: &Vec<String>) -> (r: Result<
    (),
    String,
>)
    requires
        texts(known@) == suite_ids(plan.suites@),
    ensures
        told(r) == binding_told(*plan, *binding),
{
    let label = cat2("binding ", binding.id.as_str());
    let at: usize = find_set(&plan.link_sets, binding.link_set_id.as_str());
    if at >= plan.link_sets.len() {
        return Err(
            cat3(label.as_str(), " 引用了不存在的 link_set ", binding.link_set_id.as_str()),
        );
    }
    if !lists(known, binding.suite_id.as_str()) {
        return Err(cat3(label.as_str(), " 引用了不存在的 suite ", binding.suite_id.as_str()));
    }
    let mode = trim(binding.mode.as_str());
    if !mode.is_empty() && !is_alike(mode, "replace") {
        return Err(cat2(label.as_str(), " 的 mode 只支持 replace（append 尚未支持）"));
    }
    let set = &plan.link_sets[at];
    if let Err(e) = check_bound_pairs(binding, set) {
        return Err(e);
    }
    if binding.pair_ids.len() == 0 && set.pair_refs.len() == 0 {
        return Err(
            cat2(label.as_str(), " 没有可执行的 pair_ref；请先为链路集合添加网口对"),
        );
    }
    Ok(())
}

/// The ids of a list of bindings.
pub open spec fn binding_ids(bindings: Seq<UiBinding>) -> Seq<Seq<char>> {
    Seq::new(bindings.len(), |i: int| bindings[i].id@)
}

/// The first complaint about the bindings of a plan from index `i` on.
pub open spec fn bindings_told(plan: UiPlan, i: int) -> Result<(), Seq<char>>
    decreases plan.bindings@.len() - i,
{
    if i < 0 || i >= plan.bindings@.len() {
        Ok(())
    } else {
        let binding = plan.bindings@[i];
        if blank(binding.id@) || binding_ids(plan.bindings@).take(i).contains(binding.id@) {
            Err("binding id 缺失或重复："@ + binding.id@)
        } else {
            match binding_told(plan, binding) {
                Err(e) => Err(e),
                Ok(_) => bindings_told(plan, i + 1),
            }
        }
    }
}

/// Checks the bindings of a plan; `known` holds the ids of the plan's suites.
pub fn check_bindings(plan: &UiPlan, known: &Vec<String>) -> (r: Result<(), String>)
    requires
        texts(known@) == suite_ids(plan.suites@),
    ensures
        told(r) == bindings_told(*plan, 0),
{
    broadcast use group_views;

    let mut ids: Vec<String> = Vec::new();
    let mut i: usize = 0;
    while i < plan.bindings.len()
        invariant
            i <= plan.bindings@.len(),
            texts(known@) == suite_ids(plan.suites@),
            texts(ids@) == binding_ids(plan.bindings@).take(i as int),
            bindings_told(*plan, 0) == bindings_told(*plan, i as int),
        decreases plan.bindings@.len() - i,
    {
        let binding = &plan.bindings[i];
        let id = binding.id.as_str();
        if is_blank(id) || lists(&ids, id) {
            return Err(cat2("binding id 缺失或重复：", id));
        }
        ids.push(owned(id));
        assert(binding_ids(plan.bindings@).take(i as int).push(id@) =~= binding_ids(
            plan.bindings@,
        ).take(i + 1));
        if let Err(e) = check_binding(plan, binding, known) {
            return Err(e);
        }
        i += 1;
    }
    Ok(())
}

// ---------------------------------------------------------------------------
// Plans and requests
// ---------------------------------------------------------------------------

/// The first complaint about the recipes of a plan; ids are shared by all protocols.
pub open spec fn plan_recipes_told(rd: Readings, plan: UiPlan) -> Result<(), Seq<char>> {
    let tcp = recipe_ids(plan.recipes.tcp@);
    let udp = recipe_ids(plan.recipes.udp@);
    match recipes_told(rd, "tcp"@, plan.recipes.tcp@, Seq::empty(), 0) {
        Err(e) => Err(e),
        Ok(_) => match recipes_told(rd, "udp"@, plan.recipes.udp@, tcp, 0) {
            Err(e) => Err(e),
            Ok(_) => recipes_told(rd, "ping"@, plan.recipes.ping@, tcp + udp, 0),
        },
    }
}

/// Checks the recipes of a plan.
pub fn check_plan_recipes(rd: &Readings, plan: &UiPlan) -> (r: Result<(), String>)
    ensures
        told(r) == plan_recipes_told(*rd, *plan),
{
    broadcast use group_views;

    let mut seen: Vec<String> = Vec::new();
    assert(texts(seen@) == Seq::<Seq<char>>::empty());
    if let Err(e) = check_recipes(rd, "tcp", &plan.recipes.tcp, &mut seen) {
        return Err(e);
    }
    assert(texts(seen@) =~= recipe_ids(plan.recipes.tcp@));
    if let Err(e) = check_recipes(rd, "udp", &plan.recipes.udp, &mut seen) {
        return Err(e);
    }
    check_recipes(rd, "ping", &plan.recipes.ping, &mut seen)
}

/// The first complaint about a suite plan.
pub open spec fn plan_told(state: UiState, rd: Readings, plan: UiPlan) -> Result<(), Seq<char>> {
    if plan.ui_plan_version > 1 {
        Err(
            "不支持的 ui_plan_version="@ + decimal(plan.ui_plan_version as nat) + "（当前支持 1）"@,
        )
    } else if plan.link_sets@.len() == 0 {
        Err("ui_plan 至少需要一个 link_set"@)
    } else if plan.suites@.len() == 0 {
        Err("ui_plan 至少需要一个 suite"@)
    } else if plan.bindings@.len() == 0 {
        Err("ui_plan 至少需要一个 binding"@)
    } else {
        match link_sets_told(state, rd, plan, 0) {
            Err(e) => Err(e),
            Ok(_) => match plan_recipes_told(rd, plan) {
                Err(e) => Err(e),
                Ok(_) => match suites_told(rd, plan, 0) {
                    Err(e) => Err(e),
                    Ok(_) => bindings_told(plan, 0),
                },
            },
        }
    }
}

/// Checks a suite plan.
pub fn validate_ui_plan(state: &UiState, rd: &Readings, plan: &UiPlan) -> (r: Result<(), String>)
    ensures
        told(r) == plan_told(*state, *rd, *plan),
{
    if plan.ui_plan_version > 1 {
        let number = decimal_text(plan.ui_plan_version as u64);
        return Err(cat3("不支持的 ui_plan_version=", number.as_str(), "（当前支持 1）"));
    }
    if plan.link_sets.len() == 0 {
        return Err(owned("ui_plan 至少需要一个 link_set"));
    }
    if plan.suites.len() == 0 {
        return Err(owned("ui_plan 至少需要一个 suite"));
    }
    if plan.bindings.len() == 0 {
        return Err(owned("ui_plan 至少需要一个 binding"));
    }
    if let Err(e) = check_link_sets(state, rd, plan) {
        return Err(e);
    }
    if let Err(e) = check_plan_recipes(rd, plan) {
        return Err(e);
    }
    match check_suites(rd, plan) {
        Err(e) => Err(e),
        Ok(known) => check_bindings(plan, &known),
    }
}

/// The first complaint about the further groups of a request, UDP before TCP.
pub open spec fn udp_groups_told(rd: Readings, req: RunRequest, i: int) -> Result<(), Seq<char>>
    decreases req.udp_groups@.len() - i,
{
    if i < 0 || i >= req.udp_groups@.len() {
        Ok(())
    } else {
        match udp_group_told(rd, (i + 1) as nat, req.udp_groups@[i]) {
            Err(e) => Err(e),
            Ok(_) => udp_groups_told(rd, req, i + 1),
        }
    }
}

/// The first complaint about the further TCP groups of a request from index `i` on.
pub open spec fn tcp_groups_told(rd: Readings, req: RunRequest, i: int) -> Result<(), Seq<char>>
    decreases req.tcp_groups@.len() - i,
{
    if i < 0 || i >= req.tcp_groups@.len() {
        Ok(())
    } else {
        match tcp_group_told(rd, (i + 1) as nat, req.tcp_groups@[i]) {
            Err(e) => Err(e),
            Ok(_) => tcp_groups_told(rd, req, i + 1),
        }
    }
}

/// The first complaint about the rows of the matrix from index `i` on.
pub open spec fn pairs_told(state: UiState, rd: Readings, req: RunRequest, i: int) -> Result<
    (),
    Seq<char>,
>
    decreases req.pairs@.len() - i,
{
    if i < 0 || i >= req.pairs@.len() {
        Ok(())
    } else {
        match pair_told(
            state,
            rd,
            req.pairs@[i],
            req.udp_groups@.len() as usize,
            req.tcp_groups@.len() as usize,
        ) {
            Err(e) => Err(e),
            Ok(_) => pairs_told(state, rd, req, i + 1),
        }
    }
}

/// Checks the further groups of a request.
pub fn check_groups(rd: &Readings, req: &RunRequest) -> (r: Result<(), String>)
    ensures
        told(r) == match udp_groups_told(*rd, *req, 0) {
            Err(e) => Err(e),
            Ok(_) => tcp_groups_told(*rd, *req, 0),
        },
{
    let mut i: usize = 0;
    while i < req.udp_groups.len()
        invariant
            i <= req.udp_groups@.len(),
            udp_groups_told(*rd, *req, 0) == udp_groups_told(*rd, *req, i as int),
        decreases req.udp_groups@.len() - i,
    {
        if let Err(e) = validate_udp_group(rd, i + 1, &req.udp_groups[i]) {
            return Err(e);
        }
        i += 1;
    }
    let mut k: usize = 0;
    while k < req.tcp_groups.len()
        invariant
            k <= req.tcp_groups@.len(),
            udp_groups_told(*rd, *req, 0) is Ok,
            tcp_groups_told(*rd, *req, 0) == tcp_groups_told(*rd, *req, k as int),
        decreases req.tcp_groups@.len() - k,
    {
        if let Err(e) = validate_tcp_group(rd, k + 1, &req.tcp_groups[k]) {
            return Err(e);
        }
        k += 1;
    }
    Ok(())
}

/// Checks the rows of the matrix.
pub fn check_pairs(state: &UiState, rd: &Readings, req: &RunRequest) -> (r: Result<(), String>)
    ensures
        told(r) == pairs_told(*state, *rd, *req, 0),
{
    let mut i: usize = 0;
    while i < req.pairs.len()
        invariant
            i <= req.pairs@.len(),
            pairs_told(*state, *rd, *req, 0) == pairs_told(*state, *rd, *req, i as int),
        decreases req.pairs@.len() - i,
    {
        if let Err(e) = validate_pair(
            state,
            rd,
            &req.pairs[i],
            req.udp_groups.len(),
            req.tcp_groups.len(),
        ) {
            return Err(e);
        }
        i += 1;
    }
    Ok(())
}

/// The first complaint about a request: a suite plan and a matrix exclude each other, and each is
/// held to its own rules and to those they share.
pub open spec fn request_told(state: UiState, rd: Readings, req: RunRequest) -> Result<
    (),
    Seq<char>,
> {
    let head = match req.ui_plan {
        Some(plan) => if req.pairs@.len() > 0 {
            Err("ui_plan 与 legacy pairs 不能同时提交"@)
        } else {
            match global_values_told(rd, req) {
                Err(e) => Err(e),
                Ok(_) => plan_told(state, rd, plan),
            }
        },
        None => global_sweeps_told(rd, req),
    };
    match head {
        Err(e) => Err(e),
        Ok(_) => match udp_groups_told(rd, req, 0) {
            Err(e) => Err(e),
            Ok(_) => match tcp_groups_told(rd, req, 0) {
                Err(e) => Err(e),
                Ok(_) => {
                    let rows = match req.ui_plan {
                        Some(_) => Ok(()),
                        None => pairs_told(state, rd, req, 0),
                    };
                    match rows {
                        Err(e) => Err(e),
                        Ok(_) => policies_told(state, rd, req.nic_policies@, 0),
                    }
                },
            },
        },
    }
}

/// Checks a request: the first complaint, in the order of [`request_told`].
pub fn validate_request(state: &UiState, rd: &Readings, req: &RunRequest) -> (r: Result<
    (),
    String,
>)
    ensures
        told(r) == request_told(*state, *rd, *req),
{
    match &req.ui_plan {
        Some(plan) => {
            if req.pairs.len() > 0 {
                return Err(owned("ui_plan 与 legacy pairs 不能同时提交"));
            }
            if let Err(e) = validate_global_values(rd, req) {
                return Err(e);
            }
            if let Err(e) = validate_ui_plan(state, rd, plan) {
                return Err(e);
            }
        },
        None => {
            if let Err(e) = validate_global_sweeps(rd, req) {
                return Err(e);
            }
        },
    }
    if let Err(e) = check_groups(rd, req) {
        return Err(e);
    }
    if req.ui_plan.is_none() {
        if let Err(e) = check_pairs(state, rd, req) {
            return Err(e);
        }
    }
    validate_nic_policies(state, rd, req)
}

} // verus!
