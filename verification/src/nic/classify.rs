//! The role of an interface, and the rank of a role.
use vstd::prelude::*;
use crate::text::{contains, has, in_small, owned, same, to_lower};

verus! {

/// The number of roles that have a rank of their own.
pub const ROLE_COUNT: usize = 10;

/// The role that a speed tells of; those above four gigabits depend on whether the device is a USB
/// one.
pub open spec fn role_by_speed(speed: u64, usb: bool) -> Seq<char> {
    if 4001 <= speed <= 12_000 {
        if usb {
            "10GUSB"@
        } else if speed >= 9_000 {
            "10GETH"@
        } else {
            "UNKNOWN"@
        }
    } else if 2400 <= speed <= 2600 {
        "SGMII2.5G"@
    } else if 900 <= speed <= 1100 {
        "SGMII1G"@
    } else if 3400 <= speed <= 4000 {
        "RNDIS"@
    } else {
        "UNKNOWN"@
    }
}

/// The role of an interface: by its band where it is a Wi-Fi one, else by what its description says,
/// which `text` is in small letters, else by its speed.
pub open spec fn role_told(text: Seq<char>, speed: u64, is_wifi: bool, band: Seq<char>) -> Seq<char> {
    let usb = has(text, "usb"@);
    if is_wifi {
        if band == "5GHz"@ {
            "WIFI5G"@
        } else if band == "2.4GHz"@ {
            "WIFI2.4G"@
        } else if band == "6GHz"@ {
            "WIFI6G"@
        } else {
            "WIFI"@
        }
    } else if has(text, "10g"@) && usb {
        "10GUSB"@
    } else if has(text, "rndis"@) || has(text, "remote ndis"@) {
        "RNDIS"@
    } else {
        role_by_speed(speed, usb)
    }
}

/// The role of an interface.
pub open spec fn role_of(description: Seq<char>, speed: u64, is_wifi: bool, band: Seq<char>) -> Seq<
    char,
> {
    role_told(in_small(description), speed, is_wifi, band)
}

/// The role of an interface.
pub fn classify_role(description: &str, speed_mbps: u64, is_wifi: bool, band: &str) -> (r: String)
    ensures
        r@ == role_of(description@, speed_mbps, is_wifi, band@),
{
    let low = to_lower(description);
    role_from(low.as_str(), speed_mbps, is_wifi, band)
}

/// The role of an interface whose description is `text` in small letters.
pub fn role_from(text: &str, speed_mbps: u64, is_wifi: bool, band: &str) -> (r: String)
    ensures
        r@ == role_told(text@, speed_mbps, is_wifi, band@),
{
    let usb = contains(text, "usb");
    let role = if is_wifi {
        if same(band, "5GHz") {
            "WIFI5G"
        } else if same(band, "2.4GHz") {
            "WIFI2.4G"
        } else if same(band, "6GHz") {
            "WIFI6G"
        } else {
            "WIFI"
        }
    } else if contains(text, "10g") && usb {
        "10GUSB"
    } else if contains(text, "rndis") || contains(text, "remote ndis") {
        "RNDIS"
    } else if 4001 <= speed_mbps && speed_mbps <= 12_000 {
        if usb {
            "10GUSB"
        } else if speed_mbps >= 9_000 {
            "10GETH"
        } else {
            "UNKNOWN"
        }
    } else if 2400 <= speed_mbps && speed_mbps <= 2600 {
        "SGMII2.5G"
    } else if 900 <= speed_mbps && speed_mbps <= 1100 {
        "SGMII1G"
    } else if 3400 <= speed_mbps && speed_mbps <= 4000 {
        "RNDIS"
    } else {
        "UNKNOWN"
    };
    owned(role)
}

/// The rank of a role, the lowest first; roles that are not known come last.
pub open spec fn rank_of(role: Seq<char>) -> usize {
    if role == "10GETH"@ {
        0
    } else if role == "10GUSB"@ {
        1
    } else if role == "SGMII2.5G"@ {
        2
    } else if role == "SGMII1G"@ {
        3
    } else if role == "RNDIS"@ {
        4
    } else if role == "WIFI5G"@ {
        5
    } else if role == "WIFI6G"@ {
        6
    } else if role == "WIFI2.4G"@ {
        7
    } else if role == "WIFI"@ {
        8
    } else if role == "UNKNOWN"@ {
        9
    } else {
        ROLE_COUNT
    }
}

/// The rank of a role.
pub fn role_rank(role: &str) -> (r: usize)
    ensures
        r == rank_of(role@),
{
    if same(role, "10GETH") {
        0
    } else if same(role, "10GUSB") {
        1
    } else if same(role, "SGMII2.5G") {
        2
    } else if same(role, "SGMII1G") {
        3
    } else if same(role, "RNDIS") {
        4
    } else if same(role, "WIFI5G") {
        5
    } else if same(role, "WIFI6G") {
        6
    } else if same(role, "WIFI2.4G") {
        7
    } else if same(role, "WIFI") {
        8
    } else if same(role, "UNKNOWN") {
        9
    } else {
        ROLE_COUNT
    }
}

/// Every role that an interface can be given has a rank of its own.
pub proof fn lemma_given_roles_are_ranked(
    description: Seq<char>,
    speed: u64,
    is_wifi: bool,
    band: Seq<char>,
)
    ensures
        rank_of(role_of(description, speed, is_wifi, band)) < ROLE_COUNT,
{
}

/// Whether a name, which is `low` in small letters, sounds like a Wi-Fi interface.
pub open spec fn sounds_wireless(name: Seq<char>, low: Seq<char>) -> bool {
    has(low, "wi-fi"@) || has(low, "wifi"@) || has(low, "wireless"@) || has(low, "wlan"@) || has(
        low,
        "802.11"@,
    ) || has(name, "无线"@)
}

/// Whether a name, which is `low` in small letters, sounds like a Wi-Fi interface.
pub fn sounds_wifi(name: &str, low: &str) -> (r: bool)
    ensures
        r == sounds_wireless(name@, low@),
{
    contains(low, "wi-fi") || contains(low, "wifi") || contains(low, "wireless") || contains(
        low,
        "wlan",
    ) || contains(low, "802.11") || contains(name, "无线")
}

/// Whether a name sounds like a Wi-Fi interface.
pub open spec fn wifi_name(name: Seq<char>) -> bool {
    sounds_wireless(name, in_small(name))
}

/// Whether a name sounds like a Wi-Fi interface.
pub fn is_wifi_name(name: &str) -> (r: bool)
    ensures
        r == wifi_name(name@),
{
    let low = to_lower(name);
    sounds_wifi(name, low.as_str())
}

} // verus!
