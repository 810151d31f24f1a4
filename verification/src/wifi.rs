//! Wi-Fi bands by one stable name each.
use vstd::prelude::*;
use crate::protocol::NicInfo;
use crate::text::{ascii_lower, ascii_upper, blank, cat3, contains, has, is_blank, lowered, uppered};

verus! {

/// The 2.4 GHz band.
pub const WIFI_BAND_24G: &'static str = "wifi_2_4g";

/// The 5 GHz band.
pub const WIFI_BAND_5G: &'static str = "wifi_5g";

/// The 6 GHz band.
pub const WIFI_BAND_6G: &'static str = "wifi_6g";

/// No known band.
pub const WIFI_BAND_UNKNOWN: &'static str = "unknown";

/// The stable name of the band that a text speaks of, however it spells it.
pub open spec fn band_of(raw: Seq<char>) -> Seq<char> {
    let text = lowered(raw);
    if has(text, "2.4"@) || has(text, "2_4"@) || has(text, "24g"@) {
        WIFI_BAND_24G@
    } else if has(text, "6"@) {
        WIFI_BAND_6G@
    } else if has(text, "5"@) {
        WIFI_BAND_5G@
    } else {
        WIFI_BAND_UNKNOWN@
    }
}

/// The stable name of the band that a text speaks of, however it spells it.
pub fn canonical_wifi_band(raw: &str) -> (r: &'static str)
    ensures
        r@ == band_of(raw@),
{
    let lower = ascii_lower(raw);
    let text = lower.as_str();
    if contains(text, "2.4") || contains(text, "2_4") || contains(text, "24g") {
        WIFI_BAND_24G
    } else if contains(text, "6") {
        WIFI_BAND_6G
    } else if contains(text, "5") {
        WIFI_BAND_5G
    } else {
        WIFI_BAND_UNKNOWN
    }
}

/// The band of an interface, from its band text and its role.
pub open spec fn nic_band(nic: NicInfo) -> Seq<char> {
    band_of(nic.wifi_band@ + " "@ + nic.role@)
}

/// The band of an interface, from its band text and its role.
pub fn normalized_wifi_band(nic: &NicInfo) -> (r: &'static str)
    ensures
        r@ == nic_band(*nic),
{
    let text = cat3(nic.wifi_band.as_str(), " ", nic.role.as_str());
    canonical_wifi_band(text.as_str())
}

/// Whether an interface is a Wi-Fi one: by its flag, its band or its role.
pub open spec fn wireless(nic: NicInfo) -> bool {
    nic.is_wifi || !blank(nic.wifi_band@) || has(uppered(nic.role@), "WIFI"@)
}

/// Whether an interface is a Wi-Fi one: by its flag, its band or its role.
pub fn nic_is_wifi(nic: &NicInfo) -> (r: bool)
    ensures
        r == wireless(*nic),
{
    if nic.is_wifi || !is_blank(nic.wifi_band.as_str()) {
        return true;
    }
    let role = ascii_upper(nic.role.as_str());
    contains(role.as_str(), "WIFI")
}

} // verus!
