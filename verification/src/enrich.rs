//! Hostname-based vendor heuristics.

use vstd::prelude::*;

use crate::strutil::{
    spec_to_lower, spec_contains, spec_starts_with, to_ascii_lower, contains_str, starts_with_str,
};

verus! {

/// The vendor a hostname hints at, if any: a handful of fixed
/// patterns, matched case-insensitively.
pub open spec fn spec_vendor_from_hostname(hostname: Seq<char>) -> Option<Seq<char>> {
    let hn = spec_to_lower(hostname);
    if spec_contains(hn, "mynetworksettings.com"@) || spec_starts_with(hn, "cr1000a"@)
        || spec_contains(hn, "fios"@) {
        Some("Verizon Fios (detected)"@)
    } else if spec_contains(hn, "google"@) || spec_contains(hn, "nest"@) {
        Some("Google"@)
    } else {
        None
    }
}

/// Derive a display vendor from a hostname.  Heuristic only: it should
/// not overwrite a vendor derived from the MAC prefix table.
pub fn vendor_from_hostname(hostname: &str) -> (r: Option<String>)
    ensures
        r matches Some(v) ==> spec_vendor_from_hostname(hostname@) == Some(v@),
        r is None ==> spec_vendor_from_hostname(hostname@) is None,
{
    let hn = to_ascii_lower(hostname);
    if contains_str(hn.as_str(), "mynetworksettings.com") || starts_with_str(hn.as_str(), "cr1000a")
        || contains_str(hn.as_str(), "fios") {
        Some("Verizon Fios (detected)".to_owned())
    } else if contains_str(hn.as_str(), "google") || contains_str(hn.as_str(), "nest") {
        Some("Google".to_owned())
    } else {
        None
    }
}

} // verus!
