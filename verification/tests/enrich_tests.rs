use netscan::enrich::vendor_from_hostname;

#[test]
fn detect_verizon_from_cr1000a() {
    assert_eq!(
        vendor_from_hostname("CR1000A.mynetworksettings.com").as_deref(),
        Some("Verizon Fios (detected)")
    );
}

#[test]
fn unknown_hostname_returns_none() {
    assert!(vendor_from_hostname("desktop.local").is_none());
}

#[test]
fn detect_google_devices() {
    assert_eq!(vendor_from_hostname("Nest-Hub.lan").as_deref(), Some("Google"));
    assert_eq!(vendor_from_hostname("google-home").as_deref(), Some("Google"));
}
