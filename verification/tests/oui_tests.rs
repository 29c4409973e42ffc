use netscan::oui::{load_from_str, lookup_vendor, OuiTable};

#[test]
fn load_from_str_parses_two_column_csv() {
    let csv = "000C29,\"VMware, Inc.\"\n00-16-3E,Cisco Systems";
    let m = load_from_str(csv);
    assert_eq!(m.prefix_vendor(0x000C29).as_deref(), Some("VMware, Inc."));
    assert_eq!(m.prefix_vendor(0x00163E).as_deref(), Some("Cisco Systems"));
}

#[test]
fn lookup_vendor_accepts_various_mac_formats() {
    let csv = "000C29,\"VMware, Inc.\"\n00163E,Cisco Systems";
    let map = load_from_str(csv);

    assert_eq!(
        lookup_vendor(&map, "00:0c:29:aa:bb:cc"),
        Some("VMware, Inc.".to_string())
    );
    assert_eq!(
        lookup_vendor(&map, "00-16-3E-01-02-03"),
        Some("Cisco Systems".to_string())
    );
    assert_eq!(
        lookup_vendor(&map, "00163E010203"),
        Some("Cisco Systems".to_string())
    );
    assert_eq!(lookup_vendor(&map, "badmac"), None);
}

#[test]
fn parses_iana_ma_l_rows_and_quoted_fields() {
    let csv = "MA-L,286FB9,\"Nokia Shanghai Bell Co., Ltd.\",\"No.388 Ning Qiao Road\"\n";
    let m = load_from_str(csv);
    // key should be the first 6 hex chars of assignment
    assert!(m
        .prefix_vendor(0x286FB9)
        .map(|s| s.contains("Nokia Shanghai Bell Co."))
        .unwrap_or(false));
}

#[test]
fn preserves_vendor_commas_and_spaces() {
    let csv = "001122,\"Example, Inc.\",Some Address";
    let m = load_from_str(csv);
    assert!(m
        .prefix_vendor(0x001122)
        .map(|s| s.starts_with("Example, Inc."))
        .unwrap_or(false));
}

#[test]
fn accepts_colon_and_dash_prefixes() {
    let csv = "68:F6:3B,Amazon Technologies Inc.\n00-16-3E,Cisco Systems";
    let m = load_from_str(csv);
    assert_eq!(
        m.prefix_vendor(0x68F63B).as_deref(),
        Some("Amazon Technologies Inc.")
    );
    assert_eq!(m.prefix_vendor(0x00163E).as_deref(), Some("Cisco Systems"));
}

#[test]
fn ignores_short_or_nonhex_prefixes() {
    // short assignment (too few hex digits) and non-hex characters
    let csv = "ABC,ShortVendor\nZZ:ZZ:ZZ,BadVendor";
    let m = load_from_str(csv);
    assert_eq!(m.len(), 0);
}

#[test]
fn oui_lookup_bad_mac_returns_none() {
    let table = OuiTable::new();
    let vendor = lookup_vendor(&table, "xyz");
    assert!(vendor.is_none());
}
