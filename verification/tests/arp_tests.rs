use netscan::ipv4::{format_ipv4, parse_ipv4};
use netscan::mac::{format_mac, format_mac_with, parse_mac};
use netscan::neighbors::{
    lookup_mac_in_tables, mac_from_probe_output, parse_ip_neigh, parse_proc_net_arp,
    resolver_after_lookup, resolver_after_probe, resolver_after_relookup, resolver_start,
    ResolveStep,
};

#[test]
fn parse_proc_net_arp_basic() {
    let sample = "IP address       HW type     Flags       HW address            Mask     Device\n192.168.1.10    0x1         0x2         00:11:22:33:44:55     *        eth0\n";
    let entries = parse_proc_net_arp(sample);
    assert_eq!(entries.len(), 1);
    assert_eq!(entries[0].0, parse_ipv4("192.168.1.10").unwrap());
    assert_eq!(entries[0].1, "00:11:22:33:44:55");
    assert_eq!(entries[0].2, "eth0");
}

#[test]
fn parse_ip_neigh_basic() {
    let sample = "192.168.1.1 dev eth0 lladdr 00:aa:bb:cc:dd:ee REACHABLE\n";
    let entries = parse_ip_neigh(sample);
    assert_eq!(entries.len(), 1);
    assert_eq!(entries[0].0, parse_ipv4("192.168.1.1").unwrap());
    assert_eq!(entries[0].1, "00:aa:bb:cc:dd:ee");
    assert_eq!(entries[0].2, "eth0");
}

#[test]
fn parse_mac_formats() {
    assert_eq!(
        parse_mac("00:11:22:33:44:55").unwrap(),
        [0, 17, 34, 51, 68, 85]
    );
    assert_eq!(
        parse_mac("00-11-22-33-44-55").unwrap(),
        [0, 17, 34, 51, 68, 85]
    );
    assert!(parse_mac("not-a-mac").is_none());
}

#[test]
fn format_mac_then_parse_round_trips() {
    let mac = [0x00u8, 0xaa, 0xbb, 0xcc, 0xdd, 0xfe];
    let colon = format_mac(&mac);
    assert_eq!(colon, "00:aa:bb:cc:dd:fe");
    assert_eq!(parse_mac(&colon).unwrap(), mac);
    let hyphen = format_mac_with(&mac, '-');
    assert_eq!(hyphen, "00-aa-bb-cc-dd-fe");
    assert_eq!(parse_mac(&hyphen).unwrap(), mac);
}

#[test]
fn lookup_prefers_structured_table_and_falls_through() {
    let ip = parse_ipv4("192.168.1.1").unwrap();
    let neigh = "192.168.1.1 dev eth0 lladdr 00:aa:bb:cc:dd:ee REACHABLE\n";
    let table = "IP address HW type Flags HW address Mask Device\n192.168.1.1 0x1 0x2 11:22:33:44:55:66 * eth0\n";
    let legacy = "Address HWtype HWaddress Flags Mask Iface\n192.168.1.1 ether 22:33:44:55:66:77 C eth0\n";
    // All three sources know the host: the structured command wins.
    assert_eq!(
        lookup_mac_in_tables(ip, neigh, table, legacy),
        Some([0x00, 0xaa, 0xbb, 0xcc, 0xdd, 0xee])
    );
    // Without it, the raw table file answers.
    assert_eq!(
        lookup_mac_in_tables(ip, "", table, legacy),
        Some([0x11, 0x22, 0x33, 0x44, 0x55, 0x66])
    );
    // Without both, the legacy command answers.
    assert_eq!(
        lookup_mac_in_tables(ip, "", "", legacy),
        Some([0x22, 0x33, 0x44, 0x55, 0x66, 0x77])
    );
}

#[test]
fn lookup_mac_none_when_absent() {
    let ip = parse_ipv4("10.255.255.254").unwrap();
    let neigh = "192.168.1.1 dev eth0 lladdr 00:aa:bb:cc:dd:ee REACHABLE\n";
    assert!(lookup_mac_in_tables(ip, neigh, "", "").is_none());
}

#[test]
fn resolving_twice_yields_the_same_address() {
    let ip = parse_ipv4("192.168.1.1").unwrap();
    let neigh = "192.168.1.1 dev eth0 lladdr 00:aa:bb:cc:dd:ee REACHABLE\n";
    let first = lookup_mac_in_tables(ip, neigh, "", "");
    let second = lookup_mac_in_tables(ip, neigh, "", "");
    assert_eq!(first, Some([0x00, 0xaa, 0xbb, 0xcc, 0xdd, 0xee]));
    assert_eq!(first, second);
}

#[test]
fn probe_output_yields_mac_token() {
    let out = "ARPING 192.168.1.9 from 192.168.1.2 eth0\nUnicast reply from 192.168.1.9 00:11:22:33:44:55 1.234ms\n";
    assert_eq!(
        mac_from_probe_output(out),
        Some([0x00, 0x11, 0x22, 0x33, 0x44, 0x55])
    );
    assert!(mac_from_probe_output("no token here\n").is_none());
}

#[test]
fn resolver_chain_follows_strict_order() {
    assert!(matches!(resolver_start(), ResolveStep::LookupTables));
    // A table hit ends the chain at once.
    let mac = [1u8, 2, 3, 4, 5, 6];
    assert!(matches!(
        resolver_after_lookup(Some(mac), true),
        ResolveStep::Done(Some(m)) if m == mac
    ));
    // A miss with the probe disabled ends with no address.
    assert!(matches!(
        resolver_after_lookup(None, false),
        ResolveStep::Done(None)
    ));
    // A miss with the probe enabled runs the probe.
    assert!(matches!(
        resolver_after_lookup(None, true),
        ResolveStep::RunProbe
    ));
    // Probe output with a MAC ends the chain.
    assert!(matches!(
        resolver_after_probe(Some("reply from host 00:11:22:33:44:55 here\n")),
        ResolveStep::Done(Some(_))
    ));
    // A failed or missing tool falls through to the trigger.
    assert!(matches!(
        resolver_after_probe(None),
        ResolveStep::TriggerAndRelookup
    ));
    // The re-query's result is final.
    assert!(matches!(
        resolver_after_relookup(None),
        ResolveStep::Done(None)
    ));
}

#[test]
fn neighbor_line_scenario_yields_triple() {
    let entries = parse_ip_neigh("192.168.1.1 dev eth0 lladdr 00:aa:bb:cc:dd:ee REACHABLE");
    assert_eq!(entries.len(), 1);
    assert_eq!(format_ipv4(entries[0].0), "192.168.1.1");
    assert_eq!(entries[0].1, "00:aa:bb:cc:dd:ee");
    assert_eq!(entries[0].2, "eth0");
}
