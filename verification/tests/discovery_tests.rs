use netscan::portscan::PortResult;
use netscan::records::{
    expand_open_ports, records_from_sweep, Discover, DiscoveryRecord, LiveArpDiscover,
    SimpleDiscover,
};

#[test]
fn simple_discover_returns_expected_records() {
    let items = vec![
        (
            "192.0.2.10".to_string(),
            Some(22),
            Some("ssh-1.0".to_string()),
            Some("aa:bb:cc:dd:ee:ff".to_string()),
            Some("ACME".to_string()),
            Some("2025-11-02T12:00:00Z".to_string()),
        ),
        ("198.51.100.5".to_string(), None, None, None, None, None),
    ];
    let s = SimpleDiscover::new(items);
    let recs = s.discover();
    assert_eq!(recs.len(), 2);
    assert_eq!(recs[0].ip, "192.0.2.10");
    assert_eq!(recs[0].port, Some(22));
    assert_eq!(recs[0].mac.as_deref(), Some("aa:bb:cc:dd:ee:ff"));
    assert_eq!(recs[1].ip, "198.51.100.5");
    assert_eq!(recs[1].port, None);
}

#[test]
fn sweep_results_become_host_records() {
    let results = vec![
        (0xC0A80001u32, Some([0u8, 17, 34, 51, 68, 85])),
        (0xC0A80002u32, None),
    ];
    let recs = records_from_sweep(&results);
    assert_eq!(recs.len(), 2);
    assert_eq!(recs[0].ip, "192.168.0.1");
    assert_eq!(recs[0].mac.as_deref(), Some("00:11:22:33:44:55"));
    assert_eq!(recs[0].port, None);
    assert_eq!(recs[1].ip, "192.168.0.2");
    assert_eq!(recs[1].mac, None);
}

#[test]
fn open_ports_expand_to_one_record_each() {
    let host = DiscoveryRecord::new("10.0.0.9", None, None, Some("aa:bb:cc:dd:ee:ff"), None, None);
    let report = vec![
        PortResult { port: 22, proto: "tcp", open: true, banner: Some("ssh".to_string()), rtt_ms: Some(3) },
        PortResult { port: 23, proto: "tcp", open: false, banner: None, rtt_ms: None },
        PortResult { port: 80, proto: "tcp", open: true, banner: None, rtt_ms: Some(5) },
    ];
    let recs = expand_open_ports(&host, &report);
    assert_eq!(recs.len(), 2);
    assert_eq!(recs[0].port, Some(22));
    assert_eq!(recs[0].banner.as_deref(), Some("ssh"));
    assert_eq!(recs[0].ip, "10.0.0.9");
    assert_eq!(recs[0].mac.as_deref(), Some("aa:bb:cc:dd:ee:ff"));
    assert_eq!(recs[1].port, Some(80));
}

#[test]
fn host_with_no_open_port_keeps_its_record() {
    let host = DiscoveryRecord::new("10.0.0.9", None, None, None, None, None);
    let report = vec![
        PortResult { port: 23, proto: "tcp", open: false, banner: None, rtt_ms: None },
    ];
    let recs = expand_open_ports(&host, &report);
    assert_eq!(recs.len(), 1);
    assert_eq!(recs[0].ip, "10.0.0.9");
    assert_eq!(recs[0].port, None);
}

#[test]
fn live_sweep_builders_set_their_fields() {
    let cfg = LiveArpDiscover::new("192.168.0.0/24")
        .with_workers(8)
        .with_probe(true)
        .with_timeout_secs(3)
        .with_portscan(true)
        .with_ports(Some(vec![22, 80]))
        .with_port_concurrency(16)
        .with_port_timeout_secs(2);
    assert_eq!(cfg.cidr, "192.168.0.0/24");
    assert_eq!(cfg.workers, 8);
    assert!(cfg.perform_probe);
    assert_eq!(cfg.timeout_secs, 3);
    assert!(cfg.portscan);
    assert_eq!(cfg.ports, Some(vec![22, 80]));
    assert_eq!(cfg.port_concurrency, 16);
    assert_eq!(cfg.port_timeout_secs, 2);
}
