use netscan::portscan::{
    normalize_banner, port_result_of, scan_results, tcp_probe_results, ProbeOutcome,
};

#[test]
fn normalize_keeps_printable_and_collapses_whitespace() {
    assert_eq!(normalize_banner("HELLO\n"), "HELLO");
    // Tabs are control characters: stripped, not treated as separators.
    assert_eq!(normalize_banner("  SSH-2.0   OpenSSH\t\t9.6  "), "SSH-2.0 OpenSSH9.6");
    assert_eq!(normalize_banner("a\u{0007}b\u{00e9}c"), "abc");
    assert_eq!(normalize_banner(""), "");
    assert_eq!(normalize_banner(" \t \n"), "");
}

#[test]
fn normalize_truncates_to_200_characters() {
    let long = "x".repeat(300);
    let out = normalize_banner(&long);
    assert_eq!(out.len(), 200);
}

#[test]
fn normalize_is_idempotent_on_ordinary_banners() {
    for s in [
        "HELLO\n",
        "  many   words \t collapse  ",
        "plain",
        "",
        "\u{0001}\u{0002}ctrl\u{0003} run\u{0004}",
    ] {
        let once = normalize_banner(s);
        let twice = normalize_banner(&once);
        assert_eq!(once, twice);
        assert!(once.len() <= 200);
    }
}

#[test]
fn connected_probe_reports_open_with_banner() {
    let oc = ProbeOutcome::Connected {
        banner: Some(b"HELLO\n".to_vec()),
        rtt_ms: 12,
    };
    let r = port_result_of(2222, &oc);
    assert_eq!(r.port, 2222);
    assert_eq!(r.proto, "tcp");
    assert!(r.open);
    assert_eq!(r.banner.as_deref(), Some("HELLO"));
    assert_eq!(r.rtt_ms, Some(12));
}

#[test]
fn silent_service_reports_open_without_banner() {
    let oc = ProbeOutcome::Connected { banner: None, rtt_ms: 7 };
    let r = port_result_of(80, &oc);
    assert!(r.open);
    assert_eq!(r.banner, None);
    assert_eq!(r.rtt_ms, Some(7));
}

#[test]
fn closed_port_reports_not_open_without_error() {
    let r = port_result_of(9, &ProbeOutcome::NoConnect);
    assert!(!r.open);
    assert_eq!(r.banner, None);
    assert_eq!(r.rtt_ms, None);
}

#[test]
fn empty_port_list_yields_empty_report() {
    let report = scan_results(vec![]);
    assert!(report.is_empty());
}

#[test]
fn scan_reports_one_result_per_port() {
    let outcomes = vec![
        (22u16, ProbeOutcome::Connected { banner: Some(b"ssh\n".to_vec()), rtt_ms: 1 }),
        (23u16, ProbeOutcome::NoConnect),
        (80u16, ProbeOutcome::Connected { banner: Some(Vec::new()), rtt_ms: 2 }),
    ];
    let report = scan_results(outcomes);
    assert_eq!(report.len(), 3);
    assert_eq!(report[0].port, 22);
    assert!(report[0].open);
    assert_eq!(report[0].banner.as_deref(), Some("ssh"));
    assert!(!report[1].open);
    assert!(report[2].open);
    assert_eq!(report[2].banner, None);
}

#[test]
fn empty_address_list_yields_empty_report() {
    let report = tcp_probe_results(vec![]);
    assert!(report.is_empty());
}

#[test]
fn tcp_probe_banners_are_trimmed() {
    let outcomes = vec![
        (0x7F000001u32, Some(b"  HELLO\n".to_vec())),
        (0x7F000002u32, None),
    ];
    let report = tcp_probe_results(outcomes);
    assert_eq!(report.len(), 2);
    assert_eq!(report[0].1.as_deref(), Some("HELLO"));
    assert_eq!(report[1].1, None);
}
