use netscan::expand::{expand_cidr, partition_chunks, scan_cidr_with_tables, ScanError};
use netscan::ipv4::format_ipv4;

#[test]
fn hosts_from_small_cidr() {
    let hosts = expand_cidr("192.168.0.0/30").unwrap();
    // /30 has 2 usable hosts
    assert_eq!(hosts.len(), 2);
    assert_eq!(format_ipv4(hosts[0]), "192.168.0.1");
    assert_eq!(format_ipv4(hosts[1]), "192.168.0.2");
}

#[test]
fn point_to_point_and_host_prefixes() {
    // A /31 block has no address strictly between network and broadcast.
    assert!(expand_cidr("10.0.0.0/31").unwrap().is_empty());
    // A /32 is the single given address.
    let one = expand_cidr("10.1.2.3/32").unwrap();
    assert_eq!(one.len(), 1);
    assert_eq!(format_ipv4(one[0]), "10.1.2.3");
    // A /30: 2^(32-30) - 2 usable hosts.
    assert_eq!(expand_cidr("10.0.0.0/30").unwrap().len(), 2);
    // A /29: 2^(32-29) - 2 usable hosts.
    assert_eq!(expand_cidr("10.0.0.0/29").unwrap().len(), 6);
}

#[test]
fn malformed_range_is_fatal() {
    assert_eq!(expand_cidr("not-a-range"), Err(ScanError::InvalidRange));
    assert_eq!(expand_cidr("10.0.0.0/33"), Err(ScanError::InvalidRange));
    assert_eq!(expand_cidr("300.0.0.1/24"), Err(ScanError::InvalidRange));
}

#[test]
fn partition_keeps_every_host_once() {
    let hosts: Vec<u32> = vec![1, 2, 3, 4, 5];
    let chunks = partition_chunks(&hosts, 2);
    assert_eq!(chunks.len(), 2);
    assert_eq!(chunks[0], vec![1, 2, 3]);
    assert_eq!(chunks[1], vec![4, 5]);
    // More workers than hosts: one chunk per host at most.
    let chunks = partition_chunks(&hosts, 100);
    let total: usize = chunks.iter().map(|c| c.len()).sum();
    assert_eq!(total, 5);
    // Zero workers coerce up to one.
    let chunks = partition_chunks(&hosts, 0);
    assert_eq!(chunks.len(), 1);
    assert_eq!(chunks[0], hosts);
}

#[test]
fn sweep_yields_one_result_per_host_for_any_worker_count() {
    let neigh = "192.168.254.1 dev eth0 lladdr 00:aa:bb:cc:dd:ee REACHABLE\n";
    // h = 2 usable hosts; workers ranging over 1, h, h + 5.
    for workers in [1usize, 2, 7] {
        let results = scan_cidr_with_tables("192.168.254.0/30", workers, neigh, "", "").unwrap();
        assert_eq!(results.len(), 2);
        assert_eq!(format_ipv4(results[0].0), "192.168.254.1");
        assert_eq!(format_ipv4(results[1].0), "192.168.254.2");
        assert_eq!(results[0].1, Some([0x00, 0xaa, 0xbb, 0xcc, 0xdd, 0xee]));
        assert_eq!(results[1].1, None);
    }
}

#[test]
fn sweep_of_malformed_range_aborts() {
    assert_eq!(
        scan_cidr_with_tables("bogus", 4, "", "", ""),
        Err(ScanError::InvalidRange)
    );
}
