use netscan::ports::{builtin_ports, fast_ports, parse_port_list};

#[test]
fn parse_simple_list() {
    let v = parse_port_list("22,80,443");
    assert_eq!(v, vec![22, 80, 443]);
}

#[test]
fn parse_range() {
    let v = parse_port_list("8000-8002");
    assert_eq!(v, vec![8000, 8001, 8002]);
}

#[test]
fn parse_mixed() {
    let v = parse_port_list("22,1000-1002,22");
    assert_eq!(v, vec![22, 1000, 1001, 1002]);
}

#[test]
fn parse_invalid_tokens_are_ignored() {
    let v = parse_port_list("22,abc,70000,10-8, - , 443");
    // 70000 clamps to 65535, but 65535 is valid; 10-8 -> 8..=10
    assert!(v.contains(&22));
    assert!(v.contains(&443));
    assert!(v.contains(&8));
    assert!(v.contains(&9));
    assert!(v.contains(&10));
    assert!(v.contains(&65535));
}

#[test]
fn empty_or_all_invalid_returns_empty() {
    let v = parse_port_list("");
    assert!(v.is_empty());
    let v2 = parse_port_list("foo,bar,-");
    assert!(v2.is_empty());
}

#[test]
fn builtin_ports_are_one_through_1024() {
    let v = builtin_ports();
    assert_eq!(v.len(), 1024);
    assert_eq!(v[0], 1);
    assert_eq!(v[1023], 1024);
}

#[test]
fn fast_ports_hold_common_services() {
    let v = fast_ports();
    assert_eq!(v.len(), 111);
    assert!(v.contains(&22));
    assert!(v.contains(&443));
    assert!(v.contains(&27017));
}

#[test]
fn parse_port_list_sorts_and_dedups_reversed_ranges() {
    let v = parse_port_list("30-28, 29, 1");
    assert_eq!(v, vec![1, 28, 29, 30]);
}
