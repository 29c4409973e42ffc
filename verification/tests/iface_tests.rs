use netscan::iface::{
    get_default_interface, get_interface_by_index, get_interface_by_mac_or_ipv4,
    get_interface_by_name, get_interface_by_name_index_mac_ipv4, list_interfaces,
    resolve_iface_name, unmanaged_verdict, IfaceError,
};
use netscan::rawsock::{
    open_verdict, send_verdict, ChannelOutcome, RawChannelState, RawSocketError, RecvSlot,
};

#[test]
fn test_list_interfaces_not_empty() {
    let interfaces = list_interfaces().expect("Should list interfaces");
    assert!(
        !interfaces.is_empty(),
        "There should be at least one interface"
    );
}

#[test]
fn test_get_default_interface_is_up_and_has_ipv4() {
    // The machine running the tests may have no up, non-loopback
    // interface with IPv4 at all; then there is nothing to check.
    let iface = match get_default_interface() {
        Ok(iface) => iface,
        Err(_) => return,
    };
    assert!(iface.up, "Default interface should be up");
    assert!(
        iface.ipv4.is_some(),
        "Default interface should have an IPv4 address"
    );
    assert!(
        !iface.name.starts_with("lo"),
        "Default interface should not be loopback"
    );
}

#[test]
fn test_get_interface_by_name_roundtrip() {
    let interfaces = list_interfaces().expect("Should list interfaces");
    let iface = match interfaces
        .iter()
        .find(|iface| iface.up && iface.ipv4.is_some() && !iface.name.starts_with("lo"))
    {
        Some(iface) => iface,
        None => return,
    };
    let by_name = get_interface_by_name(&iface.name).expect("Should find interface by name");
    assert_eq!(iface.name, by_name.name);
    assert_eq!(iface.index, by_name.index);
}

#[test]
fn test_get_interface_by_index_roundtrip() {
    let interfaces = list_interfaces().expect("Should list interfaces");
    let iface = match interfaces
        .iter()
        .find(|iface| iface.up && iface.ipv4.is_some() && !iface.name.starts_with("lo"))
    {
        Some(iface) => iface,
        None => return,
    };
    let by_index = get_interface_by_index(iface.index).expect("Should find interface by index");
    assert_eq!(iface.name, by_index.name);
    assert_eq!(iface.index, by_index.index);
}

#[test]
fn test_get_interface_by_mac_or_ipv4() {
    let interfaces = list_interfaces().expect("Should list interfaces");
    let iface = interfaces.iter().find(|iface| {
        iface.up && iface.ipv4.is_some() && iface.mac.is_some() && !iface.name.starts_with("lo")
    });
    if let Some(iface) = iface {
        let by_mac = get_interface_by_mac_or_ipv4(iface.mac, None).expect("Should find by MAC");
        assert_eq!(iface.mac, by_mac.mac);
        let by_ipv4 =
            get_interface_by_mac_or_ipv4(None, iface.ipv4).expect("Should find by IPv4");
        assert_eq!(iface.ipv4, by_ipv4.ipv4);
    }
}

#[test]
fn test_get_interface_by_name_index_mac_ipv4() {
    let interfaces = list_interfaces().expect("Should list interfaces");
    let iface = interfaces.iter().find(|iface| {
        iface.up && iface.ipv4.is_some() && iface.mac.is_some() && !iface.name.starts_with("lo")
    });
    if let Some(iface) = iface {
        let by_name = get_interface_by_name_index_mac_ipv4(Some(&iface.name), None, None, None)
            .expect("Should find by name");
        assert_eq!(iface.name, by_name.name);

        let by_index = get_interface_by_name_index_mac_ipv4(None, Some(iface.index), None, None)
            .expect("Should find by index");
        assert_eq!(iface.index, by_index.index);

        let by_mac = get_interface_by_name_index_mac_ipv4(None, None, iface.mac, None)
            .expect("Should find by MAC");
        assert_eq!(iface.mac, by_mac.mac);

        let by_ipv4 = get_interface_by_name_index_mac_ipv4(None, None, None, iface.ipv4)
            .expect("Should find by IPv4");
        assert_eq!(iface.ipv4, by_ipv4.ipv4);
    }
}

#[test]
fn test_get_interface_by_name_not_found() {
    let result = get_interface_by_name("definitely_not_a_real_interface_name_12345");
    assert!(matches!(result, Err(IfaceError::NotFound)));
}

#[test]
fn resolve_iface_name_prefers_the_given_name() {
    assert_eq!(resolve_iface_name(&Some("eth7".to_string())), "eth7");
}

#[test]
fn unmanaged_verdict_follows_the_evidence() {
    assert!(!unmanaged_verdict(true, None));
    assert!(!unmanaged_verdict(false, Some("IP4.DHCP4.OPTION[1]: requested_x = 1")));
    assert!(unmanaged_verdict(false, Some("GENERAL.DEVICE: eth0")));
    assert!(unmanaged_verdict(false, None));
}

#[test]
fn open_nonexistent_interface_fails() {
    let res = open_verdict(None);
    assert!(matches!(res, Err(RawSocketError::InterfaceNotFound)));
}

#[test]
fn open_verdict_accepts_only_link_layer_channels() {
    assert!(open_verdict(Some(&ChannelOutcome::Ethernet)).is_ok());
    assert!(matches!(
        open_verdict(Some(&ChannelOutcome::OtherType)),
        Err(RawSocketError::UnsupportedChannel)
    ));
    assert!(matches!(
        open_verdict(Some(&ChannelOutcome::Failed("denied".to_string()))),
        Err(RawSocketError::Io(_))
    ));
    assert!(matches!(
        send_verdict(false),
        Err(RawSocketError::SendError(_))
    ));
    assert!(send_verdict(true).is_ok());
}

#[test]
fn receive_slot_is_lost_after_timeout_until_recovered() {
    let mut state = RawChannelState::new();
    assert_eq!(state.slot, RecvSlot::Idle);
    // A receive that sees a frame returns the receiver.
    state.begin_recv().expect("idle transport accepts a receive");
    state.frame_received();
    assert_eq!(state.slot, RecvSlot::Idle);
    // A receive whose timer fires first loses the receiver: the next
    // receive is refused with a distinct error, not a second receiver.
    state.begin_recv().expect("idle transport accepts a receive");
    state.timed_out();
    assert_eq!(state.slot, RecvSlot::Lost);
    assert!(matches!(
        state.begin_recv(),
        Err(RawSocketError::RecvError(_))
    ));
    // Recovery (a reopen) makes the transport usable again.
    state.recovered();
    assert_eq!(state.slot, RecvSlot::Idle);
    assert!(state.begin_recv().is_ok());
}

#[test]
fn recv_timeout_returns_none_on_no_packet() {
    // A real channel needs elevated privileges; the receive-slot state
    // mirrors the timeout path: the receive begins, the timer fires
    // first, no frame is produced, and the receiver stays on loan.
    let mut state = RawChannelState::new();
    state.begin_recv().expect("idle transport accepts a receive");
    state.timed_out();
    assert_eq!(state.slot, RecvSlot::Lost);
}

#[test]
fn route_table_yields_default_gateway() {
    let table = "Iface\tDestination\tGateway \tFlags\tRefCnt\tUse\tMetric\tMask\n\
eth0\t000A380A\t00000000\t0001\t0\t0\t0\t00FFFFFF\n\
eth0\t00000000\t010A380A\t0003\t0\t0\t0\t00000000\n";
    // 010A380A read little-endian is 10.56.10.1.
    let gw = netscan::iface::parse_default_gateway(table).expect("gateway line present");
    assert_eq!(netscan::ipv4::format_ipv4(gw), "10.56.10.1");
    assert!(netscan::iface::parse_default_gateway("header only\n").is_none());
}
