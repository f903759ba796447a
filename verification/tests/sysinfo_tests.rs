use node_agent::sysinfo::{InterfaceAddress, InterfaceInfo, SystemInfo};

fn iface(name: &str, up: bool, loopback: bool, addrs: &[(bool, &str)]) -> InterfaceInfo {
    InterfaceInfo {
        name: name.to_string(),
        up,
        loopback,
        addresses: addrs
            .iter()
            .map(|(is_v4, text)| InterfaceAddress { is_v4: *is_v4, text: text.to_string() })
            .collect(),
    }
}

fn machine_interfaces() -> Vec<InterfaceInfo> {
    vec![
        iface("lo", true, true, &[(true, "127.0.0.1/8")]),
        iface("down0", false, false, &[(true, "10.0.0.9/24")]),
        iface("empty0", true, false, &[]),
        iface(
            "eth0",
            true,
            false,
            &[
                (true, "192.168.1.5/24"),
                (false, "fe80::1/64"),
                (true, "192.168.1.6/24"),
            ],
        ),
        iface("eth1", true, false, &[(true, "172.16.0.2/16")]),
    ]
}

#[test]
fn get_system_info_which_succeeds() {
    let result = SystemInfo::new(
        "8a1f2c3d4e5f60718293a4b5c6d7e8f9\n".to_string(),
        "testhost".to_string(),
        &machine_interfaces(),
    );
    assert_eq!(result.agent_id, "8a1f2c3d4e5f60718293a4b5c6d7e8f9");
}

#[test]
fn get_ipv4_addresses_which_succeed() {
    let result = SystemInfo::get_ipaddresses("v4", &machine_interfaces());
    assert!(result
        .iter()
        .any(|n| pnet::ipnetwork::IpNetwork::V4(n.parse().unwrap()).is_ipv4()));
}

#[test]
fn get_ipv6_addresses_which_succeed() {
    let result = SystemInfo::get_ipaddresses("v6", &machine_interfaces());
    assert!(result
        .iter()
        .any(|n| pnet::ipnetwork::IpNetwork::V6(n.parse().unwrap()).is_ipv6()));
}

#[test]
fn addresses_come_from_first_eligible_interface_only() {
    // loopback, down and address-less interfaces are passed over; the
    // second eligible interface is never consulted
    let v4 = SystemInfo::get_ipaddresses("v4", &machine_interfaces());
    assert_eq!(v4, vec!["192.168.1.5/24".to_string(), "192.168.1.6/24".to_string()]);
    let v6 = SystemInfo::get_ipaddresses("v6", &machine_interfaces());
    assert_eq!(v6, vec!["fe80::1/64".to_string()]);
}

#[test]
fn family_selector_ignores_case_and_rejects_unknown_words() {
    let ifaces = machine_interfaces();
    assert_eq!(SystemInfo::get_ipaddresses("V4", &ifaces).len(), 2);
    assert_eq!(SystemInfo::get_ipaddresses("V6", &ifaces).len(), 1);
    assert_eq!(SystemInfo::get_ipaddresses("v5", &ifaces).len(), 0);
    assert_eq!(SystemInfo::get_ipaddresses("", &ifaces).len(), 0);
}

#[test]
fn no_eligible_interface_yields_no_addresses() {
    let ifaces = vec![iface("lo", true, true, &[(true, "127.0.0.1/8")])];
    assert_eq!(SystemInfo::get_ipaddresses("v4", &ifaces).len(), 0);
}

#[test]
fn machine_id_without_trailing_newline_is_kept_whole() {
    let result = SystemInfo::new("abc123".to_string(), "h".to_string(), &vec![]);
    assert_eq!(result.agent_id, "abc123");
    // only a single trailing newline is removed
    let result = SystemInfo::new("abc123\n\n".to_string(), "h".to_string(), &vec![]);
    assert_eq!(result.agent_id, "abc123\n");
}

#[test]
fn hostname_is_carried_through() {
    let result = SystemInfo::new("id".to_string(), "myhost".to_string(), &machine_interfaces());
    assert_eq!(result.hostname, "myhost");
    assert_eq!(result.ipv4_addresses.len(), 2);
    assert_eq!(result.ipv6_addresses.len(), 1);
}
