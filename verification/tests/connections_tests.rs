use node_agent::connections::{Endpoint, IpAddress, NetConnections, ProcessLinks};

fn links(name: &str, targets: &[&str]) -> ProcessLinks {
    ProcessLinks {
        name: name.to_string(),
        links: targets.iter().map(|t| t.to_string()).collect(),
    }
}

fn lines(raw: &[&str]) -> Vec<String> {
    raw.iter().map(|l| l.to_string()).collect()
}

const HEADER: &str =
    "  sl  local_address rem_address   st tx_queue rx_queue tr tm->when retrnsmt   uid  timeout inode";

#[test]
fn local_address_field_decodes_to_loopback_endpoint() {
    // hex field 0100007F:1F90 is the endpoint 127.0.0.1:8080
    let r = NetConnections::parse_ip_port("0100007F:1F90", false).unwrap();
    assert_eq!(r.0, IpAddress::V4(0x7F00_0001));
    assert_eq!(r.1, 8080);
}

#[test]
fn address_field_rejects_malformed_hex() {
    assert_eq!(NetConnections::parse_ip_port("0100007G:1F90", false), None);
    assert_eq!(NetConnections::parse_ip_port("0100007F1F90", false), None);
    assert_eq!(NetConnections::parse_ip_port("0100007F:1F90:00", false), None);
    assert_eq!(NetConnections::parse_ip_port("0100007F:", false), None);
    assert_eq!(NetConnections::parse_ip_port(":1F90", false), None);
    // a port must fit in 16 bits, an address in 32
    assert_eq!(NetConnections::parse_ip_port("0100007F:10000", false), None);
    assert_eq!(NetConnections::parse_ip_port("100000000:1F90", false), None);
    // leading zeros are harmless
    let r = NetConnections::parse_ip_port("0000000100007F:1F90", false).unwrap();
    assert_eq!(r.0, IpAddress::V4(0x7F00_0001));
}

#[test]
fn ipv6_address_field_decodes_groups_in_table_order() {
    let r = NetConnections::parse_ip_port("00000000000000000000000001000000:0050", true).unwrap();
    assert_eq!(r.0, IpAddress::V6(0, 0, 0, 0, 0, 0, 0x0100, 0));
    assert_eq!(r.1, 0x50);
    // an IPv6 address part must hold exactly eight groups
    assert_eq!(NetConnections::parse_ip_port("00000000:0050", true), None);
}

#[test]
fn established_row_is_retained() {
    // state code 01 (ESTABLISHED) with a resolvable inode is kept
    let table = lines(&[
        HEADER,
        "   0: 0100007F:1F90 0200007F:0016 01 00000000:00000000 00:00000000 00000000  1000        0 12345 1 ffff8880",
    ]);
    let empty = lines(&[]);
    let entries = vec![links("4242", &["socket:[12345]"])];
    let rows = NetConnections::get_established_connections(&table, &empty, &entries);
    assert_eq!(rows.len(), 1);
    assert_eq!(
        rows[0],
        (
            Endpoint { ip: IpAddress::V4(0x7F00_0001), port: 8080 },
            Endpoint { ip: IpAddress::V4(0x7F00_0002), port: 22 },
            4242,
        )
    );
}

#[test]
fn closing_row_is_excluded() {
    // state code 06 (TIME_WAIT) is not ESTABLISHED and is dropped
    let table = lines(&[
        HEADER,
        "   0: 0100007F:1F90 0200007F:0016 06 00000000:00000000 00:00000000 00000000  1000        0 12345 1 ffff8880",
    ]);
    let empty = lines(&[]);
    let entries = vec![links("4242", &["socket:[12345]"])];
    let rows = NetConnections::get_established_connections(&table, &empty, &entries);
    assert_eq!(rows.len(), 0);
}

#[test]
fn row_with_unresolved_inode_is_dropped() {
    let table = lines(&[
        HEADER,
        "   0: 0100007F:1F90 0200007F:0016 01 00000000:00000000 00:00000000 00000000  1000        0 99999 1 ffff8880",
    ]);
    let empty = lines(&[]);
    let entries = vec![links("4242", &["socket:[12345]"])];
    let rows = NetConnections::get_established_connections(&table, &empty, &entries);
    assert_eq!(rows.len(), 0);
}

#[test]
fn malformed_row_is_dropped_silently() {
    let table = lines(&[
        HEADER,
        "   0: NOTHEX:1F90 0200007F:0016 01 00000000:00000000 00:00000000 00000000  1000        0 12345 1 ffff8880",
        "   1: 0100007F:1F90 0200007F:0016 01 short",
    ]);
    let empty = lines(&[]);
    let entries = vec![links("4242", &["socket:[12345]"])];
    let rows = NetConnections::get_established_connections(&table, &empty, &entries);
    assert_eq!(rows.len(), 0);
}

#[test]
fn ipv4_rows_precede_ipv6_rows() {
    let table4 = lines(&[
        HEADER,
        "   0: 0100007F:1F90 0200007F:0016 01 00000000:00000000 00:00000000 00000000  1000        0 111 1 ffff8880",
    ]);
    let table6 = lines(&[
        HEADER,
        "   0: 00000000000000000000000001000000:0050 00000000000000000000000001000000:0051 01 00000000:00000000 00:00000000 00000000  1000        0 222 1 ffff8880",
    ]);
    let entries = vec![
        links("10", &["socket:[111]"]),
        links("20", &["pipe:[5]", "socket:[222]"]),
    ];
    let net = NetConnections::new(&table4, &table6, &entries);
    assert_eq!(net.connections.len(), 2);
    assert_eq!(net.connections[0].2, 10);
    assert_eq!(net.connections[1].2, 20);
    assert!(matches!(net.connections[0].0.ip, IpAddress::V4(_)));
    assert!(matches!(net.connections[1].0.ip, IpAddress::V6(..)));
}

#[test]
fn inode_resolves_to_first_matching_numeric_entry() {
    let entries = vec![
        links("not-a-pid", &["socket:[777]"]),
        links("31", &["pipe:[9]"]),
        links("32", &["socket:[777]"]),
        links("33", &["socket:[777]"]),
    ];
    assert_eq!(NetConnections::get_pid_from_inode(&entries, "777"), Some(32));
    assert_eq!(NetConnections::get_pid_from_inode(&entries, "778"), None);
}
