use androiptv::net::{relevant_ips, IfAddr};

fn v4(octets: [u8; 4]) -> IfAddr {
    IfAddr::V4(octets[0], octets[1], octets[2], octets[3])
}

fn iface(name: &str, ip: IfAddr) -> (String, IfAddr) {
    (name.to_string(), ip)
}

#[test]
fn physical_interfaces_come_first() {
    let ips = relevant_ips(vec![
        iface("wlan0", v4([192, 168, 1, 50])),
        iface("docker0", v4([172, 17, 0, 1])),
        iface("eth0", v4([192, 168, 1, 40])),
    ]);
    assert_eq!(ips, vec!["192.168.1.40", "192.168.1.50", "172.17.0.1"]);
}

#[test]
fn virtual_adapters_are_appended_after_real_ones() {
    let ips = relevant_ips(vec![
        iface("veth1234", v4([10, 0, 1, 2])),
        iface("br-abc", v4([10, 0, 2, 2])),
        iface("wlan0", v4([192, 168, 1, 50])),
    ]);
    assert_eq!(ips, vec!["192.168.1.50", "10.0.1.2", "10.0.2.2"]);
}

#[test]
fn loopback_link_local_and_v6_are_dropped() {
    let ips = relevant_ips(vec![
        iface("lo", v4([127, 0, 0, 1])),
        iface("wlan0", v4([169, 254, 10, 10])),
        iface("wlan0", v4([0, 0, 0, 0])),
        // fe80::1
        iface("wlan0", IfAddr::V6([0xfe80, 0, 0, 0, 0, 0, 0, 1])),
        iface("wlan0", v4([192, 168, 1, 50])),
    ]);
    assert_eq!(ips, vec!["192.168.1.50"]);
}

#[test]
fn adapter_names_match_case_insensitively() {
    let ips = relevant_ips(vec![
        iface("Docker0", v4([172, 17, 0, 1])),
        iface("TAILSCALE0", v4([100, 64, 0, 1])),
        iface("Ethernet", v4([192, 168, 0, 9])),
        iface("eth0", v4([192, 168, 0, 9])),
    ]);
    assert_eq!(ips, vec!["192.168.0.9", "100.64.0.1", "172.17.0.1"]);
}
