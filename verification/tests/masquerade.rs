//! Firewall rules and the kernel's tables.

use javs::addr::{Endpoint, IpAddress};
use javs::config::ServerConfig;
use javs::masquerade::{
    detect_default_route_iface, enable_masquerade, ip_forward_setting, parse_ip_forward, plan,
    subnet_to_cidr, NatAction, NatError, NatStep,
};

fn v4(a: u8, b: u8, c: u8, d: u8) -> u32 {
    u32::from_be_bytes([a, b, c, d])
}

#[test]
fn cidr_basic() {
    assert_eq!(
        subnet_to_cidr(v4(10, 8, 0, 1), v4(255, 255, 255, 0)),
        "10.8.0.0/24"
    );
    assert_eq!(
        subnet_to_cidr(v4(192, 168, 5, 50), v4(255, 255, 0, 0)),
        "192.168.0.0/16"
    );
    assert_eq!(
        subnet_to_cidr(v4(172, 16, 200, 1), v4(255, 240, 0, 0)),
        "172.16.0.0/12"
    );
}

#[test]
fn cidr_of_odd_masks() {
    assert_eq!(subnet_to_cidr(v4(1, 2, 3, 4), 0), "0.0.0.0/0");
    assert_eq!(subnet_to_cidr(v4(1, 2, 3, 4), u32::MAX), "1.2.3.4/32");
    // A mask with a gap counts the one bits at its top.
    assert_eq!(subnet_to_cidr(v4(255, 255, 255, 255), v4(255, 0, 255, 0)), "255.0.255.0/8");
}

/// A step as one line: a mark for required steps, then the action.
fn line(step: &NatStep) -> String {
    let mark = if step.required { "!" } else { "?" };
    match &step.action {
        NatAction::SetIpForward(on) => format!("{mark} forward {on}"),
        NatAction::Iptables(args) => format!("{mark} {}", args.join(" ")),
    }
}

#[test]
fn rules_are_installed_and_removed() {
    let (guard, steps) =
        enable_masquerade("javs0", "eth0", v4(10, 8, 0, 1), v4(255, 255, 255, 0), Some(false));
    let lines: Vec<String> = steps.iter().map(line).collect();
    assert_eq!(
        lines,
        vec![
            "! forward true",
            "? -t nat -D POSTROUTING -s 10.8.0.0/24 -o eth0 -j MASQUERADE",
            "? -D FORWARD -i javs0 -o eth0 -j ACCEPT",
            "? -D FORWARD -i eth0 -o javs0 -m state --state RELATED,ESTABLISHED -j ACCEPT",
            "! -t nat -A POSTROUTING -s 10.8.0.0/24 -o eth0 -j MASQUERADE",
            "! -A FORWARD -i javs0 -o eth0 -j ACCEPT",
            "! -A FORWARD -i eth0 -o javs0 -m state --state RELATED,ESTABLISHED -j ACCEPT",
        ]
    );
    let lines: Vec<String> = guard.cleanup().iter().map(line).collect();
    assert_eq!(
        lines,
        vec![
            "? -D FORWARD -i eth0 -o javs0 -m state --state RELATED,ESTABLISHED -j ACCEPT",
            "? -D FORWARD -i javs0 -o eth0 -j ACCEPT",
            "? -t nat -D POSTROUTING -s 10.8.0.0/24 -o eth0 -j MASQUERADE",
            "? forward false",
        ]
    );
}

#[test]
fn forwarding_that_is_on_is_left_alone() {
    let (guard, steps) = enable_masquerade("t", "w", 0, 0, Some(true));
    assert_eq!(steps.len(), 6);
    assert_eq!(line(&guard.cleanup()[3]), "? forward true");
    let (guard, steps) = enable_masquerade("t", "w", 0, 0, None);
    assert_eq!(line(&steps[0]), "! forward true");
    assert_eq!(guard.cleanup().len(), 3);
}

const TABLE: &str = "Iface\tDestination\tGateway \tFlags\tRefCnt\tUse\tMetric\tMask\t\tMTU\n\
    docker0\t000011AC\t00000000\t0001\t0\t0\t0\t0000FFFF\t0\n\
    eth1\t00000000\t0100000A\t0003\t0\t0\t100\t00000000\t0\n\
    eth2\t00000000\t0100000B\t0003\t0\t0\t200\t00000000\t0\n";

#[test]
fn default_route_is_found() {
    assert_eq!(detect_default_route_iface(TABLE), Ok("eth1".to_string()));
    assert_eq!(detect_default_route_iface(""), Err(NatError::NoDefaultRoute));
    // The heading does not count, and neither do short lines.
    let heading = "eth9 00000000 a b c d e f";
    assert_eq!(detect_default_route_iface(heading), Err(NatError::NoDefaultRoute));
    let short = "x\neth9 00000000 a b c d e\n";
    assert_eq!(detect_default_route_iface(short), Err(NatError::NoDefaultRoute));
    let last = "x\neth9 00000000 a b c d e f";
    assert_eq!(detect_default_route_iface(last), Ok("eth9".to_string()));
}

#[test]
fn forwarding_setting() {
    assert!(parse_ip_forward("1\n"));
    assert!(parse_ip_forward(" 1 "));
    assert!(!parse_ip_forward("0\n"));
    assert!(!parse_ip_forward("11"));
    assert!(!parse_ip_forward(""));
    assert_eq!(ip_forward_setting(true), "1\n");
    assert_eq!(ip_forward_setting(false), "0\n");
}

fn config() -> ServerConfig {
    ServerConfig {
        listen: Endpoint { ip: IpAddress::V4(0), port: 1194, flowinfo: 0, scope_id: 0 },
        listen_tcp: None,
        ca: String::new(),
        cert: String::new(),
        key: String::new(),
        tun_name: "javs0".to_string(),
        tun_ip: IpAddress::V4(v4(10, 8, 0, 1)),
        tun_netmask: IpAddress::V4(v4(255, 255, 255, 0)),
        client_pool_start: IpAddress::V4(v4(10, 8, 0, 2)),
        client_pool_end: IpAddress::V4(v4(10, 8, 0, 254)),
        cipher: "AES-256-GCM".to_string(),
        tun_mtu: 1500,
        push_routes: vec![],
        push_dns: vec![],
        tun_ip6: None,
        tun_prefix6: 64,
        client_pool_start_v6: None,
        client_pool_end_v6: None,
        push_routes_v6: vec![],
        keepalive_ping: 10,
        keepalive_timeout: 60,
        tls_auth_key: None,
        tls_auth_key_direction: 1,
        tls_crypt_key: None,
        enable_nat: true,
        wan_iface: None,
        reneg_sec: 3600,
        client_configs: vec![],
    }
}

#[test]
fn plan_follows_the_configuration() {
    let mut cfg = config();
    let (guard, steps) = plan(&cfg, TABLE, None).unwrap().unwrap();
    assert_eq!(guard.wan_iface, "eth1");
    assert_eq!(guard.cidr, "10.8.0.0/24");
    assert_eq!(steps.len(), 7);
    assert_eq!(plan(&cfg, "", None).err(), Some(NatError::NoDefaultRoute));
    cfg.wan_iface = Some("wan".to_string());
    assert_eq!(plan(&cfg, "", None).unwrap().unwrap().0.wan_iface, "wan");
    cfg.tun_netmask = IpAddress::V6(0);
    assert_eq!(plan(&cfg, "", None).err(), Some(NatError::NetmaskNotV4));
    cfg.tun_ip = IpAddress::V6(1);
    assert_eq!(plan(&cfg, "", None).err(), Some(NatError::TunIpNotV4));
    cfg.enable_nat = false;
    assert!(plan(&cfg, "", None).unwrap().is_none());
}
