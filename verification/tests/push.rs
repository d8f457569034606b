//! The push reply and the configuration.

use javs::addr::{Endpoint, IpAddress};
use javs::config::{
    default_cipher, default_keepalive_ping, default_keepalive_timeout, default_mtu,
    default_reneg_sec, default_tls_auth_direction, default_tun_name, default_tun_prefix6,
    ClientConfig, ConfigError, ServerConfig,
};
use javs::push::{build_push_reply, cidr_to_route, netmask_of};

fn v4(a: u8, b: u8, c: u8, d: u8) -> u32 {
    u32::from_be_bytes([a, b, c, d])
}

fn config() -> ServerConfig {
    ServerConfig {
        listen: Endpoint { ip: IpAddress::V4(0), port: 1194, flowinfo: 0, scope_id: 0 },
        listen_tcp: None,
        ca: String::new(),
        cert: String::new(),
        key: String::new(),
        tun_name: default_tun_name(false),
        tun_ip: IpAddress::V4(v4(10, 8, 0, 1)),
        tun_netmask: IpAddress::V4(v4(255, 255, 255, 0)),
        client_pool_start: IpAddress::V4(v4(10, 8, 0, 2)),
        client_pool_end: IpAddress::V4(v4(10, 8, 0, 254)),
        cipher: default_cipher(),
        tun_mtu: default_mtu(),
        push_routes: vec![],
        push_dns: vec![],
        tun_ip6: None,
        tun_prefix6: default_tun_prefix6(),
        client_pool_start_v6: None,
        client_pool_end_v6: None,
        push_routes_v6: vec![],
        keepalive_ping: default_keepalive_ping(),
        keepalive_timeout: default_keepalive_timeout(),
        tls_auth_key: None,
        tls_auth_key_direction: default_tls_auth_direction(),
        tls_crypt_key: None,
        enable_nat: false,
        wan_iface: None,
        reneg_sec: default_reneg_sec(),
        client_configs: vec![],
    }
}

#[test]
fn plain_reply() {
    let reply = build_push_reply(&config(), v4(10, 8, 0, 2), None, 7, &[]);
    assert_eq!(
        String::from_utf8(reply).unwrap(),
        "PUSH_REPLY,ifconfig 10.8.0.2 255.255.255.0,topology subnet,route-gateway 10.8.0.1,\
         ping 10,ping-restart 60,cipher AES-256-GCM,peer-id 7\0"
    );
}

#[test]
fn reply_with_everything() {
    let mut cfg = config();
    cfg.tun_netmask = IpAddress::V6(0);
    cfg.tun_ip6 = Some(IpAddress::V6(0xfd00_beef_0000_0000_0000_0000_0000_0001));
    cfg.push_routes = vec![
        "192.168.0.0/16".to_string(),
        "0.0.0.0/0".to_string(),
        "nonsense".to_string(),
        "not-an-ip/8".to_string(),
        "1.2.3.4/33".to_string(),
    ];
    cfg.push_routes_v6 = vec!["::/0".to_string(), "fd01::/16".to_string()];
    cfg.push_dns = vec![IpAddress::V4(v4(1, 1, 1, 1)), IpAddress::V6(1)];
    let extra = vec!["10.9.0.0/8".to_string()];
    let ip6 = Some(0xfd00_beef_0000_0000_0000_0000_0000_0010);
    let reply = build_push_reply(&cfg, v4(10, 8, 0, 9), ip6, 0xFF_FFFF, &extra);
    assert_eq!(
        String::from_utf8(reply).unwrap(),
        "PUSH_REPLY,ifconfig 10.8.0.9 255.255.255.0,topology subnet,route-gateway 10.8.0.1,\
         ifconfig-ipv6 fd00:beef::10/64 fd00:beef::1,route 192.168.0.0 255.255.0.0,\
         route 10.9.0.0 255.0.0.0,route 0.0.0.0 128.0.0.0,route 128.0.0.0 128.0.0.0,\
         route-ipv6 ::/0,route-ipv6 fd01::/16,dhcp-option DNS 1.1.1.1,dhcp-option DNS ::1,\
         ping 10,ping-restart 60,cipher AES-256-GCM,peer-id 16777215\0"
    );
}

#[test]
fn full_tunnel_for_one_client() {
    let extra = vec!["0.0.0.0/0".to_string()];
    let reply = build_push_reply(&config(), 1, None, 1, &extra);
    let text = String::from_utf8(reply).unwrap();
    assert!(text.contains(",route 0.0.0.0 128.0.0.0,route 128.0.0.0 128.0.0.0,"));
}

fn route(cidr: &str) -> Option<(String, String)> {
    cidr_to_route(cidr)
}

#[test]
fn cidrs() {
    let some = |a: &str, b: &str| Some((a.to_string(), b.to_string()));
    assert_eq!(route("10.0.0.0/8"), some("10.0.0.0", "255.0.0.0"));
    assert_eq!(route("10.0.0.0/0"), some("10.0.0.0", "0.0.0.0"));
    assert_eq!(route("10.0.0.0/32"), some("10.0.0.0", "255.255.255.255"));
    assert_eq!(route("10.0.0.0/+12"), some("10.0.0.0", "255.240.0.0"));
    assert_eq!(route("255.255.255.255/1"), some("255.255.255.255", "128.0.0.0"));
    assert_eq!(route("/1"), None);
    assert_eq!(route("not-an-ip/8"), None);
    assert_eq!(route("10.0.0/8"), None);
    assert_eq!(route("10.0.0.0.0/8"), None);
    assert_eq!(route("10.0.0.256/8"), None);
    assert_eq!(route("10.0.0.00/8"), None);
    assert_eq!(route(" 10.0.0.0/8"), None);
    assert_eq!(route("fd00::/8"), None);
    assert_eq!(route("10.0.0.0/33"), None);
    assert_eq!(route("10.0.0.0"), None);
    assert_eq!(route("10.0.0.0/"), None);
    assert_eq!(route("10.0.0.0/8/8"), None);
    assert_eq!(route("10.0.0.0/-1"), None);
    assert_eq!(route("10.0.0.0/4294967304"), None);
    assert_eq!(route("10.0.0.0/00000000000024"), some("10.0.0.0", "255.255.255.0"));
}

#[test]
fn pushed_netmask() {
    assert_eq!(netmask_of(IpAddress::V4(5)), 5);
    assert_eq!(netmask_of(IpAddress::V6(5)), 0xffff_ff00);
}

#[test]
fn defaults() {
    assert_eq!(default_tun_name(false), "javs0");
    assert_eq!(default_tun_name(true), "utun9");
    assert_eq!(default_cipher(), "AES-256-GCM");
    assert_eq!(default_mtu(), 1500);
    assert_eq!(default_keepalive_ping(), 10);
    assert_eq!(default_keepalive_timeout(), 60);
    assert_eq!(default_tls_auth_direction(), 1);
    assert_eq!(default_reneg_sec(), 3600);
    assert_eq!(default_tun_prefix6(), 64);
}

#[test]
fn cipher_is_checked_in_any_case() {
    let mut cfg = config();
    cfg.cipher = "aes-256-gcm".to_string();
    assert_eq!(cfg.clone().validate().unwrap().cipher, "aes-256-gcm");
    cfg.cipher = "AES-128-GCM".to_string();
    match cfg.validate() {
        Err(ConfigError::UnsupportedCipher(c)) => assert_eq!(c, "AES-128-GCM"),
        Ok(_) => panic!("expected a refusal"),
    }
}

#[test]
fn overrides_are_found_by_name() {
    let mut cfg = config();
    for (i, name) in ["alice", "bob"].iter().enumerate() {
        cfg.client_configs.push((
            name.to_string(),
            ClientConfig { assign_ip: Some(IpAddress::V4(i as u32)), push_routes: vec![] },
        ));
    }
    assert_eq!(cfg.client_config("bob").unwrap().assign_ip, Some(IpAddress::V4(1)));
    assert_eq!(cfg.client_config("alice").unwrap().assign_ip, Some(IpAddress::V4(0)));
    assert!(cfg.client_config("carol").is_none());
    assert!(cfg.client_config("").is_none());
}
