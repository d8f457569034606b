//! Pools, routes and addresses as text.

use javs::addr::{parse_ipv4, push_ip, push_ipv6, Endpoint, IpAddress};
use javs::addresses::{destination, is_ip_packet, AddressBook, AddressError, Destination};
use javs::config::ServerConfig;
use javs::tun_dev::add_ipv6_args;

fn v4(a: u8, b: u8, c: u8, d: u8) -> u32 {
    u32::from_be_bytes([a, b, c, d])
}

fn peer(n: u16) -> Endpoint {
    Endpoint { ip: IpAddress::V4(v4(192, 0, 2, 1)), port: n, flowinfo: 0, scope_id: 0 }
}

fn config() -> ServerConfig {
    ServerConfig {
        listen: peer(1194),
        listen_tcp: None,
        ca: String::new(),
        cert: String::new(),
        key: String::new(),
        tun_name: "javs0".to_string(),
        tun_ip: IpAddress::V4(v4(10, 8, 0, 1)),
        tun_netmask: IpAddress::V4(v4(255, 255, 255, 0)),
        client_pool_start: IpAddress::V4(v4(10, 8, 0, 2)),
        client_pool_end: IpAddress::V4(v4(10, 8, 0, 4)),
        cipher: "AES-256-GCM".to_string(),
        tun_mtu: 1500,
        push_routes: vec![],
        push_dns: vec![],
        tun_ip6: None,
        tun_prefix6: 64,
        client_pool_start_v6: None,
        client_pool_end_v6: None,
        push_routes_v6: vec![],
        keepalive_ping: 10,
        keepalive_timeout: 60,
        tls_auth_key: None,
        tls_auth_key_direction: 1,
        tls_crypt_key: None,
        enable_nat: false,
        wan_iface: None,
        reneg_sec: 3600,
        client_configs: vec![],
    }
}

fn packet_to(ip: u32) -> Vec<u8> {
    let mut pkt = vec![0u8; 20];
    pkt[0] = 0x45;
    pkt[16..20].copy_from_slice(&ip.to_be_bytes());
    pkt
}

fn packet_to_v6(ip: u128) -> Vec<u8> {
    let mut pkt = vec![0u8; 40];
    pkt[0] = 0x60;
    pkt[24..40].copy_from_slice(&ip.to_be_bytes());
    pkt
}

#[test]
fn pool_hands_out_each_address_once() {
    let mut book = AddressBook::new(&config()).unwrap();
    assert_eq!(book.allocate_ip(), Ok(v4(10, 8, 0, 2)));
    assert_eq!(book.allocate_ip(), Ok(v4(10, 8, 0, 3)));
    assert_eq!(book.allocate_ip(), Ok(v4(10, 8, 0, 4)));
    assert_eq!(book.allocate_ip(), Err(AddressError::PoolExhausted));
    assert_eq!(book.allocate_ip(), Err(AddressError::PoolExhausted));
    assert_eq!(book.allocate_ip_v6(), Ok(None));
}

#[test]
fn pool_that_ends_at_the_last_address_starts_over() {
    let mut cfg = config();
    cfg.client_pool_start = IpAddress::V4(u32::MAX);
    cfg.client_pool_end = IpAddress::V4(u32::MAX);
    let mut book = AddressBook::new(&cfg).unwrap();
    assert_eq!(book.allocate_ip(), Ok(u32::MAX));
    assert_eq!(book.allocate_ip(), Ok(0));
}

#[test]
fn v6_pool() {
    let mut cfg = config();
    cfg.tun_ip6 = Some(IpAddress::V6(1));
    assert_eq!(AddressBook::new(&cfg).err(), Some(AddressError::PoolV6Missing));
    cfg.client_pool_start_v6 = Some(IpAddress::V6(0x10));
    cfg.client_pool_end_v6 = Some(IpAddress::V4(0x11));
    assert_eq!(AddressBook::new(&cfg).err(), Some(AddressError::PoolV6Missing));
    cfg.client_pool_end_v6 = Some(IpAddress::V6(0x11));
    let mut book = AddressBook::new(&cfg).unwrap();
    assert_eq!(book.assign_v6(peer(1)), Ok(Some(0x10)));
    assert_eq!(book.assign_v6(peer(2)), Ok(Some(0x11)));
    assert_eq!(book.assign_v6(peer(3)), Err(AddressError::PoolV6Exhausted));
    assert_eq!(book.route(&packet_to_v6(0x11)), Some(peer(2)));
    book.release(None, Some(0x11));
    assert_eq!(book.route(&packet_to_v6(0x11)), None);
    assert_eq!(book.route(&packet_to_v6(0x10)), Some(peer(1)));
}

#[test]
fn pools_that_are_refused() {
    let mut cfg = config();
    cfg.client_pool_end = IpAddress::V6(0);
    assert_eq!(AddressBook::new(&cfg).err(), Some(AddressError::PoolEndNotV4));
    cfg.client_pool_start = IpAddress::V6(0);
    assert_eq!(AddressBook::new(&cfg).err(), Some(AddressError::PoolStartNotV4));
}

#[test]
fn assigned_addresses_are_routed_until_released() {
    let mut book = AddressBook::new(&config()).unwrap();
    let fixed = Some(IpAddress::V4(v4(10, 8, 0, 200)));
    assert_eq!(book.assign(None, peer(1)), Ok(v4(10, 8, 0, 2)));
    assert_eq!(book.assign(fixed, peer(2)), Ok(v4(10, 8, 0, 200)));
    assert_eq!(
        book.assign(fixed, peer(3)),
        Err(AddressError::StaticInUse(v4(10, 8, 0, 200)))
    );
    assert_eq!(
        book.assign(Some(IpAddress::V6(5)), peer(3)),
        Err(AddressError::StaticNotV4)
    );
    assert_eq!(book.route(&packet_to(v4(10, 8, 0, 2))), Some(peer(1)));
    assert_eq!(book.route(&packet_to(v4(10, 8, 0, 200))), Some(peer(2)));
    assert_eq!(book.route(&packet_to(v4(10, 8, 0, 3))), None);
    book.release(fixed, None);
    assert_eq!(book.route(&packet_to(v4(10, 8, 0, 200))), None);
    assert_eq!(book.route(&packet_to(v4(10, 8, 0, 2))), Some(peer(1)));
    assert_eq!(book.assign(fixed, peer(4)), Ok(v4(10, 8, 0, 200)));
    // An address of the pool is not handed out again.
    book.release(Some(IpAddress::V4(v4(10, 8, 0, 2))), None);
    assert_eq!(book.assign(None, peer(5)), Ok(v4(10, 8, 0, 3)));
}

#[test]
fn destinations_of_packets() {
    assert!(matches!(destination(&packet_to(7)), Destination::V4(7)));
    let ip = 0x0102_0304_0506_0708_090a_0b0c_0d0e_0f10u128;
    assert!(matches!(destination(&packet_to_v6(ip)), Destination::V6(x) if x == ip));
    assert!(matches!(destination(&packet_to(7)[..19]), Destination::Unknown));
    assert!(matches!(destination(&packet_to_v6(ip)[..39]), Destination::Unknown));
    assert!(matches!(destination(&[]), Destination::Unknown));
    assert!(matches!(destination(&[0x50; 64]), Destination::Unknown));
    assert!(is_ip_packet(&[0x45]));
    assert!(is_ip_packet(&[0x60]));
    assert!(!is_ip_packet(&[0x2a]));
    assert!(!is_ip_packet(&[]));
}

fn text(ip: IpAddress) -> String {
    let mut s = String::new();
    push_ip(&mut s, ip);
    s
}

#[test]
fn addresses_as_text() {
    let samples: Vec<(u128, &str)> = vec![
        (0, "::"),
        (1, "::1"),
        (0xfd00_beef_0000_0000_0000_0000_0000_0001, "fd00:beef::1"),
        (0x2001_0db8_0000_0000_0001_0000_0000_0001, "2001:db8::1:0:0:1"),
        (0x2001_0db8_0001_0001_0001_0001_0001_0001, "2001:db8:1:1:1:1:1:1"),
        (0x2001_0db8_0000_0001_0001_0001_0001_0001, "2001:db8:0:1:1:1:1:1"),
        (0x0000_0000_0000_0000_0000_ffff_c000_0201, "::ffff:192.0.2.1"),
        (0x0000_0000_0000_0000_0000_0000_c000_0201, "::c000:201"),
        (0x0001_0000_0000_0000_0000_0000_0000_0000, "1::"),
        (0x0001_0000_0000_0002_0000_0000_0000_0000, "1:0:0:2::"),
        (u128::MAX, "ffff:ffff:ffff:ffff:ffff:ffff:ffff:ffff"),
    ];
    for (ip, expected) in samples {
        assert_eq!(text(IpAddress::V6(ip)), expected);
    }
    assert_eq!(text(IpAddress::V4(0)), "0.0.0.0");
    assert_eq!(text(IpAddress::V4(v4(10, 8, 0, 1))), "10.8.0.1");
    assert_eq!(text(IpAddress::V4(u32::MAX)), "255.255.255.255");
    assert_eq!(text(IpAddress::V4(v4(100, 20, 3, 0))), "100.20.3.0");
    let mut s = "x ".to_string();
    push_ipv6(&mut s, 0xfd00_beef_0000_0000_0000_0000_0000_0001);
    assert_eq!(s, "x fd00:beef::1");
}

#[test]
fn ipv4_addresses_are_read() {
    for ip in [0, 1, v4(10, 8, 0, 1), v4(100, 20, 3, 0), u32::MAX] {
        assert_eq!(parse_ipv4(&text(IpAddress::V4(ip))), Some(ip));
    }
    let bad = [
        "", ".", "1", "1.2.3", "1.2.3.", ".1.2.3", "1.2.3.4.", "1.2.3.4.5", "1..2.3", "01.2.3.4",
        "1.2.3.00", "256.1.1.1", "1.2.3.4294967300", "+1.2.3.4", "1.2.3.4 ", "a.b.c.d", "::1",
    ];
    for text in bad {
        assert_eq!(parse_ipv4(text), None);
    }
}

#[test]
fn ipv6_address_command() {
    assert_eq!(
        add_ipv6_args("javs0", 0xfd00_beef_0000_0000_0000_0000_0000_0001, 64),
        vec!["-6", "addr", "add", "fd00:beef::1/64", "dev", "javs0"]
    );
}
