//! Certificates, and whole exchanges between a TLS client and the server.

use std::io::{Read, Write};
use std::sync::Arc;

use javs::addr::{Endpoint, IpAddress};
use javs::addresses::{AddressBook, AddressError};
use javs::config::{ClientConfig, ServerConfig};
use javs::control_channel::{build_options_string, build_peer_info, ControlError};
use javs::control_plane::{
    build_key_method_reply, drive_control_plane, drive_rekey_control_plane, enter_key_exchange,
    finish_rekey, receive_main, receive_rekey, ServerError,
};
use javs::crypto::DataCipher;
use javs::prf::derive_openvpn_key_data;
use javs::push::build_push_reply;
use javs::replay::ReplayWindow;
use javs::server::{
    chunks, flush_outgoing, flush_rekey_outgoing, queue_restart, tunnel_packet, Flush,
};
use javs::session::{DataEvent, KeySlot, RekeyState, Session, State};
use javs::tls::{extract_common_name, TlsError, TlsSession};
use javs::tls_config::{
    build_server_config, load_certs, load_private_key, KeyKind, PrivateKey, TlsConfigError,
};
use rustls::crypto::ring::default_provider;
use rustls::pki_types::{CertificateDer, PrivateKeyDer, PrivatePkcs8KeyDer, ServerName};
use rustls::{ClientConnection, RootCertStore};

const CA: &str = "\
-----BEGIN CERTIFICATE-----\n\
MIIBVTCB/aADAgECAgEBMAoGCCqGSM49BAMCMBIxEDAOBgNVBAMMB1Rlc3QgQ0Ew\n\
IBcNMjAwMTAxMDAwMDAwWhgPMjEyMDAxMDEwMDAwMDBaMBIxEDAOBgNVBAMMB1Rl\n\
c3QgQ0EwWTATBgcqhkjOPQIBBggqhkjOPQMBBwNCAAQNlPiRrIVGyWaZIkCfBGAj\n\
UgoAhbUhuf/xBNYnO11HGUUrm86S+St2PxNf11jTf1JhQbpCPndNhOV3eKqxNL6h\n\
o0IwQDAPBgNVHRMBAf8EBTADAQH/MA4GA1UdDwEB/wQEAwIBBjAdBgNVHQ4EFgQU\n\
LxdNvAqMmhbGYSOb9wCME0Iap1EwCgYIKoZIzj0EAwIDRwAwRAIgaSZJTkYXe0pQ\n\
wnHEtz60oJWKiVy/GBZawu676UqDWwMCIEYMwGgWFYRi8d2INB5Jp7nkl/p2nvrk\n\
zEeRyvfe334x\n\
-----END CERTIFICATE-----\n\
";

const SERVER: &str = "\
-----BEGIN CERTIFICATE-----\n\
MIIBnDCCAUOgAwIBAgIBBTAKBggqhkjOPQQDAjASMRAwDgYDVQQDDAdUZXN0IENB\n\
MCAXDTIwMDEwMTAwMDAwMFoYDzIxMjAwMTAxMDAwMDAwWjARMQ8wDQYDVQQDDAZz\n\
ZXJ2ZXIwWTATBgcqhkjOPQIBBggqhkjOPQMBBwNCAAQCF+YX8LZEOSgnj5aZnmmi\n\
Ok8sFSvfbWzfZuW4AoLU7RlKfevLl3EtLdo8qFqodlpW9F/HWFmWUvKJfGUwbleU\n\
o4GIMIGFMAkGA1UdEwQCMAAwCwYDVR0PBAQDAgeAMBMGA1UdJQQMMAoGCCsGAQUF\n\
BwMBMBYGA1UdEQQPMA2CC3NlcnZlci50ZXN0MB0GA1UdDgQWBBQzymvF6SDmvsKh\n\
bOB6cOgoK81o0TAfBgNVHSMEGDAWgBQvF028CoyaFsZhI5v3AIwTQhqnUTAKBggq\n\
hkjOPQQDAgNHADBEAiBqPTMTCU9t4uP6X4bnR0W/ha5ot0J+aKc8E0Pojnw/SwIg\n\
DaBq+GJ0dsa+cR5tdWC4rrN9OU8UGhDCkHGH4Vezg5E=\n\
-----END CERTIFICATE-----\n\
";

const ALICE: &str = "\
-----BEGIN CERTIFICATE-----\n\
MIIBrjCCAVOgAwIBAgIBBjAKBggqhkjOPQQDAjASMRAwDgYDVQQDDAdUZXN0IENB\n\
MCAXDTIwMDEwMTAwMDAwMFoYDzIxMjAwMTAxMDAwMDAwWjAiMRAwDgYDVQQKDAdF\n\
eGFtcGxlMQ4wDAYDVQQDDAVhbGljZTBZMBMGByqGSM49AgEGCCqGSM49AwEHA0IA\n\
BNZak5d8qj0bCBhS/1ennkZfFmBXcwS66tUF3TpIWJzzUBheiVNy32Ih6joTdVfk\n\
c/3bZ1XwW9UHw8Uz/OnJEoWjgYcwgYQwCQYDVR0TBAIwADALBgNVHQ8EBAMCB4Aw\n\
EwYDVR0lBAwwCgYIKwYBBQUHAwIwFQYDVR0RBA4wDIIKYWxpY2UudGVzdDAdBgNV\n\
HQ4EFgQUC2mT8S0HVd9jqWIq/uAKrIjLadswHwYDVR0jBBgwFoAULxdNvAqMmhbG\n\
YSOb9wCME0Iap1EwCgYIKoZIzj0EAwIDSQAwRgIhAIjGLc+W4lOrvjf+HQwJB87n\n\
7UYh6Sj1CcXDBq8cBrFdAiEAxcnA4nJCZhN477rhJL7n0iBrIEeGwF4tFhsEtfLD\n\
GVk=\n\
-----END CERTIFICATE-----\n\
";

const NAMELESS: &str = "\
-----BEGIN CERTIFICATE-----\n\
MIIBnzCCAUagAwIBAgIBBzAKBggqhkjOPQQDAjASMRAwDgYDVQQDDAdUZXN0IENB\n\
MCAXDTIwMDEwMTAwMDAwMFoYDzIxMjAwMTAxMDAwMDAwWjASMRAwDgYDVQQKDAdF\n\
eGFtcGxlMFkwEwYHKoZIzj0CAQYIKoZIzj0DAQcDQgAEUadYCDOJjqGxg8vXNQpA\n\
mQeMbvHB4Y6XDNdoMDXyXn0BEFInErC1p8/wgWhUhphKlOaDHtrEbnNg+p2DSnqB\n\
oaOBijCBhzAJBgNVHRMEAjAAMAsGA1UdDwQEAwIHgDATBgNVHSUEDDAKBggrBgEF\n\
BQcDAjAYBgNVHREEETAPgg1uYW1lbGVzcy50ZXN0MB0GA1UdDgQWBBT9jxRBm+tD\n\
dqbDfLsbQw9eBZRIuTAfBgNVHSMEGDAWgBQvF028CoyaFsZhI5v3AIwTQhqnUTAK\n\
BggqhkjOPQQDAgNHADBEAiBvKHZ9HG4i5pOaHbef2WFy3wv9MmLsuelZ6JIFCzU0\n\
+AIgAhei85Mif8vKTp5tnce84XeGWplFRYoWT0MaXux+E2E=\n\
-----END CERTIFICATE-----\n\
";

// The private keys that belong to the certificates: P-256 scalars of one
// repeated byte.
const SERVER_SCALAR: u8 = 0x11;
const ALICE_SCALAR: u8 = 0x22;
const NAMELESS_SCALAR: u8 = 0x33;

/// The object identifier of the curve P-256, encoded.
const P256: [u8; 10] = [0x06, 0x08, 0x2a, 0x86, 0x48, 0xce, 0x3d, 0x03, 0x01, 0x07];

/// The public key in a certificate, as an encoded bit string.
fn public_key(cert: &str) -> Vec<u8> {
    let cert = der(cert);
    let at = cert.windows(4).position(|w| w == [0x03, 0x42, 0x00, 0x04]).unwrap();
    cert[at..at + 68].to_vec()
}

/// The private key of a certificate in the SEC1 encoding; the curve is named
/// if `named`.
fn sec1_der(cert: &str, scalar: u8, named: bool) -> Vec<u8> {
    let mut body = vec![0x02, 0x01, 0x01, 0x04, 0x20];
    body.extend_from_slice(&[scalar; 32]);
    if named {
        body.extend_from_slice(&[0xa0, 0x0a]);
        body.extend_from_slice(&P256);
    }
    body.extend_from_slice(&[0xa1, 0x44]);
    body.extend_from_slice(&public_key(cert));
    let mut out = vec![0x30, body.len() as u8];
    out.extend_from_slice(&body);
    out
}

/// The private key of a certificate in the PKCS #8 encoding.
fn pkcs8_der(cert: &str, scalar: u8) -> Vec<u8> {
    let inner = sec1_der(cert, scalar, false);
    let mut body = vec![0x02, 0x01, 0x00, 0x30, 0x13];
    body.extend_from_slice(&[0x06, 0x07, 0x2a, 0x86, 0x48, 0xce, 0x3d, 0x02, 0x01]);
    body.extend_from_slice(&P256);
    body.extend_from_slice(&[0x04, inner.len() as u8]);
    body.extend_from_slice(&inner);
    let mut out = vec![0x30, 0x81, body.len() as u8];
    out.extend_from_slice(&body);
    out
}

fn base64(bytes: &[u8]) -> String {
    let digits: Vec<char> = ('A'..='Z').chain('a'..='z').chain('0'..='9').chain(['+', '/']).collect();
    let mut out = String::new();
    for group in bytes.chunks(3) {
        let mut value = 0u32;
        for i in 0..3 {
            value = value << 8 | u32::from(*group.get(i).unwrap_or(&0));
        }
        for i in 0..4 {
            if i <= group.len() {
                out.push(digits[(value >> (18 - 6 * i)) as usize & 63]);
            } else {
                out.push('=');
            }
        }
    }
    out
}

fn pem(label: &str, body: &str) -> String {
    format!("-----BEGIN {label}-----\n{body}\n-----END {label}-----\n")
}

/// The private key of a certificate as a PEM text.
fn key_pem(cert: &str, scalar: u8) -> String {
    pem("PRIVATE KEY", &base64(&pkcs8_der(cert, scalar)))
}

fn server_key() -> PrivateKey {
    load_private_key(key_pem(SERVER, SERVER_SCALAR).as_bytes()).unwrap()
}

fn der(pem: &str) -> Vec<u8> {
    load_certs(pem.as_bytes()).unwrap().remove(0)
}

fn server_tls_config() -> Arc<rustls::ServerConfig> {
    build_server_config(
        load_certs(CA.as_bytes()).unwrap(),
        load_certs(SERVER.as_bytes()).unwrap(),
        server_key(),
    )
    .unwrap()
}

fn server_tls() -> TlsSession {
    TlsSession::new(server_tls_config()).unwrap()
}

/// A TLS client with the given certificate and key, if any.
fn client(identity: Option<(&str, u8)>) -> ClientConnection {
    let mut roots = RootCertStore::empty();
    roots.add(CertificateDer::from(der(CA))).unwrap();
    let builder = rustls::ClientConfig::builder_with_provider(Arc::new(default_provider()))
        .with_safe_default_protocol_versions()
        .unwrap()
        .with_root_certificates(roots);
    let cfg = match identity {
        None => builder.with_no_client_auth(),
        Some((cert, scalar)) => builder
            .with_client_auth_cert(
                vec![CertificateDer::from(der(cert))],
                PrivateKeyDer::Pkcs8(PrivatePkcs8KeyDer::from(pkcs8_der(cert, scalar))),
            )
            .unwrap(),
    };
    let name = ServerName::try_from("server.test").unwrap();
    ClientConnection::new(Arc::new(cfg), name).unwrap()
}

fn peer() -> Endpoint {
    Endpoint { ip: IpAddress::V4(0xC000_0201), port: 5000, flowinfo: 0, scope_id: 0 }
}

fn v4(a: u8, b: u8, c: u8, d: u8) -> u32 {
    u32::from_be_bytes([a, b, c, d])
}

fn config() -> ServerConfig {
    ServerConfig {
        listen: peer(),
        listen_tcp: None,
        ca: String::new(),
        cert: String::new(),
        key: String::new(),
        tun_name: "javs0".to_string(),
        tun_ip: IpAddress::V4(v4(10, 8, 0, 1)),
        tun_netmask: IpAddress::V4(v4(255, 255, 255, 0)),
        client_pool_start: IpAddress::V4(v4(10, 8, 0, 2)),
        client_pool_end: IpAddress::V4(v4(10, 8, 0, 3)),
        cipher: "AES-256-GCM".to_string(),
        tun_mtu: 1500,
        push_routes: vec![],
        push_dns: vec![],
        tun_ip6: Some(IpAddress::V6(1)),
        tun_prefix6: 64,
        client_pool_start_v6: Some(IpAddress::V6(0x10)),
        client_pool_end_v6: Some(IpAddress::V6(0x10)),
        push_routes_v6: vec![],
        keepalive_ping: 10,
        keepalive_timeout: 60,
        tls_auth_key: None,
        tls_auth_key_direction: 1,
        tls_crypt_key: None,
        enable_nat: false,
        wan_iface: None,
        reneg_sec: 3600,
        client_configs: vec![(
            "alice".to_string(),
            ClientConfig {
                assign_ip: Some(IpAddress::V4(v4(10, 8, 0, 77))),
                push_routes: vec!["172.16.0.0/12".to_string()],
            },
        )],
    }
}

/// What the client has to send.
fn outgoing(client: &mut ClientConnection) -> Vec<u8> {
    let mut bytes = Vec::new();
    while client.wants_write() {
        client.write_tls(&mut bytes).unwrap();
    }
    bytes
}

/// Hands TLS bytes to the client; the plaintext that they bring.
fn deliver(client: &mut ClientConnection, bytes: &[u8]) -> Vec<u8> {
    let mut rest = bytes;
    while !rest.is_empty() {
        client.read_tls(&mut rest).unwrap();
        client.process_new_packets().unwrap();
    }
    let mut plaintext = Vec::new();
    let _ = client.reader().read_to_end(&mut plaintext);
    plaintext
}

struct Server {
    sess: Session,
    book: AddressBook,
    cfg: ServerConfig,
}

impl Server {
    fn new() -> Self {
        let cfg = config();
        let mut sess = Session::with_randoms(0xAAAA, server_tls(), 5, [11; 32], [12; 32], 0);
        sess.client_session_id = 0xBBBB;
        sess.state = State::Handshaking;
        Server { sess, book: AddressBook::new(&cfg).unwrap(), cfg }
    }

    fn receive(&mut self, payload: &[u8]) -> Result<(), ServerError> {
        receive_main(&mut self.sess, &mut self.book, &self.cfg, peer(), payload)
    }

    /// Lets client and server talk until neither has anything to say; the
    /// plaintext that the client got.
    fn talk(&mut self, client: &mut ClientConnection) -> Result<Vec<u8>, ServerError> {
        let mut plaintext = Vec::new();
        loop {
            let bytes = outgoing(client);
            for piece in chunks(&bytes) {
                self.receive(&piece)?;
            }
            match flush_outgoing(&mut self.sess) {
                Flush::Payloads(_, parts) => {
                    plaintext.extend_from_slice(&deliver(client, &parts.concat()));
                }
                _ => return Ok(plaintext),
            }
        }
    }
}

/// The client's packet with its secrets.
fn client_key_packet(pre_master: u8) -> Vec<u8> {
    let mut out = vec![0, 0, 0, 0, 2];
    out.extend_from_slice(&[pre_master; 48]);
    out.extend_from_slice(&[21; 32]);
    out.extend_from_slice(&[22; 32]);
    for text in ["V4,dev-type tun", "user", "pass", "IV_VER=2.6\n"] {
        out.extend_from_slice(&((text.len() + 1) as u16).to_be_bytes());
        out.extend_from_slice(text.as_bytes());
        out.push(0);
    }
    out
}

/// The client's end of the data channel.
fn client_session(pre_master: u8, random1: [u8; 32], random2: [u8; 32], key_id: u8) -> Session {
    let km = derive_openvpn_key_data(
        &[pre_master; 48],
        &[21; 32],
        &random1,
        &[22; 32],
        &random2,
        &0xBBBBu64.to_be_bytes(),
        &0xAAAAu64.to_be_bytes(),
    );
    let mut mirror = [0u8; 256];
    mirror[..128].copy_from_slice(&km[128..]);
    mirror[128..].copy_from_slice(&km[..128]);
    let mut sess = Session::with_randoms(0xBBBB, server_tls(), 5, [0; 32], [0; 32], 0);
    sess.slots[0] = Some(KeySlot {
        key_id,
        cipher: DataCipher::from_keymat_server(&mirror),
        data_pid_out: 1,
        replay: ReplayWindow::new(),
    });
    sess
}

fn established(identity: (&str, u8)) -> (Server, ClientConnection, Vec<u8>) {
    let mut server = Server::new();
    let mut client = client(Some(identity));
    assert!(server.talk(&mut client).unwrap().is_empty());
    assert!(!client.is_handshaking());
    assert_eq!(server.sess.state, State::KeyExchange);
    client.writer().write_all(&client_key_packet(20)).unwrap();
    client.writer().write_all(b"PUSH_REQUEST\0").unwrap();
    let got = server.talk(&mut client).unwrap();
    (server, client, got)
}

#[test]
fn pem_files_are_read() {
    assert_eq!(load_certs(CA.as_bytes()).unwrap().len(), 1);
    let both = format!("{SERVER}text in between\n{CA}");
    assert_eq!(load_certs(both.as_bytes()).unwrap(), vec![der(SERVER), der(CA)]);
    assert_eq!(load_certs(b""), Err(TlsConfigError::NoCertificates));
    let key = key_pem(SERVER, SERVER_SCALAR);
    assert_eq!(load_certs(key.as_bytes()), Err(TlsConfigError::NoCertificates));
    assert_eq!(load_certs(pem("CERTIFICATE", "!!!").as_bytes()), Err(TlsConfigError::BadPem));

    let read = load_private_key(key.as_bytes()).unwrap();
    assert_eq!((read.kind, read.der), (KeyKind::Pkcs8, pkcs8_der(SERVER, SERVER_SCALAR)));
    // The first of several keys counts, and certificates around it do not.
    let sec1 = sec1_der(SERVER, SERVER_SCALAR, true);
    let several = format!("{CA}{}{key}", pem("EC PRIVATE KEY", &base64(&sec1)));
    let read = load_private_key(several.as_bytes()).unwrap();
    assert_eq!((read.kind, read.der), (KeyKind::Sec1, sec1));
    let read = load_private_key(pem("RSA PRIVATE KEY", "AAEC").as_bytes()).unwrap();
    assert_eq!((read.kind, read.der), (KeyKind::Pkcs1, vec![0, 1, 2]));
    assert_eq!(load_private_key(CA.as_bytes()).err(), Some(TlsConfigError::NoPrivateKey));
    let torn = pem("PRIVATE KEY", "!!!");
    assert_eq!(load_private_key(torn.as_bytes()).err(), Some(TlsConfigError::BadPem));
}

#[test]
fn tls_configurations_that_are_refused() {
    let ca = || load_certs(CA.as_bytes()).unwrap();
    let chain = || load_certs(SERVER.as_bytes()).unwrap();
    assert_eq!(
        build_server_config(vec![b"junk".to_vec()], chain(), server_key()).err(),
        Some(TlsConfigError::BadAuthority)
    );
    assert_eq!(
        build_server_config(vec![], chain(), server_key()).err(),
        Some(TlsConfigError::NoAuthority)
    );
    let other = load_private_key(key_pem(ALICE, ALICE_SCALAR).as_bytes()).unwrap();
    assert_eq!(
        build_server_config(ca(), chain(), other).err(),
        Some(TlsConfigError::BadKeyPair)
    );
    let junk = PrivateKey { kind: KeyKind::Pkcs8, der: b"junk".to_vec() };
    assert_eq!(
        build_server_config(ca(), chain(), junk).err(),
        Some(TlsConfigError::BadKeyPair)
    );
    let sec1 = PrivateKey { kind: KeyKind::Sec1, der: sec1_der(SERVER, SERVER_SCALAR, true) };
    assert!(build_server_config(ca(), chain(), sec1).is_ok());
}

#[test]
fn common_names_of_certificates() {
    assert_eq!(extract_common_name(&der(ALICE)), Ok(Some("alice".to_string())));
    assert_eq!(extract_common_name(&der(NAMELESS)), Ok(None));
    assert_eq!(extract_common_name(b"junk"), Err(TlsError::BadCertificate));
}

#[test]
fn a_client_is_served() {
    let (mut server, _client, got) = established((ALICE, ALICE_SCALAR));
    let sess = &server.sess;
    assert_eq!(sess.state, State::Established);
    assert_eq!(sess.client_cn.as_deref(), Some("alice"));
    assert_eq!(sess.client_options.as_deref(), Some("V4,dev-type tun"));
    assert_eq!(sess.client_peer_info.as_deref(), Some("IV_VER=2.6\n"));
    assert_eq!(sess.assigned_ip, Some(IpAddress::V4(v4(10, 8, 0, 77))));
    assert_eq!(sess.assigned_ip_v6, Some(0x10));
    let mut expected = build_key_method_reply(&server.cfg, &[11; 32], &[12; 32]);
    expected.extend_from_slice(&build_push_reply(
        &server.cfg,
        v4(10, 8, 0, 77),
        Some(0x10),
        5,
        &["172.16.0.0/12".to_string()],
    ));
    assert_eq!(got, expected);
    // Both ends have the keys.
    let mut client_end = client_session(20, [11; 32], [12; 32], 0);
    let down = tunnel_packet(&mut server.sess, b"down").unwrap().unwrap();
    assert_eq!(client_end.open_data(&down, 0), Ok(DataEvent::Packet(b"down".to_vec())));
    let up = tunnel_packet(&mut client_end, b"up").unwrap().unwrap();
    assert_eq!(server.sess.open_data(&up, 0), Ok(DataEvent::Packet(b"up".to_vec())));
    // The address is routed to the client.
    let mut pkt = vec![0x45u8; 20];
    pkt[16..20].copy_from_slice(&[10, 8, 0, 77]);
    assert_eq!(server.book.route(&pkt), Some(peer()));
}

#[test]
fn the_key_method_reply_is_exact() {
    let mut expected = vec![0, 0, 0, 0, 2];
    expected.extend_from_slice(&[1; 32]);
    expected.extend_from_slice(&[2; 32]);
    let texts = [build_options_string(1542, 1500), String::new(), String::new(), build_peer_info()];
    for text in texts {
        expected.extend_from_slice(&((text.len() + 1) as u16).to_be_bytes());
        expected.extend_from_slice(text.as_bytes());
        expected.push(0);
    }
    assert_eq!(build_key_method_reply(&config(), &[1; 32], &[2; 32]), expected);
    // The link MTU does not run over.
    let mut cfg = config();
    cfg.tun_mtu = 65_500;
    let reply = build_key_method_reply(&cfg, &[1; 32], &[2; 32]);
    let options = build_options_string(65_535, 65_500);
    assert_eq!(&reply[71..71 + options.len()], options.as_bytes());
}

#[test]
fn a_client_without_a_common_name_uses_the_pool() {
    let (server, _client, _got) = established((NAMELESS, NAMELESS_SCALAR));
    assert_eq!(server.sess.state, State::Established);
    assert_eq!(server.sess.client_cn, None);
    assert_eq!(server.sess.assigned_ip, Some(IpAddress::V4(v4(10, 8, 0, 2))));
}

#[test]
fn a_client_without_a_certificate_is_refused() {
    let mut server = Server::new();
    let mut client = client(None);
    assert_eq!(
        server.talk(&mut client),
        Err(ServerError::Tls(TlsError::ProcessPackets))
    );
    assert_eq!(server.sess.state, State::Handshaking);
    let mut server = Server::new();
    assert_eq!(
        server.receive(&[0xFF; 50]),
        Err(ServerError::Tls(TlsError::ProcessPackets))
    );
}

#[test]
fn a_connection_that_failed_stays_so() {
    let mut server = Server::new();
    assert_eq!(
        server.receive(&[0xFF; 50]),
        Err(ServerError::Tls(TlsError::ProcessPackets))
    );
    let mut client = client(Some((ALICE, ALICE_SCALAR)));
    assert_eq!(
        server.talk(&mut client),
        Err(ServerError::Tls(TlsError::ProcessPackets))
    );
    assert_eq!(server.receive(&[]), Ok(()));
    assert_eq!(server.sess.state, State::Handshaking);
    assert!(server.sess.tls.plaintext_in.is_empty());
    assert_eq!(server.sess.tls.send_plaintext(b"x"), Err(TlsError::WriteAll));
    assert_eq!(server.sess.tls.send_plaintext(b""), Ok(()));
}

#[test]
fn messages_may_come_in_any_pieces() {
    let mut server = Server::new();
    let mut client = client(Some((ALICE, ALICE_SCALAR)));
    server.talk(&mut client).unwrap();
    let mut all = client_key_packet(20);
    all.extend_from_slice(b"WHAT\0PUSH_REQUEST\0NONSENSE\0");
    let mut got = Vec::new();
    for byte in all {
        client.writer().write_all(&[byte]).unwrap();
        got.extend_from_slice(&server.talk(&mut client).unwrap());
    }
    assert_eq!(server.sess.state, State::Established);
    let (_, _, at_once) = established((ALICE, ALICE_SCALAR));
    assert_eq!(got, at_once);
}

#[test]
fn bad_key_packets_are_refused() {
    let mut server = Server::new();
    let mut client = client(Some((ALICE, ALICE_SCALAR)));
    server.talk(&mut client).unwrap();
    let mut packet = client_key_packet(20);
    packet[4] = 1;
    client.writer().write_all(&packet).unwrap();
    assert_eq!(
        server.talk(&mut client),
        Err(ServerError::Control(ControlError::UnsupportedKeyMethod(1)))
    );
    assert_eq!(server.sess.state, State::KeyExchange);
}

#[test]
fn addresses_that_cannot_be_had() {
    let mut server = Server::new();
    server.book.assign(Some(IpAddress::V4(v4(10, 8, 0, 77))), peer()).unwrap();
    let mut client = client(Some((ALICE, ALICE_SCALAR)));
    server.talk(&mut client).unwrap();
    client.writer().write_all(&client_key_packet(20)).unwrap();
    client.writer().write_all(b"PUSH_REQUEST\0").unwrap();
    assert_eq!(
        server.talk(&mut client),
        Err(ServerError::Address(AddressError::StaticInUse(v4(10, 8, 0, 77))))
    );
    assert_eq!(server.sess.state, State::PushPending);
    assert_eq!(server.sess.assigned_ip, None);
    // No IPv6 address is left: the IPv4 one stays assigned.
    server.book.release(Some(IpAddress::V4(v4(10, 8, 0, 77))), None);
    server.book.allocate_ip_v6().unwrap();
    server.sess.tls.receive_plaintext(b"PUSH_REQUEST\0");
    assert_eq!(
        drive_control_plane(&mut server.sess, &mut server.book, &server.cfg, peer()),
        Err(ServerError::Address(AddressError::PoolV6Exhausted))
    );
    assert_eq!(server.sess.assigned_ip, Some(IpAddress::V4(v4(10, 8, 0, 77))));
    assert_eq!(server.sess.state, State::PushPending);
}

#[test]
fn replies_that_find_no_room() {
    let mut server = Server::new();
    server.sess.state = State::KeyExchange;
    server.sess.tls.receive_plaintext(&client_key_packet(20));
    assert_eq!(
        server.sess.tls.send_plaintext(&vec![0; 1 << 20]),
        Err(TlsError::WriteAll)
    );
    assert_eq!(
        drive_control_plane(&mut server.sess, &mut server.book, &server.cfg, peer()),
        Err(ServerError::Tls(TlsError::WriteAll))
    );
    // The keys are there, but the client was not told the server's part.
    assert_eq!(server.sess.state, State::KeyExchange);
    assert!(server.sess.active_slot().is_some());
    server.sess.start_rekey_with(1, server_tls(), [31; 32], [32; 32]);
    let rk = server.sess.rekey.as_mut().unwrap();
    rk.state = RekeyState::KeyExchange;
    rk.tls.receive_plaintext(&client_key_packet(40));
    assert_eq!(rk.tls.send_plaintext(&vec![0; 1 << 20]), Err(TlsError::WriteAll));
    assert_eq!(
        drive_rekey_control_plane(&mut server.sess, &server.cfg),
        Err(ServerError::Tls(TlsError::WriteAll))
    );
    assert_eq!(finish_rekey(&mut server.sess, 3), None);
}

#[test]
fn exits_close_the_session() {
    for (msg, state) in [
        ("EXIT", State::Closed),
        ("CC_EXIT_NOTIFY", State::Closed),
        ("EXITS", State::Established),
        ("cc_exit", State::Established),
    ] {
        let (mut server, mut client, _) = established((ALICE, ALICE_SCALAR));
        client.writer().write_all(msg.as_bytes()).unwrap();
        client.writer().write_all(b"\0").unwrap();
        server.talk(&mut client).unwrap();
        assert_eq!(server.sess.state, state);
    }
}

#[test]
fn clients_are_told_to_restart() {
    let (mut server, mut client, _) = established((ALICE, ALICE_SCALAR));
    assert_eq!(queue_restart(&mut server.sess), Ok(true));
    assert_eq!(server.talk(&mut client).unwrap(), b"RESTART,1\0");
}

#[test]
fn rekeys_switch_keys() {
    let (mut server, _client, _) = established((ALICE, ALICE_SCALAR));
    let mut old_end = client_session(20, [11; 32], [12; 32], 0);
    let late = tunnel_packet(&mut old_end, b"late").unwrap().unwrap();
    assert_eq!(drive_rekey_control_plane(&mut server.sess, &server.cfg), Ok(()));
    assert_eq!(receive_rekey(&mut server.sess, &server.cfg, b"ignored"), Ok(()));
    assert_eq!(finish_rekey(&mut server.sess, 9), None);

    server.sess.start_rekey_with(1, server_tls(), [31; 32], [32; 32]);
    let mut client = client(Some((ALICE, ALICE_SCALAR)));
    let mut got = Vec::new();
    let mut asked = false;
    loop {
        for piece in chunks(&outgoing(&mut client)) {
            receive_rekey(&mut server.sess, &server.cfg, &piece).unwrap();
        }
        if let Some((key_id, parts)) = flush_rekey_outgoing(&mut server.sess) {
            assert_eq!(key_id, 1);
            got.extend_from_slice(&deliver(&mut client, &parts.concat()));
        } else if asked {
            break;
        }
        if !client.is_handshaking() && !asked {
            assert_eq!(finish_rekey(&mut server.sess, 9), None);
            client.writer().write_all(&client_key_packet(40)).unwrap();
            asked = true;
        }
    }
    assert_eq!(got, build_key_method_reply(&server.cfg, &[31; 32], &[32; 32]));
    assert_eq!(server.sess.rekey.as_ref().unwrap().state, RekeyState::KeyExchange);
    // The new keys open at once; sending switches when the rekey ends.
    assert_eq!(server.sess.active_slot().unwrap().key_id, 0);
    assert_eq!(finish_rekey(&mut server.sess, 9), Some(true));
    assert_eq!(server.sess.active_slot().unwrap().key_id, 1);
    assert_eq!(server.sess.last_rekey_at, 9);
    assert!(server.sess.rekey.is_none());
    let mut new_end = client_session(40, [31; 32], [32; 32], 1);
    let down = tunnel_packet(&mut server.sess, b"down").unwrap().unwrap();
    assert_eq!(new_end.open_data(&down, 0), Ok(DataEvent::Packet(b"down".to_vec())));
    assert_eq!(server.sess.open_data(&late, 0), Ok(DataEvent::Packet(b"late".to_vec())));
}

#[test]
fn rekeys_that_fail() {
    let (mut server, _client, _) = established((ALICE, ALICE_SCALAR));
    server.sess.start_rekey_with(1, server_tls(), [31; 32], [32; 32]);
    assert_eq!(
        receive_rekey(&mut server.sess, &server.cfg, &[0xFF; 50]),
        Err(ServerError::Tls(TlsError::ProcessPackets))
    );
    let rk = server.sess.rekey.as_mut().unwrap();
    rk.state = RekeyState::KeyExchange;
    rk.tls.receive_plaintext(&[1; 200]);
    assert_eq!(
        drive_rekey_control_plane(&mut server.sess, &server.cfg),
        Err(ServerError::Control(ControlError::BadPreamble))
    );
    // The server's packet counts as sent, but no keys came of it.
    server.sess.rekey.as_mut().unwrap().key_method_sent = true;
    assert_eq!(finish_rekey(&mut server.sess, 3), Some(false));
    assert_eq!(server.sess.active_slot().unwrap().key_id, 0);
}

#[test]
fn plaintext_is_buffered_and_consumed() {
    let mut tls = server_tls();
    assert!(tls.is_handshaking());
    assert_eq!(tls.peer_certificate(), None);
    tls.receive_plaintext(b"abc");
    tls.receive_plaintext(b"def");
    tls.consume(4);
    assert_eq!(tls.plaintext_in, b"ef");
    tls.consume(2);
    assert!(tls.plaintext_in.is_empty());
    assert!(tls.take_outgoing().is_empty());
    let mut server = Server::new();
    enter_key_exchange(&mut server.sess);
    assert_eq!(server.sess.state, State::Handshaking);
}
