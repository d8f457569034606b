//! Messages of the control channel.

use javs::control_channel::{
    build_options_string, build_peer_info, read_lp_string, try_pop_ascii, write_lp_string,
    ClientKeyMethod2, ControlError, Pop, ServerKeyMethod2, KEY_METHOD_2, PRE_MASTER_LEN, RANDOM_LEN,
};


#[test]
fn lp_string_round_trip() {
    let mut buf = Vec::new();
    write_lp_string(&mut buf, "hello");
    // u16=6, 'h','e','l','l','o',0
    assert_eq!(buf, vec![0, 6, b'h', b'e', b'l', b'l', b'o', 0]);
    let mut off = 0;
    let s = read_lp_string(&buf, &mut off).unwrap().unwrap();
    assert_eq!(s, "hello");
    assert_eq!(off, 8);
}

#[test]
fn pop_ascii_split() {
    let buf = b"PUSH_REQUEST\0PUSH_REQUEST\0";
    match try_pop_ascii(buf) {
        Pop::Ready(s, n) => {
            assert_eq!(s, "PUSH_REQUEST");
            assert_eq!(n, 13);
        }
        Pop::NeedMore => panic!("expected Ready"),
    }
}

#[test]
fn pop_ascii_needs_more() {
    let buf = b"PUSH_REQ"; // no NUL yet
    assert!(matches!(try_pop_ascii(buf), Pop::NeedMore));
}

#[test]
fn client_key_method_2_round_trip_basic() {
    // Build a representative client packet and parse it back.
    let mut buf = vec![0u8; 4];
    buf.push(KEY_METHOD_2);
    buf.extend_from_slice(&[0xAB; PRE_MASTER_LEN]);
    buf.extend_from_slice(&[0xCD; RANDOM_LEN]);
    buf.extend_from_slice(&[0xEF; RANDOM_LEN]);
    write_lp_string(&mut buf, "V4,proto UDPv4,key-method 2,tls-client");
    write_lp_string(&mut buf, "");
    write_lp_string(&mut buf, "");
    write_lp_string(&mut buf, "IV_VER=2.6.0\nIV_PROTO=998");

    match ClientKeyMethod2::try_parse(&buf).unwrap() {
        Pop::Ready(km, n) => {
            assert_eq!(n, buf.len());
            assert_eq!(km.pre_master, [0xAB; PRE_MASTER_LEN]);
            assert_eq!(km.random1, [0xCD; RANDOM_LEN]);
            assert_eq!(km.random2, [0xEF; RANDOM_LEN]);
            assert!(km.options.contains("tls-client"));
            assert!(km.peer_info.contains("IV_PROTO"));
        }
        Pop::NeedMore => panic!("expected Ready"),
    }
}

#[test]
fn client_key_method_2_partial_returns_need_more() {
    let buf = vec![0u8; 50]; // too short
    assert!(matches!(
        ClientKeyMethod2::try_parse(&buf).unwrap(),
        Pop::NeedMore
    ));
}

#[test]
fn client_packets_that_are_refused() {
    let mut buf = vec![0u8; 117];
    buf[3] = 1;
    assert_eq!(ClientKeyMethod2::try_parse(&buf).err(), Some(ControlError::BadPreamble));
    buf[3] = 0;
    buf[4] = 1;
    assert_eq!(
        ClientKeyMethod2::try_parse(&buf).err(),
        Some(ControlError::UnsupportedKeyMethod(1))
    );
    buf[4] = 2;
    assert!(matches!(ClientKeyMethod2::try_parse(&buf), Ok(Pop::NeedMore)));
}

#[test]
fn client_packet_at_the_front_of_a_stream() {
    let mut buf = vec![0, 0, 0, 0, 2];
    buf.extend_from_slice(&[1; PRE_MASTER_LEN]);
    buf.extend_from_slice(&[2; RANDOM_LEN]);
    buf.extend_from_slice(&[3; RANDOM_LEN]);
    write_lp_string(&mut buf, "opts");
    write_lp_string(&mut buf, "user");
    write_lp_string(&mut buf, "pass");
    // A string without its NUL, and one of length zero, are read too.
    buf.extend_from_slice(&[0, 2, b'h', b'i']);
    let len = buf.len();
    for cut in 0..len {
        assert!(matches!(ClientKeyMethod2::try_parse(&buf[..cut]), Ok(Pop::NeedMore)));
    }
    buf.extend_from_slice(b"PUSH_REQUEST\0");
    match ClientKeyMethod2::try_parse(&buf).unwrap() {
        Pop::Ready(km, n) => {
            assert_eq!(n, len);
            assert_eq!(km.options, "opts");
            assert_eq!(km.username, "user");
            assert_eq!(km.password, "pass");
            assert_eq!(km.peer_info, "hi");
        }
        Pop::NeedMore => panic!("expected Ready"),
    }
}

#[test]
fn strings_on_the_wire() {
    let mut off = 1;
    assert_eq!(read_lp_string(&[9, 0, 0], &mut off), Ok(Some(String::new())));
    assert_eq!(off, 3);
    assert_eq!(read_lp_string(&[9, 0, 0], &mut off), Ok(None));
    assert_eq!(off, 3);
    let mut off = 0;
    assert_eq!(read_lp_string(&[0, 3, 0xFF, b'a', 0], &mut off), Ok(Some("\u{FFFD}a".to_string())));
    let mut off = 0;
    assert_eq!(read_lp_string(&[0, 3, b'a', b'b'], &mut off), Ok(None));
    let mut off = usize::MAX;
    assert_eq!(read_lp_string(&[0, 0], &mut off), Ok(None));
    // The length field holds the low-order 16 bits of the length.
    let mut out = Vec::new();
    write_lp_string(&mut out, &"x".repeat(65_535));
    assert_eq!(out[..2], [0, 0]);
    assert_eq!(out.len(), 2 + 65_536);
}

#[test]
fn messages_that_are_not_utf8_are_repaired() {
    match try_pop_ascii(b"a\xFFb\0rest") {
        Pop::Ready(s, n) => {
            assert_eq!(s, "a\u{FFFD}b");
            assert_eq!(n, 4);
        }
        Pop::NeedMore => panic!("expected Ready"),
    }
    match try_pop_ascii(b"\0") {
        Pop::Ready(s, n) => {
            assert_eq!(s, "");
            assert_eq!(n, 1);
        }
        Pop::NeedMore => panic!("expected Ready"),
    }
}

#[test]
fn server_packet_is_exact() {
    let bytes = ServerKeyMethod2 {
        random1: &[7; RANDOM_LEN],
        random2: &[8; RANDOM_LEN],
        options: "ab",
        username: "",
        password: "p",
        peer_info: "i\n",
    }
    .encode();
    let mut expected = vec![0, 0, 0, 0, 2];
    expected.extend_from_slice(&[7; RANDOM_LEN]);
    expected.extend_from_slice(&[8; RANDOM_LEN]);
    expected.extend_from_slice(b"\x00\x03ab\0\x00\x01\0\x00\x02p\0\x00\x03i\n\0");
    assert_eq!(bytes, expected);
}

#[test]
fn announced_strings() {
    assert_eq!(
        build_options_string(1542, 1500),
        "V4,dev-type tun,link-mtu 1542,tun-mtu 1500,proto UDPv4,cipher AES-256-GCM,auth SHA256,\
         keysize 256,key-method 2,tls-server"
    );
    assert_eq!(
        build_peer_info(),
        "IV_VER=javs-0.1.0\nIV_PLAT=server\nIV_PROTO=132\nIV_CIPHERS=AES-256-GCM\n"
    );
}
