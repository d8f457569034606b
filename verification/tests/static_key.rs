//! Static-key files.

use javs::static_key::{parse_static_key_text, StaticKeyError, STATIC_KEY_LEN};


fn build_pem(bytes: &[u8; STATIC_KEY_LEN]) -> String {
    let mut s = String::from("-----BEGIN OpenVPN Static key V1-----\n");
    for chunk in bytes.chunks(16) {
        for b in chunk {
            s.push_str(&format!("{:02x}", b));
        }
        s.push('\n');
    }
    s.push_str("-----END OpenVPN Static key V1-----\n");
    s
}

#[test]
fn round_trip_known_bytes() {
    let mut km = [0u8; STATIC_KEY_LEN];
    for (i, b) in km.iter_mut().enumerate() {
        *b = i as u8;
    }
    let pem = build_pem(&km);
    let parsed = parse_static_key_text(&pem).unwrap();
    assert_eq!(parsed, km);
}

#[test]
fn ignores_comments_and_blank_lines() {
    let mut km = [0u8; STATIC_KEY_LEN];
    for (i, b) in km.iter_mut().enumerate() {
        *b = (255 - i) as u8;
    }
    let mut pem = String::from("-----BEGIN OpenVPN Static key V1-----\n");
    pem.push_str("# this is a comment\n");
    pem.push('\n');
    for chunk in km.chunks(16) {
        for b in chunk {
            pem.push_str(&format!("{:02X}", b)); // upper hex
        }
        pem.push('\n');
    }
    pem.push_str("-----END OpenVPN Static key V1-----\n");
    let parsed = parse_static_key_text(&pem).unwrap();
    assert_eq!(parsed, km);
}

#[test]
fn rejects_wrong_length() {
    let pem =
        "-----BEGIN OpenVPN Static key V1-----\n00112233\n-----END OpenVPN Static key V1-----";
    assert!(parse_static_key_text(pem).is_err());
}

#[test]
fn key_file_errors_say_what_is_wrong() {
    let short = "-----BEGIN x-----\n00112233\n-----END x-----";
    assert_eq!(parse_static_key_text(short), Err(StaticKeyError::WrongLength(8)));
    assert_eq!(parse_static_key_text(""), Err(StaticKeyError::WrongLength(0)));
    let bad = format!("-----BEGIN x-----\n{}g\n-----END x-----", "0".repeat(511));
    assert_eq!(parse_static_key_text(&bad), Err(StaticKeyError::BadHex));
    // 256 characters of two bytes each have the right length and no digit.
    let wide = format!("-----BEGIN x-----\n{}\n", "\u{e9}".repeat(256));
    assert_eq!(parse_static_key_text(&wide), Err(StaticKeyError::BadHex));
}

#[test]
fn only_lines_between_the_markers_count() {
    let digits = "ab".repeat(128);
    let text = format!(
        "00\r\n  -----BEGIN x-----\r\n\t{digits} \r\n#ff\r\n \r\n-----END x-----\r\n11\r\n\
         -----BEGIN again-----\r\n\u{3000}{digits}"
    );
    assert_eq!(parse_static_key_text(&text), Ok([0xABu8; STATIC_KEY_LEN]));
}
