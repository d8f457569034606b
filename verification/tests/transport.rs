//! Framing on streams.

use javs::transport::{frame, FrameReader, MAX_FRAME_LEN};

#[test]
fn frames_are_exact() {
    assert_eq!(frame(b"abc"), Some(vec![0, 3, b'a', b'b', b'c']));
    assert_eq!(frame(b""), Some(vec![0, 0]));
    let longest = frame(&vec![7u8; MAX_FRAME_LEN]).unwrap();
    assert_eq!(longest.len(), MAX_FRAME_LEN + 2);
    assert_eq!(longest[..2], [0xFF, 0xFF]);
    assert_eq!(frame(&vec![7u8; MAX_FRAME_LEN + 1]), None);
}

#[test]
fn frames_arrive_in_order() {
    let mut stream: Vec<u8> = Vec::new();
    for packet in [&b"one"[..], &b""[..], &b"two"[..], &[9u8; 300][..]] {
        stream.extend_from_slice(&frame(packet).unwrap());
    }
    let mut reader = FrameReader::new();
    let mut packets: Vec<Vec<u8>> = Vec::new();
    let mut at = 0;
    while stream.len() - at >= reader.wanted() {
        let n = reader.wanted();
        if let Some(packet) = reader.accept(&stream[at..at + n]) {
            packets.push(packet);
        }
        at += n;
        if at == stream.len() {
            break;
        }
    }
    assert_eq!(packets, vec![b"one".to_vec(), b"two".to_vec(), vec![9u8; 300]]);
    assert_eq!(reader, FrameReader::Length);
}
