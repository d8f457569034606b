//! Messages of the control channel that flow inside the TLS stream.
//!
//! Once the TLS handshake is complete the client sends a binary `key-method 2`
//! packet, the server answers with one of its own, and both sides exchange
//! NUL-terminated ASCII messages (`PUSH_REQUEST`, `PUSH_REPLY`, ...).

use vstd::prelude::*;
use vstd::string::StringSliceAdditionalSpecFns;
use vstd::utf8::{decode_utf8, encode_utf8, valid_utf8};

use crate::codec::{
    array_at, be_bytes, be_value, lemma_be_bytes_len, lemma_be_limits, lemma_be_value_digits,
    lemma_value_of_bytes, push_bytes, push_u16, read_u16,
};
use crate::text::{decimal, push_decimal, push_text};

verus! {

/// The one key method that is implemented.
pub const KEY_METHOD_2: u8 = 2;

/// Length of the client's pre-master secret.
pub const PRE_MASTER_LEN: usize = 48;

/// Length of each of the random values.
pub const RANDOM_LEN: usize = 32;

/// Length of the part of a client packet in front of its strings.
pub const CLIENT_FIXED_LEN: usize = 117;

/// Why bytes are no `key-method 2` packet.
#[derive(Debug, Clone, Copy, PartialEq, Eq, Structural)]
pub enum ControlError {
    /// The packet does not start with four zero bytes.
    BadPreamble,
    /// A key method other than 2.
    UnsupportedKeyMethod(u8),
}

/// What came of reading a message from the front of a buffer that still grows.
pub enum Pop<T> {
    /// A message, and how many bytes of the buffer it took.
    Ready(T, usize),
    /// Not enough bytes yet.
    NeedMore,
}

/// What `String::from_utf8_lossy` makes of bytes that are not UTF-8.
pub uninterp spec fn utf8_repaired(bytes: Seq<u8>) -> Seq<char>;

/// The text of `bytes`: what they encode if they are UTF-8, else a repaired
/// form of it.
pub open spec fn lossy(bytes: Seq<u8>) -> Seq<char> {
    if valid_utf8(bytes) {
        decode_utf8(bytes)
    } else {
        utf8_repaired(bytes)
    }
}

/// Calls `String::from_utf8_lossy`: bytes that are UTF-8 are decoded; for
/// other bytes the result is named.
#[verifier::external_body]
fn lossy_text(bytes: &[u8]) -> (r: String)
    ensures
        r@ == (if valid_utf8(bytes@) {
            decode_utf8(bytes@)
        } else {
            utf8_repaired(bytes@)
        }),
{
    String::from_utf8_lossy(bytes).into_owned()
}

/// The client's `key-method 2` packet.
///
/// User name and password are on the wire, empty where the client has none,
/// but nothing uses them: clients authenticate by certificate.
#[derive(Debug, Clone)]
pub struct ClientKeyMethod2 {
    pub pre_master: [u8; PRE_MASTER_LEN],
    pub random1: [u8; RANDOM_LEN],
    pub random2: [u8; RANDOM_LEN],
    pub options: String,
    pub username: String,
    pub password: String,
    pub peer_info: String,
}

/// What a [`ClientKeyMethod2`] says.
#[verifier::ext_equal]
pub ghost struct ClientKeyView {
    pub pre_master: Seq<u8>,
    pub random1: Seq<u8>,
    pub random2: Seq<u8>,
    pub options: Seq<char>,
    pub username: Seq<char>,
    pub password: Seq<char>,
    pub peer_info: Seq<char>,
}

impl View for ClientKeyMethod2 {
    type V = ClientKeyView;

    open spec fn view(&self) -> ClientKeyView {
        ClientKeyView {
            pre_master: self.pre_master@,
            random1: self.random1@,
            random2: self.random2@,
            options: self.options@,
            username: self.username@,
            password: self.password@,
            peer_info: self.peer_info@,
        }
    }
}

/// A string on the wire: a two-byte length that counts a final NUL, the text,
/// and the NUL.
pub open spec fn lp_bytes(s: Seq<char>) -> Seq<u8> {
    let text = encode_utf8(s);
    be_bytes((text.len() + 1) % 0x1_0000, 2) + text + seq![0u8]
}

/// The text of a string's bytes, without the final NUL if there is one.
pub open spec fn lp_text(bytes: Seq<u8>) -> Seq<char> {
    if bytes.len() == 0 {
        Seq::empty()
    } else if bytes.last() == 0 {
        lossy(bytes.drop_last())
    } else {
        lossy(bytes)
    }
}

/// The string that stands in `buf` at `at`, and where it ends; nothing if the
/// buffer does not hold all of it.
pub open spec fn lp_at(buf: Seq<u8>, at: int) -> Option<(Seq<char>, int)> {
    let len = be_value(buf.subrange(at, at + 2)) as int;
    if buf.len() < at + 2 || buf.len() < at + 2 + len {
        None
    } else {
        Some((lp_text(buf.subrange(at + 2, at + 2 + len)), at + 2 + len))
    }
}

/// The client packet at the front of `buf` and its length; nothing if the
/// buffer does not hold all of it.
pub open spec fn client_key_of(buf: Seq<u8>) -> Result<Option<(ClientKeyView, int)>, ControlError> {
    if buf.len() < CLIENT_FIXED_LEN {
        Ok(None)
    } else if buf.subrange(0, 4) != seq![0u8, 0, 0, 0] {
        Err(ControlError::BadPreamble)
    } else if buf[4] != KEY_METHOD_2 {
        Err(ControlError::UnsupportedKeyMethod(buf[4]))
    } else {
        Ok(client_strings(buf))
    }
}

/// The client packet at the front of `buf`, once its fixed part is accepted.
pub open spec fn client_strings(buf: Seq<u8>) -> Option<(ClientKeyView, int)> {
    match lp_at(buf, CLIENT_FIXED_LEN as int) {
        None => None,
        Some((options, at1)) => match lp_at(buf, at1) {
            None => None,
            Some((username, at2)) => match lp_at(buf, at2) {
                None => None,
                Some((password, at3)) => match lp_at(buf, at3) {
                    None => None,
                    Some((peer_info, end)) => Some(
                        (
                            ClientKeyView {
                                pre_master: buf.subrange(5, 53),
                                random1: buf.subrange(53, 85),
                                random2: buf.subrange(85, 117),
                                options,
                                username,
                                password,
                                peer_info,
                            },
                            end,
                        ),
                    ),
                },
            },
        },
    }
}

impl ClientKeyMethod2 {
    /// Reads a client packet from the front of `buf`.
    pub fn try_parse(buf: &[u8]) -> (r: Result<Pop<Self>, ControlError>)
        ensures
            match r {
                Ok(Pop::Ready(km, n)) => n <= buf@.len() && n >= CLIENT_FIXED_LEN && client_key_of(
                    buf@,
                ) == Ok::<Option<(ClientKeyView, int)>, ControlError>(Some((km@, n as int))),
                Ok(Pop::NeedMore) => client_key_of(buf@) == Ok::<
                    Option<(ClientKeyView, int)>,
                    ControlError,
                >(None),
                Err(e) => client_key_of(buf@) == Err::<Option<(ClientKeyView, int)>, ControlError>(
                    e,
                ),
            },
    {
        if buf.len() < CLIENT_FIXED_LEN {
            return Ok(Pop::NeedMore);
        }
        if buf[0] != 0 || buf[1] != 0 || buf[2] != 0 || buf[3] != 0 {
            proof {
                let s = buf@.subrange(0, 4);
                assert(s[0] != 0 || s[1] != 0 || s[2] != 0 || s[3] != 0);
            }
            return Err(ControlError::BadPreamble);
        }
        assert(buf@.subrange(0, 4) =~= seq![0u8, 0, 0, 0]);
        if buf[4] != KEY_METHOD_2 {
            return Err(ControlError::UnsupportedKeyMethod(buf[4]));
        }
        let mut at: usize = CLIENT_FIXED_LEN;
        let options: String = match read_lp_string(buf, &mut at)? {
            Some(s) => s,
            None => return Ok(Pop::NeedMore),
        };
        let username: String = match read_lp_string(buf, &mut at)? {
            Some(s) => s,
            None => return Ok(Pop::NeedMore),
        };
        let password: String = match read_lp_string(buf, &mut at)? {
            Some(s) => s,
            None => return Ok(Pop::NeedMore),
        };
        let peer_info: String = match read_lp_string(buf, &mut at)? {
            Some(s) => s,
            None => return Ok(Pop::NeedMore),
        };
        Ok(
            Pop::Ready(
                ClientKeyMethod2 {
                    pre_master: array_at(buf, 5),
                    random1: array_at(buf, 53),
                    random2: array_at(buf, 85),
                    options,
                    username,
                    password,
                    peer_info,
                },
                at,
            ),
        )
    }
}

/// The server's `key-method 2` packet. It has no pre-master secret: only the
/// client contributes one.
pub struct ServerKeyMethod2<'a> {
    pub random1: &'a [u8; RANDOM_LEN],
    pub random2: &'a [u8; RANDOM_LEN],
    pub options: &'a str,
    /// Usually empty.
    pub username: &'a str,
    /// Usually empty.
    pub password: &'a str,
    pub peer_info: &'a str,
}

/// The bytes of a server packet.
pub open spec fn server_key_bytes(
    random1: Seq<u8>,
    random2: Seq<u8>,
    options: Seq<char>,
    username: Seq<char>,
    password: Seq<char>,
    peer_info: Seq<char>,
) -> Seq<u8> {
    seq![0u8, 0, 0, 0, KEY_METHOD_2] + random1 + random2 + lp_bytes(options) + lp_bytes(username)
        + lp_bytes(password) + lp_bytes(peer_info)
}

impl<'a> ServerKeyMethod2<'a> {
    /// The bytes of the packet.
    pub fn encode(&self) -> (out: Vec<u8>)
        ensures
            out@ == server_key_bytes(
                self.random1@,
                self.random2@,
                self.options@,
                self.username@,
                self.password@,
                self.peer_info@,
            ),
    {
        let mut out: Vec<u8> = Vec::new();
        out.push(0);
        out.push(0);
        out.push(0);
        out.push(0);
        out.push(KEY_METHOD_2);
        assert(out@ =~= seq![0u8, 0, 0, 0, KEY_METHOD_2]);
        push_bytes(&mut out, self.random1.as_slice());
        push_bytes(&mut out, self.random2.as_slice());
        write_lp_string(&mut out, self.options);
        write_lp_string(&mut out, self.username);
        write_lp_string(&mut out, self.password);
        write_lp_string(&mut out, self.peer_info);
        out
    }
}

/// The NUL-terminated message at the front of `buf`, and its length with the
/// NUL.
pub open spec fn ascii_of(buf: Seq<u8>) -> Option<(Seq<char>, int)> {
    match buf.index_of_first(0u8) {
        Some(i) => Some((lossy(buf.take(i)), i + 1)),
        None => None,
    }
}

/// Reads one NUL-terminated message (such as `PUSH_REQUEST`) from the front of
/// `buf`.
pub fn try_pop_ascii(buf: &[u8]) -> (r: Pop<String>)
    ensures
        match r {
            Pop::Ready(text, n) => 0 < n <= buf@.len() && ascii_of(buf@) == Some(
                (text@, n as int),
            ),
            Pop::NeedMore => ascii_of(buf@) is None,
        },
{
    let mut i: usize = 0;
    while i < buf.len()
        invariant
            i <= buf@.len(),
            forall|j: int| 0 <= j < i ==> buf@[j] != 0,
        decreases buf@.len() - i,
    {
        if buf[i] == 0 {
            proof {
                buf@.index_of_first_ensures(0u8);
                assert(buf@.contains(buf@[i as int]));
                assert(buf@.take(i as int) =~= buf@.subrange(0, i as int));
            }
            let text: String = lossy_text(&buf[0..i]);
            return Pop::Ready(text, i + 1);
        }
        i += 1;
    }
    proof {
        buf@.index_of_first_ensures(0u8);
    }
    Pop::NeedMore
}

/// Reads the string that stands in `buf` at `off`, and moves `off` behind it;
/// nothing happens if the buffer does not hold all of it.
pub fn read_lp_string(buf: &[u8], off: &mut usize) -> (r: Result<Option<String>, ControlError>)
    ensures
        match r {
            Ok(Some(s)) => lp_at(buf@, *old(off) as int) == Some((s@, *final(off) as int))
                && *old(off) + 2 <= *final(off) <= buf@.len(),
            Ok(None) => lp_at(buf@, *old(off) as int) is None && *final(off) == *old(off),
            Err(_) => false,
        },
{
    let at: usize = *off;
    let total: usize = buf.len();
    if total < 2 || total - 2 < at {
        return Ok(None);
    }
    let len: usize = read_u16(buf, at) as usize;
    let start: usize = at + 2;
    if total - start < len {
        return Ok(None);
    }
    let end: usize = start + len;
    *off = end;
    if len == 0 {
        let s: String = String::new();
        assert(s@ =~= lp_text(buf@.subrange(start as int, end as int)));
        return Ok(Some(s));
    }
    let ghost bytes = buf@.subrange(start as int, end as int);
    assert(bytes.last() == buf@[end - 1]);
    if buf[end - 1] == 0 {
        assert(bytes.drop_last() =~= buf@.subrange(start as int, end - 1));
        Ok(Some(lossy_text(&buf[start..end - 1])))
    } else {
        Ok(Some(lossy_text(&buf[start..end])))
    }
}

/// Appends a string in wire form.
pub fn write_lp_string(out: &mut Vec<u8>, s: &str)
    ensures
        final(out)@ == old(out)@ + lp_bytes(s@),
{
    let text = s.as_bytes();
    let len: u32 = (text.len() % 0x1_0000) as u32 + 1;
    push_u16(out, (len % 0x1_0000) as u16);
    push_bytes(out, text);
    out.push(0);
    assert(out@ =~= old(out)@ + lp_bytes(s@));
}

/// The options string that the server announces.
pub open spec fn options_text(link_mtu: u16, tun_mtu: u16) -> Seq<char> {
    "V4,dev-type tun,link-mtu "@ + decimal(link_mtu as nat) + ",tun-mtu "@ + decimal(tun_mtu as nat)
        + ",proto UDPv4,cipher AES-256-GCM,auth SHA256,keysize 256,key-method 2,tls-server"@
}

/// Builds the options string that the server announces. The client compares
/// some of its fields with its own; the cipher is negotiated whatever it says.
pub fn build_options_string(link_mtu: u16, tun_mtu: u16) -> (s: String)
    ensures
        s@ == options_text(link_mtu, tun_mtu),
{
    let mut s: String = String::new();
    push_text(&mut s, "V4,dev-type tun,link-mtu ");
    push_decimal(&mut s, link_mtu as u64);
    push_text(&mut s, ",tun-mtu ");
    push_decimal(&mut s, tun_mtu as u64);
    push_text(
        &mut s,
        ",proto UDPv4,cipher AES-256-GCM,auth SHA256,keysize 256,key-method 2,tls-server",
    );
    assert(s@ =~= options_text(link_mtu, tun_mtu));
    s
}

/// `IV_PROTO` flag: the peer asks for pushed options.
pub const IV_PROTO_REQUEST_PUSH: u32 = 0x04;

/// `IV_PROTO` flag: data-channel keys come from the TLS exporter.
pub const IV_PROTO_TLS_KEY_EXPORT: u32 = 0x08;

/// `IV_PROTO` flag: the peer understands `AUTH_PENDING` keywords.
pub const IV_PROTO_AUTH_PENDING_KW: u32 = 0x10;

/// `IV_PROTO` flag: cipher negotiation in peer-to-peer mode.
pub const IV_PROTO_NCP_P2P: u32 = 0x20;

/// `IV_PROTO` flag: the peer understands the `dns` option.
pub const IV_PROTO_DNS_OPTION: u32 = 0x40;

/// `IV_PROTO` flag: exit notifications travel on the control channel.
pub const IV_PROTO_CC_EXIT_NOTIFY: u32 = 0x80;

/// The flags that the server announces.
pub open spec fn server_iv_proto() -> u32 {
    IV_PROTO_REQUEST_PUSH | IV_PROTO_CC_EXIT_NOTIFY
}

/// The peer info that the server announces.
pub open spec fn peer_info_text() -> Seq<char> {
    "IV_VER=javs-0.1.0\nIV_PLAT=server\nIV_PROTO="@ + decimal(server_iv_proto() as nat)
        + "\nIV_CIPHERS=AES-256-GCM\n"@
}

/// Builds the peer info that the server announces.
///
/// `TLS_KEY_EXPORT` is not announced: data-channel keys come from the classic
/// `key-method 2` derivation (see [`crate::prf`]), to which the client falls
/// back where the flag is absent.
pub fn build_peer_info() -> (s: String)
    ensures
        s@ == peer_info_text(),
{
    let proto: u32 = IV_PROTO_REQUEST_PUSH | IV_PROTO_CC_EXIT_NOTIFY;
    let mut s: String = String::new();
    push_text(&mut s, "IV_VER=javs-0.1.0\nIV_PLAT=server\nIV_PROTO=");
    push_decimal(&mut s, proto as u64);
    push_text(&mut s, "\nIV_CIPHERS=AES-256-GCM\n");
    assert(s@ =~= peer_info_text());
    s
}

/// The server announces the two flags that it implements, and not the export
/// of keys from TLS.
pub proof fn law_no_key_export()
    ensures
        server_iv_proto() == 132,
        server_iv_proto() & IV_PROTO_TLS_KEY_EXPORT == 0,
{
    assert(0x04u32 | 0x80u32 == 132u32) by (bit_vector);
    assert(132u32 & 0x08u32 == 0) by (bit_vector);
}

/// What a text encodes to decodes to the text.
proof fn lemma_lossy_of_text(s: Seq<char>)
    ensures
        lossy(encode_utf8(s)) == s,
{
    vstd::utf8::encode_utf8_valid_utf8(s);
    vstd::utf8::encode_utf8_decode_utf8(s);
}

/// A string that was written reads back as the same string, wherever it
/// stands. (A string of 65535 bytes or more has a length that two bytes do not
/// hold.)
pub proof fn law_string_round_trip(before: Seq<u8>, s: Seq<char>, after: Seq<u8>)
    requires
        encode_utf8(s).len() < 0xffff,
    ensures
        lp_at(before + lp_bytes(s) + after, before.len() as int) == Some(
            (s, before.len() + lp_bytes(s).len() as int),
        ),
{
    let text = encode_utf8(s);
    let buf = before + lp_bytes(s) + after;
    let at = before.len() as int;
    let len = (text.len() + 1) as int;
    lemma_be_bytes_len((text.len() + 1) as nat, 2);
    lemma_be_limits();
    lemma_value_of_bytes((text.len() + 1) as nat, 2);
    assert(buf.subrange(at, at + 2) =~= be_bytes((text.len() + 1) as nat, 2));
    let bytes = buf.subrange(at + 2, at + 2 + len);
    assert(bytes =~= text + seq![0u8]);
    assert(bytes.drop_last() =~= text);
    lemma_lossy_of_text(s);
}

/// The bytes of a client packet.
pub open spec fn client_key_bytes(km: ClientKeyView) -> Seq<u8> {
    seq![0u8, 0, 0, 0, KEY_METHOD_2] + km.pre_master + km.random1 + km.random2 + lp_bytes(
        km.options,
    ) + lp_bytes(km.username) + lp_bytes(km.password) + lp_bytes(km.peer_info)
}

/// A client packet reads back as what it says, whatever follows it in the
/// stream, and takes as many bytes as it has.
pub proof fn law_client_key_round_trip(km: ClientKeyView, after: Seq<u8>)
    requires
        km.pre_master.len() == PRE_MASTER_LEN,
        km.random1.len() == RANDOM_LEN,
        km.random2.len() == RANDOM_LEN,
        encode_utf8(km.options).len() < 0xffff,
        encode_utf8(km.username).len() < 0xffff,
        encode_utf8(km.password).len() < 0xffff,
        encode_utf8(km.peer_info).len() < 0xffff,
    ensures
        client_key_of(client_key_bytes(km) + after) == Ok::<
            Option<(ClientKeyView, int)>,
            ControlError,
        >(Some((km, client_key_bytes(km).len() as int))),
{
    let fixed = seq![0u8, 0, 0, 0, KEY_METHOD_2] + km.pre_master + km.random1 + km.random2;
    let w1 = lp_bytes(km.options);
    let w2 = lp_bytes(km.username);
    let w3 = lp_bytes(km.password);
    let w4 = lp_bytes(km.peer_info);
    let buf = client_key_bytes(km) + after;
    let at1 = (fixed + w1).len() as int;
    let at2 = (fixed + w1 + w2).len() as int;
    let at3 = (fixed + w1 + w2 + w3).len() as int;
    lemma_regroup(fixed, w1, w2, w3, w4, after);
    assert(lp_at(buf, fixed.len() as int) == Some((km.options, at1))) by {
        law_string_round_trip(fixed, km.options, w2 + w3 + w4 + after);
    }
    assert(lp_at(buf, at1) == Some((km.username, at2))) by {
        law_string_round_trip(fixed + w1, km.username, w3 + w4 + after);
    }
    assert(lp_at(buf, at2) == Some((km.password, at3))) by {
        law_string_round_trip(fixed + w1 + w2, km.password, w4 + after);
    }
    assert(lp_at(buf, at3) == Some((km.peer_info, client_key_bytes(km).len() as int))) by {
        law_string_round_trip(fixed + w1 + w2 + w3, km.peer_info, after);
    }
    lemma_fixed_part(km.pre_master, km.random1, km.random2, w1 + w2 + w3 + w4 + after);
    lemma_client_key_of_parts(buf, km, at1, at2, at3, client_key_bytes(km).len() as int);
}

/// A client packet, from its parts.
proof fn lemma_client_key_of_parts(
    buf: Seq<u8>,
    km: ClientKeyView,
    at1: int,
    at2: int,
    at3: int,
    end: int,
)
    requires
        buf.len() >= CLIENT_FIXED_LEN,
        buf.subrange(0, 4) == seq![0u8, 0, 0, 0],
        buf[4] == KEY_METHOD_2,
        buf.subrange(5, 53) == km.pre_master,
        buf.subrange(53, 85) == km.random1,
        buf.subrange(85, 117) == km.random2,
        lp_at(buf, CLIENT_FIXED_LEN as int) == Some((km.options, at1)),
        lp_at(buf, at1) == Some((km.username, at2)),
        lp_at(buf, at2) == Some((km.password, at3)),
        lp_at(buf, at3) == Some((km.peer_info, end)),
    ensures
        client_key_of(buf) == Ok::<Option<(ClientKeyView, int)>, ControlError>(Some((km, end))),
{
}

proof fn lemma_regroup(
    f: Seq<u8>,
    w1: Seq<u8>,
    w2: Seq<u8>,
    w3: Seq<u8>,
    w4: Seq<u8>,
    after: Seq<u8>,
)
    ensures
        f + w1 + (w2 + w3 + w4 + after) == f + w1 + w2 + w3 + w4 + after,
        f + w1 + w2 + (w3 + w4 + after) == f + w1 + w2 + w3 + w4 + after,
        f + w1 + w2 + w3 + (w4 + after) == f + w1 + w2 + w3 + w4 + after,
        f + (w1 + w2 + w3 + w4 + after) == f + w1 + w2 + w3 + w4 + after,
{
    assert(f + w1 + (w2 + w3 + w4 + after) =~= f + w1 + w2 + w3 + w4 + after);
    assert(f + w1 + w2 + (w3 + w4 + after) =~= f + w1 + w2 + w3 + w4 + after);
    assert(f + w1 + w2 + w3 + (w4 + after) =~= f + w1 + w2 + w3 + w4 + after);
    assert(f + (w1 + w2 + w3 + w4 + after) =~= f + w1 + w2 + w3 + w4 + after);
}

proof fn lemma_fixed_part(pre: Seq<u8>, r1: Seq<u8>, r2: Seq<u8>, rest: Seq<u8>)
    requires
        pre.len() == PRE_MASTER_LEN,
        r1.len() == RANDOM_LEN,
        r2.len() == RANDOM_LEN,
    ensures
        ({
            let buf = seq![0u8, 0, 0, 0, KEY_METHOD_2] + pre + r1 + r2 + rest;
            &&& buf.len() >= CLIENT_FIXED_LEN
            &&& buf.subrange(0, 4) == seq![0u8, 0, 0, 0]
            &&& buf[4] == KEY_METHOD_2
            &&& buf.subrange(5, 53) == pre
            &&& buf.subrange(53, 85) == r1
            &&& buf.subrange(85, 117) == r2
        }),
{
    let buf = seq![0u8, 0, 0, 0, KEY_METHOD_2] + pre + r1 + r2 + rest;
    assert(buf.subrange(0, 4) =~= seq![0u8, 0, 0, 0]);
    assert(buf.subrange(5, 53) =~= pre);
    assert(buf.subrange(53, 85) =~= r1);
    assert(buf.subrange(85, 117) =~= r2);
}

proof fn lemma_lp_at_extends(buf: Seq<u8>, more: Seq<u8>, at: int)
    requires
        at >= 0,
        lp_at(buf, at) is Some,
    ensures
        lp_at(buf + more, at) == lp_at(buf, at),
        at < (lp_at(buf, at)->0).1 <= buf.len(),
{
    let len = be_value(buf.subrange(at, at + 2)) as int;
    assert((buf + more).subrange(at, at + 2) =~= buf.subrange(at, at + 2));
    assert((buf + more).subrange(at + 2, at + 2 + len) =~= buf.subrange(at + 2, at + 2 + len));
}

/// A packet that can be read, or a refusal, stays what it is when more of the
/// stream arrives.
pub proof fn law_client_key_stable(buf: Seq<u8>, more: Seq<u8>)
    requires
        client_key_of(buf) != Ok::<Option<(ClientKeyView, int)>, ControlError>(None),
    ensures
        client_key_of(buf + more) == client_key_of(buf),
{
    let all = buf + more;
    assert(all.subrange(0, 4) =~= buf.subrange(0, 4));
    assert(all[4] == buf[4]);
    if client_key_of(buf) is Ok {
        assert(all.subrange(5, 53) =~= buf.subrange(5, 53));
        assert(all.subrange(53, 85) =~= buf.subrange(53, 85));
        assert(all.subrange(85, 117) =~= buf.subrange(85, 117));
        let at0 = CLIENT_FIXED_LEN as int;
        lemma_lp_at_extends(buf, more, at0);
        let at1 = (lp_at(buf, at0)->0).1;
        lemma_lp_at_extends(buf, more, at1);
        let at2 = (lp_at(buf, at1)->0).1;
        lemma_lp_at_extends(buf, more, at2);
        let at3 = (lp_at(buf, at2)->0).1;
        lemma_lp_at_extends(buf, more, at3);
    }
}

/// A message without a NUL reads back once its NUL has arrived, whatever
/// follows; until then more is needed.
pub proof fn law_ascii_round_trip(message: Seq<char>, after: Seq<u8>)
    requires
        !encode_utf8(message).contains(0u8),
    ensures
        ascii_of(encode_utf8(message)) is None,
        ascii_of(encode_utf8(message).push(0u8) + after) == Some(
            (message, encode_utf8(message).len() + 1int),
        ),
{
    let text = encode_utf8(message);
    let buf = text.push(0u8) + after;
    text.index_of_first_ensures(0u8);
    buf.index_of_first_ensures(0u8);
    assert(buf[text.len() as int] == 0u8);
    assert(buf.contains(0u8));
    let i = buf.index_of_first(0u8)->0;
    if i < text.len() {
        assert(text[i] == buf[i]);
        assert(text.contains(0u8));
    }
    assert(buf.take(i) =~= text);
    lemma_lossy_of_text(message);
}

/// A string on the wire: two bytes, most significant first, with the number of
/// bytes that follow; those are the text and a NUL.
pub proof fn law_string_layout(s: Seq<char>)
    requires
        encode_utf8(s).len() < 0xffff,
    ensures
        ({
            let w = lp_bytes(s);
            &&& w.len() == encode_utf8(s).len() + 3
            &&& w[0] * 0x100 + w[1] == w.len() - 2
            &&& w.subrange(2, w.len() - 1) == encode_utf8(s)
            &&& w.last() == 0
        }),
{
    let text = encode_utf8(s);
    let w = lp_bytes(s);
    lemma_be_bytes_len((text.len() + 1) as nat, 2);
    lemma_be_limits();
    lemma_value_of_bytes((text.len() + 1) as nat, 2);
    assert(w.take(2) =~= be_bytes((text.len() + 1) as nat, 2));
    lemma_be_value_digits(w.take(2));
    assert(w.subrange(2, w.len() - 1) =~= text);
}

/// The text of a string's bytes, with or without the NUL at their end.
pub proof fn law_string_text(text: Seq<char>)
    ensures
        lp_text(encode_utf8(text).push(0u8)) == text,
        encode_utf8(text).len() > 0 && encode_utf8(text).last() != 0 ==> lp_text(encode_utf8(text))
            == text,
        lp_text(Seq::empty()) == Seq::<char>::empty(),
{
    lemma_lossy_of_text(text);
    assert(encode_utf8(text).push(0u8).drop_last() =~= encode_utf8(text));
}

/// Where the parts of the client's packet stand, read off its bytes: four
/// zeros, the number 2, 48 bytes of pre-master secret, two random values of 32
/// bytes, and four strings behind their lengths: options, user name, password,
/// peer info. It is read as soon as the last byte of the last string is there,
/// and not before; what follows is left. It is refused for its first five
/// bytes alone, once the part in front of the strings is there.
pub proof fn law_client_packet_layout(buf: Seq<u8>)
    ensures
        buf.len() < 117 ==> client_key_of(buf) == Ok::<Option<(ClientKeyView, int)>, ControlError>(
            None,
        ),
        buf.len() >= 117 ==> (client_key_of(buf) == Err::<
            Option<(ClientKeyView, int)>,
            ControlError,
        >(ControlError::BadPreamble) <==> !(buf[0] == 0 && buf[1] == 0 && buf[2] == 0 && buf[3]
            == 0)),
        buf.len() >= 117 && buf[0] == 0 && buf[1] == 0 && buf[2] == 0 && buf[3] == 0 && buf[4] != 2
            ==> client_key_of(buf) == Err::<Option<(ClientKeyView, int)>, ControlError>(
            ControlError::UnsupportedKeyMethod(buf[4]),
        ),
        buf.len() >= 117 && buf[0] == 0 && buf[1] == 0 && buf[2] == 0 && buf[3] == 0 && buf[4] == 2
            ==> ({
            let end1 = 119 + buf[117] * 0x100 + buf[118];
            let end2 = end1 + 2 + buf[end1] * 0x100 + buf[end1 + 1];
            let end3 = end2 + 2 + buf[end2] * 0x100 + buf[end2 + 1];
            let end4 = end3 + 2 + buf[end3] * 0x100 + buf[end3 + 1];
            let all = buf.len() >= 119 && buf.len() >= end1 + 2 && buf.len() >= end2 + 2
                && buf.len() >= end3 + 2 && buf.len() >= end4;
            &&& client_key_of(buf) matches Ok(read) && (read is Some <==> all)
            &&& client_key_of(buf) matches Ok(Some((km, n))) ==> {
                &&& n == end4
                &&& km.pre_master == buf.subrange(5, 53)
                &&& km.random1 == buf.subrange(53, 85)
                &&& km.random2 == buf.subrange(85, 117)
                &&& km.options == lp_text(buf.subrange(119, end1))
                &&& km.username == lp_text(buf.subrange(end1 + 2, end2))
                &&& km.password == lp_text(buf.subrange(end2 + 2, end3))
                &&& km.peer_info == lp_text(buf.subrange(end3 + 2, end4))
            }
        }),
{
    if buf.len() >= 117 {
        let head = buf.subrange(0, 4);
        assert(head[0] == buf[0] && head[1] == buf[1] && head[2] == buf[2] && head[3] == buf[3]);
        if buf[0] == 0 && buf[1] == 0 && buf[2] == 0 && buf[3] == 0 {
            assert(head =~= seq![0u8, 0, 0, 0]);
        }
        lemma_string_at(buf, 117);
        if buf.len() >= 119 {
            let end1 = 119 + buf[117] * 0x100 + buf[118];
            lemma_string_at(buf, end1);
            if buf.len() >= end1 + 2 {
                let end2 = end1 + 2 + buf[end1] * 0x100 + buf[end1 + 1];
                lemma_string_at(buf, end2);
                if buf.len() >= end2 + 2 {
                    let end3 = end2 + 2 + buf[end2] * 0x100 + buf[end2 + 1];
                    lemma_string_at(buf, end3);
                }
            }
        }
    }
}

/// A string in a buffer, from the digits of its length.
proof fn lemma_string_at(buf: Seq<u8>, at: int)
    requires
        0 <= at,
    ensures
        buf.len() < at + 2 ==> lp_at(buf, at) is None,
        buf.len() >= at + 2 ==> ({
            let end = at + 2 + buf[at] * 0x100 + buf[at + 1];
            lp_at(buf, at) == if buf.len() < end {
                None
            } else {
                Some((lp_text(buf.subrange(at + 2, end)), end))
            }
        }),
{
    if buf.len() >= at + 2 {
        lemma_be_value_digits(buf.subrange(at, at + 2));
    }
}

/// Where the parts of the server's packet stand: four zeros, the number 2, the
/// two random values, and the same four strings in the same order.
#[verifier::rlimit(30)]
pub proof fn law_server_packet_layout(
    random1: Seq<u8>,
    random2: Seq<u8>,
    options: Seq<char>,
    username: Seq<char>,
    password: Seq<char>,
    peer_info: Seq<char>,
)
    requires
        random1.len() == 32,
        random2.len() == 32,
        encode_utf8(options).len() < 0xffff,
        encode_utf8(username).len() < 0xffff,
        encode_utf8(password).len() < 0xffff,
        encode_utf8(peer_info).len() < 0xffff,
    ensures
        ({
            let p = server_key_bytes(random1, random2, options, username, password, peer_info);
            let end1 = 72 + encode_utf8(options).len() as int;
            let end2 = end1 + 3 + encode_utf8(username).len() as int;
            let end3 = end2 + 3 + encode_utf8(password).len() as int;
            let end4 = end3 + 3 + encode_utf8(peer_info).len() as int;
            &&& p.len() == end4
            &&& p.take(5) == seq![0u8, 0, 0, 0, 2]
            &&& p.subrange(5, 37) == random1
            &&& p.subrange(37, 69) == random2
            &&& p[69] * 0x100 + p[70] == end1 - 71
            &&& p.subrange(71, end1 - 1) == encode_utf8(options) && p[end1 - 1] == 0
            &&& p.subrange(end1 + 2, end2 - 1) == encode_utf8(username) && p[end2 - 1] == 0
            &&& p.subrange(end2 + 2, end3 - 1) == encode_utf8(password) && p[end3 - 1] == 0
            &&& p[end3] * 0x100 + p[end3 + 1] == end4 - end3 - 2
            &&& p.subrange(end3 + 2, end4 - 1) == encode_utf8(peer_info) && p[end4 - 1] == 0
        }),
{
    let f = seq![0u8, 0, 0, 0, KEY_METHOD_2] + random1 + random2;
    let w1 = lp_bytes(options);
    let w2 = lp_bytes(username);
    let w3 = lp_bytes(password);
    let w4 = lp_bytes(peer_info);
    let p = server_key_bytes(random1, random2, options, username, password, peer_info);
    law_string_layout(options);
    law_string_layout(username);
    law_string_layout(password);
    law_string_layout(peer_info);
    lemma_five_parts(f, w1, w2, w3, w4);
    let at1 = 69int;
    let at2 = at1 + w1.len();
    let at3 = at2 + w2.len();
    let at4 = at3 + w3.len();
    lemma_string_in(p, at1, options);
    lemma_string_in(p, at2, username);
    lemma_string_in(p, at3, password);
    lemma_string_in(p, at4, peer_info);
    assert(p.take(5) =~= p.subrange(0, 69).take(5));
    assert(f.take(5) =~= seq![0u8, 0, 0, 0, 2]);
    assert(p.subrange(5, 37) =~= p.subrange(0, 69).subrange(5, 37));
    assert(f.subrange(5, 37) =~= random1);
    assert(p.subrange(37, 69) =~= p.subrange(0, 69).subrange(37, 69));
    assert(f.subrange(37, 69) =~= random2);
}

/// Where the parts of five stand in the whole.
proof fn lemma_five_parts(f: Seq<u8>, w1: Seq<u8>, w2: Seq<u8>, w3: Seq<u8>, w4: Seq<u8>)
    ensures
        ({
            let p = f + w1 + w2 + w3 + w4;
            let a = f.len() as int;
            let b = a + w1.len();
            let c = b + w2.len();
            let d = c + w3.len();
            &&& p.len() == d + w4.len()
            &&& p.subrange(0, a) == f
            &&& p.subrange(a, b) == w1
            &&& p.subrange(b, c) == w2
            &&& p.subrange(c, d) == w3
            &&& p.subrange(d, d + w4.len()) == w4
        }),
{
    let p = f + w1 + w2 + w3 + w4;
    let a = f.len() as int;
    let b = a + w1.len();
    let c = b + w2.len();
    let d = c + w3.len();
    assert(p.subrange(0, a) =~= f);
    assert(p.subrange(a, b) =~= w1);
    assert(p.subrange(b, c) =~= w2);
    assert(p.subrange(c, d) =~= w3);
    assert(p.subrange(d, d + w4.len()) =~= w4);
}

/// A string that stands in a packet.
proof fn lemma_string_in(p: Seq<u8>, at: int, s: Seq<char>)
    requires
        0 <= at,
        at + lp_bytes(s).len() <= p.len(),
        p.subrange(at, at + lp_bytes(s).len()) == lp_bytes(s),
        encode_utf8(s).len() < 0xffff,
    ensures
        ({
            let end = at + 3 + encode_utf8(s).len();
            &&& lp_bytes(s).len() == end - at
            &&& p[at] * 0x100 + p[at + 1] == end - at - 2
            &&& p.subrange(at + 2, end - 1) == encode_utf8(s)
            &&& p[end - 1] == 0
        }),
{
    law_string_layout(s);
    let w = lp_bytes(s);
    assert(w[0] == p[at] && w[1] == p[at + 1] && w.last() == p[at + w.len() - 1]);
    assert(p.subrange(at + 2, at + w.len() - 1) =~= w.subrange(2, w.len() - 1));
}

/// A message ends at the first NUL, which it takes along; what is in front of
/// that is its text. Until there is a NUL there is no message.
pub proof fn law_message_ends_at_first_nul(buf: Seq<u8>)
    ensures
        ascii_of(buf) is None <==> !buf.contains(0u8),
        ascii_of(buf) matches Some((text, n)) ==> {
            &&& 0 < n <= buf.len()
            &&& buf[n - 1] == 0
            &&& forall|j: int| 0 <= j < n - 1 ==> #[trigger] buf[j] != 0
            &&& valid_utf8(buf.take(n - 1)) ==> encode_utf8(text) == buf.take(n - 1)
            &&& !valid_utf8(buf.take(n - 1)) ==> text == utf8_repaired(buf.take(n - 1))
        },
{
    buf.index_of_first_ensures(0u8);
    if let Some((text, n)) = ascii_of(buf) {
        if valid_utf8(buf.take(n - 1)) {
            vstd::utf8::decode_utf8_encode_utf8(buf.take(n - 1));
        }
    }
}

/// The options string holds the two sizes as they are, each behind its name and
/// in front of a comma, and the fixed part around them.
pub proof fn law_options_string(link_mtu: u16, tun_mtu: u16, link: Seq<char>, tun: Seq<char>)
    requires
        link == decimal(link_mtu as nat),
        tun == decimal(tun_mtu as nat),
    ensures
        ({
            let s = options_text(link_mtu, tun_mtu);
            let a = "V4,dev-type tun,link-mtu "@;
            let b = ",tun-mtu "@;
            let c =
                ",proto UDPv4,cipher AES-256-GCM,auth SHA256,keysize 256,key-method 2,tls-server"@;
            &&& s.len() == a.len() + link.len() + b.len() + tun.len() + c.len()
            &&& a.is_prefix_of(s)
            &&& s.subrange(a.len() as int, (a.len() + link.len()) as int) == link
            &&& s.subrange(
                (a.len() + link.len()) as int,
                (a.len() + link.len() + b.len()) as int,
            ) == b
            &&& s.subrange(
                (a.len() + link.len() + b.len()) as int,
                s.len() - c.len(),
            ) == tun
            &&& s.skip(s.len() - c.len()) == c
        }),
{
    let s = options_text(link_mtu, tun_mtu);
    let a = "V4,dev-type tun,link-mtu "@;
    let b = ",tun-mtu "@;
    let c = ",proto UDPv4,cipher AES-256-GCM,auth SHA256,keysize 256,key-method 2,tls-server"@;
    assert(s.subrange(0, a.len() as int) =~= a);
    assert(s.subrange(a.len() as int, (a.len() + link.len()) as int) =~= link);
    assert(s.subrange((a.len() + link.len()) as int, (a.len() + link.len() + b.len()) as int)
        =~= b);
    assert(s.subrange((a.len() + link.len() + b.len()) as int, s.len() - c.len()) =~= tun);
    assert(s.skip(s.len() - c.len()) =~= c);
}

/// The peer info, in full.
pub proof fn law_peer_info()
    ensures
        peer_info_text()
            == "IV_VER=javs-0.1.0\nIV_PLAT=server\nIV_PROTO=132\nIV_CIPHERS=AES-256-GCM\n"@,
{
    law_no_key_export();
    reveal_with_fuel(crate::text::number, 4);
    reveal_strlit("IV_VER=javs-0.1.0\nIV_PLAT=server\nIV_PROTO=");
    reveal_strlit("\nIV_CIPHERS=AES-256-GCM\n");
    reveal_strlit("IV_VER=javs-0.1.0\nIV_PLAT=server\nIV_PROTO=132\nIV_CIPHERS=AES-256-GCM\n");
    assert(decimal(132) =~= seq!['1', '3', '2']);
    assert(peer_info_text()
        =~= "IV_VER=javs-0.1.0\nIV_PLAT=server\nIV_PROTO=132\nIV_CIPHERS=AES-256-GCM\n"@);
}

/// The text of a string's bytes that are not UTF-8 is the repaired one, without
/// the NUL at their end if there is one.
pub proof fn law_string_repaired(bytes: Seq<u8>)
    requires
        bytes.len() > 0,
    ensures
        bytes.last() == 0 && !valid_utf8(bytes.drop_last()) ==> lp_text(bytes) == utf8_repaired(
            bytes.drop_last(),
        ),
        bytes.last() != 0 && !valid_utf8(bytes) ==> lp_text(bytes) == utf8_repaired(bytes),
        bytes.last() != 0 && valid_utf8(bytes) ==> encode_utf8(lp_text(bytes)) == bytes,
        bytes.last() == 0 && valid_utf8(bytes.drop_last()) ==> encode_utf8(lp_text(bytes))
            == bytes.drop_last(),
{
    if bytes.last() != 0 && valid_utf8(bytes) {
        vstd::utf8::decode_utf8_encode_utf8(bytes);
    }
    if bytes.last() == 0 && valid_utf8(bytes.drop_last()) {
        vstd::utf8::decode_utf8_encode_utf8(bytes.drop_last());
    }
}

} // verus!
