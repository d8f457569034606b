//! The TLS session behind a control channel.
//!
//! The control channel is a queue of packets, so TLS bytes are fed and drained
//! by hand instead of through a stream. What a TLS connection answers depends
//! on the peer and on random keys; what is claimed of it is which bytes it was
//! handed, in which order.

use std::io::{Read, Write};
use std::sync::Arc;

use vstd::prelude::*;

use rustls::{ServerConfig as RustlsConfig, ServerConnection};
use x509_parser::prelude::{FromDer, X509Certificate};

use crate::codec::push_bytes;
use crate::session::byte_lists;

verus! {

/// Why a TLS operation failed.
#[derive(Debug, Clone, Copy, PartialEq, Eq, Structural)]
pub enum TlsError {
    /// The connection could not be set up with the configuration.
    NewConnection,
    /// The connection takes no more input.
    ReadTls,
    /// The peer sent something that is not valid TLS, or was refused.
    ProcessPackets,
    /// The plaintext could not be queued.
    WriteAll,
    /// The certificate cannot be parsed.
    BadCertificate,
}

/// The state of one TLS connection.
#[verifier::external_type_specification]
#[verifier::external_body]
pub struct ExServerConnection(rustls::ServerConnection);

/// Certificates, keys and policy of a TLS server.
#[verifier::external_type_specification]
#[verifier::external_body]
pub struct ExRustlsConfig(RustlsConfig);

/// The error of the TLS implementation.
#[verifier::external_type_specification]
#[verifier::external_body]
pub struct ExTlsLibError(rustls::Error);

/// The TLS bytes that a connection has taken in from its peer, in order.
pub uninterp spec fn tls_received(conn: ServerConnection) -> Seq<u8>;

/// The plaintext that a connection has accepted for its peer, in order.
pub uninterp spec fn tls_queued(conn: ServerConnection) -> Seq<u8>;

/// The TLS bytes, of those taken in, that a connection was made to work on.
pub uninterp spec fn tls_processed(conn: ServerConnection) -> Seq<u8>;

/// The plaintext from its peer that a connection has handed out, in order.
pub uninterp spec fn tls_delivered(conn: ServerConnection) -> Seq<u8>;

/// The TLS bytes for its peer that a connection has handed out, in order.
pub uninterp spec fn tls_sent(conn: ServerConnection) -> Seq<u8>;

/// The TLS bytes for its peer that a connection hands out when it is next
/// asked: those at the front of its output buffer.
pub uninterp spec fn tls_pending(conn: ServerConnection) -> Seq<u8>;

/// The plaintext from its peer that a connection holds for the application.
pub uninterp spec fn tls_plaintext(conn: ServerConnection) -> Seq<u8>;

/// Whether a connection can be set up with a configuration.
pub uninterp spec fn tls_acceptable(cfg: RustlsConfig) -> bool;

/// Whether a connection accepts this many bytes of plaintext for its peer, all
/// of them.
pub uninterp spec fn tls_accepts(conn: ServerConnection, len: nat) -> bool;

/// The configuration that a connection was set up with.
pub uninterp spec fn tls_config_of(conn: ServerConnection) -> RustlsConfig;

/// How many of `len` bytes on offer a connection takes in one reading, if it
/// takes input at all.
pub uninterp spec fn tls_read_size(conn: ServerConnection, len: nat) -> Option<nat>;

/// Whether a connection has failed for good: input that it worked on was not
/// acceptable.
pub uninterp spec fn tls_failed(conn: ServerConnection) -> bool;

/// Whether a connection's handshake is still under way.
pub uninterp spec fn tls_handshaking(conn: ServerConnection) -> bool;

/// The chain of certificates that the peer of a connection has shown, its own
/// one first.
pub uninterp spec fn tls_peer_chain(conn: ServerConnection) -> Option<Seq<Seq<u8>>>;

/// The peer's own certificate, if it has shown one.
pub open spec fn tls_peer_certificate(conn: ServerConnection) -> Option<Seq<u8>> {
    match tls_peer_chain(conn) {
        Some(chain) if chain.len() > 0 => Some(chain[0]),
        _ => None,
    }
}

/// Whether a connection has taken in, accepted and handed out nothing, holds
/// nothing for the application, and has not failed.
pub open spec fn untouched(conn: ServerConnection) -> bool {
    &&& tls_received(conn) == Seq::<u8>::empty()
    &&& tls_processed(conn) == Seq::<u8>::empty()
    &&& tls_delivered(conn) == Seq::<u8>::empty()
    &&& tls_queued(conn) == Seq::<u8>::empty()
    &&& tls_sent(conn) == Seq::<u8>::empty()
    &&& tls_plaintext(conn) == Seq::<u8>::empty()
    &&& !tls_failed(conn)
}

/// Whether two states of a connection differ in nothing that passed between it
/// and the application: what it accepted and handed out is the same.
pub open spec fn same_traffic(a: ServerConnection, b: ServerConnection) -> bool {
    &&& tls_delivered(a) == tls_delivered(b)
    &&& tls_queued(a) == tls_queued(b)
    &&& tls_sent(a) == tls_sent(b)
    &&& tls_config_of(a) == tls_config_of(b)
}

/// Whether two states of a connection have taken in, and were made to work on,
/// the same TLS bytes, with the same outcome: both or neither have failed, and
/// the handshake and what is known of the peer are the same.
pub open spec fn same_input(a: ServerConnection, b: ServerConnection) -> bool {
    &&& tls_received(a) == tls_received(b)
    &&& tls_processed(a) == tls_processed(b)
    &&& tls_failed(a) == tls_failed(b)
    &&& tls_handshaking(a) == tls_handshaking(b)
    &&& tls_peer_chain(a) == tls_peer_chain(b)
    &&& tls_config_of(a) == tls_config_of(b)
}

/// Whether a connection that was `before` has come to `after` by nothing but
/// accepting plaintext for its peer: its input is the same, it has handed
/// nothing out, and it holds what it held for the application.
pub open spec fn only_queued(before: ServerConnection, after: ServerConnection) -> bool {
    &&& same_input(after, before)
    &&& tls_sent(after) == tls_sent(before)
    &&& tls_delivered(after) == tls_delivered(before)
    &&& tls_plaintext(after) == tls_plaintext(before)
}

/// Calls `rustls::ServerConnection::new`: the server's end of a connection
/// with this configuration that has taken in, accepted and handed out nothing.
/// Whether there can be one depends on the configuration alone, and is named.
#[verifier::external_body]
fn connection_new(cfg: Arc<RustlsConfig>) -> (r: Result<ServerConnection, rustls::Error>)
    ensures
        (r is Ok) == tls_acceptable(*cfg),
        match r {
            Ok(conn) => untouched(conn) && tls_config_of(conn) == *cfg,
            Err(_) => true,
        },
{
    ServerConnection::new(cfg)
}

/// Calls `rustls::ServerConnection::read_tls` on `data`: the connection takes
/// in as many bytes from the front as the result says. How many that are
/// depends on the connection's state and on the number of bytes on offer; it
/// is named. An error takes in nothing. The bytes are only kept, and not
/// worked on.
#[verifier::external_body]
fn connection_read_tls(conn: &mut ServerConnection, data: &[u8]) -> (r: Option<usize>)
    ensures
        match r {
            Some(n) => n <= data@.len() && tls_read_size(*old(conn), data@.len()) == Some(n as nat)
                && tls_received(*final(conn)) == tls_received(*old(conn)) + data@.take(n as int),
            None => tls_read_size(*old(conn), data@.len()) is None && tls_received(*final(conn))
                == tls_received(*old(conn)),
        },
        tls_processed(*final(conn)) == tls_processed(*old(conn)),
        tls_failed(*final(conn)) == tls_failed(*old(conn)),
        tls_handshaking(*final(conn)) == tls_handshaking(*old(conn)),
        tls_peer_chain(*final(conn)) == tls_peer_chain(*old(conn)),
        same_traffic(*final(conn), *old(conn)),
        tls_plaintext(*final(conn)) == tls_plaintext(*old(conn)),
{
    let mut rest = data;
    conn.read_tls(&mut rest).ok()
}

/// Calls `rustls::ServerConnection::process_new_packets`, which works on input
/// that was taken in before: whether it is acceptable. On success the
/// connection was made to work on all of it. A refusal is kept in the
/// connection, which then has failed, and every later call refuses too.
#[verifier::external_body]
fn connection_process(conn: &mut ServerConnection) -> (ok: bool)
    ensures
        ok == !tls_failed(*final(conn)),
        tls_failed(*old(conn)) ==> !ok,
        ok ==> tls_processed(*final(conn)) == tls_received(*old(conn)),
        tls_received(*final(conn)) == tls_received(*old(conn)),
        same_traffic(*final(conn), *old(conn)),
{
    conn.process_new_packets().is_ok()
}

/// Calls `read_to_end` on `rustls::ServerConnection::reader`: the plaintext
/// that the connection holds for the application, all of it, handed out once.
/// (The call ends with an error when the connection would have to wait; what
/// was read before stays.) What the connection holds depends on its state
/// alone, and is named; how that comes from the bytes of the peer is not
/// stated.
#[verifier::external_body]
fn connection_plaintext(conn: &mut ServerConnection) -> (bytes: Vec<u8>)
    ensures
        bytes@ == tls_plaintext(*old(conn)),
        tls_plaintext(*final(conn)) == Seq::<u8>::empty(),
        tls_delivered(*final(conn)) == tls_delivered(*old(conn)) + bytes@,
        same_input(*final(conn), *old(conn)),
        tls_queued(*final(conn)) == tls_queued(*old(conn)),
        tls_sent(*final(conn)) == tls_sent(*old(conn)),
{
    let mut bytes = Vec::new();
    let _ = conn.reader().read_to_end(&mut bytes);
    bytes
}

/// Calls `rustls::ServerConnection::write_tls`: the TLS bytes for the peer at
/// the front of the connection's output buffer (all of it, unless it is in
/// very many parts), which are handed out once. Which bytes those are depends
/// on the connection's state alone, and is named; how that state came to hold
/// them, and what is left, is not stated.
#[verifier::external_body]
fn connection_write_tls(conn: &mut ServerConnection) -> (bytes: Vec<u8>)
    ensures
        bytes@ == tls_pending(*old(conn)),
        tls_sent(*final(conn)) == tls_sent(*old(conn)) + bytes@,
        same_input(*final(conn), *old(conn)),
        tls_queued(*final(conn)) == tls_queued(*old(conn)),
        tls_delivered(*final(conn)) == tls_delivered(*old(conn)),
        tls_plaintext(*final(conn)) == tls_plaintext(*old(conn)),
{
    let mut bytes = Vec::new();
    let _ = conn.write_tls(&mut bytes);
    bytes
}

/// Calls `write_all` on `rustls::ServerConnection::writer`: on success all of
/// `data` was accepted for the peer, else a part from its front, not all of
/// it. Which of the two comes depends on the connection's state and on the
/// number of bytes, and is named. A connection that has failed accepts nothing.
#[verifier::external_body]
fn connection_write_all(conn: &mut ServerConnection, data: &[u8]) -> (ok: bool)
    ensures
        ok == tls_accepts(*old(conn), data@.len()),
        tls_failed(*old(conn)) && data@.len() > 0 ==> !ok && tls_queued(*final(conn)) == tls_queued(
            *old(conn),
        ),
        ok ==> tls_queued(*final(conn)) == tls_queued(*old(conn)) + data@,
        !ok ==> exists|k: int|
            0 <= k < data@.len() && tls_queued(*final(conn)) == tls_queued(*old(conn))
                + #[trigger] data@.take(k),
        same_input(*final(conn), *old(conn)),
        tls_delivered(*final(conn)) == tls_delivered(*old(conn)),
        tls_sent(*final(conn)) == tls_sent(*old(conn)),
        tls_plaintext(*final(conn)) == tls_plaintext(*old(conn)),
{
    conn.writer().write_all(data).is_ok()
}

/// Calls `rustls::ServerConnection::is_handshaking`; the result depends on the
/// connection's state alone, and is named.
#[verifier::external_body]
fn connection_is_handshaking(conn: &ServerConnection) -> (r: bool)
    ensures
        r == tls_handshaking(*conn),
{
    conn.is_handshaking()
}

/// Calls `rustls::ServerConnection::peer_certificates`: the bytes of the
/// certificates of the peer's chain, if the peer has shown one; the result
/// depends on the connection's state alone, and is named.
#[verifier::external_body]
fn connection_peer_chain(conn: &ServerConnection) -> (chain: Option<Vec<Vec<u8>>>)
    ensures
        match chain {
            Some(certs) => tls_peer_chain(*conn) == Some(byte_lists(certs@)),
            None => tls_peer_chain(*conn) is None,
        },
{
    conn.peer_certificates().map(|chain| chain.iter().map(|cert| cert.to_vec()).collect())
}

/// The common names in the subject of an X.509 certificate, in order, nothing
/// in the place of one that is not a string; nothing at all if the bytes are no
/// certificate.
pub uninterp spec fn x509_common_names_of(der: Seq<u8>) -> Option<Seq<Option<Seq<char>>>>;

/// The texts of a list of optional strings.
pub open spec fn optional_texts(v: Seq<Option<String>>) -> Seq<Option<Seq<char>>> {
    v.map_values(
        |s: Option<String>|
            match s {
                Some(s) => Some(s@),
                None => None,
            },
    )
}

/// The common name in the subject of an X.509 certificate: nothing if the
/// bytes are no certificate; within that, nothing if the subject has no common
/// name or its first one is not a string.
pub open spec fn x509_common_name_of(der: Seq<u8>) -> Option<Option<Seq<char>>> {
    match x509_common_names_of(der) {
        Some(names) => Some(
            if names.len() > 0 {
                names[0]
            } else {
                None
            },
        ),
        None => None,
    }
}

/// Calls `x509_parser`'s `X509Certificate::from_der`, and `as_str` on the
/// items of `subject().iter_common_name()`. The result is named; it depends on
/// the bytes alone.
#[verifier::external_body]
fn x509_common_names(der: &[u8]) -> (r: Option<Vec<Option<String>>>)
    ensures
        match r {
            Some(names) => x509_common_names_of(der@) == Some(optional_texts(names@)),
            None => x509_common_names_of(der@) is None,
        },
{
    let (_, cert) = X509Certificate::from_der(der).ok()?;
    let names = cert.subject().iter_common_name();
    Some(names.map(|attr| attr.as_str().ok().map(|cn| cn.to_string())).collect())
}

/// The common name in the subject of a DER-encoded certificate. It is `None`
/// if the certificate has none; bytes that are no certificate are an error.
pub fn extract_common_name(cert_der: &[u8]) -> (r: Result<Option<String>, TlsError>)
    ensures
        match r {
            Ok(None) => x509_common_name_of(cert_der@) == Some(None::<Seq<char>>),
            Ok(Some(cn)) => x509_common_name_of(cert_der@) == Some(Some(cn@)),
            Err(e) => x509_common_name_of(cert_der@) is None && e == TlsError::BadCertificate,
        },
{
    match x509_common_names(cert_der) {
        Some(names) => {
            let mut names = names;
            if names.len() > 0 {
                Ok(names.remove(0))
            } else {
                Ok(None)
            }
        },
        None => Err(TlsError::BadCertificate),
    }
}

/// A TLS connection with what it has delivered.
pub struct TlsSession {
    pub conn: ServerConnection,
    /// Plaintext received from the peer and not yet consumed.
    pub plaintext_in: Vec<u8>,
}

/// What a [`TlsSession`] holds.
#[verifier::ext_equal]
pub ghost struct TlsView {
    pub conn: ServerConnection,
    pub plaintext: Seq<u8>,
}

impl View for TlsSession {
    type V = TlsView;

    open spec fn view(&self) -> TlsView {
        TlsView { conn: self.conn, plaintext: self.plaintext_in@ }
    }
}

/// Whether a connection that was `before` is `after` once it has taken in the
/// first `k` bytes of `data` and was made to work on them, with success. One
/// that has failed takes no further step.
pub open spec fn reached(
    before: ServerConnection,
    data: Seq<u8>,
    k: int,
    after: ServerConnection,
) -> bool {
    &&& 0 <= k <= data.len()
    &&& same_traffic(after, before)
    &&& k == 0 ==> after == before
    &&& k > 0 ==> {
        &&& tls_received(after) == tls_received(before) + data.take(k)
        &&& tls_processed(after) == tls_received(after)
        &&& !tls_failed(before)
        &&& !tls_failed(after)
    }
}

/// Whether `after` is `before` with its connection fed with `data`: the
/// connection has worked on all of it, or on as much from its front as it
/// would take, and has then handed all the plaintext that it held to the
/// buffer.
pub open spec fn took_in(before: TlsView, data: Seq<u8>, after: TlsView) -> bool {
    exists|k: int, mid: ServerConnection|
        {
            &&& #[trigger] reached(before.conn, data, k, mid)
            &&& k < data.len() ==> tls_read_size(mid, (data.len() - k) as nat) == Some(0nat)
            &&& same_input(after.conn, mid)
            &&& tls_queued(after.conn) == tls_queued(before.conn)
            &&& tls_sent(after.conn) == tls_sent(before.conn)
            &&& tls_delivered(after.conn) == tls_delivered(before.conn) + tls_plaintext(mid)
            &&& tls_plaintext(after.conn) == Seq::<u8>::empty()
            &&& after.plaintext == before.plaintext + tls_plaintext(mid)
        }
}

/// Whether `after` is a connection that was `before`, worked on `data` up to
/// some byte, and then either took no input at all, or took some and failed on
/// it. Nothing has passed between it and the application.
pub open spec fn refused(
    before: ServerConnection,
    data: Seq<u8>,
    after: ServerConnection,
    e: TlsError,
) -> bool {
    same_traffic(after, before) && exists|k: int, mid: ServerConnection|
        {
            &&& #[trigger] reached(before, data, k, mid)
            &&& k < data.len()
            &&& match tls_read_size(mid, (data.len() - k) as nat) {
                None => {
                    &&& e == TlsError::ReadTls
                    &&& same_input(after, mid)
                    &&& tls_plaintext(after) == tls_plaintext(mid)
                },
                Some(n) => {
                    &&& e == TlsError::ProcessPackets
                    &&& 0 < n <= data.len() - k
                    &&& tls_received(after) == tls_received(before) + data.take(k + n)
                    &&& tls_failed(after)
                },
            }
        }
}

/// A connection that has failed stays so: being fed with more, it works on
/// none of it, and it is fed with success only where it takes no input.
pub proof fn law_failed_for_good(before: TlsView, data: Seq<u8>, after: TlsView)
    requires
        tls_failed(before.conn),
        took_in(before, data, after),
    ensures
        tls_failed(after.conn),
        tls_received(after.conn) == tls_received(before.conn),
        data.len() > 0 ==> tls_read_size(before.conn, data.len()) == Some(0nat),
{
}

/// Whether a connection that was `before` has come to `after` by nothing but
/// accepting more plaintext for its peer; without any it is what it was.
pub open spec fn grown(before: ServerConnection, after: ServerConnection) -> bool {
    &&& only_queued(before, after)
    &&& tls_queued(before).is_prefix_of(tls_queued(after))
    &&& tls_queued(after) == tls_queued(before) ==> after == before
}

/// Growing goes on.
pub proof fn lemma_grown(a: ServerConnection, b: ServerConnection, c: ServerConnection)
    requires
        grown(a, b),
        grown(b, c),
    ensures
        grown(a, c),
{
    if tls_queued(c) == tls_queued(a) {
        assert(tls_queued(b) =~= tls_queued(a));
    }
}

/// Whether a connection has accepted `queued` and then a part of `data` from
/// its front, but not all of it.
pub open spec fn queued_in_part(queued: Seq<u8>, data: Seq<u8>, after: ServerConnection) -> bool {
    exists|k: int|
        0 <= k < data.len() && tls_queued(after) == queued + #[trigger] data.take(k)
}

impl TlsSession {
    /// The server's end of a new connection. Whether the configuration is
    /// acceptable is for the TLS implementation to say.
    pub fn new(cfg: Arc<RustlsConfig>) -> (r: Result<Self, TlsError>)
        ensures
            match r {
                Ok(tls) => tls.plaintext_in@ == Seq::<u8>::empty() && untouched(tls.conn)
                    && tls_config_of(tls.conn) == *cfg && tls_acceptable(*cfg),
                Err(e) => e == TlsError::NewConnection && !tls_acceptable(*cfg),
            },
    {
        match connection_new(cfg) {
            Ok(conn) => Ok(TlsSession { conn, plaintext_in: Vec::new() }),
            Err(_) => Err(TlsError::NewConnection),
        }
    }

    /// Feeds inbound TLS bytes, the payload of a control packet. The
    /// connection takes in all of them, unless it stops taking any. All
    /// plaintext that the connection then holds is appended to `plaintext_in`;
    /// nothing that was there is lost or changed, and a refusal adds nothing.
    /// No bytes are never refused.
    pub fn feed(&mut self, data: &[u8]) -> (r: Result<(), TlsError>)
        ensures
            match r {
                Ok(()) => took_in(old(self)@, data@, final(self)@),
                Err(e) => refused(old(self).conn, data@, final(self).conn, e)
                    && final(self).plaintext_in@ == old(self).plaintext_in@,
            },
    {
        let len: usize = data.len();
        let mut at: usize = 0;
        let mut open: bool = true;
        let ghost mut mid = self.conn;
        while open && at < len
            invariant
                at <= len == data@.len(),
                self.plaintext_in@ == old(self).plaintext_in@,
                reached(old(self).conn, data@, at as int, mid),
                same_traffic(self.conn, old(self).conn),
                same_input(self.conn, mid),
                tls_plaintext(self.conn) == tls_plaintext(mid),
                open ==> self.conn == mid,
                open || tls_read_size(mid, (len - at) as nat) == Some(0nat),
            decreases len - at, open as nat,
        {
            let rest = &data[at..len];
            match connection_read_tls(&mut self.conn, rest) {
                None => {
                    assert(reached(old(self).conn, data@, at as int, mid));
                    return Err(TlsError::ReadTls);
                },
                Some(n) => {
                    if n == 0 {
                        open = false;
                        assert(rest@.take(0) =~= Seq::<u8>::empty());
                        assert(tls_received(self.conn) =~= tls_received(mid));
                    } else {
                        proof {
                            assert(data@.take(0) =~= Seq::<u8>::empty());
                            assert(tls_received(mid) =~= tls_received(old(self).conn)
                                + data@.take(at as int));
                            assert(tls_received(self.conn) =~= tls_received(old(self).conn)
                                + data@.take(at + n));
                        }
                        if !connection_process(&mut self.conn) {
                            assert(reached(old(self).conn, data@, at as int, mid));
                            return Err(TlsError::ProcessPackets);
                        }
                        at = at + n;
                        proof {
                            mid = self.conn;
                        }
                    }
                },
            }
        }
        let bytes: Vec<u8> = connection_plaintext(&mut self.conn);
        self.receive_plaintext(bytes.as_slice());
        assert(took_in(old(self)@, data@, self@)) by {
            assert(reached(old(self)@.conn, data@, at as int, mid));
            assert(self@.plaintext == old(self)@.plaintext + tls_plaintext(mid));
        }
        Ok(())
    }

    /// Appends plaintext that the connection delivered.
    pub fn receive_plaintext(&mut self, bytes: &[u8])
        ensures
            final(self)@ == (TlsView { plaintext: old(self)@.plaintext + bytes@, ..old(self)@ }),
    {
        push_bytes(&mut self.plaintext_in, bytes);
    }

    /// Removes the first `n` bytes of the plaintext.
    pub fn consume(&mut self, n: usize)
        requires
            n <= old(self).plaintext_in@.len(),
        ensures
            final(self)@ == (TlsView {
                plaintext: old(self)@.plaintext.skip(n as int),
                ..old(self)@
            }),
    {
        let rest: Vec<u8> = self.plaintext_in.split_off(n);
        self.plaintext_in = rest;
        assert(self.plaintext_in@ =~= old(self)@.plaintext.skip(n as int));
    }

    /// Drains the TLS bytes that the connection has for the peer.
    pub fn take_outgoing(&mut self) -> (bytes: Vec<u8>)
        ensures
            final(self).plaintext_in@ == old(self).plaintext_in@,
            bytes@ == tls_pending(old(self).conn),
            tls_sent(final(self).conn) == tls_sent(old(self).conn) + bytes@,
            same_input(final(self).conn, old(self).conn),
            tls_queued(final(self).conn) == tls_queued(old(self).conn),
            tls_delivered(final(self).conn) == tls_delivered(old(self).conn),
            tls_plaintext(final(self).conn) == tls_plaintext(old(self).conn),
    {
        connection_write_tls(&mut self.conn)
    }

    /// Whether the handshake is still under way.
    pub fn is_handshaking(&self) -> (r: bool)
        ensures
            r == tls_handshaking(self.conn),
    {
        connection_is_handshaking(&self.conn)
    }

    /// The peer's own certificate, if it has shown one.
    pub fn peer_certificate(&self) -> (der: Option<Vec<u8>>)
        ensures
            match der {
                Some(bytes) => tls_peer_certificate(self.conn) == Some(bytes@),
                None => tls_peer_certificate(self.conn) is None,
            },
    {
        match connection_peer_chain(&self.conn) {
            Some(chain) => {
                let mut chain = chain;
                if chain.len() > 0 {
                    Some(chain.remove(0))
                } else {
                    None
                }
            },
            None => None,
        }
    }

    /// Queues a control message for the peer: all of it, if the connection
    /// accepts that many bytes, else a part from its front. A connection that
    /// has failed accepts nothing.
    pub fn send_plaintext(&mut self, data: &[u8]) -> (r: Result<(), TlsError>)
        ensures
            final(self).plaintext_in@ == old(self).plaintext_in@,
            only_queued(old(self).conn, final(self).conn),
            tls_failed(old(self).conn) && data@.len() > 0 ==> r is Err && tls_queued(
                final(self).conn,
            ) == tls_queued(old(self).conn),
            match r {
                Ok(()) => tls_accepts(old(self).conn, data@.len()) && tls_queued(final(self).conn)
                    == tls_queued(old(self).conn) + data@,
                Err(e) => !tls_accepts(old(self).conn, data@.len()) && e == TlsError::WriteAll
                    && queued_in_part(tls_queued(old(self).conn), data@, final(self).conn),
            },
    {
        if connection_write_all(&mut self.conn, data) {
            Ok(())
        } else {
            Err(TlsError::WriteAll)
        }
    }
}

/// A connection that takes input whenever it is offered some is fed with all
/// that it is given: it has taken in every byte, in order, and worked on them,
/// and it has not failed; whatever it then held for the application, and no
/// more, was appended to the buffer.
pub proof fn law_fed_with_everything(before: TlsView, data: Seq<u8>, after: TlsView)
    requires
        took_in(before, data, after),
        data.len() > 0,
        forall|conn: ServerConnection, len: nat|
            len > 0 ==> #[trigger] tls_read_size(conn, len) != Some(0nat),
    ensures
        tls_received(after.conn) == tls_received(before.conn) + data,
        tls_processed(after.conn) == tls_received(after.conn),
        !tls_failed(after.conn),
        before.plaintext.is_prefix_of(after.plaintext),
        tls_delivered(after.conn) == tls_delivered(before.conn) + after.plaintext.skip(
            before.plaintext.len() as int,
        ),
        tls_plaintext(after.conn).len() == 0,
        tls_queued(after.conn) == tls_queued(before.conn),
        tls_sent(after.conn) == tls_sent(before.conn),
{
    assert(data.take(data.len() as int) =~= data);
    let n = before.plaintext.len() as int;
    assert(after.plaintext.subrange(0, n) =~= before.plaintext);
    let (k, mid): (int, ServerConnection) = choose|k: int, mid: ServerConnection|
        {
            &&& #[trigger] reached(before.conn, data, k, mid)
            &&& k < data.len() ==> tls_read_size(mid, (data.len() - k) as nat) == Some(0nat)
            &&& same_input(after.conn, mid)
            &&& tls_queued(after.conn) == tls_queued(before.conn)
            &&& tls_sent(after.conn) == tls_sent(before.conn)
            &&& tls_delivered(after.conn) == tls_delivered(before.conn) + tls_plaintext(mid)
            &&& tls_plaintext(after.conn) == Seq::<u8>::empty()
            &&& after.plaintext == before.plaintext + tls_plaintext(mid)
        };
    assert(after.plaintext.skip(n) =~= tls_plaintext(mid));
}

/// A connection that refuses what it is fed with has passed nothing on, and
/// has either failed or took no input; one that failed had not worked on all
/// of the data before, and has taken in no more than the data.
pub proof fn law_refusal(
    before: ServerConnection,
    data: Seq<u8>,
    after: ServerConnection,
    e: TlsError,
)
    requires
        refused(before, data, after, e),
    ensures
        data.len() > 0,
        e == TlsError::ReadTls || e == TlsError::ProcessPackets,
        e == TlsError::ProcessPackets ==> tls_failed(after),
        e == TlsError::ReadTls ==> tls_failed(after) == tls_failed(before),
        tls_received(before).is_prefix_of(tls_received(after)),
        tls_received(after).len() <= tls_received(before).len() + data.len(),
        tls_delivered(after) == tls_delivered(before),
        tls_queued(after) == tls_queued(before),
        tls_sent(after) == tls_sent(before),
{
    let n = tls_received(before).len() as int;
    assert(tls_received(after).subrange(0, n) =~= tls_received(before));
}

} // verus!
