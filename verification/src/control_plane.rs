//! What the server makes of the plaintext that a client sends over TLS: the
//! `key-method 2` exchange, the push request, exit notices, and the exchange
//! of a rekey.

use vstd::prelude::*;
use vstd::utf8::encode_utf8;

use rustls::ServerConnection;

use crate::addr::{ipv4_text, Endpoint, IpAddress};
use crate::addresses::{AddressBook, AddressError, BookView};
use crate::codec::be_bytes;
use crate::config::{client_config_of, ClientConfig, ServerConfig};
use crate::control_channel::{
    ascii_of, build_options_string, build_peer_info, client_key_bytes, client_key_of,
    law_ascii_round_trip, law_client_key_round_trip, options_text, peer_info_text,
    server_key_bytes, try_pop_ascii, ClientKeyMethod2, ClientKeyView, ControlError, Pop,
    ServerKeyMethod2,
};
use crate::envelope::EnvelopeError;
use crate::prf::key_data;
use crate::push::{build_push_reply, law_every_route_is_told, mentions, reply_text, route_of};
use crate::session::{
    fresh_slot, RekeyState, RekeyView, Session, SessionError, SessionView, State,
};
use crate::text::{same_text, starts_with};
use crate::tls::{
    grown, lemma_grown, only_queued, queued_in_part, refused, tls_accepts, tls_handshaking,
    tls_queued, took_in, TlsError, TlsView,
};

verus! {

/// Why the server could not go on with a client's packet.
#[derive(Debug, Clone, Copy, PartialEq, Eq, Structural)]
pub enum ServerError {
    /// The replay id of an envelope was seen or is too old.
    ReplayRejected(u32),
    Tls(TlsError),
    Control(ControlError),
    Session(SessionError),
    Address(AddressError),
    Envelope(EnvelopeError),
}

/// The server's `key-method 2` packet. The link MTU that it announces leaves
/// room for the headers of a packet.
pub open spec fn key_method_reply(cfg: ServerConfig, random1: Seq<u8>, random2: Seq<u8>) -> Seq<
    u8,
> {
    let link_mtu = if cfg.tun_mtu > 65_493 {
        65_535u16
    } else {
        (cfg.tun_mtu + 42) as u16
    };
    server_key_bytes(
        random1,
        random2,
        options_text(link_mtu, cfg.tun_mtu),
        ""@,
        ""@,
        peer_info_text(),
    )
}

/// The server's `key-method 2` packet.
pub fn build_key_method_reply(cfg: &ServerConfig, random1: &[u8; 32], random2: &[u8; 32]) -> (r:
    Vec<u8>)
    ensures
        r@ == key_method_reply(*cfg, random1@, random2@),
{
    let link_mtu: u16 = if cfg.tun_mtu > 65_493 {
        65_535
    } else {
        cfg.tun_mtu + 42
    };
    let options: String = build_options_string(link_mtu, cfg.tun_mtu);
    let peer_info: String = build_peer_info();
    let reply = ServerKeyMethod2 {
        random1,
        random2,
        options: options.as_str(),
        username: "",
        password: "",
        peer_info: peer_info.as_str(),
    };
    reply.encode()
}

/// A session with what a client may change through its control channel: its
/// state, the addresses in use, and the plaintext that is queued for it.
#[verifier::ext_equal]
pub ghost struct Plane {
    pub sess: SessionView,
    pub book: BookView,
    pub queued: Seq<u8>,
}

/// How one step ends.
pub ghost enum Outcome {
    /// Something was consumed, and more may follow.
    Again,
    /// Nothing more can be done for now.
    Done,
    /// The client is not served.
    Failed(ServerError),
}

/// The plaintext of a connection without its first `n` bytes.
pub open spec fn consumed(tls: TlsView, n: int) -> TlsView {
    TlsView { plaintext: tls.plaintext.skip(n), ..tls }
}

/// The session on another connection.
pub open spec fn with_conn(s: SessionView, tls: TlsView) -> SessionView {
    SessionView { tls: TlsView { conn: tls.conn, ..s.tls }, ..s }
}

/// The session with the keys of the client's packet, which took `n` bytes.
pub open spec fn with_client_keys(s: SessionView, km: ClientKeyView, n: int) -> SessionView {
    (SessionView {
        tls: consumed(s.tls, n),
        client_pre_master: Some(km.pre_master),
        client_random1: Some(km.random1),
        client_random2: Some(km.random2),
        client_options: Some(km.options),
        client_peer_info: Some(km.peer_info),
        ..s
    }).with_prf_slot(0)->Ok_0
}

/// The overrides for the client of a session.
pub open spec fn overrides(s: SessionView, cfg: ServerConfig) -> Option<ClientConfig> {
    match s.client_cn {
        Some(cn) => client_config_of(cfg.client_configs@, cn),
        None => None,
    }
}

/// The fixed address of the client of a session, if it has one.
pub open spec fn fixed_address(s: SessionView, cfg: ServerConfig) -> Option<IpAddress> {
    match overrides(s, cfg) {
        Some(c) => c.assign_ip,
        None => None,
    }
}

/// The routes that are pushed to the client of a session alone.
pub open spec fn extra_routes(s: SessionView, cfg: ServerConfig) -> Seq<String> {
    match overrides(s, cfg) {
        Some(c) => c.push_routes@,
        None => Seq::empty(),
    }
}

impl Plane {
    /// The client's `key-method 2` packet is due: keys are derived from it and
    /// the server's own packet is queued.
    pub open spec fn key_exchange(self, cfg: ServerConfig) -> (Plane, Outcome) {
        match client_key_of(self.sess.tls.plaintext) {
            Err(e) => (self, Outcome::Failed(ServerError::Control(e))),
            Ok(None) => (self, Outcome::Done),
            Ok(Some((km, n))) => (
                Plane {
                    sess: SessionView {
                        state: State::PushPending,
                        ..with_client_keys(self.sess, km, n)
                    },
                    queued: self.queued + key_method_reply(
                        cfg,
                        self.sess.server_random1,
                        self.sess.server_random2,
                    ),
                    ..self
                },
                Outcome::Again,
            ),
        }
    }

    /// A push request: the client gets its addresses, and the push reply is
    /// queued.
    pub open spec fn push_request(self, cfg: ServerConfig, peer: Endpoint) -> (Plane, Outcome) {
        let fixed = fixed_address(self.sess, cfg);
        let extra = extra_routes(self.sess, cfg);
        let book = self.book.after_assign(fixed, peer);
        match self.book.assigned(fixed) {
            Err(e) => (Plane { book, ..self }, Outcome::Failed(ServerError::Address(e))),
            Ok(ip) => {
                let sess = SessionView { assigned_ip: Some(IpAddress::V4(ip)), ..self.sess };
                let book6 = book.after_assign_v6(peer);
                match book.allocated_v6() {
                    Err(e) => (
                        Plane { sess, book: book6, ..self },
                        Outcome::Failed(ServerError::Address(e)),
                    ),
                    Ok(ip6) => (
                        Plane {
                            sess: SessionView {
                                assigned_ip_v6: if ip6 is Some {
                                    ip6
                                } else {
                                    sess.assigned_ip_v6
                                },
                                state: State::Established,
                                ..sess
                            },
                            book: book6,
                            queued: self.queued + encode_utf8(
                                reply_text(cfg, ip, ip6, sess.peer_id, extra),
                            ).push(0u8),
                        },
                        Outcome::Again,
                    ),
                }
            },
        }
    }

    /// A push request is due: anything else is ignored.
    pub open spec fn push_pending(self, cfg: ServerConfig, peer: Endpoint) -> (Plane, Outcome) {
        match ascii_of(self.sess.tls.plaintext) {
            None => (self, Outcome::Done),
            Some((msg, n)) => {
                let after = Plane {
                    sess: SessionView { tls: consumed(self.sess.tls, n), ..self.sess },
                    ..self
                };
                if msg == "PUSH_REQUEST"@ {
                    after.push_request(cfg, peer)
                } else {
                    (after, Outcome::Again)
                }
            },
        }
    }

    /// The session is established: an exit notice closes it, and anything else
    /// is ignored.
    pub open spec fn established(self) -> (Plane, Outcome) {
        match ascii_of(self.sess.tls.plaintext) {
            None => (self, Outcome::Done),
            Some((msg, n)) => {
                let sess = SessionView { tls: consumed(self.sess.tls, n), ..self.sess };
                if msg == "EXIT"@ || "CC_EXIT"@.is_prefix_of(msg) {
                    (
                        Plane { sess: SessionView { state: State::Closed, ..sess }, ..self },
                        Outcome::Done,
                    )
                } else {
                    (Plane { sess, ..self }, Outcome::Again)
                }
            },
        }
    }

    /// One step with the plaintext that has arrived.
    pub open spec fn step(self, cfg: ServerConfig, peer: Endpoint) -> (Plane, Outcome) {
        match self.sess.state {
            State::KeyExchange => self.key_exchange(cfg),
            State::PushPending => self.push_pending(cfg, peer),
            State::Established => self.established(),
            _ => (self, Outcome::Done),
        }
    }

    /// All steps with the plaintext that has arrived.
    pub open spec fn run(self, cfg: ServerConfig, peer: Endpoint) -> (Plane, Result<
        (),
        ServerError,
    >)
        decreases self.sess.tls.plaintext.len(),
    {
        match self.step(cfg, peer).1 {
            Outcome::Done => (self.step(cfg, peer).0, Ok(())),
            Outcome::Failed(e) => (self.step(cfg, peer).0, Err(e)),
            Outcome::Again => {
                proof {
                    lemma_step_consumes(self, cfg, peer);
                }
                self.step(cfg, peer).0.run(cfg, peer)
            },
        }
    }

    /// The first `n` steps.
    pub open spec fn steps(self, cfg: ServerConfig, peer: Endpoint, n: nat) -> Plane
        decreases n,
    {
        if n == 0 {
            self
        } else {
            self.steps(cfg, peer, (n - 1) as nat).step(cfg, peer).0
        }
    }

    /// Whether a session and a book are what the plane says, on a connection
    /// that has grown from the plane's by what is queued.
    pub open spec fn shows(self, sess: SessionView, book: BookView) -> bool {
        &&& sess == with_conn(self.sess, sess.tls)
        &&& book == self.book
        &&& tls_queued(sess.tls.conn) == self.queued
        &&& grown(self.sess.tls.conn, sess.tls.conn)
    }

    /// Whether a session and a book are what a step has made of `self`, but
    /// for the packet that could not be queued and the state that therefore
    /// stays: the plane's connection, with all that was queued before, did not
    /// accept a packet of this length, and has a part of it at most.
    pub open spec fn stuck(
        self,
        cfg: ServerConfig,
        peer: Endpoint,
        sess: SessionView,
        book: BookView,
    ) -> bool {
        let (next, outcome) = self.step(cfg, peer);
        &&& outcome is Again
        &&& next.queued != self.queued
        &&& sess == (SessionView { state: self.sess.state, ..with_conn(next.sess, sess.tls) })
        &&& book == next.book
        &&& declined(
            self.sess.tls.conn,
            self.queued,
            next.queued.skip(self.queued.len() as int),
            sess.tls.conn,
        )
    }
}

/// Whether the connection that was `start` and had grown to have accepted
/// `queued` did not accept all of `packet`, and has come to `after`. Where
/// nothing was queued since `start`, it is `start` itself that did not accept.
pub open spec fn declined(
    start: ServerConnection,
    queued: Seq<u8>,
    packet: Seq<u8>,
    after: ServerConnection,
) -> bool {
    exists|conn: ServerConnection| #[trigger]
        declined_by(start, conn, queued, packet, after)
}

/// Whether `conn` is the state of the connection in which it did not accept
/// all of `packet`.
pub open spec fn declined_by(
    start: ServerConnection,
    conn: ServerConnection,
    queued: Seq<u8>,
    packet: Seq<u8>,
    after: ServerConnection,
) -> bool {
    &&& grown(start, conn)
    &&& tls_queued(conn) == queued
    &&& !tls_accepts(conn, packet.len())
    &&& only_queued(conn, after)
    &&& queued_in_part(queued, packet, after)
}

/// The plane of a session and a book.
pub open spec fn plane_of(sess: SessionView, book: BookView) -> Plane {
    Plane { sess, book, queued: tls_queued(sess.tls.conn) }
}

/// Whether all steps with the plaintext that has arrived lead from one session
/// and book to another, with the given result.
pub open spec fn driven(
    sess: SessionView,
    book: BookView,
    cfg: ServerConfig,
    peer: Endpoint,
    sess_after: SessionView,
    book_after: BookView,
    r: Result<(), ServerError>,
) -> bool {
    let start = plane_of(sess, book);
    match r {
        Err(ServerError::Tls(e)) => e == TlsError::WriteAll && exists|n: nat|
            #[trigger] start.steps(cfg, peer, n).stuck(cfg, peer, sess_after, book_after),
        _ => start.run(cfg, peer).1 == r && start.run(cfg, peer).0.shows(sess_after, book_after),
    }
}

/// A client packet takes more than nothing and no more than there is.
proof fn lemma_client_key_len(buf: Seq<u8>)
    ensures
        client_key_of(buf) matches Ok(Some((km, n))) ==> 0 < n <= buf.len() && km.pre_master.len()
            == 48 && km.random1.len() == 32 && km.random2.len() == 32,
{
}

/// A step that is not the last one consumes plaintext.
pub proof fn lemma_step_consumes(p: Plane, cfg: ServerConfig, peer: Endpoint)
    ensures
        p.step(cfg, peer).1 is Again ==> p.step(cfg, peer).0.sess.tls.plaintext.len()
            < p.sess.tls.plaintext.len(),
{
    let buf = p.sess.tls.plaintext;
    lemma_client_key_len(buf);
    buf.index_of_first_ensures(0u8);
}

/// The connection that a session is on plays no part in a step.
proof fn lemma_conn_irrelevant(p: Plane, q: Plane, cfg: ServerConfig, peer: Endpoint)
    requires
        q == (Plane { sess: with_conn(p.sess, q.sess.tls), ..p }),
    ensures
        q.step(cfg, peer).1 == p.step(cfg, peer).1,
        q.step(cfg, peer).0 == (Plane {
            sess: with_conn(p.step(cfg, peer).0.sess, q.sess.tls),
            ..p.step(cfg, peer).0
        }),
{
}

/// One step with the plaintext that has arrived; whether more may follow.
fn control_step(
    sess: &mut Session,
    book: &mut AddressBook,
    cfg: &ServerConfig,
    peer: Endpoint,
) -> (r: Result<bool, ServerError>)
    requires
        old(sess)@.well_formed(),
    ensures
        final(sess)@.well_formed(),
        match r {
            Ok(again) => plane_of(old(sess)@, old(book)@).step(*cfg, peer).0.shows(
                final(sess)@,
                final(book)@,
            ) && plane_of(old(sess)@, old(book)@).step(*cfg, peer).1 == (if again {
                Outcome::Again
            } else {
                Outcome::Done
            }),
            Err(ServerError::Tls(e)) => e == TlsError::WriteAll && plane_of(
                old(sess)@,
                old(book)@,
            ).stuck(*cfg, peer, final(sess)@, final(book)@),
            Err(e) => plane_of(old(sess)@, old(book)@).step(*cfg, peer).0.shows(
                final(sess)@,
                final(book)@,
            ) && plane_of(old(sess)@, old(book)@).step(*cfg, peer).1 == Outcome::Failed(e),
        },
{
    match sess.state {
        State::KeyExchange => key_exchange_step(sess, cfg, Ghost(book@), Ghost(peer)),
        State::PushPending => push_step(sess, book, cfg, peer),
        State::Established => Ok(established_step(sess, Ghost(book@))),
        _ => Ok(false),
    }
}

/// The step for the client's `key-method 2` packet.
fn key_exchange_step(
    sess: &mut Session,
    cfg: &ServerConfig,
    Ghost(book): Ghost<BookView>,
    Ghost(peer): Ghost<Endpoint>,
) -> (r: Result<bool, ServerError>)
    requires
        old(sess)@.well_formed(),
        old(sess)@.state == State::KeyExchange,
    ensures
        final(sess)@.well_formed(),
        match r {
            Ok(again) => plane_of(old(sess)@, book).step(*cfg, peer).0.shows(final(sess)@, book)
                && plane_of(old(sess)@, book).step(*cfg, peer).1 == (if again {
                Outcome::Again
            } else {
                Outcome::Done
            }),
            Err(ServerError::Tls(e)) => e == TlsError::WriteAll && plane_of(old(sess)@, book).stuck(
                *cfg,
                peer,
                final(sess)@,
                book,
            ),
            Err(e) => plane_of(old(sess)@, book).step(*cfg, peer).0.shows(final(sess)@, book)
                && plane_of(old(sess)@, book).step(*cfg, peer).1 == Outcome::Failed(e),
        },
{
    let (km, n) = match ClientKeyMethod2::try_parse(sess.tls.plaintext_in.as_slice()) {
        Err(e) => return Err(ServerError::Control(e)),
        Ok(Pop::NeedMore) => return Ok(false),
        Ok(Pop::Ready(km, n)) => (km, n),
    };
    let ghost start = sess@;
    sess.tls.consume(n);
    sess.client_pre_master = Some(km.pre_master);
    sess.client_random1 = Some(km.random1);
    sess.client_random2 = Some(km.random2);
    sess.client_options = Some(km.options);
    sess.client_peer_info = Some(km.peer_info);
    let ghost filled = sess@;
    assert(filled == SessionView {
        tls: consumed(start.tls, n as int),
        client_pre_master: Some(km@.pre_master),
        client_random1: Some(km@.random1),
        client_random2: Some(km@.random2),
        client_options: Some(km@.options),
        client_peer_info: Some(km@.peer_info),
        ..start
    });
    match sess.install_prf_slot(0) {
        Ok(()) => {},
        Err(e) => return Err(ServerError::Session(e)),
    }
    assert(sess@ == with_client_keys(start, km@, n as int));
    let reply: Vec<u8> = build_key_method_reply(cfg, &sess.server_random1, &sess.server_random2);
    let ghost queued = tls_queued(start.tls.conn);
    assert((queued + reply@).len() > queued.len());
    assert((queued + reply@).skip(queued.len() as int) =~= reply@);
    match sess.tls.send_plaintext(reply.as_slice()) {
        Ok(()) => {},
        Err(e) => {
            let ghost conn = start.tls.conn;
            assert(declined_by(conn, conn, queued, reply@, sess@.tls.conn));
            return Err(ServerError::Tls(e));
        },
    }
    sess.state = State::PushPending;
    Ok(true)
}

/// The step for a message while a push request is due.
fn push_step(
    sess: &mut Session,
    book: &mut AddressBook,
    cfg: &ServerConfig,
    peer: Endpoint,
) -> (r: Result<bool, ServerError>)
    requires
        old(sess)@.well_formed(),
        old(sess)@.state == State::PushPending,
    ensures
        final(sess)@.well_formed(),
        match r {
            Ok(again) => plane_of(old(sess)@, old(book)@).step(*cfg, peer).0.shows(
                final(sess)@,
                final(book)@,
            ) && plane_of(old(sess)@, old(book)@).step(*cfg, peer).1 == (if again {
                Outcome::Again
            } else {
                Outcome::Done
            }),
            Err(ServerError::Tls(e)) => e == TlsError::WriteAll && plane_of(
                old(sess)@,
                old(book)@,
            ).stuck(*cfg, peer, final(sess)@, final(book)@),
            Err(e) => plane_of(old(sess)@, old(book)@).step(*cfg, peer).0.shows(
                final(sess)@,
                final(book)@,
            ) && plane_of(old(sess)@, old(book)@).step(*cfg, peer).1 == Outcome::Failed(e),
        },
{
    let (msg, n) = match try_pop_ascii(sess.tls.plaintext_in.as_slice()) {
        Pop::NeedMore => return Ok(false),
        Pop::Ready(msg, n) => (msg, n),
    };
    sess.tls.consume(n);
    if !same_text(msg.as_str(), "PUSH_REQUEST") {
        return Ok(true);
    }
    let cc: Option<&ClientConfig> = match &sess.client_cn {
        Some(cn) => cfg.client_config(cn.as_str()),
        None => None,
    };
    let fixed: Option<IpAddress> = match cc {
        Some(c) => c.assign_ip,
        None => None,
    };
    let ip: u32 = match book.assign(fixed, peer) {
        Ok(ip) => ip,
        Err(e) => return Err(ServerError::Address(e)),
    };
    sess.assigned_ip = Some(IpAddress::V4(ip));
    let ip6: Option<u128> = match book.assign_v6(peer) {
        Ok(ip6) => ip6,
        Err(e) => return Err(ServerError::Address(e)),
    };
    if ip6.is_some() {
        sess.assigned_ip_v6 = ip6;
    }
    let none: Vec<String> = Vec::new();
    let extra: &[String] = match cc {
        Some(c) => c.push_routes.as_slice(),
        None => none.as_slice(),
    };
    let reply: Vec<u8> = build_push_reply(cfg, ip, ip6, sess.peer_id, extra);
    let ghost queued = tls_queued(old(sess)@.tls.conn);
    assert((queued + reply@).len() > queued.len());
    assert((queued + reply@).skip(queued.len() as int) =~= reply@);
    match sess.tls.send_plaintext(reply.as_slice()) {
        Ok(()) => {},
        Err(e) => {
            let ghost conn = old(sess)@.tls.conn;
            assert(declined_by(conn, conn, queued, reply@, sess@.tls.conn));
            return Err(ServerError::Tls(e));
        },
    }
    sess.state = State::Established;
    Ok(true)
}

/// The step for a message of an established session.
fn established_step(sess: &mut Session, Ghost(book): Ghost<BookView>) -> (again: bool)
    requires
        old(sess)@.well_formed(),
        old(sess)@.state == State::Established,
    ensures
        final(sess)@.well_formed(),
        plane_of(old(sess)@, book).established().0.shows(final(sess)@, book),
        plane_of(old(sess)@, book).established().1 == (if again {
            Outcome::Again
        } else {
            Outcome::Done
        }),
{
    let (msg, n) = match try_pop_ascii(sess.tls.plaintext_in.as_slice()) {
        Pop::NeedMore => return false,
        Pop::Ready(msg, n) => (msg, n),
    };
    sess.tls.consume(n);
    if same_text(msg.as_str(), "EXIT") || starts_with(msg.as_str(), "CC_EXIT") {
        sess.state = State::Closed;
        false
    } else {
        true
    }
}

/// A step leaves the connection to those who queue packets on it.
proof fn lemma_step_keeps_conn(p: Plane, cfg: ServerConfig, peer: Endpoint)
    ensures
        p.step(cfg, peer).0.sess.tls.conn == p.sess.tls.conn,
{
}

/// What a step shows from where a plane has come to, it shows from the plane.
proof fn lemma_shows_from(
    at: Plane,
    here: Plane,
    cfg: ServerConfig,
    peer: Endpoint,
    sess: SessionView,
    book: BookView,
)
    requires
        here == plane_of(here.sess, here.book),
        at.shows(here.sess, here.book),
        here.step(cfg, peer).0.shows(sess, book),
    ensures
        at.step(cfg, peer).0.shows(sess, book),
        at.step(cfg, peer).1 == here.step(cfg, peer).1,
{
    lemma_conn_irrelevant(at, here, cfg, peer);
    lemma_step_keeps_conn(at, cfg, peer);
    lemma_step_keeps_conn(here, cfg, peer);
    lemma_grown(at.sess.tls.conn, here.sess.tls.conn, sess.tls.conn);
}

/// Where a step is stuck from where a plane has come to, it is stuck from the
/// plane.
proof fn lemma_stuck_from(
    at: Plane,
    here: Plane,
    cfg: ServerConfig,
    peer: Endpoint,
    sess: SessionView,
    book: BookView,
)
    requires
        here == plane_of(here.sess, here.book),
        at.shows(here.sess, here.book),
        here.stuck(cfg, peer, sess, book),
    ensures
        at.stuck(cfg, peer, sess, book),
{
    lemma_conn_irrelevant(at, here, cfg, peer);
    let packet = here.step(cfg, peer).0.queued.skip(here.queued.len() as int);
    let start = here.sess.tls.conn;
    let conn = choose|conn: ServerConnection| #[trigger]
        declined_by(start, conn, here.queued, packet, sess.tls.conn);
    lemma_grown(at.sess.tls.conn, start, conn);
    assert(declined_by(at.sess.tls.conn, conn, at.queued, packet, sess.tls.conn));
}

/// One step from a session and a book that `at` describes.
fn step_from(
    sess: &mut Session,
    book: &mut AddressBook,
    cfg: &ServerConfig,
    peer: Endpoint,
    Ghost(at): Ghost<Plane>,
) -> (r: Result<bool, ServerError>)
    requires
        old(sess)@.well_formed(),
        at.shows(old(sess)@, old(book)@),
    ensures
        final(sess)@.well_formed(),
        match r {
            Ok(again) => at.step(*cfg, peer).0.shows(final(sess)@, final(book)@) && at.step(
                *cfg,
                peer,
            ).1 == (if again {
                Outcome::Again
            } else {
                Outcome::Done
            }) && (again ==> final(sess)@.tls.plaintext.len() < old(sess)@.tls.plaintext.len()),
            Err(ServerError::Tls(e)) => e == TlsError::WriteAll && at.stuck(
                *cfg,
                peer,
                final(sess)@,
                final(book)@,
            ),
            Err(e) => at.step(*cfg, peer).0.shows(final(sess)@, final(book)@) && at.step(
                *cfg,
                peer,
            ).1 == Outcome::Failed(e),
        },
        r matches Ok(false) ==> final(sess)@.tls.plaintext.len() <= old(
            sess,
        )@.tls.plaintext.len(),
{
    let ghost here = plane_of(sess@, book@);
    proof {
        lemma_step_consumes(here, *cfg, peer);
        lemma_step_shrinks(here, *cfg, peer);
    }
    let r = control_step(sess, book, cfg, peer);
    proof {
        match r {
            Err(ServerError::Tls(_)) => lemma_stuck_from(at, here, *cfg, peer, sess@, book@),
            _ => lemma_shows_from(at, here, *cfg, peer, sess@, book@),
        }
    }
    r
}

/// No step adds plaintext.
proof fn lemma_step_shrinks(p: Plane, cfg: ServerConfig, peer: Endpoint)
    ensures
        p.step(cfg, peer).0.sess.tls.plaintext.len() <= p.sess.tls.plaintext.len(),
{
    let buf = p.sess.tls.plaintext;
    lemma_client_key_len(buf);
    buf.index_of_first_ensures(0u8);
}

/// How a run goes on from a step.
proof fn lemma_run_step(at: Plane, cfg: ServerConfig, peer: Endpoint)
    ensures
        at.step(cfg, peer).1 is Again ==> at.run(cfg, peer) == at.step(cfg, peer).0.run(cfg, peer),
        at.step(cfg, peer).1 is Done ==> at.run(cfg, peer) == (
            at.step(cfg, peer).0,
            Ok::<(), ServerError>(()),
        ),
        at.step(cfg, peer).1 matches Outcome::Failed(e) ==> at.run(cfg, peer) == (
            at.step(cfg, peer).0,
            Err::<(), ServerError>(e),
        ),
{
}

/// Reacts to the plaintext that a client has sent: its `key-method 2` packet,
/// its push request, its exit notice. `peer` is where the client is.
pub fn drive_control_plane(
    sess: &mut Session,
    book: &mut AddressBook,
    cfg: &ServerConfig,
    peer: Endpoint,
) -> (r: Result<(), ServerError>)
    requires
        old(sess)@.well_formed(),
    ensures
        final(sess)@.well_formed(),
        driven(old(sess)@, old(book)@, *cfg, peer, final(sess)@, final(book)@, r),
        only_queued(old(sess)@.tls.conn, final(sess)@.tls.conn),
{
    let ghost start = plane_of(sess@, book@);
    let ghost mut at = start;
    let ghost mut n: nat = 0;
    let mut more: bool = true;
    while more
        invariant
            sess@.well_formed(),
            at.shows(sess@, book@),
            at == start.steps(*cfg, peer, n),
            start == plane_of(old(sess)@, old(book)@),
            at.sess.tls.conn == old(sess)@.tls.conn,
            more ==> start.run(*cfg, peer) == at.run(*cfg, peer),
            !more ==> start.run(*cfg, peer) == (at, Ok::<(), ServerError>(())),
        decreases sess@.tls.plaintext.len(), more as nat,
    {
        proof {
            lemma_run_step(at, *cfg, peer);
            lemma_step_keeps_conn(at, *cfg, peer);
        }
        let stepped = step_from(sess, book, cfg, peer, Ghost(at));
        match stepped {
            Ok(again) => {
                more = again;
                proof {
                    at = at.step(*cfg, peer).0;
                    n = n + 1;
                }
            },
            Err(e) => {
                assert(start.steps(*cfg, peer, n) == at);
                return Err(e);
            },
        }
    }
    Ok(())
}

/// The session once its TLS connection was fed: if that completed the
/// handshake, the client's `key-method 2` packet is due.
pub open spec fn after_feed(s: SessionView) -> SessionView {
    if s.state == State::Handshaking && !tls_handshaking(s.tls.conn) {
        s.after_handshake(s.peer_common_name())
    } else {
        s
    }
}

/// Takes the TLS payload of a control packet of the main connection, and
/// reacts to what it brings. TLS that is refused changes nothing of the
/// session but the connection itself.
pub fn receive_main(
    sess: &mut Session,
    book: &mut AddressBook,
    cfg: &ServerConfig,
    peer: Endpoint,
    payload: &[u8],
) -> (r: Result<(), ServerError>)
    requires
        old(sess)@.well_formed(),
    ensures
        final(sess)@.well_formed(),
        match r {
            Err(ServerError::Tls(e)) if e != TlsError::WriteAll => refused(
                old(sess)@.tls.conn,
                payload@,
                final(sess)@.tls.conn,
                e,
            ) && final(sess)@ == with_conn(old(sess)@, final(sess)@.tls) && final(book)@ == old(
                book,
            )@,
            _ => exists|fed: TlsView| #[trigger]
                took_in(old(sess)@.tls, payload@, fed) && only_queued(
                    fed.conn,
                    final(sess)@.tls.conn,
                ) && driven(
                    after_feed(SessionView { tls: fed, ..old(sess)@ }),
                    old(book)@,
                    *cfg,
                    peer,
                    final(sess)@,
                    final(book)@,
                    r,
                ),
        },
{
    match sess.tls.feed(payload) {
        Ok(()) => {},
        Err(e) => return Err(ServerError::Tls(e)),
    }
    let ghost fed = sess@.tls;
    assert(took_in(old(sess)@.tls, payload@, fed));
    enter_key_exchange(sess);
    let r = drive_control_plane(sess, book, cfg, peer);
    r
}

/// Moves on if the TLS handshake is complete.
pub fn enter_key_exchange(sess: &mut Session)
    ensures
        final(sess)@ == after_feed(old(sess)@),
        old(sess)@.well_formed() ==> final(sess)@.well_formed(),
{
    if matches!(sess.state, State::Handshaking) && !sess.tls.is_handshaking() {
        let _ = sess.finalize_keys();
    }
}

/// How the exchange of a rekey ends.
pub ghost enum RekeyOutcome {
    /// There is nothing to be done for now.
    Waiting,
    /// New keys are installed and the server's packet is queued.
    Replied,
    /// The client's packet is refused.
    Failed(ServerError),
}

/// The session with the keys of the client's packet in a rekey, which took `n`
/// bytes.
pub open spec fn with_rekeyed(s: SessionView, km: ClientKeyView, n: int, sent: bool) -> SessionView {
    let rk = s.rekey->0;
    let keys = s.derived(
        km.pre_master,
        km.random1,
        rk.server_random1,
        km.random2,
        rk.server_random2,
    );
    SessionView {
        rekey: Some(RekeyView { tls: consumed(rk.tls, n), key_method_sent: sent, ..rk }),
        ..s.with_next_slot(fresh_slot(rk.key_id, keys))
    }
}

/// The exchange of a rekey with the plaintext that has arrived: the client's
/// `key-method 2` packet gives new keys, which are installed beside the old
/// ones, and the server's own packet is queued.
pub open spec fn rekey_step(s: SessionView) -> (SessionView, RekeyOutcome) {
    match s.rekey {
        Some(rk) => if rk.state == RekeyState::KeyExchange {
            match client_key_of(rk.tls.plaintext) {
                Err(e) => (s, RekeyOutcome::Failed(ServerError::Control(e))),
                Ok(None) => (s, RekeyOutcome::Waiting),
                Ok(Some((km, n))) => (
                    with_rekeyed(
                        s,
                        km,
                        n,
                        true,
                    ),
                    RekeyOutcome::Replied,
                ),
            }
        } else {
            (s, RekeyOutcome::Waiting)
        },
        None => (s, RekeyOutcome::Waiting),
    }
}

/// The session with the rekey on another connection.
pub open spec fn with_rekey_conn(s: SessionView, tls: TlsView) -> SessionView {
    match s.rekey {
        Some(rk) => SessionView {
            rekey: Some(RekeyView { tls: TlsView { conn: tls.conn, ..rk.tls }, ..rk }),
            ..s
        },
        None => s,
    }
}

/// The server's `key-method 2` packet in a rekey.
pub open spec fn rekey_reply(s: SessionView, cfg: ServerConfig) -> Seq<u8> {
    key_method_reply(cfg, s.rekey->0.server_random1, s.rekey->0.server_random2)
}

/// Whether the exchange of a rekey leads from one session to another, with the
/// given result. It fails for want of room only where the connection does not
/// accept the server's packet.
pub open spec fn rekey_driven(
    s: SessionView,
    cfg: ServerConfig,
    after: SessionView,
    r: Result<(), ServerError>,
) -> bool {
    let (next, outcome) = rekey_step(s);
    (s.rekey is Some ==> after.rekey is Some && only_queued(
        s.rekey->0.tls.conn,
        after.rekey->0.tls.conn,
    )) && match r {
        Ok(()) => match outcome {
            RekeyOutcome::Waiting => after == s,
            RekeyOutcome::Replied => after == with_rekey_conn(next, after.rekey->0.tls)
                && tls_accepts(s.rekey->0.tls.conn, rekey_reply(s, cfg).len()) && tls_queued(
                after.rekey->0.tls.conn,
            ) == tls_queued(s.rekey->0.tls.conn) + rekey_reply(s, cfg),
            RekeyOutcome::Failed(_) => false,
        },
        Err(ServerError::Tls(e)) => e == TlsError::WriteAll && outcome is Replied && !tls_accepts(
            s.rekey->0.tls.conn,
            rekey_reply(s, cfg).len(),
        ) && queued_in_part(
            tls_queued(s.rekey->0.tls.conn),
            rekey_reply(s, cfg),
            after.rekey->0.tls.conn,
        ) && ({
            let (km, n) = client_key_of(s.rekey->0.tls.plaintext)->Ok_0->0;
            after == with_rekey_conn(
                with_rekeyed(s, km, n, s.rekey->0.key_method_sent),
                after.rekey->0.tls,
            )
        }),
        Err(e) => outcome == RekeyOutcome::Failed(e) && after == s,
    }
}

/// Reacts to the plaintext that a client has sent in a rekey.
pub fn drive_rekey_control_plane(sess: &mut Session, cfg: &ServerConfig) -> (r: Result<
    (),
    ServerError,
>)
    requires
        old(sess)@.well_formed(),
    ensures
        final(sess)@.well_formed(),
        rekey_driven(old(sess)@, *cfg, final(sess)@, r),
{
    let (km, n, key_id, random1, random2) = match &sess.rekey {
        None => return Ok(()),
        Some(rk) => {
            if !matches!(rk.state, RekeyState::KeyExchange) {
                return Ok(());
            }
            match ClientKeyMethod2::try_parse(rk.tls.plaintext_in.as_slice()) {
                Err(e) => return Err(ServerError::Control(e)),
                Ok(Pop::NeedMore) => return Ok(()),
                Ok(Pop::Ready(km, n)) => (km, n, rk.key_id, rk.server_random1, rk.server_random2),
            }
        },
    };
    let slot = sess.derive_slot(
        key_id,
        &km.pre_master,
        &km.random1,
        &random1,
        &km.random2,
        &random2,
    );
    sess.install_slot(slot);
    let reply: Vec<u8> = build_key_method_reply(cfg, &random1, &random2);
    match &mut sess.rekey {
        None => Ok(()),
        Some(rk) => {
            rk.tls.consume(n);
            match rk.tls.send_plaintext(reply.as_slice()) {
                Ok(()) => {
                    rk.key_method_sent = true;
                    Ok(())
                },
                Err(e) => Err(ServerError::Tls(e)),
            }
        },
    }
}

/// The rekey once its TLS connection was fed: if that completed the handshake,
/// the client's `key-method 2` packet is due.
pub open spec fn after_rekey_feed(rk: RekeyView) -> RekeyView {
    if rk.state == RekeyState::Handshaking && !tls_handshaking(rk.tls.conn) {
        RekeyView { state: RekeyState::KeyExchange, ..rk }
    } else {
        rk
    }
}

/// Takes the TLS payload of a control packet of a rekey, and reacts to what it
/// brings. Without a rekey nothing happens.
pub fn receive_rekey(sess: &mut Session, cfg: &ServerConfig, payload: &[u8]) -> (r: Result<
    (),
    ServerError,
>)
    requires
        old(sess)@.well_formed(),
    ensures
        final(sess)@.well_formed(),
        match old(sess)@.rekey {
            None => r is Ok && final(sess)@ == old(sess)@,
            Some(rk) => match r {
                Err(ServerError::Tls(e)) if e != TlsError::WriteAll => refused(
                    rk.tls.conn,
                    payload@,
                    final(sess)@.rekey->0.tls.conn,
                    e,
                ) && final(sess)@ == with_rekey_conn(old(sess)@, final(sess)@.rekey->0.tls),
                _ => exists|fed: TlsView| #[trigger]
                    took_in(rk.tls, payload@, fed) && final(sess)@.rekey is Some && only_queued(
                        fed.conn,
                        final(sess)@.rekey->0.tls.conn,
                    ) && rekey_driven(
                        SessionView {
                            rekey: Some(after_rekey_feed(RekeyView { tls: fed, ..rk })),
                            ..old(sess)@
                        },
                        *cfg,
                        final(sess)@,
                        r,
                    ),
            },
        },
{
    match &mut sess.rekey {
        None => return Ok(()),
        Some(rk) => {
            match rk.tls.feed(payload) {
                Ok(()) => {},
                Err(e) => return Err(ServerError::Tls(e)),
            }
            if matches!(rk.state, RekeyState::Handshaking) && !rk.tls.is_handshaking() {
                rk.state = RekeyState::KeyExchange;
            }
        },
    }
    let ghost fed = sess@.rekey->0.tls;
    assert(took_in(old(sess)@.rekey->0.tls, payload@, fed));
    let r = drive_rekey_control_plane(sess, cfg);
    r
}

/// The session after a rekey whose packets are exchanged: data is sent with
/// the new keys, and the clock for the next rekey starts.
pub open spec fn rekey_finished(s: SessionView, now: u64) -> SessionView {
    match s.rekey {
        Some(rk) => if rk.key_method_sent {
            SessionView { rekey: None, last_rekey_at: now, ..s.promoted(rk.key_id) }
        } else {
            s
        },
        None => s,
    }
}

/// Ends a rekey once the server's packet was sent: whether it ended, and if
/// so, whether the new keys were there.
pub fn finish_rekey(sess: &mut Session, now: u64) -> (r: Option<bool>)
    ensures
        final(sess)@ == rekey_finished(old(sess)@, now),
        match old(sess)@.rekey {
            Some(rk) => if rk.key_method_sent {
                r == Some(old(sess)@.slot_of(rk.key_id) is Some)
            } else {
                r is None
            },
            None => r is None,
        },
{
    let key_id: u8 = match &sess.rekey {
        Some(rk) => {
            if !rk.key_method_sent {
                return None;
            }
            rk.key_id
        },
        None => return None,
    };
    let found: bool = sess.promote_slot(key_id);
    sess.rekey = None;
    sess.last_rekey_at = now;
    Some(found)
}

/// How far a session has come.
pub open spec fn rank(state: State) -> int {
    match state {
        State::WaitingHardReset => 0,
        State::Handshaking => 1,
        State::KeyExchange => 2,
        State::PushPending => 3,
        State::Established => 4,
        State::Closed => 5,
    }
}

/// A session never goes back: whatever the client sends, its state stays or
/// moves on, one state at a time.
pub proof fn law_states_advance(p: Plane, cfg: ServerConfig, peer: Endpoint)
    ensures
        rank(p.sess.state) <= rank(p.step(cfg, peer).0.sess.state) <= rank(p.sess.state) + 1,
        rank(p.sess.state) <= rank(p.run(cfg, peer).0.sess.state),
        rank(p.sess.state) <= rank(after_feed(p.sess).state) <= rank(p.sess.state) + 1,
    decreases p.sess.tls.plaintext.len(),
{
    lemma_run_step(p, cfg, peer);
    if p.step(cfg, peer).1 is Again {
        lemma_step_consumes(p, cfg, peer);
        law_states_advance(p.step(cfg, peer).0, cfg, peer);
    }
}

/// Addresses are assigned, and a push reply is queued, only on the step from
/// waiting for the push request to the established session; a step that does
/// not take it changes no address but where it fails for want of one.
pub proof fn law_addresses_on_request_only(p: Plane, cfg: ServerConfig, peer: Endpoint)
    ensures
        p.sess.state != State::PushPending ==> p.step(cfg, peer).0.book == p.book,
        p.step(cfg, peer).0.book != p.book ==> p.step(cfg, peer).0.sess.state == State::Established
            || p.step(cfg, peer).1 is Failed,
        p.sess.state == State::Established || p.sess.state == State::Closed ==> p.run(
            cfg,
            peer,
        ).0.book == p.book && p.run(cfg, peer).0.queued == p.queued,
    decreases p.sess.tls.plaintext.len(),
{
    lemma_run_step(p, cfg, peer);
    if p.step(cfg, peer).1 is Again {
        lemma_step_consumes(p, cfg, peer);
        law_addresses_on_request_only(p.step(cfg, peer).0, cfg, peer);
    }
}

/// The plane with more plaintext.
pub open spec fn with_more(p: Plane, more: Seq<u8>) -> Plane {
    Plane {
        sess: SessionView {
            tls: TlsView { plaintext: p.sess.tls.plaintext + more, ..p.sess.tls },
            ..p.sess
        },
        ..p
    }
}

/// A message that has arrived is the same once more has arrived.
proof fn lemma_ascii_stable(buf: Seq<u8>, more: Seq<u8>)
    requires
        ascii_of(buf) is Some,
    ensures
        ascii_of(buf + more) == ascii_of(buf),
        0 < (ascii_of(buf)->0).1 <= buf.len(),
{
    let all = buf + more;
    buf.index_of_first_ensures(0u8);
    all.index_of_first_ensures(0u8);
    let i = buf.index_of_first(0u8)->0;
    assert(all[i] == 0u8);
    assert(all.contains(0u8));
    let k = all.index_of_first(0u8)->0;
    if k < i {
        assert(buf[k] == all[k]);
    }
    assert(all.take(i) =~= buf.take(i));
}

/// A step that consumes something is the same once more has arrived.
proof fn lemma_step_stable(p: Plane, more: Seq<u8>, cfg: ServerConfig, peer: Endpoint)
    requires
        p.step(cfg, peer).0 != p || !(p.step(cfg, peer).1 is Done),
    ensures
        with_more(p, more).step(cfg, peer).1 == p.step(cfg, peer).1,
        with_more(p, more).step(cfg, peer).0 == with_more(p.step(cfg, peer).0, more),
{
    let buf = p.sess.tls.plaintext;
    match p.sess.state {
        State::KeyExchange => {
            crate::control_channel::law_client_key_stable(buf, more);
            lemma_client_key_len(buf);
            if let Ok(Some((km, n))) = client_key_of(buf) {
                assert((buf + more).skip(n) =~= buf.skip(n) + more);
            }
        },
        State::PushPending | State::Established => {
            lemma_ascii_stable(buf, more);
            let n = (ascii_of(buf)->0).1;
            assert((buf + more).skip(n) =~= buf.skip(n) + more);
        },
        _ => {},
    }
}

/// It does not matter in which pieces the client's messages arrive: reacting
/// to a part, and then to the rest with what the part left over, comes to the
/// same as reacting to all at once.
pub proof fn law_pieces_do_not_matter(p: Plane, more: Seq<u8>, cfg: ServerConfig, peer: Endpoint)
    requires
        p.run(cfg, peer).1 is Ok,
    ensures
        with_more(p.run(cfg, peer).0, more).run(cfg, peer) == with_more(p, more).run(cfg, peer),
    decreases p.sess.tls.plaintext.len(),
{
    let (next, outcome) = p.step(cfg, peer);
    lemma_run_step(p, cfg, peer);
    if outcome is Again {
        lemma_step_consumes(p, cfg, peer);
        lemma_step_stable(p, more, cfg, peer);
        law_pieces_do_not_matter(next, more, cfg, peer);
        lemma_run_step(with_more(p, more), cfg, peer);
    } else if next != p {
        lemma_step_stable(p, more, cfg, peer);
        lemma_run_step(with_more(p, more), cfg, peer);
        lemma_run_step(with_more(next, more), cfg, peer);
    }
}

/// A rekey that has come to its end sends with the new keys; the old ones,
/// under their own id, still open what arrives late.
pub proof fn law_rekey_switches_keys(s: SessionView, now: u64)
    requires
        s.well_formed(),
        rekey_step(s).1 is Replied,
        s.sending() is Some,
        s.sending()->0.key_id != s.rekey->0.key_id,
    ensures
        ({
            let (km, n) = client_key_of(s.rekey->0.tls.plaintext)->Ok_0->0;
            let rk = s.rekey->0;
            let keys = s.derived(
                km.pre_master,
                km.random1,
                rk.server_random1,
                km.random2,
                rk.server_random2,
            );
            let t = rekey_finished(rekey_step(s).0, now);
            &&& t.well_formed()
            &&& t.rekey is None
            &&& t.sending() == Some(fresh_slot(rk.key_id, keys))
            &&& t.slot_of(s.sending()->0.key_id) == Some(s.active)
            &&& t.slots[s.active] == s.sending()
        }),
        rekey_step(s).0.sending() == s.sending(),
{
}

/// The bytes of the push request.
pub open spec fn push_request_bytes() -> Seq<u8> {
    encode_utf8("PUSH_REQUEST"@).push(0u8)
}

/// The push request reads as what it is.
proof fn lemma_push_request(after: Seq<u8>)
    ensures
        ascii_of(push_request_bytes() + after) == Some(
            ("PUSH_REQUEST"@, push_request_bytes().len() as int),
        ),
{
    let text = "PUSH_REQUEST"@;
    reveal_strlit("PUSH_REQUEST");
    vstd::utf8::is_ascii_chars_encode_utf8(text);
    let bytes = encode_utf8(text);
    assert forall|i: int| 0 <= i < bytes.len() implies bytes[i] != 0u8 by {
        assert(bytes[i] == text[i] as u8);
    }
    law_ascii_round_trip(text, after);
}

/// Whether a client has sent its `key-method 2` packet and then asked for its
/// options, on a session that waits for that, and there are addresses for it.
pub open spec fn asks_to_be_served(
    p: Plane,
    km: ClientKeyView,
    cfg: ServerConfig,
    peer: Endpoint,
) -> bool {
    &&& p.sess.state == State::KeyExchange
    &&& p.sess.slots.len() == 2
    &&& 0 <= p.sess.active < 2
    &&& p.sess.sending() is None
    &&& p.sess.tls.plaintext == client_key_bytes(km) + push_request_bytes()
    &&& km.pre_master.len() == 48
    &&& km.random1.len() == 32
    &&& km.random2.len() == 32
    &&& encode_utf8(km.options).len() < 0xffff
    &&& encode_utf8(km.username).len() < 0xffff
    &&& encode_utf8(km.password).len() < 0xffff
    &&& encode_utf8(km.peer_info).len() < 0xffff
    &&& p.book.assigned(fixed_address(p.sess, cfg)) is Ok
    &&& p.book.after_assign(fixed_address(p.sess, cfg), peer).allocated_v6() is Ok
}

/// The server's `key-method 2` packet for a client.
pub open spec fn first_reply(p: Plane, cfg: ServerConfig) -> Seq<u8> {
    key_method_reply(cfg, p.sess.server_random1, p.sess.server_random2)
}

/// The push reply for a client.
pub open spec fn second_reply(p: Plane, cfg: ServerConfig, peer: Endpoint) -> Seq<u8> {
    let fixed = fixed_address(p.sess, cfg);
    let ip = p.book.assigned(fixed)->Ok_0;
    let ip6 = p.book.after_assign(fixed, peer).allocated_v6()->Ok_0;
    encode_utf8(reply_text(cfg, ip, ip6, p.sess.peer_id, extra_routes(p.sess, cfg))).push(0u8)
}

/// Whether a client was served: it is told the server's own packet and then
/// its push reply, with an address that is routed to it, and the session is
/// established on keys that both sides derive from the two packets.
pub open spec fn served(
    p: Plane,
    km: ClientKeyView,
    cfg: ServerConfig,
    peer: Endpoint,
    sess: SessionView,
    book: BookView,
    queued: Seq<u8>,
) -> bool {
    let ip = p.book.assigned(fixed_address(p.sess, cfg))->Ok_0;
    &&& sess.state == State::Established
    &&& sess.assigned_ip == Some(IpAddress::V4(ip))
    &&& book.routes.contains_key(ip as u128)
    &&& book.routes[ip as u128] == peer
    &&& sess.tls.plaintext.len() == 0
    &&& sess.sending() == Some(
        fresh_slot(
            0,
            p.sess.derived(
                km.pre_master,
                km.random1,
                p.sess.server_random1,
                km.random2,
                p.sess.server_random2,
            ),
        ),
    )
    &&& queued == p.queued + first_reply(p, cfg) + second_reply(p, cfg, peer)
}

/// The two steps that serve a client each queue their reply, and a third does
/// nothing.
proof fn lemma_serving_packets(p: Plane, km: ClientKeyView, cfg: ServerConfig, peer: Endpoint)
    requires
        asks_to_be_served(p, km, cfg, peer),
    ensures
        ({
            let q1 = p.step(cfg, peer).0;
            let q2 = q1.step(cfg, peer).0;
            &&& p.step(cfg, peer).1 is Again
            &&& q1.queued == p.queued + first_reply(p, cfg)
            &&& q1.step(cfg, peer).1 is Again
            &&& q2.queued == q1.queued + second_reply(p, cfg, peer)
            &&& q2.step(cfg, peer) == (q2, Outcome::Done)
        }),
{
    let k = client_key_bytes(km);
    let n = k.len() as int;
    law_client_key_round_trip(km, push_request_bytes());
    let q1 = p.step(cfg, peer).0;
    assert(p.step(cfg, peer).1 is Again);
    assert(p.sess.tls.plaintext.skip(n) =~= push_request_bytes());
    assert(q1.sess.tls.plaintext == push_request_bytes());
    lemma_push_request(Seq::empty());
    assert(push_request_bytes() + Seq::<u8>::empty() =~= push_request_bytes());
    let m = push_request_bytes().len() as int;
    assert(push_request_bytes().skip(m) =~= Seq::<u8>::empty());
    let q2 = q1.step(cfg, peer).0;
    assert(q1.step(cfg, peer).1 is Again);
    assert(q2.sess.tls.plaintext == Seq::<u8>::empty());
    Seq::<u8>::empty().index_of_first_ensures(0u8);
    assert(ascii_of(q2.sess.tls.plaintext) is None);
}

/// What the two steps that serve a client have come to.
proof fn lemma_serving_steps(p: Plane, km: ClientKeyView, cfg: ServerConfig, peer: Endpoint)
    requires
        asks_to_be_served(p, km, cfg, peer),
    ensures
        ({
            let q2 = p.step(cfg, peer).0.step(cfg, peer).0;
            served(p, km, cfg, peer, q2.sess, q2.book, q2.queued)
        }),
{
    let n = client_key_bytes(km).len() as int;
    let m = push_request_bytes().len() as int;
    lemma_serving_packets(p, km, cfg, peer);
    law_client_key_round_trip(km, push_request_bytes());
    lemma_push_request(Seq::empty());
    assert(p.sess.tls.plaintext.skip(n) =~= push_request_bytes());
    assert(push_request_bytes() + Seq::<u8>::empty() =~= push_request_bytes());
    assert(push_request_bytes().skip(m) =~= Seq::<u8>::empty());
}

/// A client that sends its `key-method 2` packet and then asks for its options
/// is served.
pub proof fn law_client_is_served(p: Plane, km: ClientKeyView, cfg: ServerConfig, peer: Endpoint)
    requires
        asks_to_be_served(p, km, cfg, peer),
    ensures
        p.run(cfg, peer).1 is Ok,
        served(
            p,
            km,
            cfg,
            peer,
            p.run(cfg, peer).0.sess,
            p.run(cfg, peer).0.book,
            p.run(cfg, peer).0.queued,
        ),
{
    lemma_serving_packets(p, km, cfg, peer);
    lemma_serving_steps(p, km, cfg, peer);
    let q1 = p.step(cfg, peer).0;
    lemma_run_step(p, cfg, peer);
    lemma_run_step(q1, cfg, peer);
    lemma_run_step(q1.step(cfg, peer).0, cfg, peer);
}

/// From the third step on nothing changes.
proof fn lemma_serving_ends(
    p: Plane,
    km: ClientKeyView,
    cfg: ServerConfig,
    peer: Endpoint,
    n: nat,
)
    requires
        asks_to_be_served(p, km, cfg, peer),
        n >= 2,
    ensures
        p.steps(cfg, peer, n) == p.step(cfg, peer).0.step(cfg, peer).0,
    decreases n,
{
    lemma_serving_packets(p, km, cfg, peer);
    if n == 2 {
        reveal_with_fuel(Plane::steps, 3);
    } else {
        lemma_serving_ends(p, km, cfg, peer, (n - 1) as nat);
    }
}

/// The first step is stuck only for want of the first reply.
proof fn lemma_stuck_first(
    p: Plane,
    km: ClientKeyView,
    cfg: ServerConfig,
    peer: Endpoint,
    sess: SessionView,
    book: BookView,
)
    requires
        asks_to_be_served(p, km, cfg, peer),
        p.stuck(cfg, peer, sess, book),
    ensures
        declined(p.sess.tls.conn, p.queued, first_reply(p, cfg), sess.tls.conn),
{
    lemma_serving_packets(p, km, cfg, peer);
    let q1 = p.step(cfg, peer).0;
    assert(q1.queued.skip(p.queued.len() as int) =~= first_reply(p, cfg));
}

/// The second step is stuck only for want of the second reply.
proof fn lemma_stuck_second(
    p: Plane,
    km: ClientKeyView,
    cfg: ServerConfig,
    peer: Endpoint,
    sess: SessionView,
    book: BookView,
)
    requires
        asks_to_be_served(p, km, cfg, peer),
        p.step(cfg, peer).0.stuck(cfg, peer, sess, book),
    ensures
        declined(
            p.sess.tls.conn,
            p.queued + first_reply(p, cfg),
            second_reply(p, cfg, peer),
            sess.tls.conn,
        ),
{
    lemma_serving_packets(p, km, cfg, peer);
    lemma_step_keeps_conn(p, cfg, peer);
    let q1 = p.step(cfg, peer).0;
    let q2 = q1.step(cfg, peer).0;
    assert(q2.queued.skip(q1.queued.len() as int) =~= second_reply(p, cfg, peer));
}

/// Where reacting to such a client is stuck, one of the two replies was not
/// accepted.
proof fn lemma_stuck_serving(
    p: Plane,
    km: ClientKeyView,
    cfg: ServerConfig,
    peer: Endpoint,
    n: nat,
    sess: SessionView,
    book: BookView,
)
    requires
        asks_to_be_served(p, km, cfg, peer),
        p.steps(cfg, peer, n).stuck(cfg, peer, sess, book),
    ensures
        ({
            ||| declined(p.sess.tls.conn, p.queued, first_reply(p, cfg), sess.tls.conn)
            ||| declined(
                p.sess.tls.conn,
                p.queued + first_reply(p, cfg),
                second_reply(p, cfg, peer),
                sess.tls.conn,
            )
        }),
{
    if n == 0 {
        lemma_stuck_first(p, km, cfg, peer, sess, book);
    } else if n == 1 {
        assert(p.steps(cfg, peer, 0) == p);
        lemma_stuck_second(p, km, cfg, peer, sess, book);
    } else {
        lemma_serving_packets(p, km, cfg, peer);
        lemma_serving_ends(p, km, cfg, peer, n);
    }
}

/// Whatever comes of reacting to such a client, it is served, unless its
/// connection, with nothing but the replies so far queued on top of what was,
/// does not accept the next reply.
pub proof fn law_served_unless_declined(
    sess: SessionView,
    book: BookView,
    km: ClientKeyView,
    cfg: ServerConfig,
    peer: Endpoint,
    sess_after: SessionView,
    book_after: BookView,
    r: Result<(), ServerError>,
)
    requires
        asks_to_be_served(plane_of(sess, book), km, cfg, peer),
        driven(sess, book, cfg, peer, sess_after, book_after, r),
    ensures
        ({
            let p = plane_of(sess, book);
            ||| r is Ok && served(
                p,
                km,
                cfg,
                peer,
                sess_after,
                book_after,
                tls_queued(sess_after.tls.conn),
            )
            ||| declined(sess.tls.conn, p.queued, first_reply(p, cfg), sess_after.tls.conn)
            ||| declined(
                sess.tls.conn,
                p.queued + first_reply(p, cfg),
                second_reply(p, cfg, peer),
                sess_after.tls.conn,
            )
        }),
{
    let p = plane_of(sess, book);
    match r {
        Err(ServerError::Tls(e)) => {
            let n = choose|n: nat| #[trigger]
                p.steps(cfg, peer, n).stuck(cfg, peer, sess_after, book_after);
            lemma_stuck_serving(p, km, cfg, peer, n, sess_after, book_after);
        },
        _ => law_client_is_served(p, km, cfg, peer),
    }
}

/// The server's packet holds the random values that the keys are derived from,
/// no user name and no password, and sizes of which the link's is 42 bytes
/// above the tunnel's, or the largest there is.
pub proof fn law_server_packet(cfg: ServerConfig, random1: Seq<u8>, random2: Seq<u8>, link: u16)
    requires
        random1.len() == 32,
        random2.len() == 32,
        link == if cfg.tun_mtu + 42 > u16::MAX {
            u16::MAX as int
        } else {
            cfg.tun_mtu + 42
        },
    ensures
        key_method_reply(cfg, random1, random2) == server_key_bytes(
            random1,
            random2,
            options_text(link, cfg.tun_mtu),
            Seq::empty(),
            Seq::empty(),
            peer_info_text(),
        ),
        key_method_reply(cfg, random1, random2).subrange(5, 37) == random1,
        key_method_reply(cfg, random1, random2).subrange(37, 69) == random2,
{
    reveal_strlit("");
    assert(""@ =~= Seq::<char>::empty());
    let r = key_method_reply(cfg, random1, random2);
    assert(r.subrange(5, 37) =~= random1);
    assert(r.subrange(37, 69) =~= random2);
}

/// A session that waits for the client's packet takes it as soon as it is all
/// there: its values are kept, the bytes that it took are gone and no others,
/// keys are derived from it and the server's own values and are sent with, and
/// the server's packet is queued behind what is queued; the push request is
/// due. Until then nothing changes, and a packet that is refused changes
/// nothing.
pub proof fn law_key_exchange(p: Plane, cfg: ServerConfig, peer: Endpoint)
    requires
        p.sess.state is KeyExchange,
        p.sess.slots.len() == 2,
        0 <= p.sess.active < 2,
        p.sess.slots[p.sess.active] is None,
    ensures
        client_key_of(p.sess.tls.plaintext) matches Err(e) ==> p.step(cfg, peer) == (
            p,
            Outcome::Failed(ServerError::Control(e)),
        ),
        client_key_of(p.sess.tls.plaintext) == Ok::<Option<(ClientKeyView, int)>, ControlError>(
            None,
        ) ==> p.step(cfg, peer) == (p, Outcome::Done),
        client_key_of(p.sess.tls.plaintext) matches Ok(Some((km, n))) ==> {
            let q = p.step(cfg, peer).0;
            let keys = key_data(
                km.pre_master,
                km.random1,
                p.sess.server_random1,
                km.random2,
                p.sess.server_random2,
                be_bytes(p.sess.client_session_id as nat, 8),
                be_bytes(p.sess.server_session_id as nat, 8),
            );
            &&& p.step(cfg, peer).1 is Again
            &&& q.book == p.book
            &&& q.queued == p.queued + key_method_reply(
                cfg,
                p.sess.server_random1,
                p.sess.server_random2,
            )
            &&& q.sess == (SessionView {
                state: State::PushPending,
                tls: TlsView { plaintext: p.sess.tls.plaintext.skip(n), ..p.sess.tls },
                client_pre_master: Some(km.pre_master),
                client_random1: Some(km.random1),
                client_random2: Some(km.random2),
                client_options: Some(km.options),
                client_peer_info: Some(km.peer_info),
                slots: q.sess.slots,
                active: 0,
                ..p.sess
            })
            &&& q.sess.slots.len() == 2 && q.sess.slots[1] == p.sess.slots[1]
            &&& q.sess.slots[0] matches Some(slot) && {
                &&& slot.key_id == 0 && slot.data_pid_out == 1
                &&& slot.cipher.dec_key == keys.subrange(0, 32)
                &&& slot.cipher.dec_iv == keys.subrange(64, 72)
                &&& slot.cipher.enc_key == keys.subrange(128, 160)
                &&& slot.cipher.enc_iv == keys.subrange(192, 200)
            }
        },
{
    if let Ok(Some((km, n))) = client_key_of(p.sess.tls.plaintext) {
        let s = SessionView {
            tls: consumed(p.sess.tls, n),
            client_pre_master: Some(km.pre_master),
            client_random1: Some(km.random1),
            client_random2: Some(km.random2),
            client_options: Some(km.options),
            client_peer_info: Some(km.peer_info),
            ..p.sess
        };
        crate::session::law_exchanged_keys(s, 0, 0);
    }
}

/// A push request is answered with what is configured for the client that
/// makes it. The entry under its name, `client_configs[i]`, counts as a whole:
/// the reply tells it all of that entry's routes, beside the server's, whether
/// or not the entry has an address; and it gets that entry's address, or one
/// from the pool where the entry has none, whatever its routes. The addresses
/// are routed to it, the reply is queued behind what is queued, the bytes of
/// the request are gone, and the session is established.
pub proof fn law_client_entry_applies(
    p: Plane,
    cfg: ServerConfig,
    peer: Endpoint,
    cn: Seq<char>,
    i: int,
    rest: Seq<u8>,
    k: int,
)
    requires
        p.sess.state is PushPending,
        p.sess.tls.plaintext == encode_utf8("PUSH_REQUEST"@).push(0u8) + rest,
        p.sess.client_cn == Some(cn),
        0 <= i < cfg.client_configs@.len(),
        cfg.client_configs@[i].0@ == cn,
        forall|j: int| 0 <= j < i ==> (#[trigger] cfg.client_configs@[j]).0@ != cn,
    ensures
        ({
            let entry = cfg.client_configs@[i].1;
            let (q, outcome) = p.step(cfg, peer);
            let book = p.book.after_assign(entry.assign_ip, peer);
            &&& p.book.assigned(entry.assign_ip) matches Err(e) ==> outcome == Outcome::Failed(
                ServerError::Address(e),
            ) && q.queued == p.queued && q.sess.state is PushPending
            &&& p.book.assigned(entry.assign_ip) is Ok ==> (book.allocated_v6() matches Err(e)
                ==> outcome == Outcome::Failed(ServerError::Address(e)) && q.queued == p.queued
                && q.sess.state is PushPending)
            &&& p.book.assigned(entry.assign_ip) matches Ok(ip) ==> (book.allocated_v6() matches Ok(
                ip6,
            ) ==> {
                let reply = reply_text(cfg, ip, ip6, p.sess.peer_id, entry.push_routes@);
                &&& outcome is Again
                &&& q.queued == p.queued + encode_utf8(reply).push(0u8)
                &&& q.book == book.after_assign_v6(peer)
                &&& q.sess == (SessionView {
                    state: State::Established,
                    tls: TlsView { plaintext: rest, ..p.sess.tls },
                    assigned_ip: Some(IpAddress::V4(ip)),
                    assigned_ip_v6: if ip6 is Some {
                        ip6
                    } else {
                        p.sess.assigned_ip_v6
                    },
                    ..p.sess
                })
                &&& 0 <= k < entry.push_routes@.len() && entry.push_routes@[k]@ != "0.0.0.0/0"@ ==> (
                route_of(entry.push_routes@[k]@) matches Some((net, mask)) ==> mentions(
                    reply,
                    ",route "@ + net + " "@ + ipv4_text(mask),
                ))
            })
        }),
{
    let entry = cfg.client_configs@[i].1;
    crate::config::law_first_entry_counts(cfg.client_configs@, cn, i);
    lemma_push_request(rest);
    let n = push_request_bytes().len() as int;
    assert(p.sess.tls.plaintext.skip(n) =~= rest);
    if let Ok(ip) = p.book.assigned(entry.assign_ip) {
        let book = p.book.after_assign(entry.assign_ip, peer);
        if let Ok(ip6) = book.allocated_v6() {
            law_every_route_is_told(cfg, ip, ip6, p.sess.peer_id, entry.push_routes@, k);
        }
    }
}

/// A client without a name, or without an entry under it, gets an address from
/// the pool, and is told the server's routes alone.
pub proof fn law_client_without_entry(p: Plane, cfg: ServerConfig, peer: Endpoint, rest: Seq<u8>)
    requires
        p.sess.state is PushPending,
        p.sess.tls.plaintext == encode_utf8("PUSH_REQUEST"@).push(0u8) + rest,
        p.sess.client_cn matches Some(cn) ==> forall|j: int|
            0 <= j < cfg.client_configs@.len() ==> (#[trigger] cfg.client_configs@[j]).0@ != cn,
    ensures
        ({
            let (q, outcome) = p.step(cfg, peer);
            let book = p.book.after_assign(None, peer);
            &&& p.book.assigned(None) matches Err(e) ==> outcome == Outcome::Failed(
                ServerError::Address(e),
            ) && q.queued == p.queued && q.sess.state is PushPending
            &&& p.book.assigned(None) matches Ok(ip) ==> (book.allocated_v6() matches Ok(ip6) ==> {
                &&& outcome is Again
                &&& q.queued == p.queued + encode_utf8(
                    reply_text(cfg, ip, ip6, p.sess.peer_id, Seq::empty()),
                ).push(0u8)
                &&& q.book == book.after_assign_v6(peer)
                &&& q.sess.state is Established
                &&& q.sess.assigned_ip == Some(IpAddress::V4(ip))
                &&& ip6 is Some ==> q.sess.assigned_ip_v6 == ip6
                &&& q.sess.tls.plaintext == rest
            })
        }),
{
    if let Some(cn) = p.sess.client_cn {
        crate::config::law_first_entry_counts(cfg.client_configs@, cn, 0);
    }
    lemma_push_request(rest);
    let n = push_request_bytes().len() as int;
    assert(p.sess.tls.plaintext.skip(n) =~= rest);
}

/// Any other message in front of the push request is passed over: its bytes
/// are gone, and nothing else changes. So is every message on an established
/// session, but for `EXIT` and one that starts with `CC_EXIT`, which close it.
/// Without a whole message nothing happens, and in the other states messages
/// wait.
pub proof fn law_messages(p: Plane, cfg: ServerConfig, peer: Endpoint, msg: Seq<char>, n: int)
    requires
        ascii_of(p.sess.tls.plaintext) == Some((msg, n)),
    ensures
        ({
            let passed = Plane {
                sess: SessionView {
                    tls: TlsView { plaintext: p.sess.tls.plaintext.skip(n), ..p.sess.tls },
                    ..p.sess
                },
                ..p
            };
            let closed = Plane {
                sess: SessionView { state: State::Closed, ..passed.sess },
                ..p
            };
            let leaves = msg == "EXIT"@ || (msg.len() >= 7 && msg.take(7) == "CC_EXIT"@);
            &&& p.sess.state is PushPending && msg != "PUSH_REQUEST"@ ==> p.step(cfg, peer) == (
                passed,
                Outcome::Again,
            )
            &&& p.sess.state is Established ==> p.step(cfg, peer) == if leaves {
                (closed, Outcome::Done)
            } else {
                (passed, Outcome::Again)
            }
            &&& p.sess.state is WaitingHardReset || p.sess.state is Handshaking
                || p.sess.state is Closed ==> p.step(cfg, peer) == (p, Outcome::Done)
        }),
{
    reveal_strlit("CC_EXIT");
    if "CC_EXIT"@.is_prefix_of(msg) {
        assert(msg.take(7) =~= msg.subrange(0, 7));
    }
    if msg.len() >= 7 && msg.take(7) == "CC_EXIT"@ {
        assert(msg.subrange(0, 7) =~= msg.take(7));
    }
}

/// Without a whole message nothing happens.
pub proof fn law_no_message(p: Plane, cfg: ServerConfig, peer: Endpoint)
    requires
        !p.sess.tls.plaintext.contains(0u8),
        p.sess.state is PushPending || p.sess.state is Established,
    ensures
        p.step(cfg, peer) == (p, Outcome::Done),
{
    crate::control_channel::law_message_ends_at_first_nul(p.sess.tls.plaintext);
}

/// Once its handshake is over, and not before, a connection moves on to the
/// client's packet, and only if it was at the handshake; the name in the
/// client's certificate is noted on the main one.
pub proof fn law_handshake_over(s: SessionView, rk: RekeyView)
    ensures
        s.state is Handshaking && !tls_handshaking(s.tls.conn) ==> after_feed(s)
            == s.after_handshake(s.peer_common_name()),
        !(s.state is Handshaking) || tls_handshaking(s.tls.conn) ==> after_feed(s) == s,
        rk.state is Handshaking && !tls_handshaking(rk.tls.conn) ==> after_rekey_feed(rk) == (
        RekeyView { state: RekeyState::KeyExchange, ..rk }),
        !(rk.state is Handshaking) || tls_handshaking(rk.tls.conn) ==> after_rekey_feed(rk) == rk,
{
}

/// A rekey whose handshake is over takes the client's packet as soon as it is
/// all there: new keys are derived from it, the rekey's own values of the
/// server and both session ids, and are put under the rekey's id beside the
/// keys in use, which are still sent with; the bytes of the packet are gone.
/// Until then nothing changes, nor for a packet that is refused, nor without a
/// rekey.
pub proof fn law_rekey_exchange(s: SessionView)
    requires
        s.slots.len() == 2,
        0 <= s.active < 2,
    ensures
        s.rekey is None || s.rekey->0.state is Handshaking ==> rekey_step(s) == (
            s,
            RekeyOutcome::Waiting,
        ),
        s.rekey matches Some(rk) ==> rk.state is KeyExchange ==> (match client_key_of(
            rk.tls.plaintext,
        ) {
            Err(e) => rekey_step(s) == (s, RekeyOutcome::Failed(ServerError::Control(e))),
            Ok(None) => rekey_step(s) == (s, RekeyOutcome::Waiting),
            Ok(Some((km, n))) => {
                let t = rekey_step(s).0;
                let keys = key_data(
                    km.pre_master,
                    km.random1,
                    rk.server_random1,
                    km.random2,
                    rk.server_random2,
                    be_bytes(s.client_session_id as nat, 8),
                    be_bytes(s.server_session_id as nat, 8),
                );
                &&& rekey_step(s).1 is Replied
                &&& t == (SessionView { slots: t.slots, rekey: t.rekey, ..s })
                &&& t.rekey == Some(
                    RekeyView {
                        tls: TlsView { plaintext: rk.tls.plaintext.skip(n), ..rk.tls },
                        key_method_sent: true,
                        ..rk
                    },
                )
                &&& t.slots.len() == 2 && t.slots[s.active] == s.slots[s.active]
                &&& t.slots[1 - s.active] matches Some(slot) && {
                    &&& slot.key_id == rk.key_id && slot.data_pid_out == 1
                    &&& slot.cipher.dec_key == keys.subrange(0, 32)
                    &&& slot.cipher.dec_iv == keys.subrange(64, 72)
                    &&& slot.cipher.enc_key == keys.subrange(128, 160)
                    &&& slot.cipher.enc_iv == keys.subrange(192, 200)
                }
            },
        }),
{
}

/// A client that sends its packet in a rekey is answered on the rekey's
/// connection with the server's packet, which holds the rekey's values; only a
/// connection that does not accept it stands in the way. A packet that is
/// refused, or not all there, is not answered.
pub proof fn law_rekey_is_answered(
    s: SessionView,
    cfg: ServerConfig,
    after: SessionView,
    r: Result<(), ServerError>,
)
    requires
        rekey_driven(s, cfg, after, r),
        s.rekey is Some,
        s.rekey->0.state is KeyExchange,
    ensures
        ({
            let rk = s.rekey->0;
            let reply = key_method_reply(cfg, rk.server_random1, rk.server_random2);
            &&& client_key_of(rk.tls.plaintext) matches Ok(Some(_)) ==> (if tls_accepts(
                rk.tls.conn,
                reply.len(),
            ) {
                r is Ok && after.rekey is Some && tls_queued(after.rekey->0.tls.conn) == tls_queued(
                    rk.tls.conn,
                ) + reply && after.rekey->0.key_method_sent && after.slots == rekey_step(s).0.slots
            } else {
                r == Err::<(), ServerError>(ServerError::Tls(TlsError::WriteAll))
            })
            &&& client_key_of(rk.tls.plaintext) matches Err(e) ==> r == Err::<(), ServerError>(
                ServerError::Control(e),
            ) && after == s
            &&& client_key_of(rk.tls.plaintext) == Ok::<Option<(ClientKeyView, int)>, ControlError>(
                None,
            ) ==> r is Ok && after == s
        }),
{
}

/// A rekey ends once the server's packet was sent, and not before: data is
/// sent with the keys under its id, the clock for the next one starts, and
/// nothing else changes.
pub proof fn law_rekey_ends(s: SessionView, now: u64)
    requires
        s.well_formed(),
    ensures
        s.rekey is None || !s.rekey->0.key_method_sent ==> rekey_finished(s, now) == s,
        s.rekey matches Some(rk) ==> rk.key_method_sent ==> {
            let t = rekey_finished(s, now);
            &&& t == (SessionView { rekey: None, last_rekey_at: now, active: t.active, ..s })
            &&& (s.slots[0] matches Some(slot) && slot.key_id == rk.key_id) || (s.slots[1] matches Some(
                slot,
            ) && slot.key_id == rk.key_id) ==> (t.sending() matches Some(slot) && slot.key_id
                == rk.key_id)
        },
{
}

/// Reacting goes on until there is nothing left to react to: after it another
/// step changes nothing.
pub proof fn law_run_is_exhaustive(p: Plane, cfg: ServerConfig, peer: Endpoint)
    requires
        p.run(cfg, peer).1 is Ok,
    ensures
        p.run(cfg, peer).0.step(cfg, peer) == (p.run(cfg, peer).0, Outcome::Done),
    decreases p.sess.tls.plaintext.len(),
{
    lemma_run_step(p, cfg, peer);
    if p.step(cfg, peer).1 is Again {
        lemma_step_consumes(p, cfg, peer);
        law_run_is_exhaustive(p.step(cfg, peer).0, cfg, peer);
    }
}

/// Reacting that ends well has come to what all steps come to; what was to be
/// queued was queued, behind what was queued, and nothing else was. Reacting
/// that is refused ends as the steps do.
pub proof fn law_reaction(
    sess: SessionView,
    book: BookView,
    cfg: ServerConfig,
    peer: Endpoint,
    sess_after: SessionView,
    book_after: BookView,
    r: Result<(), ServerError>,
)
    requires
        driven(sess, book, cfg, peer, sess_after, book_after, r),
    ensures
        ({
            let p = Plane { sess, book, queued: tls_queued(sess.tls.conn) };
            let (q, end) = p.run(cfg, peer);
            &&& !(r matches Err(ServerError::Tls(_))) ==> r == end && book_after == q.book
                && tls_queued(sess_after.tls.conn) == q.queued && sess_after == (SessionView {
                tls: TlsView { conn: sess_after.tls.conn, ..q.sess.tls },
                ..q.sess
            })
            &&& r matches Err(ServerError::Tls(e)) ==> e == TlsError::WriteAll
        }),
{
}

} // verus!
