//! Tunnel addresses: the pools, and which client has which address.

use vstd::prelude::*;

use dashmap::DashMap;

use crate::addr::{Endpoint, IpAddress};
use crate::codec::{
    be_bytes, be_value, lemma_be_limits, lemma_be_value_append, lemma_be_value_bound,
    lemma_be_value_digits, lemma_bytes_of_value, read_u32, read_u64,
};
use crate::config::ServerConfig;

verus! {

/// Why no address could be assigned.
#[derive(Debug, Clone, Copy, PartialEq, Eq, Structural)]
pub enum AddressError {
    /// The pool starts at an address that is not IPv4.
    PoolStartNotV4,
    /// The pool ends at an address that is not IPv4.
    PoolEndNotV4,
    /// There is to be IPv6 in the tunnel, but the IPv6 pool is missing or is
    /// not IPv6.
    PoolV6Missing,
    /// Every address of the pool was handed out.
    PoolExhausted,
    /// Every address of the IPv6 pool was handed out.
    PoolV6Exhausted,
    /// The fixed address of a client is in use.
    StaticInUse(u32),
    /// The fixed address of a client is not IPv4.
    StaticNotV4,
}

/// A concurrent map.
#[verifier::external_type_specification]
#[verifier::external_body]
#[verifier::reject_recursive_types(K)]
#[verifier::reject_recursive_types(V)]
#[verifier::reject_recursive_types(S)]
pub struct ExDashMap<K, V, S>(dashmap::DashMap<K, V, S>);

/// The entries of a route table.
pub uninterp spec fn routes_of(m: DashMap<u128, Endpoint>) -> Map<u128, Endpoint>;

/// A route table without entries.
pub open spec fn no_routes() -> Map<u128, Endpoint> {
    Map::empty()
}

/// Calls `dashmap::DashMap::new`: a table without entries.
#[verifier::external_body]
fn routes_new() -> (m: DashMap<u128, Endpoint>)
    ensures
        routes_of(m) == no_routes(),
{
    DashMap::new()
}

/// Calls `dashmap::DashMap::insert`: the key has the value, whatever it had
/// before, and no other entry changes.
#[verifier::external_body]
fn routes_insert(m: &mut DashMap<u128, Endpoint>, key: u128, value: Endpoint)
    ensures
        routes_of(*final(m)) == routes_of(*old(m)).insert(key, value),
{
    m.insert(key, value);
}

/// Calls `dashmap::DashMap::remove`: the key has no value, and no other entry
/// changes.
#[verifier::external_body]
fn routes_remove(m: &mut DashMap<u128, Endpoint>, key: u128)
    ensures
        routes_of(*final(m)) == routes_of(*old(m)).remove(key),
{
    m.remove(&key);
}

/// Calls `dashmap::DashMap::contains_key`: whether the key has a value.
#[verifier::external_body]
fn routes_contains(m: &DashMap<u128, Endpoint>, key: u128) -> (r: bool)
    ensures
        r == routes_of(*m).contains_key(key),
{
    m.contains_key(&key)
}

/// Calls `dashmap::DashMap::get`: the value of the key, if it has one.
#[verifier::external_body]
fn routes_get(m: &DashMap<u128, Endpoint>, key: u128) -> (r: Option<Endpoint>)
    ensures
        r == routes_of(*m).get(key),
{
    m.get(&key).map(|entry| *entry.value())
}

/// The address pools, and the routes to the clients that have addresses.
pub struct AddressBook {
    /// IPv4 addresses in use, each with the client that has it.
    routes: DashMap<u128, Endpoint>,
    /// IPv6 addresses in use.
    routes_v6: DashMap<u128, Endpoint>,
    next_pool_ip: u32,
    pool_end: u32,
    /// Next and last address of the IPv6 pool, if there is one.
    pool_v6: Option<(u128, u128)>,
}

/// What an [`AddressBook`] holds.
#[verifier::ext_equal]
pub ghost struct BookView {
    pub routes: Map<u128, Endpoint>,
    pub routes_v6: Map<u128, Endpoint>,
    pub next: u32,
    pub end: u32,
    pub pool_v6: Option<(u128, u128)>,
}

impl View for AddressBook {
    type V = BookView;

    closed spec fn view(&self) -> BookView {
        BookView {
            routes: routes_of(self.routes),
            routes_v6: routes_of(self.routes_v6),
            next: self.next_pool_ip,
            end: self.pool_end,
            pool_v6: self.pool_v6,
        }
    }
}

/// The address after `ip`; the first one after the last.
pub open spec fn after_v4(ip: u32) -> u32 {
    if ip == u32::MAX {
        0
    } else {
        (ip + 1) as u32
    }
}

/// The address after `ip`; the first one after the last.
pub open spec fn after_v6(ip: u128) -> u128 {
    if ip == u128::MAX {
        0
    } else {
        (ip + 1) as u128
    }
}

/// Where an IP packet is to go.
pub enum Destination {
    V4(u32),
    V6(u128),
    /// Not an IP packet, or shorter than its header.
    Unknown,
}

/// The destination address in the header of an IP packet.
pub open spec fn destination_of(pkt: Seq<u8>) -> Destination {
    if pkt.len() >= 20 && pkt[0] / 16 == 4 {
        Destination::V4(be_value(pkt.subrange(16, 20)) as u32)
    } else if pkt.len() >= 40 && pkt[0] / 16 == 6 {
        Destination::V6(be_value(pkt.subrange(24, 40)) as u128)
    } else {
        Destination::Unknown
    }
}

/// Whether bytes from the data channel are an IP packet, by the version in
/// their first four bits. Clients send other things too, which the TUN device
/// would refuse.
pub open spec fn is_ip(pkt: Seq<u8>) -> bool {
    pkt.len() > 0 && (pkt[0] / 16 == 4 || pkt[0] / 16 == 6)
}

impl BookView {
    /// The next address of the pool.
    pub open spec fn allocated(self) -> Result<u32, AddressError> {
        if self.next > self.end {
            Err(AddressError::PoolExhausted)
        } else {
            Ok(self.next)
        }
    }

    /// The book after an address was asked of the pool.
    pub open spec fn after_allocate(self) -> BookView {
        if self.next > self.end {
            self
        } else {
            BookView { next: after_v4(self.next), ..self }
        }
    }

    /// The next address of the IPv6 pool, if there is one.
    pub open spec fn allocated_v6(self) -> Result<Option<u128>, AddressError> {
        match self.pool_v6 {
            None => Ok(None),
            Some((next, end)) => if next > end {
                Err(AddressError::PoolV6Exhausted)
            } else {
                Ok(Some(next))
            },
        }
    }

    /// The book after an address was asked of the IPv6 pool.
    pub open spec fn after_allocate_v6(self) -> BookView {
        match self.pool_v6 {
            Some((next, end)) if next <= end => BookView {
                pool_v6: Some((after_v6(next), end)),
                ..self
            },
            _ => self,
        }
    }

    /// The address that a client gets: its fixed one, if that is free, else
    /// the next of the pool.
    pub open spec fn assigned(self, fixed: Option<IpAddress>) -> Result<u32, AddressError> {
        match fixed {
            Some(IpAddress::V4(ip)) => if self.routes.contains_key(ip as u128) {
                Err(AddressError::StaticInUse(ip))
            } else {
                Ok(ip)
            },
            Some(IpAddress::V6(_)) => Err(AddressError::StaticNotV4),
            None => self.allocated(),
        }
    }

    /// The book after a client asked for an address.
    pub open spec fn after_assign(self, fixed: Option<IpAddress>, peer: Endpoint) -> BookView {
        let after = if fixed is None {
            self.after_allocate()
        } else {
            self
        };
        match self.assigned(fixed) {
            Ok(ip) => BookView { routes: after.routes.insert(ip as u128, peer), ..after },
            Err(_) => after,
        }
    }

    /// The book after a client asked for an IPv6 address.
    pub open spec fn after_assign_v6(self, peer: Endpoint) -> BookView {
        let after = self.after_allocate_v6();
        match self.allocated_v6() {
            Ok(Some(ip)) => BookView { routes_v6: after.routes_v6.insert(ip, peer), ..after },
            _ => after,
        }
    }

    /// The book after a client's addresses were given back. Addresses of the
    /// pools are not handed out again.
    pub open spec fn after_release(self, v4: Option<IpAddress>, v6: Option<u128>) -> BookView {
        BookView {
            routes: match v4 {
                Some(IpAddress::V4(ip)) => self.routes.remove(ip as u128),
                _ => self.routes,
            },
            routes_v6: match v6 {
                Some(ip) => self.routes_v6.remove(ip),
                None => self.routes_v6,
            },
            ..self
        }
    }

    /// The client that an IP packet is to go to.
    pub open spec fn route(self, pkt: Seq<u8>) -> Option<Endpoint> {
        match destination_of(pkt) {
            Destination::V4(ip) => self.routes.get(ip as u128),
            Destination::V6(ip) => self.routes_v6.get(ip),
            Destination::Unknown => None,
        }
    }

    /// The pools of a configuration, with no address in use.
    pub open spec fn of_config(cfg: ServerConfig) -> Result<BookView, AddressError> {
        if !(cfg.client_pool_start is V4) {
            Err(AddressError::PoolStartNotV4)
        } else if !(cfg.client_pool_end is V4) {
            Err(AddressError::PoolEndNotV4)
        } else {
            let fresh = |pool_v6: Option<(u128, u128)>|
                BookView {
                    routes: no_routes(),
                    routes_v6: no_routes(),
                    next: cfg.client_pool_start->V4_0,
                    end: cfg.client_pool_end->V4_0,
                    pool_v6,
                };
            match (cfg.tun_ip6, cfg.client_pool_start_v6, cfg.client_pool_end_v6) {
                (None, _, _) => Ok(fresh(None)),
                (Some(_), Some(IpAddress::V6(start)), Some(IpAddress::V6(end))) => Ok(
                    fresh(Some((start, end))),
                ),
                _ => Err(AddressError::PoolV6Missing),
            }
        }
    }
}

impl AddressBook {
    /// The pools of a configuration, with no address in use.
    pub fn new(cfg: &ServerConfig) -> (r: Result<Self, AddressError>)
        ensures
            match r {
                Ok(book) => BookView::of_config(*cfg) == Ok::<BookView, AddressError>(book@),
                Err(e) => BookView::of_config(*cfg) == Err::<BookView, AddressError>(e),
            },
            r matches Ok(book) ==> book@.pool_is_free(),
    {
        let next_pool_ip: u32 = match cfg.client_pool_start {
            IpAddress::V4(ip) => ip,
            IpAddress::V6(_) => return Err(AddressError::PoolStartNotV4),
        };
        let pool_end: u32 = match cfg.client_pool_end {
            IpAddress::V4(ip) => ip,
            IpAddress::V6(_) => return Err(AddressError::PoolEndNotV4),
        };
        let pool_v6: Option<(u128, u128)> = match cfg.tun_ip6 {
            None => None,
            Some(_) => match (cfg.client_pool_start_v6, cfg.client_pool_end_v6) {
                (Some(IpAddress::V6(start)), Some(IpAddress::V6(end))) => Some((start, end)),
                _ => return Err(AddressError::PoolV6Missing),
            },
        };
        Ok(
            AddressBook {
                routes: routes_new(),
                routes_v6: routes_new(),
                next_pool_ip,
                pool_end,
                pool_v6,
            },
        )
    }

    /// Takes the next address of the pool.
    pub fn allocate_ip(&mut self) -> (r: Result<u32, AddressError>)
        ensures
            r == old(self)@.allocated(),
            final(self)@ == old(self)@.after_allocate(),
    {
        let ip: u32 = self.next_pool_ip;
        if ip > self.pool_end {
            return Err(AddressError::PoolExhausted);
        }
        self.next_pool_ip = if ip == u32::MAX {
            0
        } else {
            ip + 1
        };
        Ok(ip)
    }

    /// Takes the next address of the IPv6 pool; `None` if there is no such
    /// pool.
    pub fn allocate_ip_v6(&mut self) -> (r: Result<Option<u128>, AddressError>)
        ensures
            r == old(self)@.allocated_v6(),
            final(self)@ == old(self)@.after_allocate_v6(),
    {
        match self.pool_v6 {
            None => Ok(None),
            Some((next, end)) => {
                if next > end {
                    return Err(AddressError::PoolV6Exhausted);
                }
                let after: u128 = if next == u128::MAX {
                    0
                } else {
                    next + 1
                };
                self.pool_v6 = Some((after, end));
                Ok(Some(next))
            },
        }
    }

    /// Gives a client its fixed address, or one from the pool, and routes the
    /// address to it.
    pub fn assign(&mut self, fixed: Option<IpAddress>, peer: Endpoint) -> (r: Result<
        u32,
        AddressError,
    >)
        ensures
            r == old(self)@.assigned(fixed),
            final(self)@ == old(self)@.after_assign(fixed, peer),
    {
        let ip: u32 = match fixed {
            Some(IpAddress::V4(ip)) => {
                if routes_contains(&self.routes, ip as u128) {
                    return Err(AddressError::StaticInUse(ip));
                }
                ip
            },
            Some(IpAddress::V6(_)) => return Err(AddressError::StaticNotV4),
            None => match self.allocate_ip() {
                Ok(ip) => ip,
                Err(e) => return Err(e),
            },
        };
        routes_insert(&mut self.routes, ip as u128, peer);
        Ok(ip)
    }

    /// Gives a client an IPv6 address, if there is a pool, and routes the
    /// address to it.
    pub fn assign_v6(&mut self, peer: Endpoint) -> (r: Result<Option<u128>, AddressError>)
        ensures
            r == old(self)@.allocated_v6(),
            final(self)@ == old(self)@.after_assign_v6(peer),
    {
        match self.allocate_ip_v6() {
            Ok(Some(ip)) => {
                routes_insert(&mut self.routes_v6, ip, peer);
                Ok(Some(ip))
            },
            Ok(None) => Ok(None),
            Err(e) => Err(e),
        }
    }

    /// Takes back the addresses of a client that is gone.
    pub fn release(&mut self, v4: Option<IpAddress>, v6: Option<u128>)
        ensures
            final(self)@ == old(self)@.after_release(v4, v6),
    {
        if let Some(IpAddress::V4(ip)) = v4 {
            routes_remove(&mut self.routes, ip as u128);
        }
        if let Some(ip) = v6 {
            routes_remove(&mut self.routes_v6, ip);
        }
    }

    /// The client that an IP packet from the TUN device is to go to.
    pub fn route(&self, pkt: &[u8]) -> (r: Option<Endpoint>)
        ensures
            r == self@.route(pkt@),
    {
        match destination(pkt) {
            Destination::V4(ip) => routes_get(&self.routes, ip as u128),
            Destination::V6(ip) => routes_get(&self.routes_v6, ip),
            Destination::Unknown => None,
        }
    }
}

/// The destination address in the header of an IP packet.
pub fn destination(pkt: &[u8]) -> (r: Destination)
    ensures
        r == destination_of(pkt@),
{
    let len: usize = pkt.len();
    if len == 0 {
        return Destination::Unknown;
    }
    let version: u8 = pkt[0] / 16;
    if version == 4 && len >= 20 {
        Destination::V4(read_u32(pkt, 16))
    } else if version == 6 && len >= 40 {
        let high: u64 = read_u64(pkt, 24);
        let low: u64 = read_u64(pkt, 32);
        proof {
            lemma_sixteen_bytes(pkt@.subrange(24, 40));
            assert(pkt@.subrange(24, 40).subrange(0, 8) =~= pkt@.subrange(24, 32));
            assert(pkt@.subrange(24, 40).subrange(8, 16) =~= pkt@.subrange(32, 40));
        }
        Destination::V6(high as u128 * 0x1_0000_0000_0000_0000 + low as u128)
    } else {
        Destination::Unknown
    }
}

/// The value of sixteen bytes, from its two halves.
proof fn lemma_sixteen_bytes(s: Seq<u8>)
    requires
        s.len() == 16,
    ensures
        be_value(s) == be_value(s.subrange(0, 8)) * 0x1_0000_0000_0000_0000 + be_value(
            s.subrange(8, 16),
        ),
        be_value(s.subrange(0, 8)) < 0x1_0000_0000_0000_0000,
        be_value(s.subrange(8, 16)) < 0x1_0000_0000_0000_0000,
{
    lemma_be_value_append(s.subrange(0, 8), s.subrange(8, 16));
    assert(s.subrange(0, 8) + s.subrange(8, 16) =~= s);
    lemma_be_limits();
    lemma_be_value_bound(s.subrange(0, 8));
    lemma_be_value_bound(s.subrange(8, 16));
}

/// Whether bytes from the data channel are an IP packet.
pub fn is_ip_packet(pkt: &[u8]) -> (r: bool)
    ensures
        r == is_ip(pkt@),
{
    pkt.len() > 0 && (pkt[0] / 16 == 4 || pkt[0] / 16 == 6)
}

impl BookView {
    /// The book after `n` addresses were asked of the pool.
    pub open spec fn after_allocations(self, n: nat) -> BookView
        decreases n,
    {
        if n == 0 {
            self
        } else {
            self.after_allocations((n - 1) as nat).after_allocate()
        }
    }

    /// The book after `n` addresses were asked of the IPv6 pool.
    pub open spec fn after_allocations_v6(self, n: nat) -> BookView
        decreases n,
    {
        if n == 0 {
            self
        } else {
            self.after_allocations_v6((n - 1) as nat).after_allocate_v6()
        }
    }

    /// Whether no address that the pool still has to give is in use.
    pub open spec fn pool_is_free(self) -> bool {
        forall|ip: u128| #[trigger]
            self.routes.contains_key(ip) ==> !(self.next <= ip <= self.end)
    }
}

/// The pool gives its addresses in order, each once, both ends included, and
/// nothing once they are spent. (Once a pool that ends at the very last address
/// is spent, it starts over from the first one instead.)
pub proof fn law_pool_in_order(book: BookView, n: nat)
    requires
        book.end < u32::MAX || book.next + n <= book.end,
    ensures
        book.after_allocations(n).allocated() == if book.next + n <= book.end {
            Ok::<u32, AddressError>((book.next + n) as u32)
        } else {
            Err::<u32, AddressError>(AddressError::PoolExhausted)
        },
        book.after_allocations(n).end == book.end,
        book.next + n <= book.end ==> book.after_allocations(n).next == book.next + n,
        book.next + n > book.end ==> book.after_allocations(n).next > book.end,
    decreases n,
{
    if n > 0 {
        law_pool_in_order(book, (n - 1) as nat);
    }
}

/// The IPv6 pool gives its addresses in order, each once, both ends included,
/// and nothing once they are spent. (For the very last address
/// the same holds as in the other pool.)
pub proof fn law_pool_v6_in_order(book: BookView, start: u128, end: u128, n: nat)
    requires
        book.pool_v6 == Some((start, end)),
        end < u128::MAX || start + n <= end,
    ensures
        book.after_allocations_v6(n).allocated_v6() == if start + n <= end {
            Ok::<Option<u128>, AddressError>(Some((start + n) as u128))
        } else {
            Err::<Option<u128>, AddressError>(AddressError::PoolV6Exhausted)
        },
        book.after_allocations_v6(n).pool_v6 matches Some((next, last)) && last == end && (start + n
            <= end ==> next == start + n) && (start + n > end ==> next > end),
    decreases n,
{
    if n > 0 {
        law_pool_v6_in_order(book, start, end, (n - 1) as nat);
    }
}

/// Packets to an address go to the client that was given it, and packets to
/// other addresses go where they went before.
pub proof fn law_assigned_is_routed(
    book: BookView,
    fixed: Option<IpAddress>,
    peer: Endpoint,
    pkt: Seq<u8>,
)
    requires
        book.assigned(fixed) is Ok,
    ensures
        book.after_assign(fixed, peer).route(pkt) == if destination_of(pkt) == Destination::V4(
            book.assigned(fixed)->Ok_0,
        ) {
            Some(peer)
        } else {
            book.route(pkt)
        },
{
}

/// The same of IPv6 addresses.
pub proof fn law_assigned_v6_is_routed(book: BookView, peer: Endpoint, pkt: Seq<u8>)
    requires
        book.allocated_v6() matches Ok(Some(_)),
    ensures
        book.after_assign_v6(peer).route(pkt) == if destination_of(pkt) == Destination::V6(
            book.allocated_v6()->Ok_0->0,
        ) {
            Some(peer)
        } else {
            book.route(pkt)
        },
{
}

/// Packets to an address that was given back go nowhere, and packets to other
/// addresses go where they went before.
pub proof fn law_released_is_not_routed(
    book: BookView,
    v4: Option<IpAddress>,
    v6: Option<u128>,
    pkt: Seq<u8>,
)
    ensures
        book.after_release(v4, v6).route(pkt) == (match destination_of(pkt) {
            Destination::V4(ip) if v4 == Some(IpAddress::V4(ip)) => None,
            Destination::V6(ip) if v6 == Some(ip) => None,
            _ => book.route(pkt),
        }),
{
}

/// No two clients have the same address: as long as what the pool still has to
/// give is not in use, an address that is assigned was not in use. The rest of
/// the pool stays free whatever is given back, and whatever is assigned, unless
/// a fixed address lies in it, or the pool starts over.
pub proof fn law_addresses_are_unique(
    book: BookView,
    fixed: Option<IpAddress>,
    peer: Endpoint,
    v4: Option<IpAddress>,
    v6: Option<u128>,
)
    requires
        book.pool_is_free(),
    ensures
        book.assigned(fixed) matches Ok(ip) ==> !book.routes.contains_key(ip as u128),
        book.after_release(v4, v6).pool_is_free(),
        (match fixed {
            Some(IpAddress::V4(ip)) => !(book.next <= ip <= book.end),
            Some(IpAddress::V6(_)) => true,
            None => book.next < u32::MAX,
        }) ==> book.after_assign(fixed, peer).pool_is_free(),
{
}

/// A fixed address that was given back can be assigned again.
pub proof fn law_fixed_address_is_reusable(book: BookView, ip: u32, v6: Option<u128>)
    ensures
        book.after_release(Some(IpAddress::V4(ip)), v6).assigned(Some(IpAddress::V4(ip))) == Ok::<
            u32,
            AddressError,
        >(ip),
{
}

/// The destination of an IP packet is what its header says, whatever its
/// payload: the address in the bytes 16 to 19 of an IPv4 header of twenty
/// bytes, and in the bytes 24 to 39 of an IPv6 header of forty bytes, most
/// significant byte first. Nothing else has a destination: neither a packet
/// that is shorter than its header, nor one of another version.
pub proof fn law_destination(header: Seq<u8>, payload: Seq<u8>)
    ensures
        header.len() >= 20 && header[0] >> 4 == 4 ==> destination_of(header + payload)
            == Destination::V4(
            (header[16] * 0x100_0000 + header[17] * 0x1_0000 + header[18] * 0x100
                + header[19]) as u32,
        ),
        header.len() >= 40 && header[0] >> 4 == 6 ==> (destination_of(header + payload) matches
            Destination::V6(ip) && forall|i: int|
            24 <= i < 40 ==> #[trigger] header[i] == be_bytes(ip as nat, 16)[i - 24]),
        header.len() > 0 && header[0] >> 4 != 4 && header[0] >> 4 != 6 ==> destination_of(
            header + payload,
        ) is Unknown,
        header.len() == 0 ==> destination_of(header) is Unknown,
        header.len() < 20 ==> destination_of(header) is Unknown,
        header.len() < 40 && header[0] >> 4 == 6 ==> destination_of(header) is Unknown,
{
    let pkt = header + payload;
    if header.len() > 0 {
        let v = header[0];
        assert(v >> 4 == v / 16) by (bit_vector);
    }
    if header.len() >= 20 {
        lemma_be_value_digits(pkt.subrange(16, 20));
    }
    if header.len() >= 40 && header[0] >> 4 == 6 {
        let s = pkt.subrange(24, 40);
        lemma_sixteen_bytes(s);
        lemma_bytes_of_value(s);
        let ip = be_value(s) as u128;
        assert forall|i: int| 24 <= i < 40 implies #[trigger] header[i] == be_bytes(
            ip as nat,
            16,
        )[i - 24] by {
            assert(s[i - 24] == pkt[i]);
        }
    }
}

/// Bytes are taken for an IP packet by the version in their first four bits
/// alone: 4 or 6.
pub proof fn law_ip_by_version(first: u8, rest: Seq<u8>)
    ensures
        is_ip(seq![first] + rest) <==> 0x40 <= first < 0x50 || 0x60 <= first < 0x70,
        !is_ip(Seq::empty()),
{
}

/// A client gets its fixed address whenever no packet to it is routed to
/// anybody, and never another one; the pool is neither asked nor changed for
/// it. A client without one gets the next of the pool. What cannot be
/// assigned changes nothing.
pub proof fn law_assignment(book: BookView, ip: u32, ip6: u128, peer: Endpoint, pkt: Seq<u8>)
    requires
        destination_of(pkt) == Destination::V4(ip),
    ensures
        book.assigned(Some(IpAddress::V4(ip))) == if book.route(pkt) is None {
            Ok::<u32, AddressError>(ip)
        } else {
            Err::<u32, AddressError>(AddressError::StaticInUse(ip))
        },
        book.assigned(Some(IpAddress::V6(ip6))) == Err::<u32, AddressError>(
            AddressError::StaticNotV4,
        ),
        book.assigned(None) == if book.next <= book.end {
            Ok::<u32, AddressError>(book.next)
        } else {
            Err::<u32, AddressError>(AddressError::PoolExhausted)
        },
        ({
            let after = book.after_assign(Some(IpAddress::V4(ip)), peer);
            after.next == book.next && after.end == book.end && after.pool_v6 == book.pool_v6
                && after.routes_v6 == book.routes_v6
        }),
        ({
            let after = book.after_assign(None, peer);
            after.end == book.end && after.pool_v6 == book.pool_v6 && after.routes_v6
                == book.routes_v6 && (book.next <= book.end && book.next < u32::MAX ==> after.next
                == book.next + 1)
        }),
        book.assigned(Some(IpAddress::V4(ip))) is Err ==> book.after_assign(
            Some(IpAddress::V4(ip)),
            peer,
        ) == book,
        book.after_assign(Some(IpAddress::V6(ip6)), peer) == book,
        book.next > book.end ==> book.after_assign(None, peer) == book,
{
}

/// The same of IPv6 addresses: they come from their pool alone, and a server
/// without one gives none and goes on.
pub proof fn law_assignment_v6(book: BookView, peer: Endpoint)
    ensures
        book.allocated_v6() == (match book.pool_v6 {
            None => Ok::<Option<u128>, AddressError>(None),
            Some((next, end)) => if next <= end {
                Ok::<Option<u128>, AddressError>(Some(next))
            } else {
                Err::<Option<u128>, AddressError>(AddressError::PoolV6Exhausted)
            },
        }),
        ({
            let after = book.after_assign_v6(peer);
            after.next == book.next && after.end == book.end && after.routes == book.routes
        }),
        !(book.allocated_v6() matches Ok(Some(_))) ==> book.after_assign_v6(peer) == book,
        book.pool_v6 matches Some((next, end)) ==> next <= end && next < u128::MAX
            ==> book.after_assign_v6(peer).pool_v6 == Some(((next + 1) as u128, end)),
{
}

/// Giving addresses back touches no pool: they are not handed out again. Only
/// the routes of the addresses given back go.
pub proof fn law_release_keeps_pools(
    book: BookView,
    v4: Option<IpAddress>,
    v6: Option<u128>,
    k: u128,
)
    ensures
        ({
            let after = book.after_release(v4, v6);
            &&& after.next == book.next && after.end == book.end && after.pool_v6 == book.pool_v6
            &&& after.routes.contains_key(k) <==> book.routes.contains_key(k) && !(v4 matches Some(
                IpAddress::V4(ip),
            ) && ip == k)
            &&& after.routes_v6.contains_key(k) <==> book.routes_v6.contains_key(k) && v6 != Some(k)
        }),
{
}

/// A pool that ends at the last address of all starts over from the first one
/// once it is spent.
pub proof fn law_pool_wraps(book: BookView)
    requires
        book.next == u32::MAX,
        book.end == u32::MAX,
    ensures
        book.allocated() == Ok::<u32, AddressError>(u32::MAX),
        book.after_allocate().allocated() == Ok::<u32, AddressError>(0),
{
}

/// A new book has the pools of the configuration, from the first to the last
/// address, and nothing is routed. There is none exactly if an end of the pool
/// is not IPv4, or there is to be IPv6 in the tunnel and an end of that pool is
/// missing or is not IPv6.
pub proof fn law_new_book(cfg: ServerConfig, pkt: Seq<u8>)
    ensures
        BookView::of_config(cfg) is Ok <==> cfg.client_pool_start is V4 && cfg.client_pool_end is V4
            && (cfg.tun_ip6 is None || (cfg.client_pool_start_v6 matches Some(IpAddress::V6(_))
            && cfg.client_pool_end_v6 matches Some(IpAddress::V6(_)))),
        BookView::of_config(cfg) matches Ok(book) ==> {
            &&& book.route(pkt) is None
            &&& cfg.client_pool_start == IpAddress::V4(book.next)
            &&& cfg.client_pool_end == IpAddress::V4(book.end)
            &&& book.pool_v6 is None <==> cfg.tun_ip6 is None
            &&& book.pool_v6 matches Some((next, end)) ==> cfg.client_pool_start_v6 == Some(
                IpAddress::V6(next),
            ) && cfg.client_pool_end_v6 == Some(IpAddress::V6(end))
        },
        BookView::of_config(cfg) matches Err(e) ==> {
            &&& e == AddressError::PoolStartNotV4 <==> cfg.client_pool_start is V6
            &&& e == AddressError::PoolEndNotV4 <==> cfg.client_pool_start is V4
                && cfg.client_pool_end is V6
            &&& e == AddressError::PoolV6Missing <==> cfg.client_pool_start is V4
                && cfg.client_pool_end is V4
        },
{
}

} // verus!
